//! Timestamps that the names of a recording's directory and file encode.
//!
//! The directory that holds a recording is named after the hour it was made
//! in, `YYYYMMDDHH`, and the recording's own name begins with the minute and
//! the letter `M`. The second is not encoded: it is always 0.

use crate::calendar::{
    digits_date, format_timestamp, is_calendar_date, lemma_four_digits, lemma_two_digits,
    parse_compact_date, timestamp_text, CalendarDate,
};
use crate::path::{
    directory_name_of, file_name_of, holds_parent_link, tail_of,
};
use crate::text::{
    all_digits, chars_of, decimal_u32, decimal_value, digits_between, is_digit, is_digit_char,
    parse_decimal, prefix_before, prefix_len, string_of,
};
use vstd::prelude::*;

verus! {

/// How a directory's name encodes the day and the hour.
#[derive(Clone, Copy, Debug, PartialEq, Eq, Structural)]
pub enum Convention {
    /// The name is the ten digits `YYYYMMDDHH` and nothing else.
    Combined,
    /// The name begins with the ten digits `YYYYMMDDHH`; what follows them
    /// is not read.
    Prefixed,
}

/// Why a path yields no timestamp. None of these goes away by trying again.
#[derive(Clone, Copy, Debug, PartialEq, Eq, Structural)]
pub enum TimestampError {
    /// The path names no directory above its last component.
    MissingDirectory,
    /// The path does not end in a file's name.
    MissingFileName,
    /// The directory's name does not have the shape of the convention.
    MalformedDirectory,
    /// The day in the directory's name does not exist.
    InvalidDate,
    /// The hour in the directory's name is no hour of the day.
    InvalidHour,
}

impl TimestampError {
    /// The sentence that describes the error.
    pub open spec fn message_text(self) -> Seq<char> {
        match self {
            TimestampError::MissingDirectory => "the path names no directory above its file"@,
            TimestampError::MissingFileName => "the path does not end in a file name"@,
            TimestampError::MalformedDirectory => "the directory name is not of the form YYYYMMDDHH"@,
            TimestampError::InvalidDate => "the directory name holds no valid date"@,
            TimestampError::InvalidHour => "the directory name holds no valid hour"@,
        }
    }

    /// A sentence that describes the error.
    pub fn message(&self) -> (s: String)
        ensures
            s@ == self.message_text(),
    {
        match self {
            TimestampError::MissingDirectory => "the path names no directory above its file".to_string(),
            TimestampError::MissingFileName => "the path does not end in a file name".to_string(),
            TimestampError::MalformedDirectory => "the directory name is not of the form YYYYMMDDHH".to_string(),
            TimestampError::InvalidDate => "the directory name holds no valid date".to_string(),
            TimestampError::InvalidHour => "the directory name holds no valid hour".to_string(),
        }
    }
}

/// The two names that a timestamp is read from.
#[derive(Clone, Debug, PartialEq, Eq)]
pub struct EncodedLocation {
    /// The name of the directory that holds the file.
    pub directory: String,
    /// The name of the file.
    pub file_name: String,
}

/// The directory name and the file name of `path`.
pub open spec fn location_of(path: Seq<char>) -> Result<(Seq<char>, Seq<char>), TimestampError> {
    match directory_name_of(path) {
        None => Err(TimestampError::MissingDirectory),
        Some(directory) => match file_name_of(path) {
            None => Err(TimestampError::MissingFileName),
            Some(file_name) => Ok((directory, file_name)),
        },
    }
}

/// A location or an error, with texts as sequences of characters.
pub open spec fn location_view(r: Result<EncodedLocation, TimestampError>) -> Result<
    (Seq<char>, Seq<char>),
    TimestampError,
> {
    match r {
        Ok(location) => Ok((location.directory@, location.file_name@)),
        Err(e) => Err(e),
    }
}

/// A timestamp or an error, with the text as a sequence of characters.
pub open spec fn text_result(r: Result<String, TimestampError>) -> Result<
    Seq<char>,
    TimestampError,
> {
    match r {
        Ok(text) => Ok(text@),
        Err(e) => Err(e),
    }
}

/// Whether a directory's name has the shape that `convention` asks for:
/// ten digits, and under `Combined` nothing after them.
pub open spec fn directory_fits(directory: Seq<char>, convention: Convention) -> bool {
    &&& directory.len() >= 10
    &&& all_digits(directory.subrange(0, 10))
    &&& convention == Convention::Combined ==> directory.len() == 10
}

/// The hour that the ninth and tenth character of a directory's name give:
/// two digits that write a number below 24.
pub open spec fn hour_of(directory: Seq<char>) -> Option<u32>
    recommends
        directory.len() >= 10,
{
    let field = directory.subrange(8, 10);
    if all_digits(field) && decimal_value(field) < 24 {
        Some(decimal_value(field) as u32)
    } else {
        None
    }
}

/// The minute that a file's name gives: the number before its first `M`,
/// and 0 where that text is no number or no minute of the hour.
pub open spec fn minute_of(file_name: Seq<char>) -> u32 {
    match decimal_u32(prefix_before(file_name, 'M')) {
        Some(minute) => if minute < 60 {
            minute
        } else {
            0
        },
        None => 0,
    }
}

/// The timestamp of a recording made on the day `date`, in the hour that
/// its directory's name gives and the minute that its own name gives. The
/// second is 0.
pub open spec fn composed(
    date: Option<(int, int, int)>,
    directory: Seq<char>,
    file_name: Seq<char>,
) -> Result<Seq<char>, TimestampError> {
    if directory.len() < 10 {
        Err(TimestampError::MalformedDirectory)
    } else {
        match date {
            None => Err(TimestampError::InvalidDate),
            Some((year, month, day)) => if !is_calendar_date(year, month, day) {
                Err(TimestampError::InvalidDate)
            } else {
                match hour_of(directory) {
                    None => Err(TimestampError::InvalidHour),
                    Some(hour) => Ok(
                        timestamp_text(
                            year,
                            month,
                            day,
                            hour as int,
                            minute_of(file_name) as int,
                            0,
                        ),
                    ),
                }
            },
        }
    }
}

/// The timestamp that a directory's name and a file's name encode.
pub open spec fn timestamp_of(
    directory: Seq<char>,
    file_name: Seq<char>,
    convention: Convention,
) -> Result<Seq<char>, TimestampError> {
    if !directory_fits(directory, convention) {
        Err(TimestampError::MalformedDirectory)
    } else {
        composed(digits_date(directory.subrange(0, 8)), directory, file_name)
    }
}

/// The timestamp that the last two components of `path` encode.
pub open spec fn timestamp_of_path(path: Seq<char>, convention: Convention) -> Result<
    Seq<char>,
    TimestampError,
> {
    match location_of(path) {
        Err(e) => Err(e),
        Ok((directory, file_name)) => timestamp_of(directory, file_name, convention),
    }
}

/// Whether a directory's name is ten digits that give a day that exists and
/// an hour of the day.
pub open spec fn is_encoded_directory(directory: Seq<char>) -> bool {
    &&& directory.len() == 10
    &&& all_digits(directory)
    &&& digits_date(directory.subrange(0, 8)) is Some
    &&& hour_of(directory) is Some
}

/// The timestamp under a directory named by ten such digits.
pub open spec fn encoded_timestamp(directory: Seq<char>, file_name: Seq<char>) -> Seq<char>
    recommends
        is_encoded_directory(directory),
{
    let date = digits_date(directory.subrange(0, 8))->0;
    timestamp_text(
        date.0,
        date.1,
        date.2,
        hour_of(directory)->0 as int,
        minute_of(file_name) as int,
        0,
    )
}

/// Whether `text` has the form `YYYY-MM-DDTHH:MM:SS` of a timestamp: 19
/// characters, digits between the separators, a day that exists, an hour
/// of the day, a minute of the hour, and the second 0.
pub open spec fn is_timestamp(text: Seq<char>) -> bool {
    &&& text.len() == 19
    &&& text[4] == '-' && text[7] == '-' && text[10] == 'T' && text[13] == ':' && text[16] == ':'
    &&& all_digits(text.subrange(0, 4))
    &&& all_digits(text.subrange(5, 7))
    &&& all_digits(text.subrange(8, 10))
    &&& all_digits(text.subrange(11, 13))
    &&& all_digits(text.subrange(14, 16))
    &&& all_digits(text.subrange(17, 19))
    &&& is_calendar_date(
        decimal_value(text.subrange(0, 4)) as int,
        decimal_value(text.subrange(5, 7)) as int,
        decimal_value(text.subrange(8, 10)) as int,
    )
    &&& decimal_value(text.subrange(11, 13)) < 24
    &&& decimal_value(text.subrange(14, 16)) < 60
    &&& decimal_value(text.subrange(17, 19)) == 0
}

/// Every timestamp that is put together has the form of a timestamp, and
/// holds the day, the hour and the minute that it was made from.
pub proof fn lemma_composed_is_timestamp(
    date: Option<(int, int, int)>,
    directory: Seq<char>,
    file_name: Seq<char>,
)
    ensures
        composed(date, directory, file_name) matches Ok(text) ==> {
            &&& is_timestamp(text)
            &&& date == Some(
                (
                    decimal_value(text.subrange(0, 4)) as int,
                    decimal_value(text.subrange(5, 7)) as int,
                    decimal_value(text.subrange(8, 10)) as int,
                ),
            )
            &&& hour_of(directory) == Some(decimal_value(text.subrange(11, 13)) as u32)
            &&& minute_of(file_name) == decimal_value(text.subrange(14, 16))
        },
{
    if let Ok(text) = composed(date, directory, file_name) {
        let (year, month, day) = date->0;
        let hour = hour_of(directory)->0 as int;
        let minute = minute_of(file_name) as int;
        lemma_four_digits(year);
        lemma_two_digits(month);
        lemma_two_digits(day);
        lemma_two_digits(hour);
        lemma_two_digits(minute);
        lemma_two_digits(0);
        assert(text.subrange(0, 4) =~= crate::calendar::four_digits(year));
        assert(text.subrange(5, 7) =~= crate::calendar::two_digits(month));
        assert(text.subrange(8, 10) =~= crate::calendar::two_digits(day));
        assert(text.subrange(11, 13) =~= crate::calendar::two_digits(hour));
        assert(text.subrange(14, 16) =~= crate::calendar::two_digits(minute));
        assert(text.subrange(17, 19) =~= crate::calendar::two_digits(0));
    }
}

/// Under either convention, a directory named by ten digits that give a
/// day that exists and an hour of the day has a timestamp: that day, that
/// hour, and the minute that the file's name gives.
pub proof fn lemma_encoded_names_have_timestamps(
    directory: Seq<char>,
    file_name: Seq<char>,
    convention: Convention,
)
    requires
        is_encoded_directory(directory),
    ensures
        timestamp_of(directory, file_name, convention) == Ok::<Seq<char>, TimestampError>(
            encoded_timestamp(directory, file_name),
        ),
{
    assert(directory.subrange(0, 10) =~= directory);
}

/// A date as year, month and day, where there is one.
pub open spec fn date_parts(date: Option<CalendarDate>) -> Option<(int, int, int)> {
    match date {
        Some(date) => Some(date.parts()),
        None => None,
    }
}

/// Splits `path` into the name of its file and the name of the directory
/// that holds it.
pub fn split_location(path: &str) -> (r: Result<EncodedLocation, TimestampError>)
    ensures
        location_view(r) == location_of(path@),
{
    let text = chars_of(path);
    let tail = tail_of(&text);
    let parent = match tail.parent {
        Some(span) => span,
        None => {
            return Err(TimestampError::MissingDirectory);
        },
    };
    if holds_parent_link(&text, parent) {
        return Err(TimestampError::MissingDirectory);
    }
    let last = match tail.last {
        Some(span) => span,
        None => {
            return Err(TimestampError::MissingFileName);
        },
    };
    if holds_parent_link(&text, last) {
        return Err(TimestampError::MissingFileName);
    }
    Ok(
        EncodedLocation {
            directory: string_of(&text, parent.start, parent.end),
            file_name: string_of(&text, last.start, last.end),
        },
    )
}

/// Reads the hour from the ninth and tenth character of a directory's name.
pub fn read_hour(directory: &str) -> (hour: Option<u32>)
    ensures
        directory@.len() >= 10 ==> hour == hour_of(directory@),
        directory@.len() < 10 ==> hour is None,
        hour matches Some(h) ==> h < 24,
{
    let text = chars_of(directory);
    if text.len() < 10 {
        return None;
    }
    let ghost field = text@.subrange(8, 10);
    let tens = text[8];
    let ones = text[9];
    assert(field[0] == tens && field[1] == ones);
    if !is_digit_char(tens) || !is_digit_char(ones) {
        return None;
    }
    let hour: u32 = (tens as u32 - '0' as u32) * 10 + (ones as u32 - '0' as u32);
    proof {
        assert(field.drop_last() =~= seq![tens]);
        assert(field.drop_last().drop_last() =~= Seq::<char>::empty());
        reveal_with_fuel(decimal_value, 3);
        assert(decimal_value(field) == hour);
    }
    if hour < 24 {
        Some(hour)
    } else {
        None
    }
}

/// Reads the minute from the beginning of a file's name.
pub fn read_minute(file_name: &str) -> (minute: u32)
    ensures
        minute == minute_of(file_name@),
        minute < 60,
{
    let text = chars_of(file_name);
    let end = prefix_len(&text, 'M');
    assert(text@.subrange(0, end as int) =~= text@.take(end as int));
    match parse_decimal(&text, 0, end) {
        Some(minute) => if minute < 60 {
            minute
        } else {
            0
        },
        None => 0,
    }
}

/// Puts a timestamp together from a day, the hour in the directory's name
/// and the minute in the file's name. A day that does not exist, or lies in
/// a year that four digits do not write, is refused.
pub fn compose_timestamp(date: Option<CalendarDate>, directory: &str, file_name: &str) -> (r:
    Result<String, TimestampError>)
    ensures
        text_result(r) == composed(date_parts(date), directory@, file_name@),
        r matches Ok(text) ==> is_timestamp(text@),
{
    proof {
        lemma_composed_is_timestamp(date_parts(date), directory@, file_name@);
    }
    let text = chars_of(directory);
    if text.len() < 10 {
        return Err(TimestampError::MalformedDirectory);
    }
    let date = match date {
        Some(date) => date,
        None => {
            return Err(TimestampError::InvalidDate);
        },
    };
    if !date.is_valid() {
        return Err(TimestampError::InvalidDate);
    }
    let hour = match read_hour(directory) {
        Some(hour) => hour,
        None => {
            return Err(TimestampError::InvalidHour);
        },
    };
    let minute = read_minute(file_name);
    Ok(format_timestamp(date, hour, minute, 0))
}

/// Derives the timestamp that a directory's name and a file's name encode.
///
/// The result is a function of the two names and the convention alone. A
/// timestamp that comes out has the form `YYYY-MM-DDTHH:MM:00`. Under
/// either convention every directory named by ten digits that give a day
/// that exists and an hour of the day has a timestamp.
pub fn timestamp_of_location(location: &EncodedLocation, convention: Convention) -> (r: Result<
    String,
    TimestampError,
>)
    ensures
        text_result(r) == timestamp_of(location.directory@, location.file_name@, convention),
        r matches Ok(text) ==> is_timestamp(text@),
        is_encoded_directory(location.directory@) ==> text_result(r) == Ok::<
            Seq<char>,
            TimestampError,
        >(encoded_timestamp(location.directory@, location.file_name@)),
{
    let text = chars_of(location.directory.as_str());
    if text.len() < 10 || !digits_between(&text, 0, 10) {
        return Err(TimestampError::MalformedDirectory);
    }
    match convention {
        Convention::Combined => if text.len() != 10 {
            return Err(TimestampError::MalformedDirectory);
        },
        Convention::Prefixed => {},
    }
    let day_text = string_of(&text, 0, 8);
    proof {
        let ten = location.directory@.subrange(0, 10);
        let eight = location.directory@.subrange(0, 8);
        assert forall|i: int| 0 <= i < eight.len() implies is_digit(#[trigger] eight[i]) by {
            assert(eight[i] == ten[i]);
        }
        if is_encoded_directory(location.directory@) {
            lemma_encoded_names_have_timestamps(
                location.directory@,
                location.file_name@,
                convention,
            );
        }
    }
    let date = match parse_compact_date(day_text.as_str()) {
        Ok(date) => Some(date),
        Err(_) => None,
    };
    compose_timestamp(date, location.directory.as_str(), location.file_name.as_str())
}

/// Derives the timestamp that the last two components of `filepath` encode:
/// the name of the file and the name of the directory that holds it.
///
/// The result is a function of the path and the convention alone. A
/// timestamp that comes out has the form `YYYY-MM-DDTHH:MM:00`. Under
/// either convention every path whose directory is named by ten digits that
/// give a day that exists and an hour of the day has a timestamp.
pub fn extract_datetime_from_path(filepath: &str, convention: Convention) -> (r: Result<
    String,
    TimestampError,
>)
    ensures
        text_result(r) == timestamp_of_path(filepath@, convention),
        r matches Ok(text) ==> is_timestamp(text@),
        location_of(filepath@) matches Ok(names) ==> (is_encoded_directory(names.0)
            ==> text_result(r) == Ok::<Seq<char>, TimestampError>(
            encoded_timestamp(names.0, names.1),
        )),
{
    match split_location(filepath) {
        Ok(location) => timestamp_of_location(&location, convention),
        Err(e) => Err(e),
    }
}

} // verus!
