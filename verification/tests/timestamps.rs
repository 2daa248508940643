use video_ingest::calendar::CalendarDate;
use video_ingest::codec::{
    compose_timestamp, extract_datetime_from_path, read_hour, read_minute, split_location,
    timestamp_of_location, Convention, EncodedLocation, TimestampError,
};

fn stamp(path: &str, convention: Convention) -> Result<String, TimestampError> {
    extract_datetime_from_path(path, convention)
}

fn location(directory: &str, file_name: &str) -> EncodedLocation {
    EncodedLocation { directory: directory.to_string(), file_name: file_name.to_string() }
}

#[test]
fn prefixed_directory_gives_day_hour_and_minute() {
    assert_eq!(
        stamp("/videos/2024031514/05M_clip.mp4", Convention::Prefixed),
        Ok("2024-03-15T14:05:00".to_string())
    );
    assert_eq!(
        timestamp_of_location(&location("2024031514", "05M_clip.mp4"), Convention::Prefixed),
        Ok("2024-03-15T14:05:00".to_string())
    );
}

#[test]
fn combined_directory_gives_day_hour_and_minute() {
    assert_eq!(
        stamp("/videos/2024031514/30Msomething.mp4", Convention::Combined),
        Ok("2024-03-15T14:30:00".to_string())
    );
    assert_eq!(
        timestamp_of_location(&location("2024031514", "30Msomething.mp4"), Convention::Combined),
        Ok("2024-03-15T14:30:00".to_string())
    );
}

#[test]
fn file_name_without_minute_marker_gives_minute_zero() {
    assert_eq!(
        stamp("/videos/2024031514/clip.mp4", Convention::Prefixed),
        Ok("2024-03-15T14:00:00".to_string())
    );
    assert_eq!(
        stamp("/videos/2024031514/clip.mp4", Convention::Combined),
        Ok("2024-03-15T14:00:00".to_string())
    );
}

#[test]
fn both_conventions_agree_on_ten_digits() {
    for path in [
        "/cam/2024031514/05M30S_1710511530.mp4",
        "/cam/1999123123/59M.mp4",
        "/cam/2000022900/00M.mp4",
        "relative/2024010100/x.mp4",
    ] {
        let a = stamp(path, Convention::Combined);
        let b = stamp(path, Convention::Prefixed);
        assert!(a.is_ok());
        assert_eq!(a, b);
    }
}

#[test]
fn same_path_gives_same_timestamp_each_time() {
    for path in ["/cam/2024031514/05M.mp4", "/cam/bad/05M.mp4", "", "/cam/2024133114/1M.mp4"] {
        for convention in [Convention::Combined, Convention::Prefixed] {
            assert_eq!(stamp(path, convention), stamp(path, convention));
        }
    }
}

#[test]
fn seconds_are_always_zero() {
    assert_eq!(
        stamp("/cam/2024031514/05M59S_1.mp4", Convention::Prefixed),
        Ok("2024-03-15T14:05:00".to_string())
    );
}

#[test]
fn every_hour_and_minute_is_written_with_two_digits() {
    assert_eq!(
        stamp("/cam/2024010100/0M.mp4", Convention::Prefixed),
        Ok("2024-01-01T00:00:00".to_string())
    );
    assert_eq!(
        stamp("/cam/2024120923/9M.mp4", Convention::Prefixed),
        Ok("2024-12-09T23:09:00".to_string())
    );
    assert_eq!(
        stamp("/cam/2024123123/59M.mp4", Convention::Combined),
        Ok("2024-12-31T23:59:00".to_string())
    );
}

#[test]
fn prefixed_convention_reads_only_the_first_ten_characters() {
    assert_eq!(
        stamp("/cam/2024031514_front/05M.mp4", Convention::Prefixed),
        Ok("2024-03-15T14:05:00".to_string())
    );
    assert_eq!(
        stamp("/cam/2024031514_front/05M.mp4", Convention::Combined),
        Err(TimestampError::MalformedDirectory)
    );
}

#[test]
fn path_without_directory_is_refused() {
    for path in ["clip.mp4", "", "/", "/clip.mp4", "./clip.mp4", "../clip.mp4", "//"] {
        assert_eq!(stamp(path, Convention::Prefixed), Err(TimestampError::MissingDirectory));
        assert_eq!(stamp(path, Convention::Combined), Err(TimestampError::MissingDirectory));
    }
}

#[test]
fn path_without_file_name_is_refused() {
    assert_eq!(
        stamp("/cam/2024031514/..", Convention::Prefixed),
        Err(TimestampError::MissingFileName)
    );
    assert_eq!(stamp("a/..", Convention::Combined), Err(TimestampError::MissingFileName));
}

#[test]
fn directory_of_the_wrong_shape_is_refused() {
    for path in [
        "/cam/14/05M.mp4",
        "/cam/20240315/05M.mp4",
        "/cam/202403151/05M.mp4",
        "/cam/20240315 4/05M.mp4",
        "/cam/2024-03-15/05M.mp4",
        "/cam/abcdefgh14/05M.mp4",
        "/cam/2024-3-114/05M.mp4",
        "/cam/20240315ab/05M.mp4",
        "/cam/20240315-1/05M.mp4",
        "/cam/20240315 1/05M.mp4",
        "/cam/x2024031514/05M.mp4",
        "/cam/٢٠٢٤٠٣١٥١٤/05M.mp4",
    ] {
        assert_eq!(stamp(path, Convention::Prefixed), Err(TimestampError::MalformedDirectory));
        assert_eq!(stamp(path, Convention::Combined), Err(TimestampError::MalformedDirectory));
    }
    assert_eq!(
        stamp("/cam/20240315144/05M.mp4", Convention::Combined),
        Err(TimestampError::MalformedDirectory)
    );
}

#[test]
fn signs_and_spaces_are_no_digits() {
    for path in [
        "/v/20240315+5/05M.mp4",
        "/cam/-1 01 0114/05M.mp4",
        "/cam/-999 1 100/05M.mp4",
        "/cam/2024 1 114/05M.mp4",
        "/cam/+202403114/05M.mp4",
        "/cam/ 202403114/05M.mp4",
    ] {
        assert_eq!(stamp(path, Convention::Prefixed), Err(TimestampError::MalformedDirectory));
        assert_eq!(stamp(path, Convention::Combined), Err(TimestampError::MalformedDirectory));
    }
}

#[test]
fn every_timestamp_has_the_same_form() {
    for directory in ["2024031514", "0000010100", "9999123123", "2000022907", "2024031514_front"] {
        for name in ["05M.mp4", "clip.mp4", "59M59S.mp4", "75M.mp4", "+7M.mp4"] {
            let path = format!("/cam/{}/{}", directory, name);
            let text = stamp(&path, Convention::Prefixed).unwrap();
            assert_eq!(text.len(), 19);
            for (i, c) in text.chars().enumerate() {
                match i {
                    4 | 7 => assert_eq!(c, '-'),
                    10 => assert_eq!(c, 'T'),
                    13 | 16 => assert_eq!(c, ':'),
                    _ => assert!(c.is_ascii_digit()),
                }
            }
            assert!(text.ends_with(":00"));
            assert_eq!(&text[0..4], &directory[0..4]);
            assert_eq!(&text[5..7], &directory[4..6]);
            assert_eq!(&text[8..10], &directory[6..8]);
            assert_eq!(&text[11..13], &directory[8..10]);
            assert!(text[14..16].parse::<u32>().unwrap() < 60);
        }
    }
}

#[test]
fn day_that_does_not_exist_is_refused() {
    for path in [
        "/cam/2024133114/05M.mp4",
        "/cam/2023022914/05M.mp4",
        "/cam/2024043114/05M.mp4",
        "/cam/2024000114/05M.mp4",
        "/cam/2024010014/05M.mp4",
        "/cam/1900022914/05M.mp4",
        "/cam/2024023099/05M.mp4",
    ] {
        assert_eq!(stamp(path, Convention::Prefixed), Err(TimestampError::InvalidDate));
        assert_eq!(stamp(path, Convention::Combined), Err(TimestampError::InvalidDate));
    }
}

#[test]
fn leap_days_exist() {
    assert_eq!(
        stamp("/cam/2024022910/05M.mp4", Convention::Combined),
        Ok("2024-02-29T10:05:00".to_string())
    );
    assert_eq!(
        stamp("/cam/2000022910/05M.mp4", Convention::Prefixed),
        Ok("2000-02-29T10:05:00".to_string())
    );
}

#[test]
fn hour_that_is_no_hour_is_refused() {
    for path in ["/cam/2024031524/05M.mp4", "/cam/2024031599/05M.mp4", "/cam/2024031560/05M.mp4"] {
        assert_eq!(stamp(path, Convention::Prefixed), Err(TimestampError::InvalidHour));
        assert_eq!(stamp(path, Convention::Combined), Err(TimestampError::InvalidHour));
    }
    assert_eq!(
        stamp("/cam/2024031523/05M.mp4", Convention::Prefixed),
        Ok("2024-03-15T23:05:00".to_string())
    );
}


#[test]
fn minute_that_cannot_be_read_counts_as_zero() {
    for name in ["M.mp4", "xM.mp4", "5 M.mp4", "-5M.mp4", "05m.mp4", "0x5M.mp4", "99999999999M.mp4"] {
        let path = format!("/cam/2024031514/{}", name);
        assert_eq!(stamp(&path, Convention::Prefixed), Ok("2024-03-15T14:00:00".to_string()));
    }
}

#[test]
fn minute_that_is_no_minute_of_the_hour_counts_as_zero() {
    for name in ["60M.mp4", "75M.mp4", "100M.mp4"] {
        let path = format!("/cam/2024031514/{}", name);
        assert_eq!(stamp(&path, Convention::Prefixed), Ok("2024-03-15T14:00:00".to_string()));
    }
    assert_eq!(
        stamp("/cam/2024031514/59M.mp4", Convention::Prefixed),
        Ok("2024-03-15T14:59:00".to_string())
    );
}

#[test]
fn minute_ends_at_the_first_marker() {
    assert_eq!(read_minute("12M34M.mp4"), 12);
    assert_eq!(read_minute("+7M.mp4"), 7);
    assert_eq!(read_minute("007M.mp4"), 7);
    assert_eq!(read_minute("7"), 7);
    assert_eq!(read_minute(""), 0);
    assert_eq!(read_minute("M7"), 0);
}

#[test]
fn hour_is_read_from_the_ninth_and_tenth_character() {
    assert_eq!(read_hour("2024031514"), Some(14));
    assert_eq!(read_hour("xxxxxxxx00"), Some(0));
    assert_eq!(read_hour("xxxxxxxx23rest"), Some(23));
    assert_eq!(read_hour("xxxxxxxx24"), None);
    assert_eq!(read_hour("xxxxxxxx+5"), None);
    assert_eq!(read_hour("xxxxxxxx 5"), None);
    assert_eq!(read_hour("xxxxxxxx5 "), None);
    assert_eq!(read_hour("xxxxxxxx1"), None);
    assert_eq!(read_hour(""), None);
}

#[test]
fn early_years_are_written_with_four_digits() {
    assert_eq!(
        stamp("/cam/0000010100/05M.mp4", Convention::Combined),
        Ok("0000-01-01T00:05:00".to_string())
    );
    assert_eq!(
        stamp("/cam/0987060512/05M.mp4", Convention::Prefixed),
        Ok("0987-06-05T12:05:00".to_string())
    );
}


#[test]
fn timestamp_is_put_together_from_a_given_day() {
    let day = CalendarDate { year: 2024, month: 3, day: 15 };
    assert_eq!(
        compose_timestamp(Some(day), "2024031514", "05M_clip.mp4"),
        Ok("2024-03-15T14:05:00".to_string())
    );
    assert_eq!(
        compose_timestamp(Some(day), "whatever07..", "x"),
        Ok("2024-03-15T07:00:00".to_string())
    );
    let last = CalendarDate { year: 9999, month: 12, day: 31 };
    assert_eq!(
        compose_timestamp(Some(last), "........23", "59M"),
        Ok("9999-12-31T23:59:00".to_string())
    );
    let first = CalendarDate { year: 0, month: 1, day: 1 };
    assert_eq!(
        compose_timestamp(Some(first), "........00", "1M"),
        Ok("0000-01-01T00:01:00".to_string())
    );
    let early = CalendarDate { year: 76, month: 2, day: 29 };
    assert_eq!(
        compose_timestamp(Some(early), "........09", "9M"),
        Ok("0076-02-29T09:09:00".to_string())
    );
}

#[test]
fn timestamp_is_refused_without_a_day_that_exists() {
    assert_eq!(compose_timestamp(None, "2024031514", "05M.mp4"), Err(TimestampError::InvalidDate));
    for (year, month, day) in [
        (2023, 2, 29),
        (2024, 13, 1),
        (2024, 0, 1),
        (2024, 1, 0),
        (2024, 1, 32),
        (2100, 2, 29),
        (10000, 1, 1),
        (-1, 1, 1),
        (-4, 2, 29),
        (262142, 12, 31),
    ] {
        let date = CalendarDate { year, month, day };
        assert!(!date.is_valid());
        assert_eq!(
            compose_timestamp(Some(date), "2024031514", "05M.mp4"),
            Err(TimestampError::InvalidDate)
        );
    }
    let day = CalendarDate { year: 2024, month: 3, day: 15 };
    assert_eq!(compose_timestamp(Some(day), "short", "05M.mp4"), Err(TimestampError::MalformedDirectory));
    assert_eq!(compose_timestamp(Some(day), "2024031524", "05M.mp4"), Err(TimestampError::InvalidHour));
    assert_eq!(compose_timestamp(Some(day), "20240315+5", "05M.mp4"), Err(TimestampError::InvalidHour));
}

#[test]
fn days_that_exist_are_valid() {
    for (year, month, day) in [
        (2024, 2, 29),
        (2000, 2, 29),
        (0, 2, 29),
        (0, 1, 1),
        (2023, 12, 31),
        (2023, 4, 30),
        (9999, 12, 31),
    ] {
        assert!(CalendarDate { year, month, day }.is_valid());
    }
}

#[test]
fn location_is_the_last_two_components() {
    let loc = split_location("/media/cam//2024031514/./05M.mp4").unwrap();
    assert_eq!(loc.directory, "2024031514");
    assert_eq!(loc.file_name, "05M.mp4");
    let loc = split_location("2024031514/05M.mp4/").unwrap();
    assert_eq!(loc.directory, "2024031514");
    assert_eq!(loc.file_name, "05M.mp4");
    let loc = split_location("a/b").unwrap();
    assert_eq!(loc.directory, "a");
    assert_eq!(loc.file_name, "b");
    assert_eq!(split_location("b").err(), Some(TimestampError::MissingDirectory));
    assert_eq!(split_location("../b").err(), Some(TimestampError::MissingDirectory));
    assert_eq!(split_location("a/..").err(), Some(TimestampError::MissingFileName));
}

#[test]
fn each_error_has_a_sentence_of_its_own() {
    let all = [
        TimestampError::MissingDirectory,
        TimestampError::MissingFileName,
        TimestampError::MalformedDirectory,
        TimestampError::InvalidDate,
        TimestampError::InvalidHour,
    ];
    for (i, a) in all.iter().enumerate() {
        assert!(!a.message().is_empty());
        for b in all.iter().skip(i + 1) {
            assert_ne!(a.message(), b.message());
        }
    }
    assert_eq!(TimestampError::InvalidHour.message(), "the directory name holds no valid hour");
}
