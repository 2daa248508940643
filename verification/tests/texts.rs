use video_ingest::path::{is_video_path, tail_of, Span};
use video_ingest::text::{
    chars_of, digits_between, is_digit_char, parse_decimal, prefix_len, string_of,
};

fn decimal(text: &str) -> Option<u32> {
    let v = chars_of(text);
    parse_decimal(&v, 0, v.len())
}

#[test]
fn characters_go_to_a_vector_and_back() {
    let v = chars_of("05M_clip.mp4");
    assert_eq!(v.len(), 12);
    assert_eq!(v[2], 'M');
    assert_eq!(string_of(&v, 0, v.len()), "05M_clip.mp4");
    assert_eq!(string_of(&v, 3, 8), "_clip");
    assert_eq!(string_of(&v, 4, 4), "");
    let w = chars_of("ä€x");
    assert_eq!(w.len(), 3);
    assert_eq!(string_of(&w, 1, 3), "€x");
}

#[test]
fn decimal_numbers_are_read_as_the_standard_library_reads_them() {
    for text in [
        "0", "7", "007", "14", "+14", "4294967295", "+4294967295", "4294967296", "99999999999999999999",
        "", "+", "-", "-1", "-0", "++1", "+-1", "1+", " 1", "1 ", "1_0", "1a", "a", "١", "0x10", "1.0",
    ] {
        assert_eq!(decimal(text), text.parse::<u32>().ok());
    }
    assert_eq!(decimal("007"), Some(7));
    assert_eq!(decimal("4294967295"), Some(u32::MAX));
    assert_eq!(decimal("4294967296"), None);
    assert_eq!(decimal("+"), None);
}

#[test]
fn decimal_numbers_are_read_from_a_part_of_a_text() {
    let v = chars_of("2024031514");
    assert_eq!(parse_decimal(&v, 8, 10), Some(14));
    assert_eq!(parse_decimal(&v, 0, 4), Some(2024));
    assert_eq!(parse_decimal(&v, 4, 4), None);
}

#[test]
fn digits_are_the_ten_ascii_digits() {
    for c in ['0', '5', '9'] {
        assert!(is_digit_char(c));
    }
    for c in ['/', ':', 'a', ' ', '+', '٣'] {
        assert!(!is_digit_char(c));
    }
    let good = chars_of("2024031514_front");
    assert!(digits_between(&good, 0, 10));
    assert!(digits_between(&good, 3, 3));
    assert!(!digits_between(&good, 0, 11));
    let bad = chars_of("20240315 4");
    assert!(digits_between(&bad, 0, 8));
    assert!(!digits_between(&bad, 0, 10));
    assert!(!digits_between(&bad, 8, 9));
    assert!(digits_between(&chars_of(""), 0, 0));
}

#[test]
fn prefix_ends_before_the_first_stop() {
    assert_eq!(prefix_len(&chars_of("05M30S.mp4"), 'M'), 2);
    assert_eq!(prefix_len(&chars_of("M"), 'M'), 0);
    assert_eq!(prefix_len(&chars_of("clip.mp4"), 'M'), 8);
    assert_eq!(prefix_len(&chars_of(""), 'M'), 0);
}

#[test]
fn tail_is_the_last_two_components() {
    let v = chars_of("/media/cam//2024031514/./05M.mp4");
    let tail = tail_of(&v);
    assert_eq!(tail.parent, Some(Span { start: 12, end: 22 }));
    assert_eq!(tail.last, Some(Span { start: 25, end: 32 }));
    let one = tail_of(&chars_of("/clip.mp4"));
    assert_eq!(one.parent, None);
    assert_eq!(one.last, Some(Span { start: 1, end: 9 }));
    let none = tail_of(&chars_of("/./"));
    assert_eq!(none.parent, None);
    assert_eq!(none.last, None);
}

#[test]
fn video_paths_end_in_a_visible_name_with_the_extension() {
    for path in [
        "/cam/2024031514/05M.mp4",
        "05M.mp4",
        "/cam/a.b.mp4",
        "/cam/x.mp4/",
        "/cam/.hidden/x.mp4",
        "/cam/x.mp4/.",
    ] {
        assert!(is_video_path(path, "mp4"));
    }
    for path in [
        "/cam/2024031514/.05M.mp4",
        "/cam/.mp4",
        "/cam/mp4",
        "/cam/xmp4",
        "/cam/x.mp4x",
        "/cam/x.MP4",
        "/cam/x.mp3",
        "/cam/x.mp4/..",
        "/cam/x.mp4/y",
        "",
        "/",
        "..",
    ] {
        assert!(!is_video_path(path, "mp4"));
    }
    assert!(is_video_path("/cam/x.mkv", "mkv"));
    assert!(!is_video_path("/cam/x.mp4", "mkv"));
}
