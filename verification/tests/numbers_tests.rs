use clipflow::greet;
use clipflow::numbers::{fmt_i32, fmt_ms, fmt_u64, parse_ms};
use clipflow::sanitize::escape_path;

#[test]
fn decimal_seconds_parse_to_milliseconds() {
    assert_eq!(parse_ms(b"1.0"), Some(1000));
    assert_eq!(parse_ms(b"4.2"), Some(4200));
    assert_eq!(parse_ms(b"0.5"), Some(500));
    assert_eq!(parse_ms(b"12"), Some(12_000));
    assert_eq!(parse_ms(b"0"), Some(0));
    assert_eq!(parse_ms(b".5"), Some(500));
    assert_eq!(parse_ms(b"5."), Some(5000));
}

#[test]
fn extra_fraction_digits_do_not_contribute() {
    assert_eq!(parse_ms(b"1.2345"), Some(1234));
    assert_eq!(parse_ms(b"0.0009"), Some(0));
}

#[test]
fn malformed_seconds_do_not_parse() {
    assert_eq!(parse_ms(b""), None);
    assert_eq!(parse_ms(b"."), None);
    assert_eq!(parse_ms(b"abc"), None);
    assert_eq!(parse_ms(b"-1"), None);
    assert_eq!(parse_ms(b"1.2.3"), None);
    assert_eq!(parse_ms(b"1e3"), None);
    assert_eq!(parse_ms(b"1234567890123456"), None);
}

#[test]
fn milliseconds_format_with_three_fraction_digits() {
    assert_eq!(fmt_ms(2500).as_str(), "2.500");
    assert_eq!(fmt_ms(0).as_str(), "0.000");
    assert_eq!(fmt_ms(10_000).as_str(), "10.000");
    assert_eq!(fmt_ms(4205).as_str(), "4.205");
}

#[test]
fn formatting_round_trips_through_parsing() {
    for ms in [0u64, 1, 999, 1000, 2500, 3480, 86_400_000] {
        assert_eq!(parse_ms(fmt_ms(ms).as_bytes()), Some(ms));
    }
}

#[test]
fn integers_format_in_base_ten() {
    assert_eq!(fmt_u64(0).as_str(), "0");
    assert_eq!(fmt_u64(120).as_str(), "120");
    assert_eq!(fmt_i32(-30).as_str(), "-30");
    assert_eq!(fmt_i32(7).as_str(), "7");
}

#[test]
fn plain_paths_pass_through_untouched() {
    assert_eq!(escape_path("video.mp4").as_str(), "video.mp4");
    assert_eq!(escape_path("/home/u/clip.mov").as_str(), "/home/u/clip.mov");
}

#[test]
fn paths_with_whitespace_get_quoted() {
    assert_eq!(escape_path("my video.mp4").as_str(), "'my video.mp4'");
    assert_eq!(escape_path("a\tb.mp4").as_str(), "'a\tb.mp4'");
    assert_eq!(escape_path("a&b.mp4").as_str(), "'a&b.mp4'");
}

#[test]
fn embedded_quotes_are_escaped() {
    assert_eq!(escape_path("it's.mp4").as_str(), "'it'\\''s.mp4'");
}

#[test]
fn greeting_names_the_caller() {
    assert_eq!(greet("Alice").as_str(), "Hello, Alice! Welcome to ClipFlow.");
}
