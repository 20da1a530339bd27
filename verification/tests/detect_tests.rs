use clipflow::detect::{detect, DetectionError};
use clipflow::timeline::TimeRange;

fn rng(start_ms: u64, end_ms: u64) -> TimeRange {
    TimeRange { start_ms, end_ms }
}

#[test]
fn two_event_pairs_parse_exactly() {
    let text = "silence_start: 1.0\nsilence_end: 2.5 | silence_duration: 1.5\nsilence_start: 4.0\nsilence_end: 4.2 | silence_duration: 0.2";
    let r = detect(text.as_bytes()).unwrap();
    assert_eq!(r, vec![rng(1000, 2500), rng(4000, 4200)]);
}

#[test]
fn analyzer_prefixes_are_ignored() {
    let text = "[silencedetect @ 0x5634] silence_start: 0.25\nframe= 100 fps= 25\n[silencedetect @ 0x5634] silence_end: 1.75 | silence_duration: 1.5\n";
    let r = detect(text.as_bytes()).unwrap();
    assert_eq!(r, vec![rng(250, 1750)]);
}

#[test]
fn intervals_come_back_chronological_with_positive_length() {
    let text = "silence_start: 0.5\nsilence_end: 1.0 | silence_duration: 0.5\nsilence_start: 1.0\nsilence_end: 3.25 | silence_duration: 2.25\nsilence_start: 9.0\nsilence_end: 9.5 | silence_duration: 0.5\n";
    let r = detect(text.as_bytes()).unwrap();
    assert_eq!(r.len(), 3);
    for iv in &r {
        assert!(iv.start_ms < iv.end_ms);
    }
    for w in r.windows(2) {
        assert!(w[0].end_ms <= w[1].start_ms);
    }
}

#[test]
fn two_consecutive_starts_fail() {
    let text = "silence_start: 1.0\nsilence_start: 2.0\nsilence_end: 3.0 | silence_duration: 1.0";
    assert_eq!(detect(text.as_bytes()), Err(DetectionError::OverlappingStart));
}

#[test]
fn end_without_start_fails() {
    let text = "silence_end: 2.0 | silence_duration: 1.0";
    assert_eq!(detect(text.as_bytes()), Err(DetectionError::EndWithoutStart));
}

#[test]
fn dangling_start_fails() {
    let text = "silence_start: 1.0\n";
    assert_eq!(detect(text.as_bytes()), Err(DetectionError::UnterminatedStart));
}

#[test]
fn unreadable_timestamp_fails() {
    let text = "silence_start: abc\n";
    assert_eq!(detect(text.as_bytes()), Err(DetectionError::BadTimestamp));
}

#[test]
fn empty_interval_fails() {
    let text = "silence_start: 2.0\nsilence_end: 2.0 | silence_duration: 0.0";
    assert_eq!(detect(text.as_bytes()), Err(DetectionError::NonChronological));
}

#[test]
fn backwards_start_fails() {
    let text = "silence_start: 1.0\nsilence_end: 3.0 | silence_duration: 2.0\nsilence_start: 2.0\nsilence_end: 4.0 | silence_duration: 2.0";
    assert_eq!(detect(text.as_bytes()), Err(DetectionError::NonChronological));
}

#[test]
fn no_events_mean_no_intervals() {
    assert_eq!(detect(b""), Ok(vec![]));
    assert_eq!(detect(b"frame= 10\nnothing here\n"), Ok(vec![]));
}
