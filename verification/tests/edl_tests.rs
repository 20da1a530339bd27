use clipflow::edl::{from_keep_ranges, from_silence_ranges, PlanningError};
use clipflow::timeline::TimeRange;

fn rng(start_ms: u64, end_ms: u64) -> TimeRange {
    TimeRange { start_ms, end_ms }
}

#[test]
fn a_range_knows_its_duration() {
    assert_eq!(TimeRange::new(2000, 4500).duration_ms(), 2500);
    assert_eq!(rng(1000, 1000).duration_ms(), 0);
}

#[test]
fn sorted_input_keeps_its_order() {
    let edl = from_keep_ranges(&vec![rng(2000, 4000), rng(6000, 9000)], 10_000).unwrap();
    assert_eq!(edl.segments, vec![rng(2000, 4000), rng(6000, 9000)]);
    assert_eq!(edl.duration_ms, 10_000);
}

#[test]
fn unsorted_input_gives_the_same_edl() {
    let a = from_keep_ranges(&vec![rng(2000, 4000), rng(6000, 9000)], 10_000).unwrap();
    let b = from_keep_ranges(&vec![rng(6000, 9000), rng(2000, 4000)], 10_000).unwrap();
    assert_eq!(a.segments, b.segments);
}

#[test]
fn indices_are_contiguous_positions() {
    let edl = from_keep_ranges(
        &vec![rng(8000, 9000), rng(500, 1000), rng(3000, 4000)],
        10_000,
    )
    .unwrap();
    assert_eq!(
        edl.segments,
        vec![rng(500, 1000), rng(3000, 4000), rng(8000, 9000)]
    );
}

#[test]
fn overlapping_ranges_are_rejected() {
    let r = from_keep_ranges(&vec![rng(1000, 5000), rng(4000, 6000)], 10_000);
    assert_eq!(r.unwrap_err(), PlanningError::Overlap);
}

#[test]
fn ranges_sharing_a_start_are_rejected() {
    let r = from_keep_ranges(&vec![rng(1000, 2000), rng(1000, 3000)], 10_000);
    assert_eq!(r.unwrap_err(), PlanningError::Overlap);
}

#[test]
fn touching_ranges_are_accepted() {
    let edl = from_keep_ranges(&vec![rng(1000, 2000), rng(2000, 3000)], 10_000).unwrap();
    assert_eq!(edl.segments.len(), 2);
}

#[test]
fn out_of_bounds_end_is_rejected() {
    let r = from_keep_ranges(&vec![rng(1000, 11_000)], 10_000);
    assert_eq!(r.unwrap_err(), PlanningError::OutOfBounds);
}

#[test]
fn inverted_range_is_rejected() {
    let r = from_keep_ranges(&vec![rng(5000, 5000)], 10_000);
    assert_eq!(r.unwrap_err(), PlanningError::OutOfBounds);
}

#[test]
fn empty_intent_keeps_the_whole_file() {
    let edl = from_keep_ranges(&vec![], 10_000).unwrap();
    assert_eq!(edl.segments, vec![rng(0, 10_000)]);
}

#[test]
fn empty_intent_on_empty_file_keeps_nothing() {
    let edl = from_keep_ranges(&vec![], 0).unwrap();
    assert_eq!(edl.segments, vec![]);
}

#[test]
fn silence_complement_tiles_the_timeline() {
    let silences = vec![rng(1000, 2000), rng(5000, 6000)];
    let edl = from_silence_ranges(&silences, 10_000);
    assert_eq!(
        edl.segments,
        vec![rng(0, 1000), rng(2000, 5000), rng(6000, 10_000)]
    );
    // every millisecond is covered exactly once by keeps and silences
    for t in 0..10_000u64 {
        let in_keep = edl
            .segments
            .iter()
            .any(|r| r.start_ms <= t && t < r.end_ms);
        let in_silence = silences.iter().any(|r| r.start_ms <= t && t < r.end_ms);
        assert!(in_keep != in_silence);
    }
}

#[test]
fn silence_at_the_edges_leaves_no_empty_gaps() {
    let silences = vec![rng(0, 1500), rng(8000, 10_000)];
    let edl = from_silence_ranges(&silences, 10_000);
    assert_eq!(edl.segments, vec![rng(1500, 8000)]);
}

#[test]
fn silence_past_the_duration_is_clamped() {
    let silences = vec![rng(9000, 12_000)];
    let edl = from_silence_ranges(&silences, 10_000);
    assert_eq!(edl.segments, vec![rng(0, 9000)]);
}

#[test]
fn zero_silences_keep_the_whole_file() {
    let edl = from_silence_ranges(&vec![], 10_000);
    assert_eq!(edl.segments, vec![rng(0, 10_000)]);
}
