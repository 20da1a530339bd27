use clipflow::edl::{from_keep_ranges, from_silence_ranges, EditDecisionList};
use clipflow::filtergraph::{compile, filter_expression, CompileError, FilterPlan};
use clipflow::timeline::TimeRange;

fn rng(start_ms: u64, end_ms: u64) -> TimeRange {
    TimeRange { start_ms, end_ms }
}

#[test]
fn whole_file_edl_compiles_to_copy() {
    let edl = EditDecisionList {
        segments: vec![rng(0, 10_000)],
        duration_ms: 10_000,
    };
    assert!(matches!(compile(&edl), Ok(FilterPlan::Copy)));
}

#[test]
fn partial_single_segment_is_not_a_copy() {
    let edl = EditDecisionList {
        segments: vec![rng(0, 9000)],
        duration_ms: 10_000,
    };
    match compile(&edl).unwrap() {
        FilterPlan::Copy => panic!("a partial keep must not compile to a copy"),
        FilterPlan::Concat(segs) => assert_eq!(segs.len(), 1),
    }
}

#[test]
fn two_segments_get_paired_labels_in_order() {
    let edl = from_keep_ranges(&vec![rng(2000, 4000), rng(6000, 9000)], 10_000).unwrap();
    match compile(&edl).unwrap() {
        FilterPlan::Copy => panic!("two segments cannot be a copy"),
        FilterPlan::Concat(segs) => {
            assert_eq!(segs.len(), 2);
            assert_eq!(segs[0].video_label.as_str(), "v0");
            assert_eq!(segs[0].audio_label.as_str(), "a0");
            assert_eq!(segs[0].range, rng(2000, 4000));
            assert_eq!(segs[1].video_label.as_str(), "v1");
            assert_eq!(segs[1].audio_label.as_str(), "a1");
            assert_eq!(segs[1].range, rng(6000, 9000));
        }
    }
}

#[test]
fn empty_edl_is_unsupported() {
    let edl = EditDecisionList {
        segments: vec![],
        duration_ms: 0,
    };
    assert_eq!(compile(&edl).unwrap_err(), CompileError::UnsupportedPlan);
}

#[test]
fn silence_removal_with_no_silences_round_trips_to_copy() {
    let edl = from_silence_ranges(&vec![], 10_000);
    assert!(matches!(compile(&edl), Ok(FilterPlan::Copy)));
}

#[test]
fn filter_expression_spells_out_every_stage() {
    let edl = from_keep_ranges(&vec![rng(2000, 4000), rng(6000, 9000)], 10_000).unwrap();
    let expr = filter_expression(&edl);
    assert_eq!(
        expr.as_str(),
        "[0:v]trim=start=2.000:end=4.000,setpts=PTS-STARTPTS[v0];\
         [0:a]atrim=start=2.000:end=4.000,asetpts=PTS-STARTPTS[a0];\
         [0:v]trim=start=6.000:end=9.000,setpts=PTS-STARTPTS[v1];\
         [0:a]atrim=start=6.000:end=9.000,asetpts=PTS-STARTPTS[a1];\
         [v0][a0][v1][a1]concat=n=2:v=1:a=1[outv][outa]"
    );
}
