use clipflow::dispatch::{
    analyze_args, copy_args, export_args, interpret_render_outcome, parse_probe_outcome,
    probe_args, start_job, step_job, trim_args, Action, JobError, JobState, OperationKind,
    ProbeError, ProcessOutcome, QualityPreset, RenderJob,
};
use clipflow::timeline::TimeRange;

fn job(operation: OperationKind) -> RenderJob {
    RenderJob {
        input_path: "in.mp4".to_string(),
        output_path: "out.mp4".to_string(),
        operation,
    }
}

fn exited(code: i32, stdout: &[u8], stderr: &[u8]) -> ProcessOutcome {
    ProcessOutcome::Exited {
        code,
        stdout: stdout.to_vec(),
        stderr: stderr.to_vec(),
    }
}

fn args_of(a: &Action) -> (&str, Vec<&str>) {
    match a {
        Action::Run(cmd) => (
            cmd.program.as_str(),
            cmd.args.iter().map(|s| s.as_str()).collect(),
        ),
        Action::Finish(_) => panic!("expected a command, got a finish"),
    }
}

#[test]
fn probe_failure_carries_its_diagnostics() {
    let j = job(OperationKind::SilenceRemoval {
        threshold_db: -30,
        min_silence_ms: 500,
    });
    let (state, action) = step_job(&j, JobState::AwaitingProbe, &exited(1, b"", b"boom: no such stream"));
    assert_eq!(state, JobState::Finished);
    match action {
        Action::Finish(Err(JobError::Probe(ProbeError::Failed(d)))) => {
            assert_eq!(d, b"boom: no such stream".to_vec());
        }
        _ => panic!("a probe exit of 1 must surface a failed-probe error with the diagnostics"),
    }
}

#[test]
fn probe_outcomes_map_to_typed_results() {
    assert_eq!(parse_probe_outcome(&exited(0, b"12.345\n", b"")), Ok(12_345));
    assert_eq!(parse_probe_outcome(&exited(0, b"10\n", b"")), Ok(10_000));
    assert_eq!(parse_probe_outcome(&exited(0, b"  7.5  \n", b"")), Ok(7_500));
    assert_eq!(
        parse_probe_outcome(&exited(0, b"N/A\n", b"")),
        Err(ProbeError::UnparsableDuration)
    );
    // anything but whitespace around the duration is unparsable
    assert_eq!(
        parse_probe_outcome(&exited(0, b"5.0 extra\n", b"")),
        Err(ProbeError::UnparsableDuration)
    );
    assert_eq!(
        parse_probe_outcome(&ProcessOutcome::LaunchFailed("not found".to_string())),
        Err(ProbeError::Launch("not found".to_string()))
    );
    assert_eq!(
        parse_probe_outcome(&exited(127, b"", b"no ffprobe")),
        Err(ProbeError::Failed(b"no ffprobe".to_vec()))
    );
}

#[test]
fn presets_map_to_fixed_rate_factors() {
    assert_eq!(QualityPreset::of_name("high").crf(), 18);
    assert_eq!(QualityPreset::of_name("medium").crf(), 23);
    assert_eq!(QualityPreset::of_name("low").crf(), 28);
    assert_eq!(QualityPreset::of_name("ultra").crf(), 23);
    assert_eq!(QualityPreset::of_name("").crf(), 23);
}

#[test]
fn argument_vectors_are_exact() {
    let p: Vec<String> = probe_args("in.mp4");
    assert_eq!(
        p,
        vec![
            "-v",
            "error",
            "-show_entries",
            "format=duration",
            "-of",
            "default=noprint_wrappers=1:nokey=1",
            "in.mp4"
        ]
        .into_iter()
        .map(str::to_string)
        .collect::<Vec<String>>()
    );
    assert_eq!(
        copy_args("a b.mp4", "out.mp4"),
        vec!["-i", "a b.mp4", "-c", "copy", "out.mp4", "-y"]
            .into_iter()
            .map(str::to_string)
            .collect::<Vec<String>>()
    );
    assert_eq!(
        trim_args("in.mp4", 2000, 4500, "out.mp4"),
        vec!["-i", "in.mp4", "-ss", "2.000", "-to", "4.500", "-c", "copy", "out.mp4", "-y"]
            .into_iter()
            .map(str::to_string)
            .collect::<Vec<String>>()
    );
    assert_eq!(
        analyze_args("in.mp4", -30, 500),
        vec!["-i", "in.mp4", "-af", "silencedetect=noise=-30dB:d=0.500", "-f", "null", "-"]
            .into_iter()
            .map(str::to_string)
            .collect::<Vec<String>>()
    );
    assert_eq!(
        export_args("in.mp4", QualityPreset::High, "out.mp4"),
        vec!["-i", "in.mp4", "-c:v", "libx264", "-crf", "18", "-preset", "medium", "out.mp4", "-y"]
            .into_iter()
            .map(str::to_string)
            .collect::<Vec<String>>()
    );
}

#[test]
fn trim_jobs_go_straight_to_the_transcoder() {
    let j = job(OperationKind::Trim {
        start_ms: 1000,
        end_ms: 2000,
    });
    let (state, action) = start_job(&j);
    assert_eq!(state, JobState::AwaitingRender);
    let (program, args) = args_of(&action);
    assert_eq!(program, "ffmpeg");
    assert_eq!(args[2], "-ss");
    assert_eq!(args[3], "1.000");
}

#[test]
fn silence_removal_probes_first() {
    let j = job(OperationKind::SilenceRemoval {
        threshold_db: -30,
        min_silence_ms: 500,
    });
    let (state, action) = start_job(&j);
    assert_eq!(state, JobState::AwaitingProbe);
    let (program, _) = args_of(&action);
    assert_eq!(program, "ffprobe");
}

#[test]
fn silence_removal_walks_probe_analyze_render() {
    let j = job(OperationKind::SilenceRemoval {
        threshold_db: -30,
        min_silence_ms: 500,
    });
    // the probe reports ten seconds
    let (state, action) = step_job(&j, JobState::AwaitingProbe, &exited(0, b"10.000000\n", b""));
    assert_eq!(state, JobState::AwaitingAnalysis { duration_ms: 10_000 });
    let (program, args) = args_of(&action);
    assert_eq!(program, "ffmpeg");
    assert_eq!(args[3], "silencedetect=noise=-30dB:d=0.500");
    // the analyzer finds one silence in the middle
    let stderr = b"silence_start: 4.0\nsilence_end: 6.0 | silence_duration: 2.0\n";
    let (state, action) = step_job(&j, state, &exited(0, b"", stderr));
    assert_eq!(state, JobState::AwaitingRender);
    let (program, args) = args_of(&action);
    assert_eq!(program, "ffmpeg");
    assert_eq!(args[2], "-filter_complex");
    assert!(args[3].contains("trim=start=0.000:end=4.000"));
    assert!(args[3].contains("trim=start=6.000:end=10.000"));
    assert!(args[3].contains("concat=n=2"));
    // the transcoder succeeds
    let (state, action) = step_job(&j, state, &exited(0, b"", b""));
    assert_eq!(state, JobState::Finished);
    assert!(matches!(action, Action::Finish(Ok(()))));
}

#[test]
fn silence_removal_with_nothing_found_copies() {
    let j = job(OperationKind::SilenceRemoval {
        threshold_db: -30,
        min_silence_ms: 500,
    });
    let state = JobState::AwaitingAnalysis { duration_ms: 10_000 };
    let (state, action) = step_job(&j, state, &exited(0, b"", b"no events here\n"));
    assert_eq!(state, JobState::AwaitingRender);
    let (program, args) = args_of(&action);
    assert_eq!(program, "ffmpeg");
    assert_eq!(args, vec!["-i", "in.mp4", "-c", "copy", "out.mp4", "-y"]);
}

#[test]
fn malformed_analyzer_output_is_a_detection_error() {
    let j = job(OperationKind::SilenceRemoval {
        threshold_db: -30,
        min_silence_ms: 500,
    });
    let state = JobState::AwaitingAnalysis { duration_ms: 10_000 };
    let stderr = b"silence_start: 1.0\nsilence_start: 2.0\n";
    let (state, action) = step_job(&j, state, &exited(0, b"", stderr));
    assert_eq!(state, JobState::Finished);
    assert!(matches!(
        action,
        Action::Finish(Err(JobError::Detection(_)))
    ));
}

#[test]
fn remove_segments_renders_the_sorted_plan() {
    let j = job(OperationKind::RemoveSegments {
        keeps: vec![TimeRange { start_ms: 6000, end_ms: 9000 }, TimeRange { start_ms: 2000, end_ms: 4000 }],
    });
    let (state, action) = step_job(&j, JobState::AwaitingProbe, &exited(0, b"10.0\n", b""));
    assert_eq!(state, JobState::AwaitingRender);
    let (_, args) = args_of(&action);
    assert!(args[3].starts_with("[0:v]trim=start=2.000:end=4.000"));
}

#[test]
fn out_of_bounds_keeps_fail_planning() {
    let j = job(OperationKind::RemoveSegments {
        keeps: vec![TimeRange { start_ms: 2000, end_ms: 12_000 }],
    });
    let (_, action) = step_job(&j, JobState::AwaitingProbe, &exited(0, b"10.0\n", b""));
    assert!(matches!(
        action,
        Action::Finish(Err(JobError::Planning(_)))
    ));
}

#[test]
fn render_outcomes_map_to_typed_results() {
    assert!(interpret_render_outcome(&exited(0, b"", b"")).is_ok());
    match interpret_render_outcome(&exited(1, b"", b"encoder died")) {
        Err(JobError::Render(e)) => assert_eq!(e.diagnostics, b"encoder died".to_vec()),
        _ => panic!("a non-zero exit must be a render error with diagnostics"),
    }
    match interpret_render_outcome(&ProcessOutcome::LaunchFailed("missing binary".to_string())) {
        Err(JobError::Launch(e)) => assert_eq!(e.message, "missing binary"),
        _ => panic!("a launch failure must be a launch error with the message"),
    }
}
