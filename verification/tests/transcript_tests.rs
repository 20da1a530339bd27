use clipflow::dispatch::ProcessOutcome;
use clipflow::transcript::{
    engine_args, get_available_whisper_models, interpret_engine_outcome, parse_transcript,
    scratch_wav_name, segment_of_fields, stage_audio_args, transcript_of_fields, trim_text,
    TranscriptionError,
};

#[test]
fn trimming_strips_both_ends() {
    assert_eq!(trim_text("  Hello world \n").as_str(), "Hello world");
    assert_eq!(trim_text("nothing-to-do").as_str(), "nothing-to-do");
    assert_eq!(trim_text(" \t\r\n ").as_str(), "");
    assert_eq!(trim_text("").as_str(), "");
}

#[test]
fn missing_segment_fields_take_their_defaults() {
    let seg = segment_of_fields(None, None, None, None);
    assert_eq!(seg.id, 0);
    assert_eq!(seg.start_ms, 0);
    assert_eq!(seg.end_ms, 0);
    assert_eq!(seg.text.as_str(), "");
}

#[test]
fn segment_fields_parse_and_trim() {
    let seg = segment_of_fields(
        Some(3),
        Some("1.2".to_string()),
        Some("3.48".to_string()),
        Some(" Hello".to_string()),
    );
    assert_eq!(seg.id, 3);
    assert_eq!(seg.start_ms, 1200);
    assert_eq!(seg.end_ms, 3480);
    assert_eq!(seg.text.as_str(), "Hello");
}

#[test]
fn missing_transcript_fields_take_their_defaults() {
    let t = transcript_of_fields(None, None, None, vec![]);
    assert_eq!(t.text.as_str(), "");
    assert_eq!(t.language.as_str(), "en");
    assert_eq!(t.duration_ms, 0);
    assert!(t.segments.is_empty());
}

#[test]
fn a_real_transcript_document_parses() {
    let json = "{\"text\":\" Hello world \",\"language\":\"en\",\"duration\":3.48,\
                 \"segments\":[{\"id\":0,\"start\":0.0,\"end\":1.2,\"text\":\" Hello\"},\
                 {\"id\":1,\"start\":1.2,\"end\":3.48,\"text\":\" world\"}]}";
    let t = parse_transcript(json).unwrap();
    assert_eq!(t.text.as_str(), "Hello world");
    assert_eq!(t.language.as_str(), "en");
    assert_eq!(t.duration_ms, 3480);
    assert_eq!(t.segments.len(), 2);
    assert_eq!(t.segments[0].text.as_str(), "Hello");
    assert_eq!(t.segments[0].start_ms, 0);
    assert_eq!(t.segments[0].end_ms, 1200);
    assert_eq!(t.segments[1].id, 1);
    assert_eq!(t.segments[1].text.as_str(), "world");
    assert_eq!(t.segments[1].end_ms, 3480);
}

#[test]
fn a_document_without_segments_still_parses() {
    let t = parse_transcript("{\"text\":\"hi\"}").unwrap();
    assert_eq!(t.text.as_str(), "hi");
    assert_eq!(t.language.as_str(), "en");
    assert!(t.segments.is_empty());
}

#[test]
fn non_json_text_is_a_schema_mismatch() {
    assert_eq!(
        parse_transcript("this is not json").unwrap_err(),
        TranscriptionError::SchemaMismatch
    );
}

#[test]
fn engine_failures_keep_their_diagnostics() {
    let failed = ProcessOutcome::Exited {
        code: 2,
        stdout: vec![],
        stderr: b"model not found".to_vec(),
    };
    match interpret_engine_outcome(&failed, "") {
        Err(TranscriptionError::EngineFailed(d)) => assert_eq!(d, b"model not found".to_vec()),
        _ => panic!("a non-zero engine exit must carry its diagnostics"),
    }
    let lost = ProcessOutcome::LaunchFailed("whisper missing".to_string());
    match interpret_engine_outcome(&lost, "") {
        Err(TranscriptionError::EngineLaunch(m)) => assert_eq!(m, "whisper missing"),
        _ => panic!("a launch failure must carry the launcher's message"),
    }
}

#[test]
fn scratch_names_differ_per_job() {
    assert_eq!(scratch_wav_name(7).as_str(), "clipflow_audio_7.wav");
    assert_eq!(scratch_wav_name(12).as_str(), "clipflow_audio_12.wav");
    assert_ne!(scratch_wav_name(1).as_str(), scratch_wav_name(2).as_str());
}

#[test]
fn staging_and_engine_arguments_are_exact() {
    assert_eq!(
        stage_audio_args("in.mp4", "/tmp/clipflow_audio_7.wav"),
        vec![
            "-i",
            "in.mp4",
            "-vn",
            "-acodec",
            "pcm_s16le",
            "-ar",
            "16000",
            "-ac",
            "1",
            "/tmp/clipflow_audio_7.wav",
            "-y"
        ]
        .into_iter()
        .map(str::to_string)
        .collect::<Vec<String>>()
    );
    assert_eq!(
        engine_args("/tmp/clipflow_audio_7.wav", "base", "/tmp"),
        vec![
            "/tmp/clipflow_audio_7.wav",
            "--model",
            "base",
            "--output_format",
            "json",
            "--output_dir",
            "/tmp",
            "--language",
            "English"
        ]
        .into_iter()
        .map(str::to_string)
        .collect::<Vec<String>>()
    );
}

#[test]
fn the_model_catalog_is_complete() {
    let models = get_available_whisper_models();
    assert_eq!(models.len(), 5);
    let names: Vec<&str> = models.iter().map(|m| m.name.as_str()).collect();
    assert_eq!(names, vec!["tiny", "base", "small", "medium", "large"]);
    assert_eq!(models[0].size.as_str(), "39 MB");
    assert_eq!(models[4].vram.as_str(), "~10 GB");
    assert_eq!(models[1].description.as_str(), "Good balance of speed/quality");
}
