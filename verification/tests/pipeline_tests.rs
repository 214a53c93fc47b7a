use screenpipe_server::archive::{Archive, ArchiveError, StreamKind};
use screenpipe_server::capture::{
    audio_step, should_transcribe, sensitivity_threshold_permille, vision_step, window_included,
    AudioConfig, AudioLoopState, CaptureOutcome, VadSensitivity, VisionConfig, VisionState,
    WindowOcr,
};
use screenpipe_server::transcription::{
    transcription_step, EngineOutcome, RetryPolicy, TranscriptionAction,
};
use screenpipe_server::writer::ChunkWriter;

fn strs(v: &[&str]) -> Vec<String> {
    v.iter().map(|s| s.to_string()).collect()
}

#[test]
fn writer_opens_a_chunk_on_first_append_and_counts_offsets() {
    let mut a = Archive::new();
    let mut w = ChunkWriter::new(StreamKind::Video, 1_000);
    let (c0, o0) = w.append_unit(&mut a, 0, "v0.mp4".to_string()).unwrap();
    let (c1, o1) = w.append_unit(&mut a, 10, "unused.mp4".to_string()).unwrap();
    let (c2, o2) = w.append_unit(&mut a, 20, "unused2.mp4".to_string()).unwrap();
    assert_eq!((c0, o0), (0, 0));
    assert_eq!((c1, o1), (0, 1));
    assert_eq!((c2, o2), (0, 2));
    assert_eq!(a.chunk_path(0), "v0.mp4");
    assert!(a.chunk_is_open(0));
}

#[test]
fn writer_rolls_over_when_the_chunk_duration_elapses() {
    let mut a = Archive::new();
    let mut w = ChunkWriter::new(StreamKind::Video, 1_000);
    w.append_unit(&mut a, 0, "v0.mp4".to_string()).unwrap();
    w.append_unit(&mut a, 999, "unused.mp4".to_string()).unwrap();
    // the bound elapsed: the old chunk is finalized, offsets restart at zero
    let (c, o) = w.append_unit(&mut a, 1_000, "v1.mp4".to_string()).unwrap();
    assert_eq!((c, o), (1, 0));
    assert!(!a.chunk_is_open(0));
    assert_eq!(a.chunk_units(0), 2);
    assert!(a.chunk_is_open(1));
    assert_eq!(a.chunk_path(1), "v1.mp4");
}

#[test]
fn writer_refuses_a_rollover_onto_a_taken_path() {
    let mut a = Archive::new();
    let mut w = ChunkWriter::new(StreamKind::Video, 1_000);
    w.append_unit(&mut a, 0, "v0.mp4".to_string()).unwrap();
    let r = w.append_unit(&mut a, 5_000, "v0.mp4".to_string());
    assert_eq!(r, Err(ArchiveError::DuplicatePath));
    // nothing changed: the old chunk is still the open one
    assert_eq!(a.chunk_count(), 1);
    assert!(a.chunk_is_open(0));
    assert_eq!(a.chunk_units(0), 1);
}

#[test]
fn writer_close_finalizes_the_open_chunk() {
    let mut a = Archive::new();
    let mut w = ChunkWriter::new(StreamKind::Audio, 60_000);
    let (c, _) = w.append_unit(&mut a, 0, "a0.mp4".to_string()).unwrap();
    w.close(&mut a);
    assert!(!a.chunk_is_open(c));
    assert_eq!(a.chunk_units(c), 1);
}

#[test]
fn deny_list_takes_precedence_over_allow_list() {
    let allow = strs(&["editor"]);
    let deny = strs(&["private"]);
    assert!(window_included(&"editor - main.rs".to_string(), &allow, &deny));
    assert!(!window_included(
        &"editor - private notes".to_string(),
        &allow,
        &deny
    ));
    assert!(!window_included(&"browser".to_string(), &allow, &deny));
}

#[test]
fn empty_allow_list_admits_every_window_not_denied() {
    let allow: Vec<String> = Vec::new();
    let deny = strs(&["secret"]);
    assert!(window_included(&"anything".to_string(), &allow, &deny));
    assert!(!window_included(&"my secret window".to_string(), &allow, &deny));
}

fn window(app: &str, win: &str, text: &str) -> WindowOcr {
    WindowOcr {
        app_name: app.to_string(),
        window_name: win.to_string(),
        text: text.to_string(),
    }
}

#[test]
fn vision_step_filters_windows_and_stamps_the_frame() {
    let cfg = VisionConfig {
        allow: Vec::new(),
        deny: strs(&["private"]),
        max_consecutive_failures: 3,
    };
    let mut st = VisionState::new(7);
    let outcome = CaptureOutcome::Captured(vec![
        window("editor", "main.rs", "fn main"),
        window("bank", "private banking", "balance"),
        window("terminal", "shell", "ls"),
    ]);
    let r = vision_step(&mut st, &cfg, 1_000, outcome);
    assert!(!r.escalate);
    let frame = r.emit.unwrap();
    assert_eq!(frame.monitor_id, 7);
    assert_eq!(frame.timestamp, 1_000);
    let names: Vec<&str> = frame.windows.iter().map(|w| w.app_name.as_str()).collect();
    assert_eq!(names, vec!["editor", "terminal"]);
}

#[test]
fn vision_timestamps_increase_even_when_the_clock_is_stuck() {
    let cfg = VisionConfig {
        allow: Vec::new(),
        deny: Vec::new(),
        max_consecutive_failures: 3,
    };
    let mut st = VisionState::new(0);
    let t1 = vision_step(&mut st, &cfg, 500, CaptureOutcome::Captured(Vec::new()))
        .emit
        .unwrap()
        .timestamp;
    let t2 = vision_step(&mut st, &cfg, 500, CaptureOutcome::Captured(Vec::new()))
        .emit
        .unwrap()
        .timestamp;
    let t3 = vision_step(&mut st, &cfg, 400, CaptureOutcome::Captured(Vec::new()))
        .emit
        .unwrap()
        .timestamp;
    assert_eq!(t1, 500);
    assert_eq!(t2, 501);
    assert_eq!(t3, 502);
}

#[test]
fn vision_failures_escalate_only_after_the_configured_run() {
    let cfg = VisionConfig {
        allow: Vec::new(),
        deny: Vec::new(),
        max_consecutive_failures: 3,
    };
    let mut st = VisionState::new(0);
    assert!(!vision_step(&mut st, &cfg, 1, CaptureOutcome::Failed).escalate);
    assert!(!vision_step(&mut st, &cfg, 2, CaptureOutcome::Failed).escalate);
    assert!(vision_step(&mut st, &cfg, 3, CaptureOutcome::Failed).escalate);
    // one successful frame resets the count
    let mut st2 = VisionState::new(0);
    vision_step(&mut st2, &cfg, 1, CaptureOutcome::Failed);
    vision_step(&mut st2, &cfg, 2, CaptureOutcome::Failed);
    vision_step(&mut st2, &cfg, 3, CaptureOutcome::Captured(Vec::new()));
    assert!(!vision_step(&mut st2, &cfg, 4, CaptureOutcome::Failed).escalate);
}

#[test]
fn audio_segment_ends_at_the_duration_bound() {
    let cfg = AudioConfig { chunk_max_ms: 1_000 };
    let mut st = AudioLoopState::new();
    assert!(audio_step(&mut st, &cfg, 400, true).is_none());
    assert!(audio_step(&mut st, &cfg, 400, true).is_none());
    let seg = audio_step(&mut st, &cfg, 400, true).unwrap();
    assert_eq!(seg.duration_ms, 1_200);
    assert!(seg.has_speech);
    assert_eq!(st.seg_ms, 0);
}

#[test]
fn audio_segment_ends_at_a_speech_to_silence_transition() {
    let cfg = AudioConfig { chunk_max_ms: 60_000 };
    let mut st = AudioLoopState::new();
    assert!(audio_step(&mut st, &cfg, 100, false).is_none());
    assert!(audio_step(&mut st, &cfg, 100, true).is_none());
    let seg = audio_step(&mut st, &cfg, 100, false).unwrap();
    assert_eq!(seg.duration_ms, 300);
    assert!(seg.has_speech);
}

#[test]
fn silent_segments_do_not_proceed_to_transcription() {
    let cfg = AudioConfig { chunk_max_ms: 200 };
    let mut st = AudioLoopState::new();
    let seg = audio_step(&mut st, &cfg, 200, false).unwrap();
    assert!(!seg.has_speech);
    assert!(!should_transcribe(&seg));
}

#[test]
fn transcription_success_persists_the_text() {
    let policy = RetryPolicy { max_attempts: 3, base_backoff_ms: 100 };
    let r = transcription_step(&policy, 0, EngineOutcome::Transcribed("hello".to_string()));
    match r {
        TranscriptionAction::Persist(t) => assert_eq!(t, "hello"),
        _ => panic!("expected the transcript to be persisted"),
    }
}

#[test]
fn transcription_failures_retry_with_doubling_backoff_then_persist_empty() {
    let policy = RetryPolicy { max_attempts: 3, base_backoff_ms: 100 };
    match transcription_step(&policy, 0, EngineOutcome::EngineError) {
        TranscriptionAction::Retry(b) => assert_eq!(b, 100),
        _ => panic!("expected a retry"),
    }
    match transcription_step(&policy, 1, EngineOutcome::EngineError) {
        TranscriptionAction::Retry(b) => assert_eq!(b, 200),
        _ => panic!("expected a retry"),
    }
    match transcription_step(&policy, 2, EngineOutcome::EngineError) {
        TranscriptionAction::PersistEmpty => {}
        _ => panic!("expected the segment to be persisted with empty text"),
    }
}

#[test]
fn vad_sensitivity_maps_to_its_threshold() {
    assert_eq!(sensitivity_threshold_permille(VadSensitivity::Low), 900);
    assert_eq!(sensitivity_threshold_permille(VadSensitivity::Medium), 700);
    assert_eq!(sensitivity_threshold_permille(VadSensitivity::High), 500);
}

#[test]
fn append_frame_addresses_every_window_row_by_the_frame_unit() {
    let mut a = Archive::new();
    let mut w = ChunkWriter::new(StreamKind::Video, 60_000);
    let frame = screenpipe_server::capture::FrameRecord {
        monitor_id: 0,
        timestamp: 500,
        windows: vec![
            window("editor", "main.rs", "fn main"),
            window("terminal", "shell", "cargo test"),
        ],
    };
    let (chunk, offset) = w.append_frame(&mut a, 0, "v0.mp4".to_string(), &frame).unwrap();
    assert_eq!((chunk, offset), (0, 0));
    assert_eq!(a.ocr_count(), 2);
    assert_eq!(a.fts_count(), 2);
    for i in 0..a.ocr_count() {
        let row = a.ocr_at(i);
        assert_eq!(row.chunk, chunk);
        assert_eq!(row.offset_index, offset);
        assert_eq!(row.timestamp, 500);
    }
    // sequential ids, one per window
    assert_eq!(a.ocr_at(0).frame_id, 1);
    assert_eq!(a.ocr_at(1).frame_id, 2);
}

#[test]
fn append_frame_with_no_windows_records_the_unit_and_no_rows() {
    let mut a = Archive::new();
    let mut w = ChunkWriter::new(StreamKind::Video, 60_000);
    let frame = screenpipe_server::capture::FrameRecord {
        monitor_id: 0,
        timestamp: 500,
        windows: Vec::new(),
    };
    let (chunk, _) = w.append_frame(&mut a, 0, "v0.mp4".to_string(), &frame).unwrap();
    assert_eq!(a.chunk_units(chunk), 1);
    assert_eq!(a.ocr_count(), 0);
}

#[test]
fn append_audio_persists_the_transcript_even_when_it_is_empty() {
    let mut a = Archive::new();
    let mut w = ChunkWriter::new(StreamKind::Audio, 60_000);
    let (c0, o0) = w
        .append_audio(&mut a, 0, "a0.mp4".to_string(), "hello".to_string(), 100)
        .unwrap();
    let (c1, o1) = w
        .append_audio(&mut a, 10, "unused.mp4".to_string(), String::new(), 200)
        .unwrap();
    assert_eq!((c0, o0), (0, 0));
    assert_eq!((c1, o1), (0, 1));
    assert_eq!(a.audio_count(), 2);
    assert_eq!(a.audio_at(0).transcription, "hello");
    assert_eq!(a.audio_at(1).transcription, "");
    assert_eq!(a.audio_at(1).timestamp, 200);
}

#[test]
fn append_frame_refuses_a_rollover_onto_a_taken_path_and_records_nothing() {
    let mut a = Archive::new();
    let mut w = ChunkWriter::new(StreamKind::Video, 1_000);
    let frame = screenpipe_server::capture::FrameRecord {
        monitor_id: 0,
        timestamp: 100,
        windows: vec![window("editor", "main.rs", "fn main")],
    };
    w.append_frame(&mut a, 0, "v0.mp4".to_string(), &frame).unwrap();
    // the duration elapsed, but the rollover path is already taken
    let r = w.append_frame(&mut a, 5_000, "v0.mp4".to_string(), &frame);
    assert_eq!(r, Err(ArchiveError::DuplicatePath));
    // nothing was acknowledged and nothing was recorded
    assert_eq!(a.chunk_count(), 1);
    assert_eq!(a.chunk_units(0), 1);
    assert_eq!(a.ocr_count(), 1);
}

#[test]
fn append_frame_rollover_opens_the_handed_in_path() {
    let mut a = Archive::new();
    let mut w = ChunkWriter::new(StreamKind::Video, 1_000);
    let frame = screenpipe_server::capture::FrameRecord {
        monitor_id: 0,
        timestamp: 100,
        windows: Vec::new(),
    };
    w.append_frame(&mut a, 0, "v0.mp4".to_string(), &frame).unwrap();
    let (chunk, offset) = w.append_frame(&mut a, 2_000, "v1.mp4".to_string(), &frame).unwrap();
    assert_eq!((chunk, offset), (1, 0));
    assert_eq!(a.chunk_path(1), "v1.mp4");
    assert!(!a.chunk_is_open(0));
}
