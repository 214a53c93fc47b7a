use screenpipe_server::archive::{Archive, StreamKind};
use screenpipe_server::orchestrator::{orchestrator_step, CycleAction, CycleEvent, CycleState};
use screenpipe_server::retrieval::ContentType;
use screenpipe_server::writer::ChunkWriter;

#[test]
fn a_cycle_starts_runs_and_stops() {
    let (s, a) = orchestrator_step(CycleState::Starting, CycleEvent::StartupComplete);
    assert_eq!(s, CycleState::Running);
    assert_eq!(a, CycleAction::Continue);
    let (s, a) = orchestrator_step(s, CycleEvent::ShutdownSignal);
    assert_eq!(s, CycleState::Draining);
    assert_eq!(a, CycleAction::DrainWork);
    let (s, a) = orchestrator_step(s, CycleEvent::DrainComplete);
    assert_eq!(s, CycleState::Stopped);
    assert_eq!(a, CycleAction::Exit);
}

#[test]
fn a_fatal_capture_error_restarts_the_whole_cycle() {
    let (s, a) = orchestrator_step(CycleState::Running, CycleEvent::FatalCaptureError);
    assert_eq!(s, CycleState::Restarting);
    assert_eq!(a, CycleAction::TearDown);
    let (s, a) = orchestrator_step(s, CycleEvent::RestartReady);
    assert_eq!(s, CycleState::Starting);
    assert_eq!(a, CycleAction::StartCycle);
}

#[test]
fn shutdown_preempts_the_restart_loop() {
    let (s, a) = orchestrator_step(CycleState::Restarting, CycleEvent::ShutdownSignal);
    assert_eq!(s, CycleState::Draining);
    assert_eq!(a, CycleAction::DrainWork);
    // a stopped cycle never comes back
    let (s, _) = orchestrator_step(CycleState::Stopped, CycleEvent::RestartReady);
    assert_eq!(s, CycleState::Stopped);
    let (s, _) = orchestrator_step(CycleState::Stopped, CycleEvent::ShutdownSignal);
    assert_eq!(s, CycleState::Stopped);
}

/// Crash resilience: a persistence error kills the vision loop mid-chunk.
/// The audio loop keeps appending, the orchestrator restarts a new cycle,
/// and everything already finalized or persisted stays readable.
#[test]
fn vision_crash_mid_chunk_spares_audio_and_finalized_data() {
    let mut archive = Archive::new();
    let mut vision = ChunkWriter::new(StreamKind::Video, 1_000);
    let mut audio = ChunkWriter::new(StreamKind::Audio, 60_000);

    // one finalized vision chunk with a persisted row, then a fresh one
    let (vc0, vo0) = vision.append_unit(&mut archive, 0, "v0.mp4".to_string()).unwrap();
    archive
        .insert_ocr(
            "persisted before the crash".to_string(),
            10,
            vc0,
            vo0,
            "editor".to_string(),
            "main.rs".to_string(),
        )
        .unwrap();
    let (vc1, _) = vision.append_unit(&mut archive, 2_000, "v1.mp4".to_string()).unwrap();
    assert!(!archive.chunk_is_open(vc0));

    // audio is mid-chunk too
    let (ac, ao) = audio.append_unit(&mut archive, 0, "a0.mp4".to_string()).unwrap();
    archive
        .insert_audio("some speech".to_string(), 20, ac, ao)
        .unwrap();

    // the vision stream hits a persistence error mid-chunk: its loop stops
    // appending to the broken chunk and escalates
    let (state, action) = orchestrator_step(CycleState::Running, CycleEvent::FatalCaptureError);
    assert_eq!(state, CycleState::Restarting);
    assert_eq!(action, CycleAction::TearDown);

    // the audio loop was unaffected: its chunk is still open and appendable
    assert!(archive.chunk_is_open(ac));
    let (ac2, ao2) = audio.append_unit(&mut archive, 100, "unused.mp4".to_string()).unwrap();
    assert_eq!(ac2, ac);
    assert_eq!(ao2, 1);

    // the cycle restarts
    let (state, action) = orchestrator_step(state, CycleEvent::RestartReady);
    assert_eq!(state, CycleState::Starting);
    assert_eq!(action, CycleAction::StartCycle);
    let (state, _) = orchestrator_step(state, CycleEvent::StartupComplete);
    assert_eq!(state, CycleState::Running);

    // no previously finalized chunk or persisted row became unreadable
    assert_eq!(archive.chunk_path(vc0), "v0.mp4");
    assert_eq!(archive.chunk_units(vc0), 1);
    assert!(!archive.chunk_is_open(vc0));
    assert!(archive.chunk_is_open(vc1));
    let results = archive.search("", ContentType::All, 10, 0, None, None, None, None);
    assert_eq!(results.len(), 2);
}
