use screenpipe_server::archive::{Archive, StreamKind};
use screenpipe_server::health::{compute_health, health_check};

const MIN: i64 = 60_000;

#[test]
fn a_frame_ninety_seconds_old_is_stale_against_a_sixty_second_threshold() {
    let now = 10 * MIN;
    let app_start = 0;
    let r = compute_health(now, app_start, Some(now - 90_000), Some(now - 1_000));
    assert_eq!(r.frame_status, "Stale");
    assert_eq!(r.audio_status, "OK");
    assert_eq!(r.status, "Unhealthy");
    assert!(r.verbose_instructions.is_some());
    assert_eq!(
        r.message,
        "Some systems are not functioning properly. Frame status: Stale, Audio status: OK"
    );
}

#[test]
fn both_modalities_within_threshold_is_healthy() {
    let now = 10 * MIN;
    let r = compute_health(now, 0, Some(now - 5_000), Some(now - 30_000));
    assert_eq!(r.frame_status, "OK");
    assert_eq!(r.audio_status, "OK");
    assert_eq!(r.status, "Healthy");
    assert_eq!(r.message, "All systems are functioning normally.");
    assert!(r.verbose_instructions.is_none());
    assert_eq!(r.last_frame_timestamp, Some(now - 5_000));
    assert_eq!(r.last_audio_timestamp, Some(now - 30_000));
}

#[test]
fn health_reports_loading_during_the_startup_grace_period() {
    let app_start = 1_000_000;
    let r = compute_health(app_start + 119_999, app_start, None, None);
    assert_eq!(r.status, "Loading");
    assert_eq!(r.frame_status, "Loading");
    assert_eq!(r.audio_status, "Loading");
    // one millisecond later the grace period is over
    let r = compute_health(app_start + 120_000, app_start, None, None);
    assert_eq!(r.status, "Unhealthy");
}

#[test]
fn a_modality_that_never_captured_reports_no_data() {
    let now = 10 * MIN;
    let r = compute_health(now, 0, Some(now - 1), None);
    assert_eq!(r.frame_status, "OK");
    assert_eq!(r.audio_status, "No data");
    assert_eq!(r.status, "Unhealthy");
}

#[test]
fn exactly_sixty_seconds_old_is_already_stale() {
    let now = 10 * MIN;
    let r = compute_health(now, 0, Some(now - MIN), Some(now - MIN + 1));
    assert_eq!(r.frame_status, "Stale");
    assert_eq!(r.audio_status, "OK");
}

#[test]
fn live_health_check_reads_the_archive_timestamps() {
    // an empty archive long after startup: no data on either modality
    let archive = Archive::new();
    let r = health_check(&archive, 0);
    if r.status != "Loading" {
        assert_eq!(r.frame_status, "No data");
        assert_eq!(r.audio_status, "No data");
        assert_eq!(r.last_frame_timestamp, None);
        assert_eq!(r.last_audio_timestamp, None);
    }
}

#[test]
fn live_health_check_echoes_the_latest_timestamps() {
    let mut archive = Archive::new();
    let c = archive
        .open_chunk("v.mp4".to_string(), StreamKind::Video, 0)
        .unwrap();
    let o = archive.record_unit(c).unwrap();
    archive
        .insert_ocr("t".to_string(), 123, c, o, "a".to_string(), "w".to_string())
        .unwrap();
    let r = health_check(&archive, 0);
    assert_eq!(r.last_frame_timestamp, Some(123));
    assert_eq!(r.last_audio_timestamp, None);
}
