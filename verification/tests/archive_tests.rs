use screenpipe_server::archive::{Archive, ArchiveError, StreamKind, TagContentType};

fn video_archive_with_chunk() -> (Archive, usize) {
    let mut a = Archive::new();
    let c = a
        .open_chunk("data/video_0.mp4".to_string(), StreamKind::Video, 1_000)
        .unwrap();
    (a, c)
}

#[test]
fn open_chunk_assigns_sequential_ids() {
    let mut a = Archive::new();
    let c0 = a
        .open_chunk("a.mp4".to_string(), StreamKind::Video, 0)
        .unwrap();
    let c1 = a
        .open_chunk("b.mp4".to_string(), StreamKind::Audio, 5)
        .unwrap();
    assert_eq!(c0, 0);
    assert_eq!(c1, 1);
    assert_eq!(a.chunk_count(), 2);
    assert_eq!(a.chunk_path(c0), "a.mp4");
    assert_eq!(a.chunk_units(c1), 0);
    assert!(a.chunk_is_open(c0));
}

#[test]
fn open_chunk_refuses_duplicate_path() {
    let mut a = Archive::new();
    a.open_chunk("same.mp4".to_string(), StreamKind::Video, 0)
        .unwrap();
    let r = a.open_chunk("same.mp4".to_string(), StreamKind::Audio, 1);
    assert_eq!(r, Err(ArchiveError::DuplicatePath));
    assert_eq!(a.chunk_count(), 1);
}

#[test]
fn record_unit_counts_offsets_from_zero() {
    let (mut a, c) = video_archive_with_chunk();
    assert_eq!(a.record_unit(c), Ok(0));
    assert_eq!(a.record_unit(c), Ok(1));
    assert_eq!(a.record_unit(c), Ok(2));
    assert_eq!(a.chunk_units(c), 3);
}

#[test]
fn record_unit_refuses_closed_and_unknown_chunks() {
    let (mut a, c) = video_archive_with_chunk();
    assert_eq!(a.record_unit(99), Err(ArchiveError::InvalidChunk));
    a.finalize_chunk(c).unwrap();
    assert!(!a.chunk_is_open(c));
    assert_eq!(a.record_unit(c), Err(ArchiveError::ChunkClosed));
}

#[test]
fn insert_ocr_creates_row_and_mirrored_fts_row() {
    let (mut a, c) = video_archive_with_chunk();
    let off = a.record_unit(c).unwrap();
    let id = a
        .insert_ocr(
            "hello world".to_string(),
            1_500,
            c,
            off,
            "editor".to_string(),
            "main.rs - editor".to_string(),
        )
        .unwrap();
    assert_eq!(id, 1);
    assert_eq!(a.ocr_count(), 1);
    assert_eq!(a.fts_count(), 1);
    let row = a.ocr_at(0);
    assert_eq!(row.frame_id, 1);
    assert_eq!(row.text, "hello world");
    assert_eq!(row.timestamp, 1_500);
    assert_eq!(row.chunk, c);
    assert_eq!(row.offset_index, off);
    let fts = a.fts_at(0);
    assert_eq!(fts.frame_id, 1);
    assert_eq!(fts.matched_text, "hello world");
    assert_eq!(fts.app_name, "editor");
}

#[test]
fn insert_refuses_unresolvable_addresses() {
    let (mut a, c) = video_archive_with_chunk();
    // no unit recorded yet: offset 0 does not resolve
    let r = a.insert_ocr(
        "t".to_string(),
        1,
        c,
        0,
        "app".to_string(),
        "win".to_string(),
    );
    assert_eq!(r, Err(ArchiveError::InvalidChunk));
    // wrong stream kind
    let off = a.record_unit(c).unwrap();
    let r = a.insert_audio("t".to_string(), 1, c, off);
    assert_eq!(r, Err(ArchiveError::InvalidChunk));
    // unknown chunk
    let r = a.insert_ocr(
        "t".to_string(),
        1,
        7,
        0,
        "app".to_string(),
        "win".to_string(),
    );
    assert_eq!(r, Err(ArchiveError::InvalidChunk));
}

#[test]
fn rows_are_kept_in_timestamp_order_whatever_the_insert_order() {
    let (mut a, c) = video_archive_with_chunk();
    let o0 = a.record_unit(c).unwrap();
    let o1 = a.record_unit(c).unwrap();
    let o2 = a.record_unit(c).unwrap();
    a.insert_ocr("late".to_string(), 300, c, o0, "x".to_string(), "w".to_string())
        .unwrap();
    a.insert_ocr("early".to_string(), 100, c, o1, "x".to_string(), "w".to_string())
        .unwrap();
    a.insert_ocr("middle".to_string(), 200, c, o2, "x".to_string(), "w".to_string())
        .unwrap();
    assert_eq!(a.ocr_at(0).text, "early");
    assert_eq!(a.ocr_at(1).text, "middle");
    assert_eq!(a.ocr_at(2).text, "late");
    // the FTS mirror moved with its source rows
    assert_eq!(a.fts_at(0).matched_text, "early");
    assert_eq!(a.fts_at(2).matched_text, "late");
}

#[test]
fn get_latest_timestamps_reports_newest_of_each_stream() {
    let mut a = Archive::new();
    assert_eq!(a.get_latest_timestamps(), (None, None));
    let cv = a
        .open_chunk("v.mp4".to_string(), StreamKind::Video, 0)
        .unwrap();
    let ca = a
        .open_chunk("a.mp4".to_string(), StreamKind::Audio, 0)
        .unwrap();
    let ov = a.record_unit(cv).unwrap();
    let oa = a.record_unit(ca).unwrap();
    a.insert_ocr("f".to_string(), 400, cv, ov, "x".to_string(), "w".to_string())
        .unwrap();
    a.insert_audio("t".to_string(), 900, ca, oa).unwrap();
    assert_eq!(a.get_latest_timestamps(), (Some(400), Some(900)));
}

#[test]
fn tag_operations_refuse_unknown_ids() {
    let (mut a, _c) = video_archive_with_chunk();
    let tags = vec!["x".to_string()];
    assert_eq!(
        a.add_tags(42, TagContentType::Vision, &tags),
        Err(ArchiveError::NotFound)
    );
    assert_eq!(
        a.remove_tags(42, TagContentType::Audio, &tags),
        Err(ArchiveError::NotFound)
    );
}
