use screenpipe_server::archive::{Archive, StreamKind};
use screenpipe_server::default_limit;
use screenpipe_server::retrieval::{
    search_content, ContentItem, ContentType, SearchQuery, SearchResult,
};

fn query(
    q: Option<&str>,
    content_type: ContentType,
    limit: u32,
    offset: u32,
    app_name: Option<&str>,
) -> SearchQuery {
    SearchQuery {
        q: q.map(|s| s.to_string()),
        limit,
        offset,
        content_type,
        start_time: None,
        end_time: None,
        app_name: app_name.map(|s| s.to_string()),
        window_name: None,
        include_frames: false,
    }
}

/// Three OCR rows from an editor, a browser and a terminal, and two audio
/// rows, with interleaved timestamps.
fn populated_archive() -> Archive {
    let mut a = Archive::new();
    let cv = a
        .open_chunk("data/v0.mp4".to_string(), StreamKind::Video, 0)
        .unwrap();
    let ca = a
        .open_chunk("data/a0.mp4".to_string(), StreamKind::Audio, 0)
        .unwrap();
    for (text, ts, app, win) in [
        ("fn main() {}", 100i64, "editor", "main.rs"),
        ("cargo build output", 300, "terminal", "shell"),
        ("rust homepage", 500, "browser", "docs tab"),
    ] {
        let off = a.record_unit(cv).unwrap();
        a.insert_ocr(
            text.to_string(),
            ts,
            cv,
            off,
            app.to_string(),
            win.to_string(),
        )
        .unwrap();
    }
    for (text, ts) in [("let us build it", 200i64), ("ship the release", 400)] {
        let off = a.record_unit(ca).unwrap();
        a.insert_audio(text.to_string(), ts, ca, off).unwrap();
    }
    a
}

fn timestamps(items: &[ContentItem]) -> Vec<i64> {
    items
        .iter()
        .map(|i| match i {
            ContentItem::OCR(o) => o.timestamp,
            ContentItem::Audio(a) => a.timestamp,
            ContentItem::FTS(f) => f.timestamp,
        })
        .collect()
}

#[test]
fn empty_query_returns_everything_ordered_by_timestamp() {
    let a = populated_archive();
    let resp = search_content(&a, &query(None, ContentType::All, 10, 0, None));
    assert_eq!(resp.pagination.total, 5);
    assert_eq!(timestamps(&resp.data), vec![100, 200, 300, 400, 500]);
}

#[test]
fn text_query_matches_substrings_of_either_stream() {
    let a = populated_archive();
    let resp = search_content(&a, &query(Some("build"), ContentType::All, 10, 0, None));
    assert_eq!(resp.pagination.total, 2);
    assert_eq!(timestamps(&resp.data), vec![200, 300]);
    let none = search_content(&a, &query(Some("no such text"), ContentType::All, 10, 0, None));
    assert_eq!(none.pagination.total, 0);
    assert!(none.data.is_empty());
}

#[test]
fn content_type_filters_to_one_stream() {
    let a = populated_archive();
    let ocr = search_content(&a, &query(None, ContentType::OCR, 10, 0, None));
    assert_eq!(ocr.pagination.total, 3);
    assert!(ocr
        .data
        .iter()
        .all(|i| matches!(i, ContentItem::OCR(_))));
    let audio = search_content(&a, &query(None, ContentType::Audio, 10, 0, None));
    assert_eq!(audio.pagination.total, 2);
    assert!(audio
        .data
        .iter()
        .all(|i| matches!(i, ContentItem::Audio(_))));
}

#[test]
fn time_range_bounds_are_inclusive() {
    let a = populated_archive();
    let mut q = query(None, ContentType::All, 10, 0, None);
    q.start_time = Some(200);
    q.end_time = Some(400);
    let resp = search_content(&a, &q);
    assert_eq!(timestamps(&resp.data), vec![200, 300, 400]);
}

#[test]
fn app_name_forces_ocr_even_when_audio_was_requested() {
    let a = populated_archive();
    let resp = search_content(&a, &query(None, ContentType::Audio, 10, 0, Some("editor")));
    assert_eq!(resp.pagination.total, 1);
    assert_eq!(resp.data.len(), 1);
    match &resp.data[0] {
        ContentItem::OCR(o) => {
            assert_eq!(o.app_name, "editor");
            assert_eq!(o.text, "fn main() {}");
            assert_eq!(o.file_path, "data/v0.mp4");
            assert!(o.frame.is_none());
        }
        _ => panic!("expected an OCR item"),
    }
}

#[test]
fn pages_partition_the_result_set() {
    let a = populated_archive();
    let n = 2u32;
    let mut seen: Vec<i64> = Vec::new();
    let mut page_sizes_sum = 0i64;
    let mut offset = 0u32;
    loop {
        let resp = search_content(&a, &query(None, ContentType::All, n, offset, None));
        assert_eq!(resp.pagination.total, 5);
        if resp.data.is_empty() {
            break;
        }
        page_sizes_sum += resp.data.len() as i64;
        seen.extend(timestamps(&resp.data));
        offset += n;
    }
    // no omission, no duplicate, and the count equals the sum of page sizes
    assert_eq!(seen, vec![100, 200, 300, 400, 500]);
    assert_eq!(page_sizes_sum, 5);
}

#[test]
fn offset_beyond_the_result_set_yields_an_empty_page() {
    let a = populated_archive();
    let resp = search_content(&a, &query(None, ContentType::All, 10, 99, None));
    assert!(resp.data.is_empty());
    assert_eq!(resp.pagination.total, 5);
    assert_eq!(resp.pagination.offset, 99);
}

#[test]
fn search_results_carry_resolvable_addresses() {
    let a = populated_archive();
    let results = a.search("", ContentType::All, 10, 0, None, None, None, None);
    assert_eq!(results.len(), 5);
    for r in &results {
        let (path, offset) = match r {
            SearchResult::OCR(o) => (o.file_path.clone(), o.offset_index),
            SearchResult::Audio(au) => (au.file_path.clone(), au.offset_index),
            SearchResult::FTS(f) => (f.video_file_path.clone(), 0),
        };
        // exactly one registered chunk carries the path, and the offset is
        // a recorded unit of it
        let mut matching = 0;
        for c in 0..a.chunk_count() {
            if a.chunk_path(c) == &path {
                matching += 1;
                assert!((offset as u64) < a.chunk_units(c));
            }
        }
        assert_eq!(matching, 1);
    }
}

#[test]
fn count_matches_search_for_the_same_filter() {
    let a = populated_archive();
    let n = a.count_search_results("build", ContentType::All, None, None, None, None);
    let results = a.search("build", ContentType::All, 100, 0, None, None, None, None);
    assert_eq!(n, results.len() as u64);
}

#[test]
fn default_limit_is_twenty() {
    assert_eq!(default_limit(), 20);
}

#[test]
fn default_content_type_is_all() {
    assert_eq!(ContentType::default(), ContentType::All);
}

#[test]
fn equal_timestamps_keep_ocr_before_audio_stably() {
    let mut a = Archive::new();
    let cv = a
        .open_chunk("v.mp4".to_string(), StreamKind::Video, 0)
        .unwrap();
    let ca = a
        .open_chunk("a.mp4".to_string(), StreamKind::Audio, 0)
        .unwrap();
    let ov = a.record_unit(cv).unwrap();
    let oa = a.record_unit(ca).unwrap();
    a.insert_audio("audio row".to_string(), 100, ca, oa).unwrap();
    a.insert_ocr(
        "ocr row".to_string(),
        100,
        cv,
        ov,
        "app".to_string(),
        "win".to_string(),
    )
    .unwrap();
    let resp = search_content(&a, &query(None, ContentType::All, 10, 0, None));
    assert_eq!(resp.data.len(), 2);
    assert!(matches!(resp.data[0], ContentItem::OCR(_)));
    assert!(matches!(resp.data[1], ContentItem::Audio(_)));
}

#[test]
fn a_zero_limit_returns_an_empty_page_with_the_full_count() {
    let a = populated_archive();
    let resp = search_content(&a, &query(None, ContentType::All, 0, 0, None));
    assert!(resp.data.is_empty());
    assert_eq!(resp.pagination.total, 5);
}
