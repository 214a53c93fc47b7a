use screenpipe_server::archive::{Archive, StreamKind, TagContentType};

fn archive_with_one_of_each() -> (Archive, i64, i64) {
    let mut a = Archive::new();
    let cv = a
        .open_chunk("v.mp4".to_string(), StreamKind::Video, 0)
        .unwrap();
    let ca = a
        .open_chunk("a.mp4".to_string(), StreamKind::Audio, 0)
        .unwrap();
    let ov = a.record_unit(cv).unwrap();
    let oa = a.record_unit(ca).unwrap();
    let frame_id = a
        .insert_ocr(
            "text".to_string(),
            10,
            cv,
            ov,
            "editor".to_string(),
            "win".to_string(),
        )
        .unwrap();
    let audio_id = a.insert_audio("speech".to_string(), 20, ca, oa).unwrap();
    (a, frame_id, audio_id)
}

#[test]
fn adding_the_same_tag_twice_leaves_one_instance() {
    let (mut a, frame_id, _) = archive_with_one_of_each();
    let tags = vec!["debug".to_string()];
    a.add_tags(frame_id, TagContentType::Vision, &tags).unwrap();
    a.add_tags(frame_id, TagContentType::Vision, &tags).unwrap();
    let row = a.ocr_at(0);
    assert_eq!(row.tags, vec!["debug".to_string()]);
    // the derived full-text row carries the same single instance
    assert_eq!(a.fts_at(0).tags, vec!["debug".to_string()]);
}

#[test]
fn adding_a_duplicated_list_attaches_each_label_once() {
    let (mut a, frame_id, _) = archive_with_one_of_each();
    let tags = vec!["a".to_string(), "b".to_string(), "a".to_string()];
    a.add_tags(frame_id, TagContentType::Vision, &tags).unwrap();
    assert_eq!(a.ocr_at(0).tags, vec!["a".to_string(), "b".to_string()]);
}

#[test]
fn removing_an_absent_tag_is_a_no_op() {
    let (mut a, _, audio_id) = archive_with_one_of_each();
    a.add_tags(audio_id, TagContentType::Audio, &vec!["keep".to_string()])
        .unwrap();
    let r = a.remove_tags(audio_id, TagContentType::Audio, &vec!["absent".to_string()]);
    assert_eq!(r, Ok(()));
    assert_eq!(a.audio_at(0).tags, vec!["keep".to_string()]);
}

#[test]
fn removing_a_tag_detaches_it_and_keeps_the_rest_in_order() {
    let (mut a, frame_id, _) = archive_with_one_of_each();
    let tags = vec!["one".to_string(), "two".to_string(), "three".to_string()];
    a.add_tags(frame_id, TagContentType::Vision, &tags).unwrap();
    a.remove_tags(frame_id, TagContentType::Vision, &vec!["two".to_string()])
        .unwrap();
    assert_eq!(
        a.ocr_at(0).tags,
        vec!["one".to_string(), "three".to_string()]
    );
    assert_eq!(
        a.fts_at(0).tags,
        vec!["one".to_string(), "three".to_string()]
    );
}

#[test]
fn vision_and_audio_tags_are_independent() {
    let (mut a, frame_id, audio_id) = archive_with_one_of_each();
    a.add_tags(frame_id, TagContentType::Vision, &vec!["v".to_string()])
        .unwrap();
    a.add_tags(audio_id, TagContentType::Audio, &vec!["a".to_string()])
        .unwrap();
    assert_eq!(a.ocr_at(0).tags, vec!["v".to_string()]);
    assert_eq!(a.audio_at(0).tags, vec!["a".to_string()]);
}
