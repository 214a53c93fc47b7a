use screenpipe_server::api::{
    add_tags_api, list_device_responses, monitor_infos, parse_tag_content_type, remove_tags_api,
    AddTagsRequest, ApiError, RemoveTagsRequest,
};
use screenpipe_server::archive::{Archive, StreamKind, TagContentType};
use screenpipe_server::devices::{Device, DeviceKind, DeviceRegistry, DeviceState, MonitorData};

fn archive_with_rows() -> (Archive, i64, i64) {
    let mut a = Archive::new();
    let cv = a
        .open_chunk("v.mp4".to_string(), StreamKind::Video, 0)
        .unwrap();
    let ca = a
        .open_chunk("a.mp4".to_string(), StreamKind::Audio, 0)
        .unwrap();
    let ov = a.record_unit(cv).unwrap();
    let oa = a.record_unit(ca).unwrap();
    let fid = a
        .insert_ocr("t".to_string(), 1, cv, ov, "app".to_string(), "win".to_string())
        .unwrap();
    let aid = a.insert_audio("s".to_string(), 2, ca, oa).unwrap();
    (a, fid, aid)
}

#[test]
fn content_type_path_segment_parses_exactly_vision_and_audio() {
    assert_eq!(
        parse_tag_content_type(&"vision".to_string()),
        Some(TagContentType::Vision)
    );
    assert_eq!(
        parse_tag_content_type(&"audio".to_string()),
        Some(TagContentType::Audio)
    );
    assert_eq!(parse_tag_content_type(&"video".to_string()), None);
    assert_eq!(parse_tag_content_type(&"Vision".to_string()), None);
    assert_eq!(parse_tag_content_type(&"".to_string()), None);
}

#[test]
fn tag_endpoints_refuse_an_invalid_content_type() {
    let (mut a, fid, _) = archive_with_rows();
    let add = add_tags_api(
        &mut a,
        &"video".to_string(),
        fid,
        &AddTagsRequest { tags: vec!["x".to_string()] },
    );
    assert_eq!(add.unwrap_err(), ApiError::InvalidContentType);
    let rem = remove_tags_api(
        &mut a,
        &"".to_string(),
        fid,
        &RemoveTagsRequest { tags: vec!["x".to_string()] },
    );
    assert_eq!(rem.unwrap_err(), ApiError::InvalidContentType);
}

#[test]
fn tag_endpoints_attach_and_detach_through_the_archive() {
    let (mut a, fid, aid) = archive_with_rows();
    let resp = add_tags_api(
        &mut a,
        &"vision".to_string(),
        fid,
        &AddTagsRequest { tags: vec!["work".to_string()] },
    )
    .unwrap();
    assert!(resp.success);
    assert_eq!(a.ocr_at(0).tags, vec!["work".to_string()]);

    let resp = add_tags_api(
        &mut a,
        &"audio".to_string(),
        aid,
        &AddTagsRequest { tags: vec!["call".to_string()] },
    )
    .unwrap();
    assert!(resp.success);
    assert_eq!(a.audio_at(0).tags, vec!["call".to_string()]);

    let resp = remove_tags_api(
        &mut a,
        &"vision".to_string(),
        fid,
        &RemoveTagsRequest { tags: vec!["work".to_string()] },
    )
    .unwrap();
    assert!(resp.success);
    assert!(a.ocr_at(0).tags.is_empty());
}

#[test]
fn tag_endpoints_report_an_unknown_id() {
    let (mut a, _, _) = archive_with_rows();
    let r = add_tags_api(
        &mut a,
        &"vision".to_string(),
        999,
        &AddTagsRequest { tags: vec!["x".to_string()] },
    );
    assert_eq!(r.unwrap_err(), ApiError::TagTargetNotFound);
}

fn device(name: &str, kind: DeviceKind) -> Device {
    Device {
        name: name.to_string(),
        kind,
        state: DeviceState::Stopped,
    }
}

#[test]
fn device_listing_marks_the_defaults() {
    let devices = vec![
        device("Built-in Microphone", DeviceKind::Input),
        device("USB Headset", DeviceKind::Input),
        device("Speakers", DeviceKind::Output),
    ];
    let out = list_device_responses(
        &devices,
        &"Built-in Microphone".to_string(),
        &"Speakers".to_string(),
    )
    .unwrap();
    assert_eq!(out.len(), 3);
    assert!(out[0].is_default);
    assert!(!out[1].is_default);
    assert!(out[2].is_default);
    assert_eq!(out[1].name, "USB Headset");
}

#[test]
fn an_empty_device_list_is_an_error() {
    let r = list_device_responses(&Vec::new(), &"in".to_string(), &"out".to_string());
    assert_eq!(r.unwrap_err(), ApiError::NoAudioDevices);
}

#[test]
fn monitor_listing_copies_the_fields_and_marks_the_primary() {
    let monitors = vec![
        MonitorData {
            id: 1,
            name: "Main".to_string(),
            width: 2560,
            height: 1440,
            is_primary: true,
        },
        MonitorData {
            id: 2,
            name: "Side".to_string(),
            width: 1920,
            height: 1080,
            is_primary: false,
        },
    ];
    let out = monitor_infos(&monitors).unwrap();
    assert_eq!(out.len(), 2);
    assert_eq!(out[0].id, 1);
    assert_eq!(out[0].name, "Main");
    assert_eq!(out[0].width, 2560);
    assert_eq!(out[0].height, 1440);
    assert!(out[0].is_default);
    assert!(!out[1].is_default);
}

#[test]
fn an_empty_monitor_list_is_an_error() {
    assert_eq!(monitor_infos(&Vec::new()).unwrap_err(), ApiError::NoMonitors);
}

#[test]
fn the_registry_resolves_names_and_owns_state_changes() {
    let mut reg = DeviceRegistry::new();
    let mic = reg
        .register("Built-in Microphone".to_string(), DeviceKind::Input)
        .unwrap();
    let spk = reg
        .register("Speakers".to_string(), DeviceKind::Output)
        .unwrap();
    assert_eq!(reg.len(), 2);
    assert!(reg
        .register("Speakers".to_string(), DeviceKind::Output)
        .is_err());
    assert_eq!(reg.resolve(&"Speakers".to_string()), Some(spk));
    assert_eq!(reg.resolve(&"Missing".to_string()), None);
    reg.set_state(mic, DeviceState::Running).unwrap();
    assert_eq!(reg.at(mic).state, DeviceState::Running);
    assert_eq!(reg.at(spk).state, DeviceState::Stopped);
    assert!(reg.set_state(99, DeviceState::Paused).is_err());
}
