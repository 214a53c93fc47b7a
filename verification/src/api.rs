//! The operations exposed to the transport layer, as plain-value functions:
//! tag attachment and removal by `(content type, id)`, and the audio-device
//! and monitor listings. The transport itself (routing, status codes, JSON)
//! lives outside; it hands these functions the extracted values and renders
//! what they return.

use vstd::prelude::*;
use vstd::string::StringExecFns;

use crate::archive::Archive;
use crate::archive::ArchiveError;
use crate::archive::TagContentType;
use crate::archive::add_labels;
use crate::archive::audio_with_tags;
use crate::archive::fts_of;
use crate::archive::ocr_with_tags;
use crate::archive::remove_labels;
use crate::devices::Device;
use crate::devices::MonitorData;
use crate::devices::MonitorInfo;

verus! {

/// Why an exposed operation was refused; the transport maps each variant to
/// its status code.
#[derive(Clone, Copy, PartialEq, Eq, Structural, Debug)]
pub enum ApiError {
    /// The content type in the path is neither "vision" nor "audio".
    InvalidContentType,
    /// No row carries the addressed content id.
    TagTargetNotFound,
    /// The archive refused the operation for another reason.
    TagStoreFailure,
    /// No audio devices are available.
    NoAudioDevices,
    /// No monitors are available.
    NoMonitors,
}

pub struct AddTagsRequest {
    pub tags: Vec<String>,
}

#[derive(Debug)]
pub struct AddTagsResponse {
    pub success: bool,
}

pub struct RemoveTagsRequest {
    pub tags: Vec<String>,
}

#[derive(Debug)]
pub struct RemoveTagsResponse {
    pub success: bool,
}

/// The content kind a path segment names: exactly "vision" or "audio".
pub fn parse_tag_content_type(s: &String) -> (r: Option<TagContentType>)
    ensures
        r == Some(TagContentType::Vision) <==> s@ == "vision"@,
        r == Some(TagContentType::Audio) <==> s@ == "audio"@,
        r is None <==> s@ != "vision"@ && s@ != "audio"@,
{
    proof {
        reveal_strlit("vision");
        reveal_strlit("audio");
        assert("vision"@.len() == 6);
        assert("audio"@.len() == 5);
    }
    if s.eq(&String::from_str("vision")) {
        Some(TagContentType::Vision)
    } else if s.eq(&String::from_str("audio")) {
        Some(TagContentType::Audio)
    } else {
        None
    }
}

/// Attaches tags to the row addressed by `(content_type, id)`. The content
/// type is refused unless it is exactly "vision" or "audio"; the id is
/// refused exactly when no row of that kind carries it; otherwise the
/// archive attaches the tags idempotently and the call succeeds.
pub fn add_tags_api(
    archive: &mut Archive,
    content_type: &String,
    id: i64,
    request: &AddTagsRequest,
) -> (r: Result<AddTagsResponse, ApiError>)
    requires
        old(archive).wf(),
    ensures
        final(archive).wf(),
        final(archive)@.chunks == old(archive)@.chunks,
        final(archive)@.next_id == old(archive)@.next_id,
        content_type@ != "vision"@ && content_type@ != "audio"@ <==> r == Err::<
            AddTagsResponse,
            ApiError,
        >(ApiError::InvalidContentType),
        r is Err ==> final(archive)@ == old(archive)@,
        match r {
            Ok(resp) => {
                &&& resp.success
                &&& (content_type@ == "vision"@ ==> {
                    &&& final(archive)@.audio == old(archive)@.audio
                    &&& exists|k: int|
                        {
                            &&& 0 <= k < old(archive)@.ocr.len()
                            &&& (#[trigger] old(archive)@.ocr[k]).frame_id == id
                            &&& final(archive)@.ocr == old(archive)@.ocr.update(
                                k,
                                ocr_with_tags(
                                    old(archive)@.ocr[k],
                                    add_labels(
                                        old(archive)@.ocr[k].tags,
                                        request.tags.deep_view(),
                                    ),
                                ),
                            )
                        }
                })
                &&& (content_type@ == "audio"@ ==> {
                    &&& final(archive)@.ocr == old(archive)@.ocr
                    &&& exists|k: int|
                        {
                            &&& 0 <= k < old(archive)@.audio.len()
                            &&& (#[trigger] old(archive)@.audio[k]).audio_chunk_id == id
                            &&& final(archive)@.audio == old(archive)@.audio.update(
                                k,
                                audio_with_tags(
                                    old(archive)@.audio[k],
                                    add_labels(
                                        old(archive)@.audio[k].tags,
                                        request.tags.deep_view(),
                                    ),
                                ),
                            )
                        }
                })
            },
            Err(ApiError::TagTargetNotFound) => {
                &&& (content_type@ == "vision"@ ==> forall|i: int|
                    0 <= i < old(archive)@.ocr.len() ==> (#[trigger] old(
                        archive,
                    )@.ocr[i]).frame_id != id)
                &&& (content_type@ == "audio"@ ==> forall|i: int|
                    0 <= i < old(archive)@.audio.len() ==> (#[trigger] old(
                        archive,
                    )@.audio[i]).audio_chunk_id != id)
            },
            Err(ApiError::InvalidContentType) => true,
            Err(_) => false,
        },
{
    let ct = match parse_tag_content_type(content_type) {
        Some(ct) => ct,
        None => {
            return Err(ApiError::InvalidContentType);
        },
    };
    proof {
        reveal_strlit("vision");
        reveal_strlit("audio");
    }
    match archive.add_tags(id, ct, &request.tags) {
        Ok(()) => Ok(AddTagsResponse { success: true }),
        Err(ArchiveError::NotFound) => Err(ApiError::TagTargetNotFound),
        Err(_) => {
            proof {
                assert(false);
            }
            Err(ApiError::TagStoreFailure)
        },
    }
}

/// Detaches tags from the row addressed by `(content_type, id)`, with the
/// same addressing rules as attachment; detaching an absent tag is a no-op.
pub fn remove_tags_api(
    archive: &mut Archive,
    content_type: &String,
    id: i64,
    request: &RemoveTagsRequest,
) -> (r: Result<RemoveTagsResponse, ApiError>)
    requires
        old(archive).wf(),
    ensures
        final(archive).wf(),
        final(archive)@.chunks == old(archive)@.chunks,
        final(archive)@.next_id == old(archive)@.next_id,
        content_type@ != "vision"@ && content_type@ != "audio"@ <==> r == Err::<
            RemoveTagsResponse,
            ApiError,
        >(ApiError::InvalidContentType),
        r is Err ==> final(archive)@ == old(archive)@,
        match r {
            Ok(resp) => {
                &&& resp.success
                &&& (content_type@ == "vision"@ ==> {
                    &&& final(archive)@.audio == old(archive)@.audio
                    &&& exists|k: int|
                        {
                            &&& 0 <= k < old(archive)@.ocr.len()
                            &&& (#[trigger] old(archive)@.ocr[k]).frame_id == id
                            &&& final(archive)@.ocr == old(archive)@.ocr.update(
                                k,
                                ocr_with_tags(
                                    old(archive)@.ocr[k],
                                    remove_labels(
                                        old(archive)@.ocr[k].tags,
                                        request.tags.deep_view(),
                                    ),
                                ),
                            )
                        }
                })
                &&& (content_type@ == "audio"@ ==> {
                    &&& final(archive)@.ocr == old(archive)@.ocr
                    &&& exists|k: int|
                        {
                            &&& 0 <= k < old(archive)@.audio.len()
                            &&& (#[trigger] old(archive)@.audio[k]).audio_chunk_id == id
                            &&& final(archive)@.audio == old(archive)@.audio.update(
                                k,
                                audio_with_tags(
                                    old(archive)@.audio[k],
                                    remove_labels(
                                        old(archive)@.audio[k].tags,
                                        request.tags.deep_view(),
                                    ),
                                ),
                            )
                        }
                })
            },
            Err(ApiError::TagTargetNotFound) => {
                &&& (content_type@ == "vision"@ ==> forall|i: int|
                    0 <= i < old(archive)@.ocr.len() ==> (#[trigger] old(
                        archive,
                    )@.ocr[i]).frame_id != id)
                &&& (content_type@ == "audio"@ ==> forall|i: int|
                    0 <= i < old(archive)@.audio.len() ==> (#[trigger] old(
                        archive,
                    )@.audio[i]).audio_chunk_id != id)
            },
            Err(ApiError::InvalidContentType) => true,
            Err(_) => false,
        },
{
    let ct = match parse_tag_content_type(content_type) {
        Some(ct) => ct,
        None => {
            return Err(ApiError::InvalidContentType);
        },
    };
    proof {
        reveal_strlit("vision");
        reveal_strlit("audio");
    }
    match archive.remove_tags(id, ct, &request.tags) {
        Ok(()) => Ok(RemoveTagsResponse { success: true }),
        Err(ArchiveError::NotFound) => Err(ApiError::TagTargetNotFound),
        Err(_) => {
            proof {
                assert(false);
            }
            Err(ApiError::TagStoreFailure)
        },
    }
}

/// One audio device as reported to consumers.
#[derive(Debug)]
pub struct ListDeviceResponse {
    pub name: String,
    pub is_default: bool,
}

pub struct ListDeviceResponseV {
    pub name: Seq<char>,
    pub is_default: bool,
}

impl DeepView for ListDeviceResponse {
    type V = ListDeviceResponseV;

    open spec fn deep_view(&self) -> ListDeviceResponseV {
        ListDeviceResponseV { name: self.name@, is_default: self.is_default }
    }
}

/// The audio-device listing: every available device by name, marked default
/// exactly when it is the default input or the default output device. An
/// empty device list is an error, not an empty listing.
pub fn list_device_responses(
    devices: &Vec<Device>,
    default_input: &String,
    default_output: &String,
) -> (r: Result<Vec<ListDeviceResponse>, ApiError>)
    ensures
        match r {
            Ok(v) => {
                &&& devices@.len() > 0
                &&& v.deep_view().len() == devices.deep_view().len()
                &&& forall|i: int|
                    0 <= i < v.deep_view().len() ==> {
                        &&& (#[trigger] v.deep_view()[i]).name == devices.deep_view()[i].name
                        &&& v.deep_view()[i].is_default == (devices.deep_view()[i].name
                            == default_input@ || devices.deep_view()[i].name == default_output@)
                    }
            },
            Err(e) => e == ApiError::NoAudioDevices && devices@.len() == 0,
        },
{
    if devices.len() == 0 {
        return Err(ApiError::NoAudioDevices);
    }
    let mut out: Vec<ListDeviceResponse> = Vec::new();
    let mut i: usize = 0;
    while i < devices.len()
        invariant
            0 <= i <= devices.len(),
            devices.deep_view().len() == devices@.len(),
            out.deep_view().len() == i,
            forall|k: int|
                0 <= k < i ==> {
                    &&& (#[trigger] out.deep_view()[k]).name == devices.deep_view()[k].name
                    &&& out.deep_view()[k].is_default == (devices.deep_view()[k].name
                        == default_input@ || devices.deep_view()[k].name == default_output@)
                },
        decreases devices.len() - i,
    {
        let d = &devices[i];
        let is_default = d.name.eq(default_input) || d.name.eq(default_output);
        let ghost prev = out@;
        out.push(ListDeviceResponse { name: d.name.clone(), is_default });
        proof {
            crate::archive::lemma_deep_view_push(prev, out@[prev.len() as int]);
        }
        i += 1;
    }
    Ok(out)
}

/// The monitor listing: every available monitor, marked default exactly when
/// it is the primary one. An empty monitor list is an error.
pub fn monitor_infos(monitors: &Vec<MonitorData>) -> (r: Result<Vec<MonitorInfo>, ApiError>)
    ensures
        match r {
            Ok(v) => {
                &&& monitors@.len() > 0
                &&& v.deep_view().len() == monitors.deep_view().len()
                &&& forall|i: int|
                    0 <= i < v.deep_view().len() ==> {
                        &&& (#[trigger] v.deep_view()[i]).id == monitors.deep_view()[i].id
                        &&& v.deep_view()[i].name == monitors.deep_view()[i].name
                        &&& v.deep_view()[i].width == monitors.deep_view()[i].width
                        &&& v.deep_view()[i].height == monitors.deep_view()[i].height
                        &&& v.deep_view()[i].is_default == monitors.deep_view()[i].is_primary
                    }
            },
            Err(e) => e == ApiError::NoMonitors && monitors@.len() == 0,
        },
{
    if monitors.len() == 0 {
        return Err(ApiError::NoMonitors);
    }
    let mut out: Vec<MonitorInfo> = Vec::new();
    let mut i: usize = 0;
    while i < monitors.len()
        invariant
            0 <= i <= monitors.len(),
            monitors.deep_view().len() == monitors@.len(),
            out.deep_view().len() == i,
            forall|k: int|
                0 <= k < i ==> {
                    &&& (#[trigger] out.deep_view()[k]).id == monitors.deep_view()[k].id
                    &&& out.deep_view()[k].name == monitors.deep_view()[k].name
                    &&& out.deep_view()[k].width == monitors.deep_view()[k].width
                    &&& out.deep_view()[k].height == monitors.deep_view()[k].height
                    &&& out.deep_view()[k].is_default == monitors.deep_view()[k].is_primary
                },
        decreases monitors.len() - i,
    {
        let m = &monitors[i];
        let ghost prev = out@;
        out.push(
            MonitorInfo {
                id: m.id,
                name: m.name.clone(),
                width: m.width,
                height: m.height,
                is_default: m.is_primary,
            },
        );
        proof {
            crate::archive::lemma_deep_view_push(prev, out@[prev.len() as int]);
        }
        i += 1;
    }
    Ok(out)
}

} // verus!
