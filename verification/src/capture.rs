//! The capture-loop state machines. The shell performs the device work (grab
//! a frame, run the OCR engine, pull a PCM block, ask the voice-activity
//! detector) and hands the outcome to these steps; the steps make every
//! decision: which windows to keep, what timestamp a frame gets, when a
//! failing monitor is escalated, and where an audio segment ends.

use vstd::prelude::*;

use crate::text::contains_seq;
use crate::text::str_contains;

verus! {

/// One window's recognized text within a captured frame.
pub struct WindowOcr {
    pub app_name: String,
    pub window_name: String,
    pub text: String,
}

pub struct WindowOcrV {
    pub app_name: Seq<char>,
    pub window_name: Seq<char>,
    pub text: Seq<char>,
}

impl DeepView for WindowOcr {
    type V = WindowOcrV;

    open spec fn deep_view(&self) -> WindowOcrV {
        WindowOcrV {
            app_name: self.app_name@,
            window_name: self.window_name@,
            text: self.text@,
        }
    }
}

/// Whether a window is included by the allow/deny lists: a window matching
/// any deny entry is excluded whatever else matches; with a non-empty allow
/// list a window must match one of its entries; an empty allow list admits
/// every window. An entry matches when it occurs in the window's name.
pub open spec fn window_allowed(name: Seq<char>, allow: Seq<Seq<char>>, deny: Seq<Seq<char>>) -> bool {
    &&& !(exists|i: int| 0 <= i < deny.len() && contains_seq(name, #[trigger] deny[i]))
    &&& (allow.len() == 0 || exists|i: int|
        0 <= i < allow.len() && contains_seq(name, #[trigger] allow[i]))
}

/// The windows of a frame that pass the allow/deny lists, in capture order.
pub open spec fn kept_windows(ws: Seq<WindowOcrV>, allow: Seq<Seq<char>>, deny: Seq<Seq<char>>) -> Seq<
    WindowOcrV,
>
    decreases ws.len(),
{
    if ws.len() == 0 {
        Seq::empty()
    } else {
        let pre = kept_windows(ws.drop_last(), allow, deny);
        if window_allowed(ws.last().window_name, allow, deny) {
            pre.push(ws.last())
        } else {
            pre
        }
    }
}

/// Whether any entry of `list` occurs in `name`.
fn any_entry_matches(name: &String, list: &Vec<String>) -> (r: bool)
    ensures
        r == exists|i: int|
            0 <= i < list.deep_view().len() && contains_seq(name@, #[trigger] list.deep_view()[i]),
{
    let mut i: usize = 0;
    while i < list.len()
        invariant
            0 <= i <= list.len(),
            forall|k: int| 0 <= k < i ==> !contains_seq(name@, #[trigger] list.deep_view()[k]),
        decreases list.len() - i,
    {
        if str_contains(name.as_str(), list[i].as_str()) {
            assert(contains_seq(name@, list.deep_view()[i as int]));
            return true;
        }
        i += 1;
    }
    false
}

/// Whether the allow/deny lists include this window.
pub fn window_included(name: &String, allow: &Vec<String>, deny: &Vec<String>) -> (r: bool)
    ensures
        r == window_allowed(name@, allow.deep_view(), deny.deep_view()),
{
    if any_entry_matches(name, deny) {
        return false;
    }
    if allow.len() == 0 {
        return true;
    }
    any_entry_matches(name, allow)
}

/// Configuration of one monitor's capture loop.
pub struct VisionConfig {
    pub allow: Vec<String>,
    pub deny: Vec<String>,
    pub max_consecutive_failures: u64,
}

impl VisionConfig {
    pub open spec fn wf(&self) -> bool {
        self.max_consecutive_failures >= 1
    }
}

/// The state of one monitor's capture loop.
pub struct VisionState {
    pub monitor_id: u32,
    pub has_captured: bool,
    pub last_timestamp: i64,
    pub failures: u64,
}

impl VisionState {
    /// A fresh loop state for one monitor: nothing captured, no failures.
    pub fn new(monitor_id: u32) -> (r: VisionState)
        ensures
            r.monitor_id == monitor_id,
            r.last_timestamp == 0,
            !r.has_captured,
            r.failures == 0,
    {
        VisionState { monitor_id, has_captured: false, last_timestamp: 0, failures: 0 }
    }
}

/// What one capture tick produced: the OCR engine's window results, or a
/// capture/engine failure.
pub enum CaptureOutcome {
    Captured(Vec<WindowOcr>),
    Failed,
}

/// One frame as the loop emits it downstream. A frame with no window results
/// is still emitted (it feeds liveness), it just contributes no OCR rows.
pub struct FrameRecord {
    pub monitor_id: u32,
    pub timestamp: i64,
    pub windows: Vec<WindowOcr>,
}

/// What the loop decided on one tick.
pub struct VisionStepResult {
    pub emit: Option<FrameRecord>,
    pub escalate: bool,
}

/// The timestamp the next emitted frame gets: the clock reading, pushed just
/// past the previous frame when the clock has not advanced, so timestamps
/// within one monitor's stream are strictly increasing.
pub open spec fn next_capture_ts(st: VisionState, now: i64) -> i64 {
    if now > st.last_timestamp {
        now
    } else if st.last_timestamp < i64::MAX - 1 {
        (st.last_timestamp + 1) as i64
    } else {
        st.last_timestamp
    }
}

/// One tick of a monitor's capture loop. A captured frame is emitted with a
/// strictly increasing timestamp and its windows filtered by the allow/deny
/// lists, and resets the failure count. A failed tick emits nothing and
/// keeps the loop alive; only `max_consecutive_failures` failures in a row
/// escalate the monitor as fatal.
pub fn vision_step(
    state: &mut VisionState,
    cfg: &VisionConfig,
    now: i64,
    outcome: CaptureOutcome,
) -> (r: VisionStepResult)
    requires
        cfg.wf(),
        now < i64::MAX,
    ensures
        final(state).monitor_id == old(state).monitor_id,
        match outcome {
            CaptureOutcome::Captured(ws) => {
                &&& !r.escalate
                &&& final(state).failures == 0
                &&& final(state).has_captured
                &&& final(state).last_timestamp == next_capture_ts(*old(state), now)
                &&& old(state).has_captured ==> final(state).last_timestamp >= old(
                    state,
                ).last_timestamp
                &&& (old(state).has_captured && old(state).last_timestamp < i64::MAX - 1)
                    ==> final(state).last_timestamp > old(state).last_timestamp
                &&& r.emit matches Some(fr) && {
                    &&& fr.monitor_id == old(state).monitor_id
                    &&& fr.timestamp == next_capture_ts(*old(state), now)
                    &&& fr.windows.deep_view() == kept_windows(
                        ws.deep_view(),
                        cfg.allow.deep_view(),
                        cfg.deny.deep_view(),
                    )
                }
            },
            CaptureOutcome::Failed => {
                &&& r.emit is None
                &&& final(state).has_captured == old(state).has_captured
                &&& final(state).last_timestamp == old(state).last_timestamp
                &&& final(state).failures == (if old(state).failures
                    < cfg.max_consecutive_failures {
                    (old(state).failures + 1) as u64
                } else {
                    old(state).failures
                })
                &&& r.escalate == (final(state).failures >= cfg.max_consecutive_failures)
            },
        },
{
    match outcome {
        CaptureOutcome::Captured(ws) => {
            let ts = if now > state.last_timestamp {
                now
            } else if state.last_timestamp < i64::MAX - 1 {
                state.last_timestamp + 1
            } else {
                state.last_timestamp
            };
            let ghost ws0 = ws.deep_view();
            let mut remaining = ws;
            let mut kept: Vec<WindowOcr> = Vec::new();
            proof {
                assert(kept.deep_view() =~= kept_windows(
                    ws0.take(0),
                    cfg.allow.deep_view(),
                    cfg.deny.deep_view(),
                ));
                assert(remaining.deep_view() =~= ws0.skip(0));
            }
            let ghost consumed: int = 0;
            while remaining.len() > 0
                invariant
                    0 <= consumed <= ws0.len(),
                    consumed + remaining@.len() == ws0.len(),
                    kept.deep_view() == kept_windows(
                        ws0.take(consumed),
                        cfg.allow.deep_view(),
                        cfg.deny.deep_view(),
                    ),
                    remaining.deep_view() =~= ws0.skip(consumed),
                decreases remaining.len(),
            {
                let ghost re = remaining@;
                let ghost rd = remaining.deep_view();
                let ghost prev_kept = kept@;
                let w = remaining.remove(0);
                proof {
                    assert(w.deep_view() == rd[0]);
                    assert(rd[0] == ws0[consumed]);
                    assert(ws0.take(consumed + 1).drop_last() =~= ws0.take(consumed));
                    assert(ws0.take(consumed + 1).last() == ws0[consumed]);
                }
                if window_included(&w.window_name, &cfg.allow, &cfg.deny) {
                    kept.push(w);
                    proof {
                        crate::archive::lemma_deep_view_push(prev_kept, kept@[prev_kept.len() as int]);
                        assert(kept.deep_view() =~= kept_windows(
                            ws0.take(consumed + 1),
                            cfg.allow.deep_view(),
                            cfg.deny.deep_view(),
                        ));
                    }
                }
                proof {
                    crate::archive::lemma_deep_view_remove(re, 0);
                    assert(remaining.deep_view() =~= rd.drop_first());
                    assert(ws0.skip(consumed).drop_first() =~= ws0.skip(consumed + 1));
                    consumed = consumed + 1;
                }
            }
            proof {
                assert(ws0.take(ws0.len() as int) =~= ws0);
            }
            state.last_timestamp = ts;
            state.has_captured = true;
            state.failures = 0;
            VisionStepResult {
                emit: Some(FrameRecord { monitor_id: state.monitor_id, timestamp: ts, windows: kept }),
                escalate: false,
            }
        },
        CaptureOutcome::Failed => {
            if state.failures < cfg.max_consecutive_failures {
                state.failures = state.failures + 1;
            }
            VisionStepResult { emit: None, escalate: state.failures >= cfg.max_consecutive_failures }
        },
    }
}

/// Configuration of one audio device's capture loop.
pub struct AudioConfig {
    pub chunk_max_ms: u64,
}

impl AudioConfig {
    /// The duration bound is positive and small enough that segment
    /// accounting cannot overflow.
    pub open spec fn wf(&self) -> bool {
        0 < self.chunk_max_ms <= 0x4000_0000_0000
    }
}

/// The accumulation state of one audio device's capture loop.
pub struct AudioLoopState {
    pub in_speech: bool,
    pub seg_ms: u64,
    pub seg_has_speech: bool,
}

impl AudioLoopState {
    pub open spec fn wf(&self, cfg: AudioConfig) -> bool {
        self.seg_ms < cfg.chunk_max_ms
    }

    /// A fresh accumulation state: an empty segment, silence so far.
    pub fn new() -> (r: AudioLoopState)
        ensures
            !r.in_speech,
            r.seg_ms == 0,
            !r.seg_has_speech,
    {
        AudioLoopState { in_speech: false, seg_ms: 0, seg_has_speech: false }
    }
}

/// One finished audio segment: its duration and the detector's verdict over
/// its blocks. Only speech-bearing segments proceed to transcription.
pub struct SegmentRecord {
    pub duration_ms: u64,
    pub has_speech: bool,
}

/// A segment ends at the configured duration bound or at a speech-to-silence
/// transition, whichever comes first.
pub open spec fn segment_boundary(
    st: AudioLoopState,
    cfg: AudioConfig,
    block_ms: u64,
    is_speech: bool,
) -> bool {
    st.seg_ms + block_ms >= cfg.chunk_max_ms || (st.in_speech && !is_speech)
}

/// One block of one audio device's capture loop: accumulates the block into
/// the open segment and emits the segment exactly at a segment boundary. An
/// emitted segment carries every accumulated block's duration and whether
/// any of its blocks bore speech.
pub fn audio_step(state: &mut AudioLoopState, cfg: &AudioConfig, block_ms: u64, is_speech: bool) -> (r:
    Option<SegmentRecord>)
    requires
        old(state).wf(*cfg),
        cfg.wf(),
        block_ms <= 0x4000_0000_0000,
    ensures
        final(state).wf(*cfg),
        final(state).in_speech == is_speech,
        if segment_boundary(*old(state), *cfg, block_ms, is_speech) {
            &&& r matches Some(seg) && {
                &&& seg.duration_ms == old(state).seg_ms + block_ms
                &&& seg.has_speech == (old(state).seg_has_speech || is_speech)
            }
            &&& final(state).seg_ms == 0
            &&& !final(state).seg_has_speech
        } else {
            &&& r is None
            &&& final(state).seg_ms == old(state).seg_ms + block_ms
            &&& final(state).seg_has_speech == (old(state).seg_has_speech || is_speech)
        },
{
    let ms = state.seg_ms + block_ms;
    let has = state.seg_has_speech || is_speech;
    let boundary = ms >= cfg.chunk_max_ms || (state.in_speech && !is_speech);
    state.in_speech = is_speech;
    if boundary {
        state.seg_ms = 0;
        state.seg_has_speech = false;
        Some(SegmentRecord { duration_ms: ms, has_speech: has })
    } else {
        state.seg_ms = ms;
        state.seg_has_speech = has;
        None
    }
}

/// Whether a finished segment proceeds to transcription: only speech-bearing
/// segments do.
pub fn should_transcribe(seg: &SegmentRecord) -> (r: bool)
    ensures
        r == seg.has_speech,
{
    seg.has_speech
}

/// The voice-activity detector's configurable sensitivity.
#[derive(Clone, Copy, PartialEq, Eq, Structural, Debug)]
pub enum VadSensitivity {
    Low,
    Medium,
    High,
}

/// The internal speech-probability threshold (in per mille) a sensitivity
/// level maps to: the higher the sensitivity, the lower the bar a block must
/// clear to count as speech.
pub fn sensitivity_threshold_permille(s: VadSensitivity) -> (r: u32)
    ensures
        s == VadSensitivity::Low ==> r == 900,
        s == VadSensitivity::Medium ==> r == 700,
        s == VadSensitivity::High ==> r == 500,
{
    match s {
        VadSensitivity::Low => 900,
        VadSensitivity::Medium => 700,
        VadSensitivity::High => 500,
    }
}

} // verus!
