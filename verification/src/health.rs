//! Health status derived from the freshness of the most recent frame and
//! audio timestamps: "Loading" during the startup grace period, then per
//! modality "OK", "Stale" past the freshness threshold, or "No data".

use vstd::prelude::*;
use vstd::string::StringExecFns;

use crate::archive::Archive;

verus! {

/// A modality older than this many milliseconds is stale.
pub const FRESHNESS_THRESHOLD_MS: i64 = 60_000;

/// For this many milliseconds after startup, health reports "Loading".
pub const LOADING_GRACE_MS: i64 = 120_000;

/// How fresh a modality's most recent capture is.
#[derive(Clone, Copy, PartialEq, Eq, Structural, Debug)]
pub enum Freshness {
    Fresh,
    Stale,
    Absent,
}

/// A modality is fresh while its last capture is younger than the threshold,
/// stale once it is older, absent while it never captured anything.
pub open spec fn freshness_of(now: i64, last: Option<i64>) -> Freshness {
    match last {
        Some(ts) => if now - ts < FRESHNESS_THRESHOLD_MS {
            Freshness::Fresh
        } else {
            Freshness::Stale
        },
        None => Freshness::Absent,
    }
}

pub open spec fn freshness_text(f: Freshness) -> Seq<char> {
    match f {
        Freshness::Fresh => "OK"@,
        Freshness::Stale => "Stale"@,
        Freshness::Absent => "No data"@,
    }
}

/// Whether the process is still inside its startup grace period.
pub open spec fn still_loading(now: i64, app_start: i64) -> bool {
    now - app_start < LOADING_GRACE_MS
}

/// The health report handed to consumers.
pub struct HealthCheckResponse {
    pub status: String,
    pub last_frame_timestamp: Option<i64>,
    pub last_audio_timestamp: Option<i64>,
    pub frame_status: String,
    pub audio_status: String,
    pub message: String,
    pub verbose_instructions: Option<String>,
}

pub struct HealthV {
    pub status: Seq<char>,
    pub last_frame_timestamp: Option<i64>,
    pub last_audio_timestamp: Option<i64>,
    pub frame_status: Seq<char>,
    pub audio_status: Seq<char>,
    pub message: Seq<char>,
    pub verbose_instructions: Option<Seq<char>>,
}

impl DeepView for HealthCheckResponse {
    type V = HealthV;

    open spec fn deep_view(&self) -> HealthV {
        HealthV {
            status: self.status@,
            last_frame_timestamp: self.last_frame_timestamp,
            last_audio_timestamp: self.last_audio_timestamp,
            frame_status: self.frame_status@,
            audio_status: self.audio_status@,
            message: self.message@,
            verbose_instructions: self.verbose_instructions.deep_view(),
        }
    }
}

pub open spec fn loading_text() -> Seq<char> {
    "The application is still initializing. Please wait..."@
}

pub open spec fn healthy_text() -> Seq<char> {
    "All systems are functioning normally."@
}

pub open spec fn instructions_text() -> Seq<char> {
    "If you're experiencing issues, please try restarting the application, and check your audio and screen recording permissions."@
}

/// The unhealthy message names both modality statuses.
pub open spec fn unhealthy_text(frame: Freshness, audio: Freshness) -> Seq<char> {
    "Some systems are not functioning properly. Frame status: "@ + freshness_text(frame)
        + ", Audio status: "@ + freshness_text(audio)
}

/// The health report for a clock reading, a startup time and the two latest
/// capture timestamps.
pub open spec fn health_v(
    now: i64,
    app_start: i64,
    last_frame: Option<i64>,
    last_audio: Option<i64>,
) -> HealthV {
    if still_loading(now, app_start) {
        HealthV {
            status: "Loading"@,
            last_frame_timestamp: last_frame,
            last_audio_timestamp: last_audio,
            frame_status: "Loading"@,
            audio_status: "Loading"@,
            message: loading_text(),
            verbose_instructions: None,
        }
    } else {
        let frame = freshness_of(now, last_frame);
        let audio = freshness_of(now, last_audio);
        let healthy = frame is Fresh && audio is Fresh;
        HealthV {
            status: if healthy {
                "Healthy"@
            } else {
                "Unhealthy"@
            },
            last_frame_timestamp: last_frame,
            last_audio_timestamp: last_audio,
            frame_status: freshness_text(frame),
            audio_status: freshness_text(audio),
            message: if healthy {
                healthy_text()
            } else {
                unhealthy_text(frame, audio)
            },
            verbose_instructions: if healthy {
                None
            } else {
                Some(instructions_text())
            },
        }
    }
}

/// How fresh a modality is at clock reading `now`.
pub fn freshness(now: i64, last: Option<i64>) -> (r: Freshness)
    ensures
        r == freshness_of(now, last),
{
    match last {
        Some(ts) => {
            if (now as i128) - (ts as i128) < FRESHNESS_THRESHOLD_MS as i128 {
                Freshness::Fresh
            } else {
                Freshness::Stale
            }
        },
        None => Freshness::Absent,
    }
}

fn freshness_string(f: Freshness) -> (r: String)
    ensures
        r@ == freshness_text(f),
{
    match f {
        Freshness::Fresh => String::from_str("OK"),
        Freshness::Stale => String::from_str("Stale"),
        Freshness::Absent => String::from_str("No data"),
    }
}

/// The health report: "Loading" during the startup grace period; after it,
/// each modality is "OK", "Stale" or "No data" against the freshness
/// threshold, the overall status is "Healthy" exactly when both are "OK",
/// and instructions are attached exactly when it is not.
pub fn compute_health(
    now: i64,
    app_start: i64,
    last_frame: Option<i64>,
    last_audio: Option<i64>,
) -> (r: HealthCheckResponse)
    ensures
        r.deep_view() == health_v(now, app_start, last_frame, last_audio),
{
    if (now as i128) - (app_start as i128) < LOADING_GRACE_MS as i128 {
        return HealthCheckResponse {
            status: String::from_str("Loading"),
            last_frame_timestamp: last_frame,
            last_audio_timestamp: last_audio,
            frame_status: String::from_str("Loading"),
            audio_status: String::from_str("Loading"),
            message: String::from_str("The application is still initializing. Please wait..."),
            verbose_instructions: None,
        };
    }
    let frame = freshness(now, last_frame);
    let audio = freshness(now, last_audio);
    let frame_status = freshness_string(frame);
    let audio_status = freshness_string(audio);
    let healthy = match (frame, audio) {
        (Freshness::Fresh, Freshness::Fresh) => true,
        _ => false,
    };
    if healthy {
        HealthCheckResponse {
            status: String::from_str("Healthy"),
            last_frame_timestamp: last_frame,
            last_audio_timestamp: last_audio,
            frame_status,
            audio_status,
            message: String::from_str("All systems are functioning normally."),
            verbose_instructions: None,
        }
    } else {
        let mut message = String::from_str(
            "Some systems are not functioning properly. Frame status: ",
        );
        message.append(frame_status.as_str());
        message.append(", Audio status: ");
        message.append(audio_status.as_str());
        HealthCheckResponse {
            status: String::from_str("Unhealthy"),
            last_frame_timestamp: last_frame,
            last_audio_timestamp: last_audio,
            frame_status,
            audio_status,
            message,
            verbose_instructions: Some(
                String::from_str(
                    "If you're experiencing issues, please try restarting the application, and check your audio and screen recording permissions.",
                ),
            ),
        }
    }
}

/// Relies on chrono's `Utc::now` and `DateTime::timestamp_millis`: the
/// current UTC wall-clock time as milliseconds since the Unix epoch.
/// `Utc::now` returns only when the clock reads at or after the epoch, so
/// the reading is never negative; nothing further can be promised of a
/// clock.
#[verifier::external_body]
fn now_timestamp_ms() -> (r: i64)
    ensures
        0 <= r,
{
    chrono::Utc::now().timestamp_millis()
}

/// The live health report of an archive: reads the clock, takes the latest
/// capture timestamps, and derives the statuses. The report equals
/// `health_v` at some non-negative clock reading; which reading the clock
/// gave cannot be promised.
pub fn health_check(archive: &Archive, app_start: i64) -> (r: HealthCheckResponse)
    requires
        archive.wf(),
    ensures
        exists|now: i64|
            0 <= now && r.deep_view() == #[trigger] health_v(
                now,
                app_start,
                crate::archive::latest_frame_ts(archive@),
                crate::archive::latest_audio_ts(archive@),
            ),
{
    let (last_frame, last_audio) = archive.get_latest_timestamps();
    let now = now_timestamp_ms();
    compute_health(now, app_start, last_frame, last_audio)
}

} // verus!
