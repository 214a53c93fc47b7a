//! Capture-to-archive pipeline and retrieval layer for a continuous
//! screen/audio recorder.
//!
//! The library models the durable archive (OCR rows, audio-transcript rows,
//! a derived full-text index and a tag relation), the chunk writer that
//! assigns every captured unit a `(chunk, offset)` address, the capture-loop
//! and orchestrator state machines, and the search/health logic served to
//! clients. Everything here is verified; the process shell (HTTP transport,
//! device I/O, engines) lives outside and talks to this crate in plain
//! values.

pub mod api;
pub mod archive;
pub mod capture;
pub mod devices;
pub mod health;
pub mod orchestrator;
pub mod retrieval;
pub mod text;
pub mod transcription;
pub mod writer;

use vstd::prelude::*;

verus! {

/// Default page size for search requests that do not name one.
pub fn default_limit() -> (r: u32)
    ensures
        r == 20,
{
    20
}

} // verus!
