//! The transcription stage's retry policy. The engine itself (local or
//! cloud) is an external collaborator; this module decides, for each engine
//! outcome, whether the segment's text is persisted, retried with backoff,
//! or — after the attempts are exhausted — persisted with empty text rather
//! than dropped, so the audio chunk and its timing stay queryable.

use vstd::prelude::*;

verus! {

/// Bounded retry with exponential backoff.
pub struct RetryPolicy {
    pub max_attempts: u32,
    pub base_backoff_ms: u64,
}

impl RetryPolicy {
    /// The base backoff is positive and small enough that doubling it a
    /// capped number of times cannot overflow.
    pub open spec fn wf(&self) -> bool {
        &&& self.max_attempts >= 1
        &&& 1 <= self.base_backoff_ms <= 0x1_0000_0000
    }
}

/// Doubling is capped at this many times; waits beyond it gain nothing.
pub const BACKOFF_DOUBLING_CAP: u32 = 16;

/// The backoff before retry number `attempt + 1`: the base doubled once per
/// attempt already made, capped.
pub open spec fn backoff_ms(base: u64, attempt: u32) -> int
    decreases attempt,
{
    if attempt == 0 || attempt > BACKOFF_DOUBLING_CAP {
        if attempt > BACKOFF_DOUBLING_CAP {
            backoff_ms(base, BACKOFF_DOUBLING_CAP)
        } else {
            base as int
        }
    } else {
        2 * backoff_ms(base, (attempt - 1) as u32)
    }
}

/// What one engine call produced.
pub enum EngineOutcome {
    Transcribed(String),
    EngineError,
}

/// What the stage does with the segment after one engine call.
pub enum TranscriptionAction {
    /// Persist the transcript.
    Persist(String),
    /// Call the engine again after this many milliseconds.
    Retry(u64),
    /// Attempts exhausted: persist the segment with empty text.
    PersistEmpty,
}

/// The backoff before the next retry, with the doubling cap applied.
pub fn compute_backoff(policy: &RetryPolicy, attempt: u32) -> (r: u64)
    requires
        policy.wf(),
    ensures
        r == backoff_ms(policy.base_backoff_ms, attempt),
{
    let n = if attempt > BACKOFF_DOUBLING_CAP {
        BACKOFF_DOUBLING_CAP
    } else {
        attempt
    };
    proof {
        if attempt > BACKOFF_DOUBLING_CAP {
            assert(backoff_ms(policy.base_backoff_ms, attempt) == backoff_ms(
                policy.base_backoff_ms,
                BACKOFF_DOUBLING_CAP,
            ));
        }
    }
    let mut b: u64 = policy.base_backoff_ms;
    let mut i: u32 = 0;
    proof {
        assert(0x1_0000_0000u64 << 0u32 == 0x1_0000_0000u64) by (bit_vector);
    }
    while i < n
        invariant
            policy.wf(),
            0 <= i <= n <= BACKOFF_DOUBLING_CAP,
            b == backoff_ms(policy.base_backoff_ms, i),
            b <= 0x1_0000_0000u64 << i,
        decreases n - i,
    {
        proof {
            assert((0x1_0000_0000u64 << i) <= 0x1_0000_0000_0000u64) by (bit_vector)
                requires
                    i < 16u32,
            ;
            assert((0x1_0000_0000u64 << (i + 1)) == 2 * (0x1_0000_0000u64 << i)) by (bit_vector)
                requires
                    i < 16u32,
            ;
        }
        b = b * 2;
        i = i + 1;
    }
    b
}

/// One decision of the transcription stage. A successful engine call
/// persists its transcript as it stands. A failed call is retried with
/// exponential backoff while attempts remain; when they are exhausted, the
/// segment is persisted with empty text — never dropped.
pub fn transcription_step(policy: &RetryPolicy, attempt: u32, outcome: EngineOutcome) -> (r:
    TranscriptionAction)
    requires
        policy.wf(),
        attempt < policy.max_attempts,
    ensures
        match outcome {
            EngineOutcome::Transcribed(t) => r == TranscriptionAction::Persist(t),
            EngineOutcome::EngineError => {
                if attempt + 1 < policy.max_attempts {
                    r == TranscriptionAction::Retry(
                        backoff_ms(policy.base_backoff_ms, attempt) as u64,
                    )
                } else {
                    r == TranscriptionAction::PersistEmpty
                }
            },
        },
{
    match outcome {
        EngineOutcome::Transcribed(t) => TranscriptionAction::Persist(t),
        EngineOutcome::EngineError => {
            if attempt + 1 < policy.max_attempts {
                TranscriptionAction::Retry(compute_backoff(policy, attempt))
            } else {
                TranscriptionAction::PersistEmpty
            }
        },
    }
}

} // verus!
