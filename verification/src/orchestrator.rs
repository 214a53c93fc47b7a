//! The orchestrator's recording-cycle state machine. The shell owns the
//! execution contexts and performs the actions; this step decides every
//! transition: a fatal capture-side error (a persistence failure escalated
//! by a capture loop) tears the whole cycle down and restarts it, and a
//! shutdown signal pre-empts the restart loop and drains in-flight work.

use vstd::prelude::*;

verus! {

/// Where a recording cycle stands.
#[derive(Clone, Copy, PartialEq, Eq, Structural, Debug)]
pub enum CycleState {
    Starting,
    Running,
    Draining,
    Restarting,
    Stopped,
}

/// What the orchestrator is told.
#[derive(Clone, Copy, PartialEq, Eq, Structural, Debug)]
pub enum CycleEvent {
    /// All capture loops are up.
    StartupComplete,
    /// The combined recording task failed unrecoverably (a persistence
    /// error, or a modality escalated as fatal).
    FatalCaptureError,
    /// The global shutdown broadcast.
    ShutdownSignal,
    /// In-flight work is finished or abandoned and open chunks are
    /// finalized.
    DrainComplete,
    /// The torn-down cycle's resources are released; a new cycle may start.
    RestartReady,
}

/// What the shell must do after a transition.
#[derive(Clone, Copy, PartialEq, Eq, Structural, Debug)]
pub enum CycleAction {
    /// Nothing; keep going.
    Continue,
    /// Tear the whole recording cycle down.
    TearDown,
    /// Begin a fresh recording cycle from the start.
    StartCycle,
    /// Finish or abandon in-flight work within the grace period and
    /// finalize open chunks.
    DrainWork,
    /// The process is done; exit without restart.
    Exit,
}

/// The transition function. A shutdown signal moves every live state to
/// Draining; a fatal capture error while running tears down and restarts;
/// anything else leaves the state alone.
pub open spec fn next_state(s: CycleState, e: CycleEvent) -> CycleState {
    match e {
        CycleEvent::ShutdownSignal => match s {
            CycleState::Stopped => CycleState::Stopped,
            _ => CycleState::Draining,
        },
        CycleEvent::StartupComplete => match s {
            CycleState::Starting => CycleState::Running,
            _ => s,
        },
        CycleEvent::FatalCaptureError => match s {
            CycleState::Running => CycleState::Restarting,
            _ => s,
        },
        CycleEvent::RestartReady => match s {
            CycleState::Restarting => CycleState::Starting,
            _ => s,
        },
        CycleEvent::DrainComplete => match s {
            CycleState::Draining => CycleState::Stopped,
            _ => s,
        },
    }
}

/// The action each transition obliges the shell to take.
pub open spec fn action_of(s: CycleState, e: CycleEvent) -> CycleAction {
    match e {
        CycleEvent::ShutdownSignal => match s {
            CycleState::Stopped => CycleAction::Continue,
            _ => CycleAction::DrainWork,
        },
        CycleEvent::StartupComplete => CycleAction::Continue,
        CycleEvent::FatalCaptureError => match s {
            CycleState::Running => CycleAction::TearDown,
            _ => CycleAction::Continue,
        },
        CycleEvent::RestartReady => match s {
            CycleState::Restarting => CycleAction::StartCycle,
            _ => CycleAction::Continue,
        },
        CycleEvent::DrainComplete => match s {
            CycleState::Draining => CycleAction::Exit,
            _ => CycleAction::Continue,
        },
    }
}

/// One orchestrator transition. Shutdown pre-empts the restart loop: after a
/// shutdown signal the cycle is draining or stopped, never restarting; and a
/// stopped cycle never comes back.
pub fn orchestrator_step(s: CycleState, e: CycleEvent) -> (r: (CycleState, CycleAction))
    ensures
        r.0 == next_state(s, e),
        r.1 == action_of(s, e),
        e is ShutdownSignal ==> (r.0 is Draining || r.0 is Stopped),
        s is Stopped ==> r.0 is Stopped,
{
    let next = match e {
        CycleEvent::ShutdownSignal => match s {
            CycleState::Stopped => CycleState::Stopped,
            _ => CycleState::Draining,
        },
        CycleEvent::StartupComplete => match s {
            CycleState::Starting => CycleState::Running,
            _ => s,
        },
        CycleEvent::FatalCaptureError => match s {
            CycleState::Running => CycleState::Restarting,
            _ => s,
        },
        CycleEvent::RestartReady => match s {
            CycleState::Restarting => CycleState::Starting,
            _ => s,
        },
        CycleEvent::DrainComplete => match s {
            CycleState::Draining => CycleState::Stopped,
            _ => s,
        },
    };
    let action = match e {
        CycleEvent::ShutdownSignal => match s {
            CycleState::Stopped => CycleAction::Continue,
            _ => CycleAction::DrainWork,
        },
        CycleEvent::StartupComplete => CycleAction::Continue,
        CycleEvent::FatalCaptureError => match s {
            CycleState::Running => CycleAction::TearDown,
            _ => CycleAction::Continue,
        },
        CycleEvent::RestartReady => match s {
            CycleState::Restarting => CycleAction::StartCycle,
            _ => CycleAction::Continue,
        },
        CycleEvent::DrainComplete => match s {
            CycleState::Draining => CycleAction::Exit,
            _ => CycleAction::Continue,
        },
    };
    (next, action)
}

} // verus!
