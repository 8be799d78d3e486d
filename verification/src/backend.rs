//! Lifecycle of the process-wide inference backend.
//!
//! The backend wraps a heavyweight pretrained model that loads once per
//! process, on a background execution unit, while the process already accepts
//! requests. Until loading completes every inference attempt waits; if
//! loading fails, the backend stays failed and every request fails fast. The
//! decisions of that lifecycle are this module's step function; performing
//! the load and the waiting itself is the surrounding runtime's work.

use vstd::prelude::*;

verus! {

/// Phase of the shared backend: it starts uninitialized, loads once, and
/// then stays ready — or stays failed, if the one load failed.
#[derive(Clone, Copy, Debug, PartialEq, Eq, Structural)]
pub enum BackendPhase {
    Uninitialized,
    Loading,
    Ready,
    Failed,
}

/// What the runtime observed of the backend load.
#[derive(Clone, Copy, Debug, PartialEq, Eq, Structural)]
pub enum BackendEvent {
    StartLoading,
    LoadSucceeded,
    LoadFailed,
}

/// The lifecycle's transition function: loading starts from the
/// uninitialized phase and resolves to ready or failed exactly once; any
/// other event leaves the phase as it is.
pub open spec fn spec_backend_step(phase: BackendPhase, event: BackendEvent) -> BackendPhase {
    match (phase, event) {
        (BackendPhase::Uninitialized, BackendEvent::StartLoading) => BackendPhase::Loading,
        (BackendPhase::Loading, BackendEvent::LoadSucceeded) => BackendPhase::Ready,
        (BackendPhase::Loading, BackendEvent::LoadFailed) => BackendPhase::Failed,
        (p, _) => p,
    }
}

/// How far along the lifecycle a phase is; resolved phases rank equal.
pub open spec fn spec_phase_rank(phase: BackendPhase) -> int {
    match phase {
        BackendPhase::Uninitialized => 0,
        BackendPhase::Loading => 1,
        BackendPhase::Ready => 2,
        BackendPhase::Failed => 2,
    }
}

/// Advance the backend lifecycle by one observed event.
pub fn backend_step(phase: BackendPhase, event: BackendEvent) -> (next: BackendPhase)
    ensures
        next == spec_backend_step(phase, event),
{
    match (phase, event) {
        (BackendPhase::Uninitialized, BackendEvent::StartLoading) => BackendPhase::Loading,
        (BackendPhase::Loading, BackendEvent::LoadSucceeded) => BackendPhase::Ready,
        (BackendPhase::Loading, BackendEvent::LoadFailed) => BackendPhase::Failed,
        (p, _) => p,
    }
}

/// Whether inference may run: only a ready backend serves calls; in any
/// earlier phase the caller keeps waiting.
pub fn can_infer(phase: BackendPhase) -> (r: bool)
    ensures
        r <==> phase == BackendPhase::Ready,
{
    phase == BackendPhase::Ready
}

/// Whether every request must fail fast: the one load failed, so no request
/// can ever succeed.
pub fn is_failed(phase: BackendPhase) -> (r: bool)
    ensures
        r <==> phase == BackendPhase::Failed,
{
    phase == BackendPhase::Failed
}

/// The lifecycle never moves backwards, and a resolved phase — ready or
/// failed — never changes again: the backend loads exactly once per process
/// and is never torn down or reloaded.
pub proof fn lemma_phase_monotone(phase: BackendPhase, event: BackendEvent)
    ensures
        spec_phase_rank(spec_backend_step(phase, event)) >= spec_phase_rank(phase),
        phase == BackendPhase::Ready ==> spec_backend_step(phase, event) == BackendPhase::Ready,
        phase == BackendPhase::Failed ==> spec_backend_step(phase, event) == BackendPhase::Failed,
{
}

} // verus!
