//! Process-control primitives: the signal set the registry can send and the
//! niceness rules it enforces. The actual syscalls live behind the
//! `ProcessControl` capability, implemented by the embedding program's thin
//! OS adapter (and by a mock in tests); the decisions around them are
//! verified here.
use vstd::prelude::*;
use crate::ProcError;

verus! {

/// The OS adapter the registry's control operations go through. Implementors
/// deliver a signal or change a scheduling priority for the given pid and
/// report failure as the raw `errno`; `effective_uid` reports the calling
/// process's effective user id. Nothing is assumed of these methods: the
/// verified logic states what holds whatever they return.
pub trait ProcessControl {
    fn send_signal(&mut self, pid: u32, signal: i32) -> Result<(), i32>;

    fn set_os_priority(&mut self, pid: u32, nice: i32) -> Result<(), i32>;

    fn effective_uid(&mut self) -> u32;
}

/// The control operations the registry exposes.
#[derive(Clone, Copy, Debug, PartialEq, Eq, Structural)]
pub enum SignalKind {
    Kill,
    Stop,
    Continue,
    Terminate,
}

/// The OS signal number each kind maps to.
pub open spec fn spec_signal_number(kind: SignalKind) -> i32 {
    match kind {
        SignalKind::Kill => 9,
        SignalKind::Stop => 19,
        SignalKind::Continue => 18,
        SignalKind::Terminate => 15,
    }
}

/// Exec counterpart of `spec_signal_number`.
pub fn signal_number(kind: SignalKind) -> (n: i32)
    ensures
        n == spec_signal_number(kind),
{
    match kind {
        SignalKind::Kill => 9,
        SignalKind::Stop => 19,
        SignalKind::Continue => 18,
        SignalKind::Terminate => 15,
    }
}

/// The local checks before a priority change is attempted: a niceness
/// outside `-20..=19` is invalid input, and lowering niceness below zero
/// without an effective uid of zero is denied before any syscall.
pub open spec fn spec_priority_precheck(nice: i32, euid: u32) -> Option<ProcError> {
    if nice < -20 || nice > 19 {
        Some(ProcError::InvalidInput)
    } else if nice < 0 && euid != 0 {
        Some(ProcError::PermissionDenied)
    } else {
        None
    }
}

/// Exec counterpart of `spec_priority_precheck`.
pub fn priority_precheck(nice: i32, euid: u32) -> (r: Option<ProcError>)
    ensures
        r == spec_priority_precheck(nice, euid),
{
    if nice < -20 || nice > 19 {
        Some(ProcError::InvalidInput)
    } else if nice < 0 && euid != 0 {
        Some(ProcError::PermissionDenied)
    } else {
        None
    }
}

} // verus!
