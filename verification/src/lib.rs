//! Core of a local-host process monitor: a process registry with sorting,
//! filtering and control operations, a bounded multi-level time-series store,
//! a lifecycle log of process exits, and an expression-based inclusion-rule
//! evaluator.
use vstd::prelude::*;

pub mod control;
pub mod datetime;
pub mod graph;
pub mod monitor;
pub mod process;
pub mod process_log;
pub mod rules;
pub mod record;
pub mod series;
pub mod sort;
pub mod text;

verus! {

/// Failure taxonomy for registry control operations and rule evaluation.
#[derive(Clone, Copy, Debug, PartialEq, Eq, Structural)]
pub enum ProcError {
    /// The target pid vanished between selection and action.
    NotFound,
    /// Out-of-range niceness or malformed input value.
    InvalidInput,
    /// Insufficient privilege for a signal or a negative-niceness change.
    PermissionDenied,
    /// Any other syscall failure, carrying the OS error code.
    OsError(i32),
    /// Rule-expression parse or type failure, scoped to a single record.
    ExpressionError,
}

/// `errno` value for an operation forbidden to the caller.
pub const ERRNO_PERM: i32 = 1;
/// `errno` value for a pid that does not exist.
pub const ERRNO_SRCH: i32 = 3;
/// `errno` value for insufficient access rights.
pub const ERRNO_ACCES: i32 = 13;

/// Maps the `errno` of a failed signal or priority syscall to the error
/// taxonomy: permission errors and missing pids get their own variants,
/// anything else is surfaced verbatim as `OsError`.
pub fn classify_errno(errno: i32) -> (e: ProcError)
    ensures
        e == spec_classify_errno(errno),
{
    if errno == ERRNO_PERM || errno == ERRNO_ACCES {
        ProcError::PermissionDenied
    } else if errno == ERRNO_SRCH {
        ProcError::NotFound
    } else {
        ProcError::OsError(errno)
    }
}

/// What `classify_errno` returns for each OS error code.
pub open spec fn spec_classify_errno(errno: i32) -> ProcError {
    if errno == ERRNO_PERM || errno == ERRNO_ACCES {
        ProcError::PermissionDenied
    } else if errno == ERRNO_SRCH {
        ProcError::NotFound
    } else {
        ProcError::OsError(errno)
    }
}

} // verus!
