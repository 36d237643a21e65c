use vstd::prelude::*;

use crate::bz_task::id::BzTaskId;
use crate::bz_task::info::{BzTaskControl, BzTaskStatus};
use crate::bz_task::message::BzTaskMessage;

verus! {

/// Why a non-blocking send on a task's control channel failed; the
/// undelivered message is handed back.
#[derive(Debug, Clone, Copy, PartialEq, Eq, Structural)]
pub enum BzTaskControlSendError {
    /// The bounded channel was at capacity.
    Full(BzTaskControl),
    /// The worker's receiver is gone.
    Closed(BzTaskControl),
}

/// Everything that can go wrong at the orchestrator boundary. All of these
/// are recovered there: reported to the caller, never a panic, and (except
/// for the transitions the state machine allows) never a mutation.
#[derive(Debug)]
pub enum BzError {
    /// The application could not be brought up.
    InitError { reason: &'static str },
    /// A command referenced an id that is not in the registry.
    TaskNotFound(BzTaskId),
    /// A control send was attempted against a task with no live worker.
    RuntimeNotFound(BzTaskId),
    /// A control message could not be handed to the worker.
    MpscBzTaskControlError(BzTaskControlSendError),
    /// The state machine rejected the command for the task's current status.
    TaskStatusError(BzTaskStatus, BzTaskMessage),
}

pub type BzResult<T> = Result<T, BzError>;

} // verus!
