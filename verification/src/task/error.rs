//! The one failure this layer reports: the task was cancelled.

use super::id::Id;
use vstd::prelude::*;

verus! {

/// Why a task did not deliver a value.
#[derive(Debug, Clone, Copy, PartialEq, Eq, Structural)]
enum JoinErrorReason {
    /// The task that was being waited on has been cancelled.
    Cancelled,
}

/// An error that can occur when waiting for the completion of a task.
#[derive(Debug, Clone, Copy, PartialEq, Eq, Structural)]
pub struct JoinError {
    reason: JoinErrorReason,
    id: Id,
}

impl JoinError {
    /// The error that reports the cancellation of task `id`.
    pub closed spec fn cancelled(id: Id) -> JoinError {
        JoinError { reason: JoinErrorReason::Cancelled, id }
    }

    /// The task this error is about.
    pub closed spec fn task(self) -> Id {
        self.id
    }

    /// An error is determined by the task it is about, and says of that task
    /// that it was cancelled.
    pub proof fn lemma_cancelled(self)
        ensures
            self == JoinError::cancelled(self.task()),
            forall|id: Id| (#[trigger] JoinError::cancelled(id)).task() == id,
    {
    }

    /// Builds the error that reports the cancellation of task `id`.
    pub(crate) fn new_cancelled(id: Id) -> (error: JoinError)
        ensures
            error == JoinError::cancelled(id),
    {
        JoinError { reason: JoinErrorReason::Cancelled, id }
    }

    /// Returns whether this join error is due to cancellation.
    ///
    /// Always true: a unit of work that fails internally takes the host down
    /// with it and is never reported through a handle.
    pub fn is_cancelled(&self) -> (cancelled: bool)
        ensures
            cancelled,
    {
        match self.reason {
            JoinErrorReason::Cancelled => true,
        }
    }

    /// Returns whether this is a panic. Always `false`: a panic in a task is
    /// not caught and wrapped by this layer.
    pub fn is_panic(&self) -> (panic: bool)
        ensures
            !panic,
    {
        false
    }

    /// Returns the ID of the task which errored.
    pub fn id(&self) -> (id: Id)
        ensures
            id == self.task(),
    {
        self.id
    }

    /// The text this error displays as.
    pub fn to_string(&self) -> (text: String)
        ensures
            text@ == "task was cancelled"@,
    {
        match self.reason {
            JoinErrorReason::Cancelled => "task was cancelled".to_string(),
        }
    }
}

} // verus!
