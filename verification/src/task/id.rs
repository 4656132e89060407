//! Task identifiers and the counter they are drawn from.

use vstd::prelude::*;

verus! {

/// An opaque ID that uniquely identifies a task relative to all other tasks
/// whose identifiers were drawn from the same counter.
#[derive(Debug, Clone, Copy, PartialEq, Eq, Hash, Structural)]
pub struct Id(u64);

impl View for Id {
    type V = u64;

    closed spec fn view(&self) -> u64 {
        self.0
    }
}

impl Id {
    /// The identifier that stands for the counter value `value`.
    pub(crate) fn new(value: u64) -> (id: Id)
        ensures
            id@ == value,
    {
        Id(value)
    }

    /// The counter value this identifier was made from.
    pub fn as_u64(&self) -> (value: u64)
        ensures
            value == self@,
    {
        self.0
    }
}

/// The `k`-th value (counting from zero) drawn from a counter that stands at
/// `counter`.
pub open spec fn nth_task_id(counter: u64, k: nat) -> int {
    counter + k + 1
}

/// Advances `counter` by one and returns its new value.
///
/// The counter is the single source of task identifiers: values only go up, and
/// no value is handed out twice.
pub fn next_task_id(counter: &mut u64) -> (id: u64)
    requires
        *old(counter) < u64::MAX,
    ensures
        id == nth_task_id(*old(counter), 0),
        *final(counter) == id,
{
    *counter += 1;
    *counter
}

} // verus!
