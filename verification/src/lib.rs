//! Task handles for a single-threaded cooperative host: spawn, join, abort and
//! grouped join, as a state machine over explicitly owned task records.
//!
//! The host offers one primitive only: it runs a unit of work to completion and
//! gives no way to observe or cancel it. Everything a handle can observe is kept
//! in a [`task::Runtime`], the table of task records. Handles are plain values
//! that name a record; every operation takes the runtime it acts on, so that
//! each contract can say exactly how the records change.

pub mod future;
mod maybe_future;
pub mod task;

pub use maybe_future::MaybeFuture;
