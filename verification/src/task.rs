//! Task spawning, joining and cancellation over a [`Runtime`].

mod error;
mod handle;
mod id;
mod join_set;
pub mod laws;
pub mod passes;
mod poll;
mod runtime;
pub mod set_model;
mod state;
mod waker;

pub use error::JoinError;
pub use handle::{spawn, with_id, AbortHandle, AbortOnDropHandle, JoinHandle, SpawnFuture};
pub use id::{next_task_id, nth_task_id, Id};
pub use join_set::{JoinAll, JoinSet};
pub use poll::Poll;
pub use runtime::{tasks_precede, values_kept, Runtime, TaskView};
pub use state::{State, StateView};
