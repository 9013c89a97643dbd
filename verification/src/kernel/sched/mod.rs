//! Threads, tasks and who runs next.

pub mod runqueue;
pub mod task;
pub mod thread;
