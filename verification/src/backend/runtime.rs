//! The decisions of a cooperative runtime: which task runs next, which tasks
//! an event wakes, and when a run has ended. The tasks themselves, and what
//! wakes them from other threads, are the caller's.
pub mod advice_task;
pub mod event;
pub mod executor;
pub mod reactor;
pub mod storage;
pub mod task;
pub mod waker;
