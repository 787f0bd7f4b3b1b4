//! Tasks and their tags.
use vstd::prelude::*;

verus! {

/// A tag identifying tasks inside an executor.
#[derive(Debug, Clone, Copy, PartialEq, Eq, Structural, Hash, PartialOrd, Ord)]
pub struct TaskId(pub usize);

impl TaskId {
    pub fn new(raw: usize) -> (id: Self)
        ensures
            id == TaskId(raw),
    {
        TaskId(raw)
    }
}

/// What polling gives: a value, or the promise of a wakeup.
#[derive(Debug)]
pub enum Polled<T> {
    Ready(T),
    Pending,
}

/// A tagged wrapper around a pausable procedure of type `F`. An executor
/// spawns it and hands it out to be polled.
pub struct Task<F> {
    pub id: TaskId,
    pub future: F,
}

impl<F> Task<F> {
    pub fn new(id: TaskId, future: F) -> (task: Task<F>)
        ensures
            task.id == id,
            task.future == future,
    {
        Task { id, future }
    }
}

} // verus!
