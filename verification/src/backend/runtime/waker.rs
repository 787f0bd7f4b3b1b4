//! The queue of ready tasks and what puts a task into it.
use crate::backend::runtime::task::TaskId;
use crossbeam_queue::SegQueue;
use vstd::prelude::*;

verus! {

/// `crossbeam_queue::SegQueue`: an unbounded queue.
#[verifier::external_type_specification]
#[verifier::external_body]
#[verifier::reject_recursive_types(T)]
pub struct ExSegQueue<T>(SegQueue<T>);

/// What a queue holds, oldest first.
pub uninterp spec fn queue_items(queue: SegQueue<usize>) -> Seq<usize>;

/// `SegQueue::new`: a queue that holds nothing.
#[verifier::external_body]
pub(crate) fn queue_new() -> (queue: SegQueue<usize>)
    ensures
        queue_items(queue) == Seq::<usize>::empty(),
{
    SegQueue::new()
}

/// `SegQueue::push`: the value becomes the newest of the queue. The queue is
/// borrowed for the call alone, so nothing else changes it meanwhile.
#[verifier::external_body]
pub(crate) fn queue_push(queue: &mut SegQueue<usize>, value: usize)
    ensures
        queue_items(*final(queue)) == queue_items(*old(queue)).push(value),
{
    queue.push(value)
}

/// `SegQueue::pop`: the oldest value leaves the queue and is returned, or
/// `None` when the queue holds nothing. The queue is borrowed for the call
/// alone, so nothing else changes it meanwhile.
#[verifier::external_body]
pub(crate) fn queue_pop(queue: &mut SegQueue<usize>) -> (value: Option<usize>)
    ensures
        match value {
            Some(v) => queue_items(*old(queue)).len() > 0 && v == queue_items(*old(queue))[0]
                && queue_items(*final(queue)) == queue_items(*old(queue)).skip(1),
            None => queue_items(*old(queue)).len() == 0 && queue_items(*final(queue))
                == queue_items(*old(queue)),
        },
{
    queue.pop()
}

/// What wakes a paused task: it puts the tag of the task into the queue of
/// ready tasks.
#[derive(Debug, Clone, Copy, PartialEq, Eq, Structural)]
pub struct TaskWaker {
    pub task_id: TaskId,
}

impl TaskWaker {
    pub fn new(task_id: TaskId) -> (waker: TaskWaker)
        ensures
            waker.task_id == task_id,
    {
        TaskWaker { task_id }
    }

    pub fn wake_task(&self, task_queue: &mut SegQueue<usize>)
        ensures
            queue_items(*final(task_queue)) == queue_items(*old(task_queue)).push(self.task_id.0),
    {
        queue_push(task_queue, self.task_id.0);
    }
}

/// The tags of the tasks that a list of wakers wakes, in the order of the
/// list.
pub open spec fn woken_by(wakers: Seq<TaskWaker>) -> Seq<usize> {
    wakers.map_values(|w: TaskWaker| w.task_id.0)
}

/// Wakes every task of a list, in the order of the list.
pub fn wake_all(wakers: &Vec<TaskWaker>, task_queue: &mut SegQueue<usize>)
    ensures
        queue_items(*final(task_queue)) == queue_items(*old(task_queue)) + woken_by(wakers@),
{
    let ghost start = queue_items(*task_queue);
    let mut i: usize = 0;
    assert(start =~= start + woken_by(wakers@.take(0)));
    while i < wakers.len()
        invariant
            i <= wakers.len(),
            queue_items(*task_queue) == start + woken_by(wakers@.take(i as int)),
        decreases wakers.len() - i,
    {
        wakers[i].wake_task(task_queue);
        assert(start + woken_by(wakers@.take(i + 1)) =~= (start + woken_by(
            wakers@.take(i as int),
        )).push(wakers@[i as int].task_id.0));
        i = i + 1;
    }
    assert(wakers@.take(wakers.len() as int) =~= wakers@);
}

} // verus!
