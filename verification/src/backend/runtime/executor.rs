//! The scheduler: a queue of ready tasks, and what to do with the next one.
//!
//! Advices cooperate: a gadget that needs the inverse of a variable hands the
//! request to a routine that inverts many values at once, goes on with the
//! variable as a symbol, and is paused where it reads the value. The routine
//! computes the value later and the gadget is resumed. Rounds and circuit
//! input fit the same scheme.
//!
//! The executor decides. The caller asks for the next step, polls the task
//! that the step hands out, and reports how the poll ended. Where the tasks
//! are steps of the witness computation, the executor runs them itself.
use crate::backend::runtime::event::{Event, EventStream};
use crate::backend::runtime::event::process_events;
use crate::backend::runtime::reactor::{reacted, reacted_all, woken, woken_all, Reactor};
use crate::backend::runtime::task::{Polled, Task, TaskId};
use crate::backend::runtime::waker::{queue_items, queue_new, queue_pop, queue_push, TaskWaker};
use crossbeam_queue::SegQueue;
use std::collections::BTreeMap;
use vstd::prelude::*;

verus! {

/// The tag of the task that feeds events to the reactor. The task exists
/// from the start, and a run does not wait for it to end.
pub const DISPATCH_TASK: usize = 0;

/// What the caller of an executor does next.
pub enum Step<F> {
    /// No task is left: the run has ended.
    Finished,
    /// No task is ready: a task is woken from outside, or nothing goes on.
    Idle,
    /// Run the task that feeds events to the reactor.
    Dispatch(TaskWaker),
    /// Poll the task with the waker, and report how the poll ended.
    Poll(Task<F>, TaskWaker),
}

/// What is left of the queue of ready tasks once the tags at its front that
/// name no task have been dropped.
pub open spec fn skip_dead(ready: Seq<usize>, live: Set<usize>) -> Seq<usize>
    decreases ready.len(),
{
    if ready.len() == 0 {
        ready
    } else if ready[0] == DISPATCH_TASK || live.contains(ready[0]) {
        ready
    } else {
        skip_dead(ready.skip(1), live)
    }
}

/// Top-level scheduler of tasks of type `F`.
pub struct Executor<F> {
    tasks: BTreeMap<usize, Task<F>>,
    task_queue: SegQueue<usize>,
    waker_cache: BTreeMap<usize, TaskWaker>,
    next_id: usize,
    in_flight: Option<usize>,
}

impl<F> Executor<F> {
    /// The tasks that were spawned and have not ended, but for the one that
    /// is being polled.
    pub closed spec fn tasks(&self) -> Map<usize, Task<F>> {
        self.tasks@
    }

    /// The task that was handed out to be polled.
    pub closed spec fn polling(&self) -> Option<usize> {
        self.in_flight
    }

    /// The tags of the tasks that are ready to run, oldest first. A task may
    /// occur more than once, and a tag may name a task that has ended.
    pub closed spec fn ready(&self) -> Seq<usize> {
        queue_items(self.task_queue)
    }

    /// The wakers that are kept for the tasks that were polled and have not
    /// ended, each under the tag of its task.
    pub closed spec fn wakers(&self) -> Map<usize, TaskWaker> {
        self.waker_cache@
    }

    /// The number of tags that were given out, that of the dispatch task
    /// included: the next task gets this tag.
    pub closed spec fn spawned(&self) -> nat {
        self.next_id as nat
    }

    /// The tags of the tasks that have not ended.
    pub open spec fn live(&self) -> Set<usize> {
        match self.polling() {
            Some(id) => self.tasks().dom().insert(id),
            None => self.tasks().dom(),
        }
    }

    /// Every task is kept under its own tag, which was given out; the task
    /// that is being polled is not kept; a cached waker wakes the task under
    /// whose tag it is kept.
    pub closed spec fn wf(&self) -> bool {
        &&& self.next_id >= 1
        &&& forall|k: usize| #[trigger]
            self.tasks@.contains_key(k) ==> 0 < k < self.next_id && self.tasks@[k].id == TaskId(k)
        &&& forall|k: usize| #[trigger]
            self.waker_cache@.contains_key(k) ==> self.waker_cache@[k].task_id == TaskId(k)
        &&& self.in_flight matches Some(id) ==> 0 < id < self.next_id && !self.tasks@.contains_key(
            id,
        )
    }

    /// The tag of a task that has not ended was given out, and it is not
    /// that of the dispatch task.
    pub proof fn lemma_live_tags(&self)
        requires
            self.wf(),
        ensures
            forall|id: usize| self.live().contains(id) ==> DISPATCH_TASK < id < self.spawned(),
            forall|id: usize| #[trigger]
                self.tasks().contains_key(id) ==> self.tasks()[id].id == TaskId(id),
            self.polling() matches Some(id) ==> !self.tasks().contains_key(id),
    {
    }

    /// An executor without tasks but the dispatch task, which is ready.
    pub fn new() -> (executor: Self)
        ensures
            executor.wf(),
            executor.tasks() == Map::<usize, Task<F>>::empty(),
            executor.polling() is None,
            executor.ready() == seq![DISPATCH_TASK],
            executor.wakers() == Map::<usize, TaskWaker>::empty(),
            executor.spawned() == 1,
    {
        let mut task_queue = queue_new();
        queue_push(&mut task_queue, DISPATCH_TASK);
        let executor = Executor {
            tasks: BTreeMap::new(),
            task_queue,
            waker_cache: BTreeMap::new(),
            next_id: 1,
            in_flight: None,
        };
        assert(executor.ready() =~= seq![DISPATCH_TASK]);
        executor
    }

    /// Whether a tag is left for one more task.
    pub fn can_spawn(&self) -> (room: bool)
        ensures
            room == (self.spawned() < usize::MAX),
    {
        self.next_id < usize::MAX
    }

    /// Spawns a task: it gets the next tag, which no task has had, and is
    /// ready to run. It is not polled, and nothing else changes.
    pub fn spawn(&mut self, future: F) -> (id: TaskId)
        requires
            old(self).wf(),
            old(self).spawned() < usize::MAX,
        ensures
            final(self).wf(),
            id.0 == old(self).spawned(),
            id.0 != DISPATCH_TASK,
            !old(self).live().contains(id.0),
            final(self).spawned() == old(self).spawned() + 1,
            final(self).tasks() == old(self).tasks().insert(id.0, Task { id, future }),
            final(self).polling() == old(self).polling(),
            final(self).ready() == old(self).ready().push(id.0),
            final(self).wakers() == old(self).wakers(),
    {
        let id = TaskId::new(self.next_id);
        self.next_id = self.next_id + 1;
        let task = Task::new(id, future);
        self.tasks.insert(id.0, task);
        queue_push(&mut self.task_queue, id.0);
        id
    }

    /// Whether every task that was spawned has ended.
    pub fn is_complete(&self) -> (complete: bool)
        ensures
            complete == (self.live() == Set::<usize>::empty()),
    {
        let complete = self.tasks.is_empty() && self.in_flight.is_none();
        proof {
            if complete {
                assert(self.live() =~= Set::<usize>::empty());
            } else if self.in_flight.is_some() {
                assert(self.live().contains(self.in_flight->Some_0));
            } else {
                let k = choose|k: usize| self.tasks@.dom().contains(k);
                assert(self.live().contains(k));
            }
        }
        complete
    }

    /// Decides what comes next. The run has ended if and only if no task is
    /// left. Else the tags at the front of the queue that name no task are
    /// dropped, and the first that names one is taken: its task is handed
    /// out to be polled. If no such tag is in the queue, nothing is ready.
    pub fn next_step(&mut self) -> (step: Step<F>)
        requires
            old(self).wf(),
            old(self).polling() is None,
        ensures
            final(self).wf(),
            final(self).spawned() == old(self).spawned(),
            step is Finished <==> old(self).live() == Set::<usize>::empty(),
            final(self).wakers() == match step {
                Step::Poll(task, waker) => old(self).wakers().insert(task.id.0, waker),
                _ => old(self).wakers(),
            },
            match step {
                Step::Finished => {
                    &&& final(self).ready() == old(self).ready()
                    &&& final(self).tasks() == old(self).tasks()
                    &&& final(self).polling() is None
                },
                Step::Idle => {
                    &&& skip_dead(old(self).ready(), old(self).live()).len() == 0
                    &&& final(self).ready() == Seq::<usize>::empty()
                    &&& final(self).tasks() == old(self).tasks()
                    &&& final(self).polling() is None
                },
                Step::Dispatch(waker) => {
                    let rest = skip_dead(old(self).ready(), old(self).live());
                    &&& rest.len() > 0
                    &&& rest[0] == DISPATCH_TASK
                    &&& waker.task_id == TaskId(DISPATCH_TASK)
                    &&& final(self).ready() == rest.skip(1)
                    &&& final(self).tasks() == old(self).tasks()
                    &&& final(self).polling() is None
                },
                Step::Poll(task, waker) => {
                    let rest = skip_dead(old(self).ready(), old(self).live());
                    &&& rest.len() > 0
                    &&& rest[0] == task.id.0
                    &&& old(self).tasks().contains_key(task.id.0)
                    &&& task == old(self).tasks()[task.id.0]
                    &&& waker.task_id == task.id
                    &&& final(self).ready() == rest.skip(1)
                    &&& final(self).tasks() == old(self).tasks().remove(task.id.0)
                    &&& final(self).polling() == Some(task.id.0)
                },
            },
    {
        if self.tasks.is_empty() {
            assert(self.live() =~= Set::<usize>::empty());
            return Step::Finished;
        }
        proof {
            let k = choose|k: usize| self.tasks@.dom().contains(k);
            assert(self.live().contains(k));
        }
        loop
            invariant
                self.wf(),
                self.in_flight is None,
                self.tasks@ == old(self).tasks@,
                self.waker_cache@ == old(self).waker_cache@,
                self.next_id == old(self).next_id,
                old(self).live() == self.tasks@.dom(),
                old(self).live() != Set::<usize>::empty(),
                skip_dead(self.ready(), old(self).live()) == skip_dead(
                    old(self).ready(),
                    old(self).live(),
                ),
            decreases self.ready().len(),
        {
            match queue_pop(&mut self.task_queue) {
                None => {
                    return Step::Idle;
                },
                Some(id) => {
                    if id == DISPATCH_TASK {
                        return Step::Dispatch(TaskWaker::new(TaskId::new(DISPATCH_TASK)));
                    }
                    match self.tasks.remove(&id) {
                        Some(task) => {
                            let cached: Option<TaskWaker> = match self.waker_cache.get(&id) {
                                Some(waker) => Some(*waker),
                                None => None,
                            };
                            let waker = match cached {
                                Some(waker) => waker,
                                None => {
                                    let waker = TaskWaker::new(task.id);
                                    self.waker_cache.insert(id, waker);
                                    waker
                                },
                            };
                            self.in_flight = Some(id);
                            assert(self.waker_cache@ =~= old(self).waker_cache@.insert(id, waker));
                            return Step::Poll(task, waker);
                        },
                        None => {
                            // The task has ended since it was woken.
                            assert(self.tasks@ =~= old(self).tasks@);
                        },
                    }
                },
            }
        }
    }

    /// Takes back the task that was handed out. A task whose poll returned
    /// a value has ended: it is dropped with its waker. A task that is paused
    /// is kept until it is woken.
    pub fn end_poll(&mut self, task: Task<F>, outcome: Polled<()>)
        requires
            old(self).wf(),
            old(self).polling() == Some(task.id.0),
        ensures
            final(self).wf(),
            final(self).polling() is None,
            final(self).ready() == old(self).ready(),
            final(self).spawned() == old(self).spawned(),
            final(self).tasks() == match outcome {
                Polled::Ready(()) => old(self).tasks(),
                Polled::Pending => old(self).tasks().insert(task.id.0, task),
            },
            final(self).wakers() == match outcome {
                Polled::Ready(()) => old(self).wakers().remove(task.id.0),
                Polled::Pending => old(self).wakers(),
            },
    {
        let id = task.id.0;
        self.in_flight = None;
        match outcome {
            Polled::Ready(()) => {
                self.waker_cache.remove(&id);
            },
            Polled::Pending => {
                self.tasks.insert(id, task);
            },
        }
    }

    /// Wakes a task: its tag is put into the queue of ready tasks.
    pub fn wake(&mut self, waker: TaskWaker)
        requires
            old(self).wf(),
        ensures
            final(self).wf(),
            final(self).ready() == old(self).ready().push(waker.task_id.0),
            final(self).tasks() == old(self).tasks(),
            final(self).polling() == old(self).polling(),
            final(self).spawned() == old(self).spawned(),
            final(self).wakers() == old(self).wakers(),
    {
        waker.wake_task(&mut self.task_queue);
    }

    /// Emits an event on a stream whose consumer is the dispatch task of
    /// this executor.
    pub fn emit(&mut self, event_stream: &mut EventStream, event: Event)
        requires
            old(self).wf(),
        ensures
            final(self).wf(),
            final(event_stream).pending() == old(event_stream).pending().push(event),
            final(event_stream).parked() is None,
            final(event_stream).is_closed() == old(event_stream).is_closed(),
            final(self).ready() == match old(event_stream).parked() {
                Some(waker) => old(self).ready().push(waker.task_id.0),
                None => old(self).ready(),
            },
            final(self).tasks() == old(self).tasks(),
            final(self).polling() == old(self).polling(),
            final(self).spawned() == old(self).spawned(),
            final(self).wakers() == old(self).wakers(),
    {
        event_stream.emit(event, &mut self.task_queue);
    }

    /// Hands an event to the reactor at once: the tasks that wait for its
    /// signal become ready.
    pub fn react(&mut self, reactor: &mut Reactor, event: Event)
        requires
            old(self).wf(),
        ensures
            final(self).wf(),
            final(reactor)@ == reacted(old(reactor)@, event),
            final(self).ready() == old(self).ready() + woken(old(reactor)@, event),
            final(self).tasks() == old(self).tasks(),
            final(self).polling() == old(self).polling(),
            final(self).spawned() == old(self).spawned(),
            final(self).wakers() == old(self).wakers(),
    {
        reactor.react(event, &mut self.task_queue);
    }

    /// Runs the dispatch task once: every pending event of the stream is
    /// handed to the reactor, oldest first, and the tasks that they wake
    /// become ready. The dispatch task has ended when the source of the
    /// stream has closed; else it is paused until the next event is emitted.
    pub fn dispatch(&mut self, event_stream: &mut EventStream, reactor: &mut Reactor) -> (outcome:
        Polled<()>)
        requires
            old(self).wf(),
        ensures
            final(self).wf(),
            final(event_stream).pending() == Seq::<Event>::empty(),
            final(event_stream).is_closed() == old(event_stream).is_closed(),
            final(reactor)@ == reacted_all(old(reactor)@, old(event_stream).pending()),
            final(self).ready() == old(self).ready() + woken_all(
                old(reactor)@,
                old(event_stream).pending(),
            ),
            match outcome {
                Polled::Ready(()) => old(event_stream).is_closed() && final(event_stream).parked()
                    == old(event_stream).parked(),
                Polled::Pending => !old(event_stream).is_closed() && final(event_stream).parked()
                    == Some(TaskWaker { task_id: TaskId(DISPATCH_TASK) }),
            },
            final(self).tasks() == old(self).tasks(),
            final(self).polling() == old(self).polling(),
            final(self).spawned() == old(self).spawned(),
            final(self).wakers() == old(self).wakers(),
    {
        let waker = TaskWaker::new(TaskId::new(DISPATCH_TASK));
        process_events(event_stream, reactor, waker, &mut self.task_queue)
    }
}

} // verus!
