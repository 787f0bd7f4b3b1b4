//! A step of the witness computation as a task: it waits for its inputs,
//! computes, writes its outputs and says that they can be read. An executor
//! of such tasks runs them until none is left.
use crate::advices::WrongLength;
use crate::backend::runtime::event::signal::Signal;
use crate::backend::runtime::event::{Event, EventStream};
use crate::backend::runtime::executor::{skip_dead, Executor, Step, DISPATCH_TASK};
use crate::backend::runtime::reactor::{reacted_all, registered, woken_all, Reactor};
use crate::backend::runtime::storage::{
    AsyncStorage, Cells, MyStorage, ReaderOf, SignalId, WriterOf,
};
use crate::backend::runtime::task::{Polled, Task, TaskId};
use crate::backend::runtime::waker::TaskWaker;
use vstd::prelude::*;

verus! {

/// The cells of a store once `values[j]` has been written to `addrs[j]`, for
/// each `j`.
pub open spec fn cells_written(
    cells: Map<SignalId, Option<usize>>,
    addrs: Seq<SignalId>,
    values: Seq<usize>,
) -> Map<SignalId, Option<usize>>
    decreases addrs.len(),
{
    if addrs.len() == 0 {
        cells
    } else {
        cells_written(cells, addrs.drop_last(), values.drop_last()).insert(
            addrs.last(),
            Some(values.last()),
        )
    }
}

/// The events that say that the cells of a list can be read, in the order of
/// the list.
pub open spec fn readable_events(addrs: Seq<SignalId>) -> Seq<Event> {
    addrs.map_values(|a: SignalId| Event::SignalReadable(a))
}

/// The values of the cells of a list, which have all been written.
pub open spec fn cell_values(cells: Map<SignalId, Option<usize>>, addrs: Seq<SignalId>) -> Seq<
    usize,
> {
    addrs.map_values(|a: SignalId| cells[a]->Some_0)
}

/// A step of the witness computation over the cells of a store, run as a
/// task. Each poll takes up where the last one paused.
pub struct AdviceTask<W> {
    inputs: Vec<SignalId>,
    outputs: Vec<SignalId>,
    func: W,
    gathered: Vec<usize>,
}

impl<W: Fn(Vec<usize>) -> Vec<usize>> AdviceTask<W> {
    /// The cells that the step reads.
    pub closed spec fn inputs(&self) -> Seq<SignalId> {
        self.inputs@
    }

    /// The cells that the step writes.
    pub closed spec fn outputs(&self) -> Seq<SignalId> {
        self.outputs@
    }

    /// The witness function.
    pub closed spec fn func(&self) -> W {
        self.func
    }

    /// The values of the inputs that the task has read.
    pub closed spec fn gathered(&self) -> Seq<usize> {
        self.gathered@
    }

    /// The task has read a value for each of the first inputs, and the
    /// store holds these values.
    pub open spec fn wf(&self, cells: Map<SignalId, Option<usize>>) -> bool {
        &&& self.gathered().len() <= self.inputs().len()
        &&& forall|k: int|
            0 <= k < self.gathered().len() ==> cells.contains_key(#[trigger] self.inputs()[k])
                && cells[self.inputs()[k]] == Some(self.gathered()[k])
    }

    /// The step can run once its inputs are there: its outputs are cells
    /// that were not written, none of them twice in the list, and its
    /// function accepts the values of the inputs.
    pub open spec fn runnable(&self, cells: Map<SignalId, Option<usize>>) -> bool {
        &&& self.outputs().no_duplicates()
        &&& forall|j: int|
            0 <= j < self.outputs().len() ==> cells.contains_key(#[trigger] self.outputs()[j])
                && cells[self.outputs()[j]] is None
        &&& forall|x: Vec<usize>|
            x@ == cell_values(cells, self.inputs()) ==> call_requires(self.func(), (x,))
    }

    pub fn new(inputs: Vec<SignalId>, outputs: Vec<SignalId>, func: W) -> (task: Self)
        ensures
            task.inputs() == inputs@,
            task.outputs() == outputs@,
            task.func() == func,
            task.gathered() == Seq::<usize>::empty(),
    {
        AdviceTask { inputs, outputs, func, gathered: Vec::new() }
    }

    /// Runs the task until it pauses or ends. It pauses at the first input
    /// that was not written, with `waker` registered for it and nothing
    /// else changed. Once every input is there, the function is handed
    /// their values. Where it returns one value for each output, each
    /// output is written and then announced by an event, first to last, and
    /// the task has ended. Where it returns another number of values,
    /// nothing is written and the task has failed.
    pub fn poll<F>(
        &mut self,
        storage: &mut MyStorage,
        reactor: &mut Reactor,
        executor: &mut Executor<F>,
        event_stream: &mut EventStream,
        waker: TaskWaker,
    ) -> (outcome: Polled<Result<(), WrongLength>>)
        requires
            old(self).wf(old(storage).cells()),
            old(executor).wf(),
            forall|k: int|
                0 <= k < old(self).inputs().len() ==> old(storage).cells().contains_key(
                    #[trigger] old(self).inputs()[k],
                ),
            (forall|k: int|
                0 <= k < old(self).inputs().len() ==> old(storage).cells()[#[trigger] old(
                    self,
                ).inputs()[k]] is Some) ==> old(self).runnable(old(storage).cells()),
        ensures
            final(self).inputs() == old(self).inputs(),
            final(self).outputs() == old(self).outputs(),
            final(self).func() == old(self).func(),
            final(executor).wf(),
            final(executor).tasks() == old(executor).tasks(),
            final(executor).polling() == old(executor).polling(),
            final(executor).spawned() == old(executor).spawned(),
            final(executor).wakers() == old(executor).wakers(),
            final(storage).interests() == old(storage).interests(),
            final(event_stream).is_closed() == old(event_stream).is_closed(),
            match outcome {
                Polled::Pending => {
                    let k = final(self).gathered().len() as int;
                    &&& old(self).gathered().len() <= k < old(self).inputs().len()
                    &&& final(self).wf(old(storage).cells())
                    &&& old(storage).cells()[old(self).inputs()[k]] is None
                    &&& final(reactor)@ == registered(old(reactor)@, old(self).inputs()[k], waker)
                    &&& final(storage).cells() == old(storage).cells()
                    &&& final(storage).ready() == old(storage).ready()
                    &&& final(event_stream).pending() == old(event_stream).pending()
                    &&& final(event_stream).parked() == old(event_stream).parked()
                    &&& final(executor).ready() == old(executor).ready()
                },
                Polled::Ready(Err(e)) => {
                    &&& forall|k: int|
                        0 <= k < old(self).inputs().len() ==> old(storage).cells()[#[trigger] old(
                            self,
                        ).inputs()[k]] is Some
                    &&& final(self).wf(old(storage).cells())
                    &&& final(self).gathered().len() == old(self).inputs().len()
                    &&& exists|x: Vec<usize>, y: Vec<usize>|
                        {
                            &&& x@ == cell_values(old(storage).cells(), old(self).inputs())
                            &&& #[trigger] call_ensures(old(self).func(), (x,), y)
                            &&& y@.len() != old(self).outputs().len()
                            &&& e == (WrongLength {
                                expected: old(self).outputs().len() as usize,
                                returned: y@.len() as usize,
                            })
                        }
                    &&& final(reactor)@ == old(reactor)@
                    &&& final(storage).cells() == old(storage).cells()
                    &&& final(storage).ready() == old(storage).ready()
                    &&& final(event_stream).pending() == old(event_stream).pending()
                    &&& final(event_stream).parked() == old(event_stream).parked()
                    &&& final(executor).ready() == old(executor).ready()
                },
                Polled::Ready(Ok(())) => {
                    &&& forall|k: int|
                        0 <= k < old(self).inputs().len() ==> old(storage).cells()[#[trigger] old(
                            self,
                        ).inputs()[k]] is Some
                    &&& final(reactor)@ == old(reactor)@
                    &&& exists|x: Vec<usize>, y: Vec<usize>|
                        {
                            &&& x@ == cell_values(old(storage).cells(), old(self).inputs())
                            &&& #[trigger] call_ensures(old(self).func(), (x,), y)
                            &&& y@.len() == old(self).outputs().len()
                            &&& final(storage).cells() == cells_written(
                                old(storage).cells(),
                                old(self).outputs(),
                                y@,
                            )
                        }
                    &&& final(event_stream).pending() == old(event_stream).pending()
                        + readable_events(old(self).outputs())
                    &&& final(event_stream).parked() == if old(self).outputs().len() > 0 {
                        None
                    } else {
                        old(event_stream).parked()
                    }
                    &&& final(executor).ready() == match old(event_stream).parked() {
                        Some(parked) if old(self).outputs().len() > 0 => old(
                            executor,
                        ).ready().push(parked.task_id.0),
                        _ => old(executor).ready(),
                    }
                },
            },
    {
        while self.gathered.len() < self.inputs.len()
            invariant
                self.inputs@ == old(self).inputs@,
                self.outputs@ == old(self).outputs@,
                self.func == old(self).func,
                old(self).gathered@.len() <= self.gathered@.len() <= self.inputs@.len(),
                self.wf(storage.cells()),
                *storage == *old(storage),
                *executor == *old(executor),
                executor.wf(),
                *event_stream == *old(event_stream),
                reactor@ == old(reactor)@,
                forall|k: int|
                    0 <= k < self.inputs@.len() ==> storage.cells().contains_key(
                        #[trigger] self.inputs@[k],
                    ),
            decreases self.inputs@.len() - self.gathered@.len(),
        {
            let k = self.gathered.len();
            let ghost before = self.gathered@;
            match Signal::new(self.inputs[k]).poll(&*storage, reactor, waker) {
                Polled::Ready(value) => {
                    self.gathered.push(value);
                    assert forall|n: int| 0 <= n < self.gathered@.len() implies storage.cells()[
                    #[trigger] self.inputs@[n]] == Some(self.gathered@[n]) by {
                        if n < k {
                            assert(self.gathered@[n] == before[n]);
                        }
                    }
                },
                Polled::Pending => {
                    return Polled::Pending;
                },
            }
        }
        proof {
            assert(self.gathered@ =~= cell_values(storage.cells(), self.inputs@));
            assert forall|k: int| 0 <= k < self.inputs@.len() implies storage.cells()[
            #[trigger] self.inputs@[k]] is Some by {}
        }
        let mut values: Vec<usize> = Vec::new();
        let mut n: usize = 0;
        while n < self.gathered.len()
            invariant
                n <= self.gathered@.len(),
                values@ == self.gathered@.take(n as int),
            decreases self.gathered@.len() - n,
        {
            values.push(self.gathered[n]);
            assert(values@ =~= self.gathered@.take(n + 1));
            n = n + 1;
        }
        assert(self.gathered@.take(self.gathered@.len() as int) =~= self.gathered@);
        let ghost x = values;
        let y = (self.func)(values);
        assert(call_ensures(self.func, (x,), y));
        if y.len() != self.outputs.len() {
            return Polled::Ready(
                Err(WrongLength { expected: self.outputs.len(), returned: y.len() }),
            );
        }
        let ghost start = storage.cells();
        let ghost queued = event_stream.pending();
        let mut j: usize = 0;
        proof {
            assert(self.outputs@.take(0) =~= Seq::<SignalId>::empty());
            assert(queued =~= queued + readable_events(self.outputs@.take(0)));
        }
        while j < self.outputs.len()
            invariant
                j <= self.outputs@.len(),
                y@.len() == self.outputs@.len(),
                self.outputs@ == old(self).outputs@,
                self.outputs@.no_duplicates(),
                start == old(storage).cells(),
                queued == old(event_stream).pending(),
                forall|m: int|
                    0 <= m < self.outputs@.len() ==> start.contains_key(#[trigger] self.outputs@[m])
                        && start[self.outputs@[m]] is None,
                storage.cells() == cells_written(
                    start,
                    self.outputs@.take(j as int),
                    y@.take(j as int),
                ),
                forall|m: int|
                    j <= m < self.outputs@.len() ==> storage.cells().contains_key(
                        #[trigger] self.outputs@[m],
                    ) && storage.cells()[self.outputs@[m]] is None,
                storage.interests() == old(storage).interests(),
                event_stream.pending() == queued + readable_events(self.outputs@.take(j as int)),
                event_stream.is_closed() == old(event_stream).is_closed(),
                event_stream.parked() == if j > 0 {
                    None
                } else {
                    old(event_stream).parked()
                },
                executor.wf(),
                executor.tasks() == old(executor).tasks(),
                executor.polling() == old(executor).polling(),
                executor.spawned() == old(executor).spawned(),
                executor.wakers() == old(executor).wakers(),
                executor.ready() == match old(event_stream).parked() {
                    Some(parked) if j > 0 => old(executor).ready().push(parked.task_id.0),
                    _ => old(executor).ready(),
                },
            decreases self.outputs@.len() - j,
        {
            let addr = self.outputs[j];
            let ghost cells = storage.cells();
            storage.put(&addr, y[j]);
            executor.emit(event_stream, Event::SignalReadable(addr));
            proof {
                let more = self.outputs@.take(j + 1);
                assert(more.drop_last() =~= self.outputs@.take(j as int));
                assert(y@.take(j + 1).drop_last() =~= y@.take(j as int));
                assert(readable_events(more) =~= readable_events(self.outputs@.take(j as int)).push(
                    Event::SignalReadable(addr),
                ));
                assert forall|m: int| j + 1 <= m < self.outputs@.len() implies storage.cells()[
                #[trigger] self.outputs@[m]] is None by {
                    assert(self.outputs@[m] != self.outputs@[j as int]);
                    assert(cells[self.outputs@[m]] is None);
                }
            }
            j = j + 1;
        }
        proof {
            assert(self.outputs@.take(self.outputs@.len() as int) =~= self.outputs@);
            assert(y@.take(y@.len() as int) =~= y@);
        }
        Polled::Ready(Ok(()))
    }
}

/// What `cells_written` writes and what it leaves.
pub proof fn lemma_cells_written(
    cells: Map<SignalId, Option<usize>>,
    addrs: Seq<SignalId>,
    values: Seq<usize>,
)
    requires
        addrs.len() == values.len(),
    ensures
        forall|a: SignalId| #[trigger]
            cells_written(cells, addrs, values).contains_key(a) <==> cells.contains_key(a)
                || addrs.contains(a),
        forall|a: SignalId|
            !addrs.contains(a) ==> #[trigger] cells_written(cells, addrs, values)[a] == cells[a],
        addrs.no_duplicates() ==> forall|j: int|
            0 <= j < addrs.len() ==> cells_written(cells, addrs, values)[#[trigger] addrs[j]]
                == Some(values[j]),
    decreases addrs.len(),
{
    if addrs.len() > 0 {
        let front = addrs.drop_last();
        let written = cells_written(cells, front, values.drop_last());
        lemma_cells_written(cells, front, values.drop_last());
        assert forall|a: SignalId| addrs.contains(a) <==> front.contains(a) || a
            == addrs.last() by {
            if addrs.contains(a) {
                let k = choose|k: int| 0 <= k < addrs.len() && addrs[k] == a;
                if k < front.len() {
                    assert(front[k] == a);
                }
            }
            if front.contains(a) {
                let k = choose|k: int| 0 <= k < front.len() && front[k] == a;
                assert(addrs[k] == a);
            }
            if a == addrs.last() {
                assert(addrs[addrs.len() - 1] == a);
            }
        }
        if addrs.no_duplicates() {
            assert(front.no_duplicates());
            assert forall|j: int| 0 <= j < addrs.len() implies cells_written(
                cells,
                addrs,
                values,
            )[#[trigger] addrs[j]] == Some(values[j]) by {
                if j < front.len() {
                    assert(front[j] == addrs[j]);
                    assert(addrs[j] != addrs.last());
                }
            }
        }
    }
}

/// The cells of `after` are those of `before`, and what was written in
/// `before` is unchanged in `after`.
pub open spec fn cells_extend(
    before: Map<SignalId, Option<usize>>,
    after: Map<SignalId, Option<usize>>,
) -> bool {
    &&& before.dom() == after.dom()
    &&& forall|a: SignalId|
        before.contains_key(a) && before[a] is Some ==> #[trigger] after[a] == before[a]
}

/// Two lists of cells have no cell in common.
pub open spec fn disjoint(left: Seq<SignalId>, right: Seq<SignalId>) -> bool {
    forall|i: int, j: int| 0 <= i < left.len() && 0 <= j < right.len() ==> left[i] != right[j]
}

/// How a run ended.
#[derive(Debug, Clone, Copy, PartialEq, Eq, Structural)]
pub enum RunEnd {
    /// No task is left.
    Finished,
    /// Tasks are left and none is ready: they wait for values from outside,
    /// or for each other.
    Idle,
    /// Tasks are left after as many steps as were allowed.
    OutOfSteps,
    /// The function of a task has returned another number of values than
    /// the task has outputs. The run has stopped there, and the task is
    /// left as it is.
    Failed(WrongLength),
}

impl<W: Fn(Vec<usize>) -> Vec<usize>> AdviceTask<W> {
    /// The step of `self` is that of `other`.
    pub open spec fn same_step(&self, other: &Self) -> bool {
        &&& self.inputs() == other.inputs()
        &&& self.outputs() == other.outputs()
        &&& self.func() == other.func()
    }

    /// The task can be polled whenever it is its turn: what it has read is
    /// in the store, its inputs are cells, its outputs are cells that no
    /// one has written, none of them twice in the list, and its function
    /// accepts one value for each input.
    pub open spec fn fits(&self, cells: Map<SignalId, Option<usize>>) -> bool {
        &&& self.wf(cells)
        &&& forall|k: int|
            0 <= k < self.inputs().len() ==> cells.contains_key(#[trigger] self.inputs()[k])
        &&& self.outputs().no_duplicates()
        &&& forall|j: int|
            0 <= j < self.outputs().len() ==> cells.contains_key(#[trigger] self.outputs()[j])
                && cells[self.outputs()[j]] is None
        &&& forall|x: Vec<usize>|
            x@.len() == self.inputs().len() ==> call_requires(self.func(), (x,))
    }

    /// The step has run: its inputs are written, and its outputs hold what
    /// its function returns for the values of the inputs.
    pub open spec fn done(&self, cells: Map<SignalId, Option<usize>>) -> bool {
        &&& forall|k: int|
            0 <= k < self.inputs().len() ==> cells.contains_key(#[trigger] self.inputs()[k])
                && cells[self.inputs()[k]] is Some
        &&& exists|x: Vec<usize>, y: Vec<usize>|
            {
                &&& x@ == cell_values(cells, self.inputs())
                &&& #[trigger] call_ensures(self.func(), (x,), y)
                &&& y@.len() == self.outputs().len()
                &&& forall|j: int|
                    0 <= j < self.outputs().len() ==> cells.contains_key(
                        #[trigger] self.outputs()[j],
                    ) && cells[self.outputs()[j]] == Some(y@[j])
            }
    }

    /// A step that has run has run whatever is written later.
    pub proof fn lemma_done_stays(
        &self,
        before: Map<SignalId, Option<usize>>,
        after: Map<SignalId, Option<usize>>,
    )
        requires
            self.done(before),
            cells_extend(before, after),
        ensures
            self.done(after),
    {
        let (x, y) = choose|x: Vec<usize>, y: Vec<usize>|
            {
                &&& x@ == cell_values(before, self.inputs())
                &&& #[trigger] call_ensures(self.func(), (x,), y)
                &&& y@.len() == self.outputs().len()
                &&& forall|j: int|
                    0 <= j < self.outputs().len() ==> before.contains_key(
                        #[trigger] self.outputs()[j],
                    ) && before[self.outputs()[j]] == Some(y@[j])
            };
        assert forall|k: int| 0 <= k < self.inputs().len() implies after.contains_key(
            #[trigger] self.inputs()[k],
        ) && after[self.inputs()[k]] == before[self.inputs()[k]] by {
            assert(before.dom().contains(self.inputs()[k]));
        }
        assert(cell_values(after, self.inputs()) =~= cell_values(before, self.inputs()));
        assert forall|j: int| 0 <= j < self.outputs().len() implies after.contains_key(
            #[trigger] self.outputs()[j],
        ) && after[self.outputs()[j]] == Some(y@[j]) by {
            assert(before.dom().contains(self.outputs()[j]));
        }
    }
}

/// Every task can be polled whenever it is its turn, and no two tasks write
/// one cell.
pub open spec fn tasks_fit<W: Fn(Vec<usize>) -> Vec<usize>>(
    tasks: Map<usize, Task<AdviceTask<W>>>,
    cells: Map<SignalId, Option<usize>>,
) -> bool {
    &&& forall|id: usize| tasks.contains_key(id) ==> (#[trigger] tasks[id]).future.fits(cells)
    &&& forall|i: usize, j: usize|
        tasks.contains_key(i) && tasks.contains_key(j) && i != j ==> disjoint(
            (#[trigger] tasks[i]).future.outputs(),
            (#[trigger] tasks[j]).future.outputs(),
        )
}

/// Where a run of an executor of advice tasks stands: the tasks, the queue
/// of ready tags and the kept wakers of the executor, the cells of the
/// store, who waits for which signal, and the event stream.
#[verifier::ext_equal]
#[verifier::reject_recursive_types(W)]
pub struct RunPoint<W> {
    pub tasks: Map<usize, Task<AdviceTask<W>>>,
    pub ready: Seq<usize>,
    pub wakers: Map<usize, TaskWaker>,
    pub cells: Map<SignalId, Option<usize>>,
    pub waiting: Map<SignalId, Seq<TaskWaker>>,
    pub pending: Seq<Event>,
    pub parked: Option<TaskWaker>,
    pub closed: bool,
}

impl<W: Fn(Vec<usize>) -> Vec<usize>> RunPoint<W> {
    /// The queue of ready tags without the tags at its front that name no
    /// task.
    pub open spec fn next(self) -> Seq<usize> {
        skip_dead(self.ready, self.tasks.dom())
    }

    /// A step can be made: a task is left, and a tag is ready that names
    /// the dispatch task or a task.
    pub open spec fn can_step(self) -> bool {
        self.tasks.dom() != Set::<usize>::empty() && self.next().len() > 0
    }

    /// The step runs the dispatch task: every pending event is handed to
    /// the reactor, and the tasks that they wake become ready.
    pub open spec fn dispatched(self, after: Self) -> bool {
        &&& self.next()[0] == DISPATCH_TASK
        &&& after == (RunPoint {
            ready: self.next().skip(1) + woken_all(self.waiting, self.pending),
            waiting: reacted_all(self.waiting, self.pending),
            pending: Seq::<Event>::empty(),
            parked: if self.closed {
                self.parked
            } else {
                Some(TaskWaker { task_id: TaskId(DISPATCH_TASK) })
            },
            ..self
        })
    }

    /// The tasks of `after` are those of `self`, but that the task `id` has
    /// read the inputs before the place `k`. Its step is the same.
    pub open spec fn task_read(self, after: Self, id: usize, k: int) -> bool {
        &&& after.tasks.dom() == self.tasks.dom()
        &&& forall|other: usize|
            self.tasks.contains_key(other) && other != id ==> #[trigger] after.tasks[other]
                == self.tasks[other]
        &&& after.tasks[id].id == self.tasks[id].id
        &&& after.tasks[id].future.same_step(&self.tasks[id].future)
        &&& after.tasks[id].future.gathered().len() == k
        &&& after.tasks[id].future.wf(self.cells)
    }

    /// The step polls the next ready task, which pauses at its first
    /// input that was not written, with its waker registered for it.
    pub open spec fn paused(self, after: Self) -> bool {
        let id = self.next()[0];
        let task = self.tasks[id].future;
        let k = after.tasks[id].future.gathered().len() as int;
        &&& self.tasks.contains_key(id)
        &&& task.gathered().len() <= k < task.inputs().len()
        &&& self.cells[task.inputs()[k]] is None
        &&& self.task_read(after, id, k)
        &&& after.ready == self.next().skip(1)
        &&& after.wakers == self.wakers.insert(id, TaskWaker { task_id: TaskId(id) })
        &&& after.waiting == registered(
            self.waiting,
            task.inputs()[k],
            TaskWaker { task_id: TaskId(id) },
        )
        &&& after.cells == self.cells
        &&& after.pending == self.pending
        &&& after.parked == self.parked
        &&& after.closed == self.closed
    }

    /// The step polls the next ready task, which finds every input
    /// written and ends: its outputs hold what its function returns for the
    /// values of the inputs, each output is announced, and the consumer of
    /// the events is woken if it was paused.
    pub open spec fn ran(self, after: Self) -> bool {
        let id = self.next()[0];
        let task = self.tasks[id].future;
        &&& self.tasks.contains_key(id)
        &&& forall|k: int|
            0 <= k < task.inputs().len() ==> self.cells[#[trigger] task.inputs()[k]] is Some
        &&& exists|x: Vec<usize>, y: Vec<usize>|
            {
                &&& x@ == cell_values(self.cells, task.inputs())
                &&& #[trigger] call_ensures(task.func(), (x,), y)
                &&& y@.len() == task.outputs().len()
                &&& after.cells == cells_written(self.cells, task.outputs(), y@)
            }
        &&& after.tasks == self.tasks.remove(id)
        &&& after.wakers == self.wakers.remove(id)
        &&& after.waiting == self.waiting
        &&& after.pending == self.pending + readable_events(task.outputs())
        &&& after.parked == if task.outputs().len() > 0 {
            None
        } else {
            self.parked
        }
        &&& after.ready == match self.parked {
            Some(parked) if task.outputs().len() > 0 => self.next().skip(1).push(
                parked.task_id.0,
            ),
            _ => self.next().skip(1),
        }
        &&& after.closed == self.closed
    }

    /// The step polls the next ready task, which finds every input
    /// written, and whose function returns another number of values than
    /// the task has outputs. Nothing is written, and the task is kept.
    pub open spec fn failed(self, after: Self, e: WrongLength) -> bool {
        let id = self.next()[0];
        let task = self.tasks[id].future;
        &&& self.can_step()
        &&& self.tasks.contains_key(id)
        &&& forall|k: int|
            0 <= k < task.inputs().len() ==> self.cells[#[trigger] task.inputs()[k]] is Some
        &&& exists|x: Vec<usize>, y: Vec<usize>|
            {
                &&& x@ == cell_values(self.cells, task.inputs())
                &&& #[trigger] call_ensures(task.func(), (x,), y)
                &&& y@.len() != task.outputs().len()
                &&& e == (WrongLength {
                    expected: task.outputs().len() as usize,
                    returned: y@.len() as usize,
                })
            }
        &&& self.task_read(after, id, task.inputs().len() as int)
        &&& after.ready == self.next().skip(1)
        &&& after.wakers == self.wakers.insert(id, TaskWaker { task_id: TaskId(id) })
        &&& after.waiting == self.waiting
        &&& after.cells == self.cells
        &&& after.pending == self.pending
        &&& after.parked == self.parked
        &&& after.closed == self.closed
    }

    /// One step of a run makes `after` of `self`: the tags at the front of
    /// the queue that name no task are dropped, and the dispatch task runs
    /// or the next ready task is polled.
    pub open spec fn stepped(self, after: Self) -> bool {
        self.can_step() && (self.dispatched(after) || self.paused(after) || self.ran(after))
    }

    /// Each point of the list is made of the one before it by one step.
    pub open spec fn run_of(run: Seq<Self>) -> bool {
        &&& run.len() >= 1
        &&& forall|i: int| 0 <= i < run.len() - 1 ==> (#[trigger] run[i]).stepped(run[i + 1])
    }
}

impl<W: Fn(Vec<usize>) -> Vec<usize>> Executor<AdviceTask<W>> {
    /// Where a run of the executor stands.
    pub open spec fn point(
        &self,
        storage: &MyStorage,
        reactor: &Reactor,
        event_stream: &EventStream,
    ) -> RunPoint<W> {
        RunPoint {
            tasks: self.tasks(),
            ready: self.ready(),
            wakers: self.wakers(),
            cells: storage.cells(),
            waiting: reactor@,
            pending: event_stream.pending(),
            parked: event_stream.parked(),
            closed: event_stream.is_closed(),
        }
    }

    /// Runs the tasks, step by step, until none is left, none is ready, a
    /// task fails, or `max_steps` steps were made. A step runs the dispatch
    /// task or polls the next ready task. The run is finished if and only
    /// if no task is left; it is out of steps only after `max_steps` steps.
    /// A task that has ended has run its step: its outputs hold what its
    /// function returns for the values of its inputs. What was written
    /// stays as it was.
    pub fn run_until_complete(
        &mut self,
        storage: &mut MyStorage,
        reactor: &mut Reactor,
        event_stream: &mut EventStream,
        max_steps: usize,
    ) -> (end: RunEnd)
        requires
            old(self).wf(),
            old(self).polling() is None,
            tasks_fit(old(self).tasks(), old(storage).cells()),
        ensures
            final(self).wf(),
            final(self).polling() is None,
            final(self).spawned() == old(self).spawned(),
            final(storage).interests() == old(storage).interests(),
            cells_extend(old(storage).cells(), final(storage).cells()),
            tasks_fit(final(self).tasks(), final(storage).cells()),
            forall|id: usize| #[trigger]
                final(self).tasks().contains_key(id) ==> old(self).tasks().contains_key(id)
                    && final(self).tasks()[id].future.same_step(&old(self).tasks()[id].future),
            forall|id: usize|
                old(self).tasks().contains_key(id) && !final(self).tasks().contains_key(id) ==> (
                #[trigger] old(self).tasks()[id]).future.done(final(storage).cells()),
            end is Finished <==> final(self).live() == Set::<usize>::empty(),
            exists|run: Seq<RunPoint<W>>|
                {
                    let last = final(self).point(final(storage), final(reactor), final(event_stream));
                    &&& #[trigger] RunPoint::run_of(run)
                    &&& run[0] == old(self).point(old(storage), old(reactor), old(event_stream))
                    &&& run.len() <= max_steps + 1
                    &&& match end {
                        RunEnd::Finished => run.last() == last,
                        RunEnd::Idle => run.last().tasks.dom() != Set::<usize>::empty()
                            && run.last().next().len() == 0 && last == (RunPoint {
                            ready: Seq::<usize>::empty(),
                            ..run.last()
                        }),
                        RunEnd::OutOfSteps => run.last() == last && run.len() == max_steps + 1,
                        RunEnd::Failed(e) => run.last().failed(last, e) && run.len() <= max_steps,
                    }
                },
    {
        let ghost spawned = self.tasks();
        let ghost mut run = seq![self.point(storage, reactor, event_stream)];
        let mut steps: usize = 0;
        while steps < max_steps
            invariant
                steps <= max_steps,
                self.wf(),
                self.polling() is None,
                self.spawned() == old(self).spawned(),
                spawned == old(self).tasks(),
                storage.interests() == old(storage).interests(),
                cells_extend(old(storage).cells(), storage.cells()),
                tasks_fit(self.tasks(), storage.cells()),
                forall|id: usize| #[trigger]
                    self.tasks().contains_key(id) ==> spawned.contains_key(id)
                        && self.tasks()[id].future.same_step(&spawned[id].future),
                forall|id: usize|
                    spawned.contains_key(id) && !self.tasks().contains_key(id) ==> (
                    #[trigger] spawned[id]).future.done(storage.cells()),
                RunPoint::run_of(run),
                run.len() == steps + 1,
                run[0] == old(self).point(old(storage), old(reactor), old(event_stream)),
                run.last() == self.point(storage, reactor, event_stream),
            decreases max_steps - steps,
        {
            let ghost tasks = self.tasks();
            let ghost cells = storage.cells();
            let ghost here = self.point(storage, reactor, event_stream);
            let ghost before = run;
            proof {
                self.lemma_live_tags();
            }
            match self.next_step() {
                Step::Finished => {
                    return RunEnd::Finished;
                },
                Step::Idle => {
                    proof {
                        assert(self.point(storage, reactor, event_stream) =~= (RunPoint {
                            ready: Seq::<usize>::empty(),
                            ..here
                        }));
                    }
                    return RunEnd::Idle;
                },
                Step::Dispatch(_) => {
                    let _ = self.dispatch(event_stream, reactor);
                    proof {
                        let now = self.point(storage, reactor, event_stream);
                        assert(now =~= (RunPoint {
                            ready: here.next().skip(1) + woken_all(here.waiting, here.pending),
                            waiting: reacted_all(here.waiting, here.pending),
                            pending: Seq::<Event>::empty(),
                            parked: if here.closed {
                                here.parked
                            } else {
                                Some(TaskWaker { task_id: TaskId(DISPATCH_TASK) })
                            },
                            ..here
                        }));
                        assert(here.dispatched(now));
                    }
                },
                Step::Poll(task, waker) => {
                    let mut task = task;
                    let ghost id = task.id.0;
                    assert(tasks[id].future.fits(cells));
                    assert(waker == (TaskWaker { task_id: TaskId(id) }));
                    let outcome = task.future.poll(storage, reactor, self, event_stream, waker);
                    match outcome {
                        Polled::Pending => {
                            assert(task.future.fits(cells));
                            self.end_poll(task, Polled::Pending);
                            proof {
                                let now = self.point(storage, reactor, event_stream);
                                Self::lemma_put_back(tasks, spawned, id, now.tasks, cells);
                                assert(now.wakers =~= here.wakers.insert(
                                    id,
                                    TaskWaker { task_id: TaskId(id) },
                                ));
                                assert(here.paused(now));
                            }
                        },
                        Polled::Ready(Ok(())) => {
                            proof {
                                Self::lemma_step_ran(tasks, spawned, id, cells, storage.cells());
                            }
                            self.end_poll(task, Polled::Ready(()));
                            proof {
                                let now = self.point(storage, reactor, event_stream);
                                assert(now.wakers =~= here.wakers.remove(id));
                                assert(here.ran(now));
                            }
                        },
                        Polled::Ready(Err(e)) => {
                            assert(task.future.fits(cells));
                            self.end_poll(task, Polled::Pending);
                            proof {
                                let now = self.point(storage, reactor, event_stream);
                                Self::lemma_put_back(tasks, spawned, id, now.tasks, cells);
                                assert(now.wakers =~= here.wakers.insert(
                                    id,
                                    TaskWaker { task_id: TaskId(id) },
                                ));
                                assert(here.failed(now, e));
                            }
                            return RunEnd::Failed(e);
                        },
                    }
                },
            }
            proof {
                let now = self.point(storage, reactor, event_stream);
                assert(here.stepped(now));
                run = before.push(now);
                assert forall|i: int| 0 <= i < run.len() - 1 implies (#[trigger] run[i]).stepped(
                    run[i + 1],
                ) by {
                    if i < before.len() - 1 {
                        assert(run[i] == before[i]);
                        assert(run[i + 1] == before[i + 1]);
                    }
                }
            }
            steps = steps + 1;
        }
        if self.is_complete() {
            RunEnd::Finished
        } else {
            RunEnd::OutOfSteps
        }
    }

    /// Once the task `id` is put back with the step that it had, every
    /// task can still be polled, and the tasks that had run have run.
    proof fn lemma_put_back(
        tasks: Map<usize, Task<AdviceTask<W>>>,
        spawned: Map<usize, Task<AdviceTask<W>>>,
        id: usize,
        after: Map<usize, Task<AdviceTask<W>>>,
        cells: Map<SignalId, Option<usize>>,
    )
        requires
            tasks_fit(tasks, cells),
            tasks.contains_key(id),
            after.contains_key(id),
            after == tasks.remove(id).insert(id, after[id]),
            after[id].future.same_step(&tasks[id].future),
            after[id].future.fits(cells),
            forall|k: usize| #[trigger]
                tasks.contains_key(k) ==> spawned.contains_key(k) && tasks[k].future.same_step(
                    &spawned[k].future,
                ),
            forall|k: usize|
                spawned.contains_key(k) && !tasks.contains_key(k) ==> (
                #[trigger] spawned[k]).future.done(cells),
        ensures
            tasks_fit(after, cells),
            after.dom() == tasks.dom(),
            forall|k: usize| tasks.contains_key(k) && k != id ==> #[trigger] after[k] == tasks[k],
            forall|k: usize| #[trigger]
                after.contains_key(k) ==> spawned.contains_key(k) && after[k].future.same_step(
                    &spawned[k].future,
                ),
            forall|k: usize|
                spawned.contains_key(k) && !after.contains_key(k) ==> (
                #[trigger] spawned[k]).future.done(cells),
    {
        assert(after.dom() =~= tasks.dom());
        assert forall|i: usize, j: usize|
            after.contains_key(i) && after.contains_key(j) && i != j implies disjoint(
            (#[trigger] after[i]).future.outputs(),
            (#[trigger] after[j]).future.outputs(),
        ) by {
            assert(tasks.contains_key(i) && tasks.contains_key(j));
            assert(disjoint(tasks[i].future.outputs(), tasks[j].future.outputs()));
        }
        assert forall|k: usize| after.contains_key(k) implies (#[trigger] after[k]).future.fits(
            cells,
        ) by {
            if k != id {
                assert(tasks.contains_key(k));
                assert(after[k] == tasks[k]);
            }
        }
        assert forall|k: usize| spawned.contains_key(k) && !after.contains_key(k) implies (
        #[trigger] spawned[k]).future.done(cells) by {
            assert(!tasks.contains_key(k));
        }
    }

    /// Once the task `id` has run its step, it has run, the tasks that had
    /// run have run, and the other tasks can still be polled.
    proof fn lemma_step_ran(
        tasks: Map<usize, Task<AdviceTask<W>>>,
        spawned: Map<usize, Task<AdviceTask<W>>>,
        id: usize,
        before: Map<SignalId, Option<usize>>,
        after: Map<SignalId, Option<usize>>,
    )
        requires
            tasks_fit(tasks, before),
            tasks.contains_key(id),
            forall|k: usize| #[trigger]
                tasks.contains_key(k) ==> spawned.contains_key(k) && tasks[k].future.same_step(
                    &spawned[k].future,
                ),
            forall|k: usize|
                spawned.contains_key(k) && !tasks.contains_key(k) ==> (
                #[trigger] spawned[k]).future.done(before),
            forall|k: int|
                0 <= k < tasks[id].future.inputs().len() ==> before[#[trigger] tasks[id].future.inputs()[k]] is Some,
            exists|x: Vec<usize>, y: Vec<usize>|
                {
                    &&& x@ == cell_values(before, tasks[id].future.inputs())
                    &&& #[trigger] call_ensures(tasks[id].future.func(), (x,), y)
                    &&& y@.len() == tasks[id].future.outputs().len()
                    &&& after == cells_written(before, tasks[id].future.outputs(), y@)
                },
        ensures
            cells_extend(before, after),
            tasks_fit(tasks.remove(id), after),
            forall|k: usize|
                spawned.contains_key(k) && !tasks.remove(id).contains_key(k) ==> (
                #[trigger] spawned[k]).future.done(after),
    {
        let ran = tasks[id].future;
        let (x, y) = choose|x: Vec<usize>, y: Vec<usize>|
            {
                &&& x@ == cell_values(before, ran.inputs())
                &&& #[trigger] call_ensures(ran.func(), (x,), y)
                &&& y@.len() == ran.outputs().len()
                &&& after == cells_written(before, ran.outputs(), y@)
            };
        assert(ran.fits(before));
        lemma_cells_written(before, ran.outputs(), y@);
        assert(before.dom() =~= after.dom()) by {
            assert forall|a: SignalId| before.dom().contains(a) <==> after.dom().contains(a) by {
                if ran.outputs().contains(a) {
                    let j = choose|j: int| 0 <= j < ran.outputs().len() && ran.outputs()[j] == a;
                    assert(before.contains_key(ran.outputs()[j]));
                }
            }
        }
        assert forall|a: SignalId| before.contains_key(a) && before[a] is Some implies #[trigger] after[a]
            == before[a] by {
            if ran.outputs().contains(a) {
                let j = choose|j: int| 0 <= j < ran.outputs().len() && ran.outputs()[j] == a;
                assert(before[ran.outputs()[j]] is None);
            }
        }
        assert(cells_extend(before, after));
        let rest = tasks.remove(id);
        assert forall|k: usize| rest.contains_key(k) implies (#[trigger] rest[k]).future.fits(
            after,
        ) by {
            let other = rest[k].future;
            assert(tasks.contains_key(k) && tasks[k] == rest[k]);
            assert(other.fits(before));
            assert(disjoint(tasks[k].future.outputs(), tasks[id].future.outputs()));
            assert forall|n: int| 0 <= n < other.gathered().len() implies after.contains_key(
                #[trigger] other.inputs()[n],
            ) && after[other.inputs()[n]] == Some(other.gathered()[n]) by {
                assert(before.dom().contains(other.inputs()[n]));
            }
            assert forall|n: int| 0 <= n < other.inputs().len() implies after.contains_key(
                #[trigger] other.inputs()[n],
            ) by {
                assert(before.dom().contains(other.inputs()[n]));
            }
            assert forall|j: int| 0 <= j < other.outputs().len() implies after.contains_key(
                #[trigger] other.outputs()[j],
            ) && after[other.outputs()[j]] is None by {
                assert(before.dom().contains(other.outputs()[j]));
                if ran.outputs().contains(other.outputs()[j]) {
                    let m = choose|m: int|
                        0 <= m < ran.outputs().len() && ran.outputs()[m] == other.outputs()[j];
                    assert(other.outputs()[j] != ran.outputs()[m]);
                }
            }
        }
        assert forall|i: usize, j: usize|
            rest.contains_key(i) && rest.contains_key(j) && i != j implies disjoint(
            (#[trigger] rest[i]).future.outputs(),
            (#[trigger] rest[j]).future.outputs(),
        ) by {
            assert(tasks.contains_key(i) && tasks.contains_key(j));
            assert(disjoint(tasks[i].future.outputs(), tasks[j].future.outputs()));
        }
        assert forall|k: usize| spawned.contains_key(k) && !rest.contains_key(k) implies (
        #[trigger] spawned[k]).future.done(after) by {
            if k == id {
                let first = spawned[id].future;
                assert(ran.same_step(&first));
                assert(cell_values(after, first.inputs()) =~= cell_values(before, first.inputs())) by {
                    assert forall|n: int| 0 <= n < first.inputs().len() implies after[first.inputs()[n]]
                        == before[first.inputs()[n]] by {
                        assert(before.contains_key(ran.inputs()[n]));
                    }
                }
                assert(call_ensures(first.func(), (x,), y));
                assert forall|n: int| 0 <= n < first.inputs().len() implies after.contains_key(
                    #[trigger] first.inputs()[n],
                ) && after[first.inputs()[n]] is Some by {
                    assert(before.contains_key(ran.inputs()[n]));
                    assert(before.dom().contains(ran.inputs()[n]));
                }
                assert forall|j: int| 0 <= j < first.outputs().len() implies after.contains_key(
                    #[trigger] first.outputs()[j],
                ) && after[first.outputs()[j]] == Some(y@[j]) by {
                    assert(ran.outputs()[j] == first.outputs()[j]);
                    assert(ran.outputs().contains(ran.outputs()[j]));
                }
            } else {
                assert(!tasks.contains_key(k));
                spawned[k].future.lemma_done_stays(before, after);
            }
        }
    }
}

} // verus!
