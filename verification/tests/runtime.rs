use circuit_core::advices::WrongLength;
use circuit_core::backend::runtime::advice_task::{AdviceTask, RunEnd};
use circuit_core::backend::runtime::event::signal::Signal;
use circuit_core::backend::runtime::event::{Event, EventStream};
use circuit_core::backend::runtime::executor::{Executor, Step, DISPATCH_TASK};
use circuit_core::backend::runtime::reactor::Reactor;
use circuit_core::backend::runtime::storage::{
    AllocatorOf, AsyncStorage, MyStorage, PutError, ReaderOf, SignalId, WriterOf,
};
use circuit_core::backend::runtime::task::{Polled, TaskId};
use circuit_core::backend::runtime::waker::TaskWaker;

/// What the tasks of these tests do, written as the states they pause in.
enum Job {
    EmitsSignal { signal: SignalId, value: usize },
    Mul2 { first: SignalId, second: SignalId, out: SignalId, value_1: Option<usize> },
}

struct World {
    storage: MyStorage,
    reactor: Reactor,
    stream: EventStream,
    executor: Executor<Job>,
    polls: Vec<usize>,
}

impl World {
    fn new() -> World {
        World {
            storage: MyStorage::new(),
            reactor: Reactor::new(),
            stream: EventStream::new(),
            executor: Executor::new(),
            polls: Vec::new(),
        }
    }

    fn emit(&mut self, signal: SignalId, through_stream: bool) {
        if through_stream {
            self.executor.emit(&mut self.stream, Event::SignalReadable(signal));
        } else {
            self.executor.react(&mut self.reactor, Event::SignalReadable(signal));
        }
    }

    fn poll(&mut self, job: &mut Job, waker: TaskWaker, through_stream: bool) -> Polled<()> {
        match job {
            Job::EmitsSignal { signal, value } => {
                self.storage.put(signal, *value);
                let signal = *signal;
                self.emit(signal, through_stream);
                Polled::Ready(())
            }
            Job::Mul2 { first, second, out, value_1 } => {
                if value_1.is_none() {
                    match Signal::new(*first).poll(&self.storage, &mut self.reactor, waker) {
                        Polled::Ready(v) => *value_1 = Some(v),
                        Polled::Pending => return Polled::Pending,
                    }
                }
                let value_2: usize =
                    match Signal::new(*second).poll(&self.storage, &mut self.reactor, waker) {
                        Polled::Ready(v) => v,
                        Polled::Pending => return Polled::Pending,
                    };
                self.storage.put(out, value_1.unwrap() * value_2);
                let out = *out;
                self.emit(out, through_stream);
                Polled::Ready(())
            }
        }
    }

    /// Runs until the executor reports the end. Returns false where no task
    /// was ready although some were left.
    fn run_until_complete(&mut self, through_stream: bool) -> bool {
        loop {
            match self.executor.next_step() {
                Step::Finished => return true,
                Step::Idle => return false,
                Step::Dispatch(_) => {
                    self.polls.push(DISPATCH_TASK);
                    self.executor.dispatch(&mut self.stream, &mut self.reactor);
                }
                Step::Poll(mut task, waker) => {
                    self.polls.push(task.id.0);
                    let outcome = self.poll(&mut task.future, waker, through_stream);
                    self.executor.end_poll(task, outcome);
                }
            }
        }
    }
}

fn signaling(through_stream: bool) -> World {
    let mut world = World::new();
    let first = world.storage.allocate();
    let second = world.storage.allocate();
    let result = world.storage.allocate();

    world.executor.spawn(Job::Mul2 { first, second, out: result, value_1: None });
    world.executor.spawn(Job::EmitsSignal { signal: first, value: 42 });
    world.executor.spawn(Job::EmitsSignal { signal: second, value: 1337 });
    assert!(world.run_until_complete(through_stream));

    assert_eq!(world.storage.get(&result).copied(), Some(42 * 1337));
    world
}

type Witness = fn(Vec<usize>) -> Vec<usize>;

fn mul2(values: Vec<usize>) -> Vec<usize> {
    vec![values[0] * values[1]]
}

fn gives_42(_: Vec<usize>) -> Vec<usize> {
    vec![42]
}

fn gives_1337(_: Vec<usize>) -> Vec<usize> {
    vec![1337]
}

#[test]
fn test_signaling() {
    let mut storage = MyStorage::new();
    let mut reactor = Reactor::new();
    let mut stream = EventStream::new();
    let mut executor: Executor<AdviceTask<Witness>> = Executor::new();
    let first = storage.allocate();
    let second = storage.allocate();
    let result = storage.allocate();

    executor.spawn(AdviceTask::new(vec![first, second], vec![result], mul2 as Witness));
    executor.spawn(AdviceTask::new(vec![], vec![first], gives_42 as Witness));
    executor.spawn(AdviceTask::new(vec![], vec![second], gives_1337 as Witness));

    let mut polls = Vec::new();
    loop {
        match executor.next_step() {
            Step::Finished => break,
            Step::Idle => panic!("no task is ready, and tasks are left"),
            Step::Dispatch(_) => {
                polls.push(DISPATCH_TASK);
                executor.dispatch(&mut stream, &mut reactor);
            }
            Step::Poll(mut task, waker) => {
                polls.push(task.id.0);
                let outcome = task.future.poll(
                    &mut storage,
                    &mut reactor,
                    &mut executor,
                    &mut stream,
                    waker,
                );
                match outcome {
                    Polled::Pending => executor.end_poll(task, Polled::Pending),
                    Polled::Ready(Ok(())) => executor.end_poll(task, Polled::Ready(())),
                    Polled::Ready(Err(e)) => panic!("a task failed: {e:?}"),
                }
            }
        }
    }

    assert_eq!(storage.get(&result).copied(), Some(42 * 1337));
    // The dispatch task pauses; the product pauses on its first input; the
    // two writers run; the dispatch task wakes the product, which ends.
    assert_eq!(polls, vec![0, 1, 2, 3, 0, 1]);
    assert!(executor.is_complete());
}

#[test]
fn run_until_complete_ends_when_no_task_is_left() {
    let mut storage = MyStorage::new();
    let mut reactor = Reactor::new();
    let mut stream = EventStream::new();
    let mut executor: Executor<AdviceTask<Witness>> = Executor::new();
    let first = storage.allocate();
    let second = storage.allocate();
    let result = storage.allocate();
    executor.spawn(AdviceTask::new(vec![first, second], vec![result], mul2 as Witness));
    executor.spawn(AdviceTask::new(vec![], vec![first], gives_42 as Witness));
    executor.spawn(AdviceTask::new(vec![], vec![second], gives_1337 as Witness));

    // Six steps end the run: five are not enough.
    let end = executor.run_until_complete(&mut storage, &mut reactor, &mut stream, 5);
    assert_eq!(end, RunEnd::OutOfSteps);
    assert!(!executor.is_complete());
    assert_eq!(storage.get(&first), Some(&42));
    assert_eq!(storage.get(&result), None);
    let end = executor.run_until_complete(&mut storage, &mut reactor, &mut stream, 1);
    assert_eq!(end, RunEnd::Finished);
    assert!(executor.is_complete());
    assert_eq!(storage.get(&result).copied(), Some(42 * 1337));
    // A finished run stays finished.
    let end = executor.run_until_complete(&mut storage, &mut reactor, &mut stream, 0);
    assert_eq!(end, RunEnd::Finished);
}

#[test]
fn run_until_complete_reports_tasks_that_wait_for_ever() {
    let mut storage = MyStorage::new();
    let mut reactor = Reactor::new();
    let mut stream = EventStream::new();
    let mut executor: Executor<AdviceTask<Witness>> = Executor::new();
    let first = storage.allocate();
    let second = storage.allocate();
    let result = storage.allocate();
    executor.spawn(AdviceTask::new(vec![first, second], vec![result], mul2 as Witness));
    executor.spawn(AdviceTask::new(vec![], vec![first], gives_42 as Witness));
    let end = executor.run_until_complete(&mut storage, &mut reactor, &mut stream, 1000);
    assert_eq!(end, RunEnd::Idle);
    assert_eq!(storage.get(&first), Some(&42));
    assert_eq!(storage.get(&result), None);
    // The value comes from outside, and the run goes on.
    storage.put(&second, 1337);
    executor.emit(&mut stream, Event::SignalReadable(second));
    let end = executor.run_until_complete(&mut storage, &mut reactor, &mut stream, 1000);
    assert_eq!(end, RunEnd::Finished);
    assert_eq!(storage.get(&result).copied(), Some(42 * 1337));
}

#[test]
fn run_stops_where_a_function_returns_too_few_or_too_many_values() {
    let mut storage = MyStorage::new();
    let mut reactor = Reactor::new();
    let mut stream = EventStream::new();
    let mut executor: Executor<AdviceTask<Witness>> = Executor::new();
    let first = storage.allocate();
    let second = storage.allocate();
    let third = storage.allocate();
    executor.spawn(AdviceTask::new(vec![], vec![first], gives_42 as Witness));
    // Two outputs, and a function that returns one value.
    executor.spawn(AdviceTask::new(vec![first], vec![second, third], gives_1337 as Witness));
    let end = executor.run_until_complete(&mut storage, &mut reactor, &mut stream, 100);
    assert_eq!(end, RunEnd::Failed(WrongLength { expected: 2, returned: 1 }));
    assert_eq!(storage.get(&first), Some(&42));
    assert_eq!(storage.get(&second), None);
    assert_eq!(storage.get(&third), None);
    // The task that failed is left, and it is not ready.
    assert!(!executor.is_complete());
    let end = executor.run_until_complete(&mut storage, &mut reactor, &mut stream, 100);
    assert_eq!(end, RunEnd::Idle);

    let mut task = AdviceTask::new(vec![], vec![], gives_42 as Witness);
    let waker = TaskWaker::new(TaskId(5));
    assert!(matches!(
        task.poll(&mut storage, &mut reactor, &mut executor, &mut stream, waker),
        Polled::Ready(Err(WrongLength { expected: 0, returned: 1 }))
    ));
}

#[test]
fn value_from_outside_resumes_the_reader() {
    let mut storage = MyStorage::new();
    let mut reactor = Reactor::new();
    let mut stream = EventStream::new();
    let mut executor: Executor<AdviceTask<Witness>> = Executor::new();
    let first = storage.allocate();
    let second = storage.allocate();
    let result = storage.allocate();
    executor.spawn(AdviceTask::new(vec![first, second], vec![result], mul2 as Witness));
    executor.spawn(AdviceTask::new(vec![], vec![first], gives_42 as Witness));

    let mut polls = Vec::new();
    let mut idle = 0;
    loop {
        match executor.next_step() {
            Step::Finished => break,
            Step::Idle => {
                // Nothing goes on until the second value comes from outside:
                // it is written first and announced after.
                idle += 1;
                assert_eq!(idle, 1);
                assert_eq!(storage.get(&result), None);
                storage.put(&second, 1337);
                executor.emit(&mut stream, Event::SignalReadable(second));
            }
            Step::Dispatch(_) => {
                polls.push(DISPATCH_TASK);
                executor.dispatch(&mut stream, &mut reactor);
            }
            Step::Poll(mut task, waker) => {
                polls.push(task.id.0);
                let outcome = task.future.poll(
                    &mut storage,
                    &mut reactor,
                    &mut executor,
                    &mut stream,
                    waker,
                );
                match outcome {
                    Polled::Pending => executor.end_poll(task, Polled::Pending),
                    Polled::Ready(Ok(())) => executor.end_poll(task, Polled::Ready(())),
                    Polled::Ready(Err(e)) => panic!("a task failed: {e:?}"),
                }
            }
        }
    }
    assert_eq!(idle, 1);
    assert_eq!(storage.get(&result).copied(), Some(42 * 1337));
    assert_eq!(polls, vec![0, 1, 2, 0, 1, 0, 1]);
}

#[test]
fn advice_task_pauses_at_the_first_missing_input() {
    let mut storage = MyStorage::new();
    let mut reactor = Reactor::new();
    let mut stream = EventStream::new();
    let mut executor: Executor<u8> = Executor::new();
    let mut queue = crossbeam_queue::SegQueue::new();
    let a = storage.allocate();
    let b = storage.allocate();
    let out = storage.allocate();
    let other = storage.allocate();
    let mut task = AdviceTask::new(vec![a, b, a], vec![out, other], sums as Witness);
    let waker = TaskWaker::new(TaskId(9));

    assert!(matches!(
        task.poll(&mut storage, &mut reactor, &mut executor, &mut stream, waker),
        Polled::Pending
    ));
    storage.put(&a, 3);
    // Paused on `a`: an event for `b` wakes nobody.
    reactor.react(Event::SignalReadable(b), &mut queue);
    assert!(queue.pop().is_none());
    reactor.react(Event::SignalReadable(a), &mut queue);
    assert_eq!(queue.pop(), Some(9));
    assert!(matches!(
        task.poll(&mut storage, &mut reactor, &mut executor, &mut stream, waker),
        Polled::Pending
    ));
    reactor.react(Event::SignalReadable(a), &mut queue);
    assert!(queue.pop().is_none());
    storage.put(&b, 4);
    assert!(matches!(
        task.poll(&mut storage, &mut reactor, &mut executor, &mut stream, waker),
        Polled::Ready(Ok(()))
    ));
    assert_eq!(storage.get(&out), Some(&10));
    assert_eq!(storage.get(&other), Some(&3));
    // Each output is announced, first to last.
    let consumer = TaskWaker::new(TaskId(0));
    assert!(matches!(
        stream.poll_next(consumer),
        Polled::Ready(Some(Event::SignalReadable(id))) if id == out
    ));
    assert!(matches!(
        stream.poll_next(consumer),
        Polled::Ready(Some(Event::SignalReadable(id))) if id == other
    ));
    assert!(matches!(stream.poll_next(consumer), Polled::Pending));
}

fn sums(values: Vec<usize>) -> Vec<usize> {
    vec![values.iter().sum(), values.len()]
}

#[test]
fn test_signaling_with_direct_reaction() {
    let world = signaling(false);
    // dispatch, mul2 (pauses on the first signal), the two writers in the
    // order of the queue, mul2 (woken by the first writer, finds both values)
    assert_eq!(world.polls, vec![0, 1, 2, 3, 1]);
    assert!(world.executor.is_complete());
}

#[test]
fn test_signaling_through_the_event_stream() {
    let world = signaling(true);
    // The dispatch task runs between the emissions and the wakeup they cause.
    assert_eq!(world.polls, vec![0, 1, 2, 3, 0, 1]);
}

#[test]
fn deadlock_is_reported_as_idle() {
    let mut world = World::new();
    let first = world.storage.allocate();
    let second = world.storage.allocate();
    let result = world.storage.allocate();
    world.executor.spawn(Job::Mul2 { first, second, out: result, value_1: None });
    world.executor.spawn(Job::EmitsSignal { signal: first, value: 42 });
    assert!(!world.run_until_complete(false));
    assert!(!world.executor.is_complete());
    assert_eq!(world.storage.get(&result), None);
}

#[test]
fn executor_without_tasks_is_finished_at_once() {
    let mut executor: Executor<Job> = Executor::new();
    assert!(executor.is_complete());
    assert!(matches!(executor.next_step(), Step::Finished));
}

#[test]
fn spawn_gives_increasing_tags() {
    let mut executor: Executor<u8> = Executor::new();
    assert_eq!(executor.spawn(7), TaskId(1));
    assert_eq!(executor.spawn(8), TaskId(2));
    match executor.next_step() {
        Step::Dispatch(waker) => assert_eq!(waker.task_id, TaskId(DISPATCH_TASK)),
        _ => panic!("the dispatch task is the first in the queue"),
    }
    match executor.next_step() {
        Step::Poll(task, waker) => {
            assert_eq!(task.id, TaskId(1));
            assert_eq!(task.future, 7);
            assert_eq!(waker.task_id, TaskId(1));
            executor.end_poll(task, Polled::Ready(()));
        }
        _ => panic!("the first task is ready"),
    }
    assert!(!executor.is_complete());
}

#[test]
fn tags_of_ended_tasks_are_skipped() {
    let mut executor: Executor<u8> = Executor::new();
    let id = executor.spawn(1);
    let other = executor.spawn(2);
    assert!(matches!(executor.next_step(), Step::Dispatch(_)));
    // A second wakeup of the first task, before it runs and ends.
    executor.wake(TaskWaker::new(id));
    match executor.next_step() {
        Step::Poll(task, _) => {
            assert_eq!(task.id, id);
            executor.end_poll(task, Polled::Ready(()));
        }
        _ => panic!("the first task is ready"),
    }
    match executor.next_step() {
        Step::Poll(task, _) => {
            assert_eq!(task.id, other);
            executor.end_poll(task, Polled::Pending);
        }
        _ => panic!("the second task is ready"),
    }
    // The queue holds the stale tag of the first task only.
    assert!(matches!(executor.next_step(), Step::Idle));
}

#[test]
fn reactor_wakes_each_reader_once_in_order() {
    let mut executor: Executor<u8> = Executor::new();
    let mut reactor = Reactor::new();
    let a = SignalId(5);
    let b = SignalId(6);
    reactor.register_reader(a, TaskWaker::new(TaskId(10)));
    reactor.register_reader(b, TaskWaker::new(TaskId(11)));
    reactor.register_reader(a, TaskWaker::new(TaskId(12)));
    reactor.register_reader(a, TaskWaker::new(TaskId(10)));
    assert!(matches!(executor.next_step(), Step::Finished));

    // Read the queue through a stream consumer that is never parked.
    let mut queue = crossbeam_queue::SegQueue::new();
    reactor.react(Event::SignalReadable(a), &mut queue);
    let mut woken = Vec::new();
    while let Some(id) = queue.pop() {
        woken.push(id);
    }
    assert_eq!(woken, vec![10, 12, 10]);

    // Nobody waits for `a` any more; a later reader waits for the next event.
    reactor.react(Event::SignalReadable(a), &mut queue);
    assert!(queue.pop().is_none());
    reactor.register_reader(a, TaskWaker::new(TaskId(13)));
    reactor.react(Event::SignalReadable(b), &mut queue);
    assert_eq!(queue.pop(), Some(11));
    assert!(queue.pop().is_none());
    Event::SignalReadable(a).emit(&mut reactor, &mut queue);
    assert_eq!(queue.pop(), Some(13));
    assert!(queue.pop().is_none());
}

#[test]
fn event_stream_is_first_in_first_out() {
    let mut queue = crossbeam_queue::SegQueue::new();
    let mut stream = EventStream::new();
    let consumer = TaskWaker::new(TaskId(0));
    assert!(matches!(stream.poll_next(consumer), Polled::Pending));
    stream.emit(Event::SignalReadable(SignalId(1)), &mut queue);
    // The parked consumer is woken by the first emission only.
    assert_eq!(queue.pop(), Some(0));
    circuit_core::backend::runtime::event::emit(
        &mut stream,
        Event::SignalReadable(SignalId(2)),
        &mut queue,
    );
    assert!(queue.pop().is_none());
    assert!(matches!(
        stream.poll_next(consumer),
        Polled::Ready(Some(Event::SignalReadable(SignalId(1))))
    ));
    assert!(matches!(
        stream.poll_next(consumer),
        Polled::Ready(Some(Event::SignalReadable(SignalId(2))))
    ));
    assert!(matches!(stream.poll_next(consumer), Polled::Pending));
    stream.close(&mut queue);
    assert_eq!(queue.pop(), Some(0));
    assert!(matches!(stream.poll_next(consumer), Polled::Ready(None)));
}

#[test]
fn second_put_is_a_write_once_violation() {
    let mut storage = MyStorage::new();
    let a = storage.allocate();
    assert_eq!(storage.get(&a), None);
    assert_eq!(storage.try_put(&a, 1), Ok(()));
    assert_eq!(storage.try_put(&a, 2), Err(PutError::WrittenTwice(a)));
    assert_eq!(storage.get(&a), Some(&1));
    assert_eq!(storage.try_put(&SignalId(7), 2), Err(PutError::NoSuchCell(SignalId(7))));
    assert!(storage.contains(&a));
    assert!(!storage.contains(&SignalId(7)));
}

#[test]
fn storage_reports_cells_of_interest_once() {
    let mut storage = MyStorage::new();
    let a = storage.allocate();
    let b = storage.allocate();
    let c = storage.allocate();
    assert_eq!((a, b, c), (SignalId(0), SignalId(1), SignalId(2)));
    storage.register_interest_in(c);
    storage.register_interest_in(a);
    storage.put(&b, 20);
    storage.put(&c, 30);
    storage.put(&a, 10);
    assert_eq!(storage.poll(), vec![c, a]);
    assert_eq!(storage.poll(), Vec::<SignalId>::new());
    assert_eq!(storage.get(&b), Some(&20));
}

#[test]
fn signal_poll_registers_the_waker_until_the_value_is_there() {
    let mut storage = MyStorage::new();
    let mut reactor = Reactor::new();
    let mut queue = crossbeam_queue::SegQueue::new();
    let a = storage.allocate();
    let waker = TaskWaker::new(TaskId(4));
    let polled: Polled<usize> = Signal::new(a).poll(&storage, &mut reactor, waker);
    assert!(matches!(polled, Polled::Pending));
    storage.put(&a, 9);
    reactor.react(Event::SignalReadable(a), &mut queue);
    assert_eq!(queue.pop(), Some(4));
    let polled: Polled<usize> = Signal::new(a).poll(&storage, &mut reactor, waker);
    assert!(matches!(polled, Polled::Ready(9)));
    // A poll that finds the value registers nothing.
    reactor.react(Event::SignalReadable(a), &mut queue);
    assert!(queue.pop().is_none());
}
