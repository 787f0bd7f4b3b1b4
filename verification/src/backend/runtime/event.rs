//! Events, and the queue that carries them to the reactor.
pub mod signal;

use crate::backend::runtime::reactor::{reacted, reacted_all, woken, woken_all, Reactor};
use crate::backend::runtime::storage::SignalId;
use crate::backend::runtime::task::Polled;
use crate::backend::runtime::waker::{queue_items, TaskWaker};
use crossbeam_queue::SegQueue;
use std::collections::VecDeque;
use vstd::prelude::*;

verus! {

/// A marker that some side effect has taken place.
#[derive(Debug, Clone, Copy, PartialEq, Eq, Structural, Hash, PartialOrd, Ord)]
pub enum Event {
    /// A signal became readable.
    SignalReadable(SignalId),
}

impl Event {
    /// Hands the event to the reactor at once, without a queue in between.
    pub fn emit(self, reactor: &mut Reactor, task_queue: &mut SegQueue<usize>)
        ensures
            final(reactor)@ == reacted(old(reactor)@, self),
            queue_items(*final(task_queue)) == queue_items(*old(task_queue)) + woken(
                old(reactor)@,
                self,
            ),
    {
        reactor.react(self, task_queue);
    }
}

/// The events that were emitted and not yet handled, oldest first, and the
/// waker of the one task that consumes them while it is paused.
pub struct EventStream {
    queue: VecDeque<Event>,
    consumer: Option<TaskWaker>,
    closed: bool,
}

impl EventStream {
    /// The events that were not handled yet, oldest first.
    pub closed spec fn pending(&self) -> Seq<Event> {
        self.queue@
    }

    /// The waker of the consumer, while the consumer is paused.
    pub closed spec fn parked(&self) -> Option<TaskWaker> {
        self.consumer
    }

    /// Whether the source of events has closed.
    pub closed spec fn is_closed(&self) -> bool {
        self.closed
    }

    pub fn new() -> (stream: EventStream)
        ensures
            stream.pending() == Seq::<Event>::empty(),
            stream.parked() is None,
            !stream.is_closed(),
    {
        EventStream { queue: VecDeque::new(), consumer: None, closed: false }
    }

    /// The oldest event, if there is one. If there is none, the stream has
    /// ended when its source has closed; else the consumer is paused and
    /// `waker` wakes it when the next event is emitted.
    pub fn poll_next(&mut self, waker: TaskWaker) -> (next: Polled<Option<Event>>)
        ensures
            final(self).is_closed() == old(self).is_closed(),
            match next {
                Polled::Ready(Some(event)) => {
                    &&& old(self).pending().len() > 0
                    &&& event == old(self).pending()[0]
                    &&& final(self).pending() == old(self).pending().skip(1)
                    &&& final(self).parked() == old(self).parked()
                },
                Polled::Ready(None) => {
                    &&& old(self).pending().len() == 0
                    &&& old(self).is_closed()
                    &&& final(self).pending() == old(self).pending()
                    &&& final(self).parked() == old(self).parked()
                },
                Polled::Pending => {
                    &&& old(self).pending().len() == 0
                    &&& !old(self).is_closed()
                    &&& final(self).pending() == old(self).pending()
                    &&& final(self).parked() == Some(waker)
                },
            },
    {
        if let Some(event) = self.queue.pop_front() {
            return Polled::Ready(Some(event));
        }
        if self.closed {
            return Polled::Ready(None);
        }
        // An event that is emitted between the check above and the
        // registration would wake nobody: register first, then look again.
        self.consumer = Some(waker);
        match self.queue.pop_front() {
            Some(event) => {
                self.consumer = None;
                Polled::Ready(Some(event))
            },
            None => Polled::Pending,
        }
    }

    /// Appends an event and wakes the consumer if it is paused.
    pub fn emit(&mut self, event: Event, task_queue: &mut SegQueue<usize>)
        ensures
            final(self).pending() == old(self).pending().push(event),
            final(self).parked() is None,
            final(self).is_closed() == old(self).is_closed(),
            queue_items(*final(task_queue)) == match old(self).parked() {
                Some(waker) => queue_items(*old(task_queue)).push(waker.task_id.0),
                None => queue_items(*old(task_queue)),
            },
    {
        self.queue.push_back(event);
        match self.consumer.take() {
            Some(waker) => {
                waker.wake_task(task_queue);
            },
            None => {},
        }
    }

    /// Closes the source of events and wakes the consumer if it is paused:
    /// once the pending events are handled, the stream has ended.
    pub fn close(&mut self, task_queue: &mut SegQueue<usize>)
        ensures
            final(self).pending() == old(self).pending(),
            final(self).parked() is None,
            final(self).is_closed(),
            queue_items(*final(task_queue)) == match old(self).parked() {
                Some(waker) => queue_items(*old(task_queue)).push(waker.task_id.0),
                None => queue_items(*old(task_queue)),
            },
    {
        self.closed = true;
        match self.consumer.take() {
            Some(waker) => {
                waker.wake_task(task_queue);
            },
            None => {},
        }
    }
}

/// Emits an event on a stream.
pub fn emit(event_stream: &mut EventStream, event: Event, task_queue: &mut SegQueue<usize>)
    ensures
        final(event_stream).pending() == old(event_stream).pending().push(event),
        final(event_stream).parked() is None,
        final(event_stream).is_closed() == old(event_stream).is_closed(),
        queue_items(*final(task_queue)) == match old(event_stream).parked() {
            Some(waker) => queue_items(*old(task_queue)).push(waker.task_id.0),
            None => queue_items(*old(task_queue)),
        },
{
    event_stream.emit(event, task_queue);
}

/// One run of the task that feeds the events of a stream to the reactor:
/// every pending event is handled, oldest first. The task has ended when the
/// source of the stream has closed; else it is paused until `waker` wakes it.
pub fn process_events(
    event_stream: &mut EventStream,
    reactor: &mut Reactor,
    waker: TaskWaker,
    task_queue: &mut SegQueue<usize>,
) -> (outcome: Polled<()>)
    ensures
        final(event_stream).pending() == Seq::<Event>::empty(),
        final(event_stream).is_closed() == old(event_stream).is_closed(),
        final(reactor)@ == reacted_all(old(reactor)@, old(event_stream).pending()),
        queue_items(*final(task_queue)) == queue_items(*old(task_queue)) + woken_all(
            old(reactor)@,
            old(event_stream).pending(),
        ),
        match outcome {
            Polled::Ready(()) => old(event_stream).is_closed() && final(event_stream).parked()
                == old(event_stream).parked(),
            Polled::Pending => !old(event_stream).is_closed() && final(event_stream).parked()
                == Some(waker),
        },
{
    let ghost events = event_stream.pending();
    let ghost waiting = reactor@;
    let ghost ready = queue_items(*task_queue);
    let ghost mut handled: Seq<usize> = Seq::empty();
    assert(ready =~= ready + handled);
    loop
        invariant
            events == old(event_stream).pending(),
            waiting == old(reactor)@,
            ready == queue_items(*old(task_queue)),
            event_stream.is_closed() == old(event_stream).is_closed(),
            event_stream.parked() == old(event_stream).parked(),
            reacted_all(reactor@, event_stream.pending()) == reacted_all(waiting, events),
            handled + woken_all(reactor@, event_stream.pending()) == woken_all(waiting, events),
            queue_items(*task_queue) == ready + handled,
        decreases event_stream.pending().len(),
    {
        let ghost before = reactor@;
        let ghost left = event_stream.pending();
        match event_stream.poll_next(waker) {
            Polled::Ready(Some(event)) => {
                reactor.react(event, task_queue);
                proof {
                    assert(handled + woken_all(before, left) =~= (handled + woken(before, event))
                        + woken_all(reactor@, left.skip(1)));
                    assert(ready + (handled + woken(before, event)) =~= (ready + handled) + woken(
                        before,
                        event,
                    ));
                    handled = handled + woken(before, event);
                }
            },
            Polled::Ready(None) => {
                assert(handled =~= handled + woken_all(reactor@, left));
                return Polled::Ready(());
            },
            Polled::Pending => {
                assert(handled =~= handled + woken_all(reactor@, left));
                return Polled::Pending;
            },
        }
    }
}

} // verus!
