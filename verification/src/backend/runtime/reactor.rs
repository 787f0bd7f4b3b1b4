//! The event handler: who waits for which signal, and whom an event wakes.
use crate::backend::runtime::event::Event;
use crate::backend::runtime::storage::SignalId;
use crate::backend::runtime::waker::{queue_items, wake_all, woken_by, TaskWaker};
use crossbeam_queue::SegQueue;
use std::collections::BTreeMap;
use vstd::prelude::*;

verus! {

/// The wakers that wait for a signal, in the order of their registration.
pub open spec fn readers_of(
    waiting: Map<SignalId, Seq<TaskWaker>>,
    signal_id: SignalId,
) -> Seq<TaskWaker> {
    if waiting.contains_key(signal_id) {
        waiting[signal_id]
    } else {
        Seq::empty()
    }
}

/// Who waits after `waker` has been registered on a signal.
pub open spec fn registered(
    waiting: Map<SignalId, Seq<TaskWaker>>,
    signal_id: SignalId,
    waker: TaskWaker,
) -> Map<SignalId, Seq<TaskWaker>> {
    waiting.insert(signal_id, readers_of(waiting, signal_id).push(waker))
}

/// Who waits after an event has been handled.
pub open spec fn reacted(waiting: Map<SignalId, Seq<TaskWaker>>, event: Event) -> Map<
    SignalId,
    Seq<TaskWaker>,
> {
    match event {
        Event::SignalReadable(signal_id) => waiting.remove(signal_id),
    }
}

/// The tasks that an event wakes, in the order of their registration.
pub open spec fn woken(waiting: Map<SignalId, Seq<TaskWaker>>, event: Event) -> Seq<usize> {
    match event {
        Event::SignalReadable(signal_id) => woken_by(readers_of(waiting, signal_id)),
    }
}

/// Who waits after a list of events has been handled, oldest first.
pub open spec fn reacted_all(waiting: Map<SignalId, Seq<TaskWaker>>, events: Seq<Event>) -> Map<
    SignalId,
    Seq<TaskWaker>,
>
    decreases events.len(),
{
    if events.len() == 0 {
        waiting
    } else {
        reacted_all(reacted(waiting, events[0]), events.skip(1))
    }
}

/// The tasks that a list of events wakes, in the order in which they are
/// woken.
pub open spec fn woken_all(waiting: Map<SignalId, Seq<TaskWaker>>, events: Seq<Event>) -> Seq<
    usize,
>
    decreases events.len(),
{
    if events.len() == 0 {
        Seq::empty()
    } else {
        woken(waiting, events[0]) + woken_all(reacted(waiting, events[0]), events.skip(1))
    }
}

/// An event for a signal wakes each waker that is registered on the signal
/// when the event is handled, once for each registration and in the order of
/// registration, and it wakes nothing else. Afterwards nobody waits for the
/// signal: a waker that is registered later waits for the next event.
pub proof fn lemma_event_wakes_its_readers_once(
    waiting: Map<SignalId, Seq<TaskWaker>>,
    signal_id: SignalId,
    later: TaskWaker,
)
    ensures
        ({
            let event = Event::SignalReadable(signal_id);
            let readers = readers_of(waiting, signal_id);
            let after = reacted(waiting, event);
            &&& woken(waiting, event).len() == readers.len()
            &&& forall|i: int|
                0 <= i < readers.len() ==> woken(waiting, event)[i] == readers[i].task_id.0
            &&& readers_of(after, signal_id) == Seq::<TaskWaker>::empty()
            &&& woken(after, event) == Seq::<usize>::empty()
            &&& forall|other: SignalId|
                other != signal_id ==> readers_of(after, other) == readers_of(waiting, other)
            &&& readers_of(registered(after, signal_id, later), signal_id) == seq![later]
        }),
{
    let event = Event::SignalReadable(signal_id);
    let after = reacted(waiting, event);
    assert(woken(after, event) =~= Seq::<usize>::empty());
    assert(readers_of(registered(after, signal_id, later), signal_id) =~= seq![later]);
}

/// Asynchronous event handler: it keeps, for each signal, the wakers of the
/// tasks that wait for it.
pub struct Reactor {
    blocking_on_read: BTreeMap<usize, Vec<TaskWaker>>,
}

impl Reactor {
    /// Who waits for which signal. A signal that nobody waits for may be
    /// absent.
    pub closed spec fn view(&self) -> Map<SignalId, Seq<TaskWaker>> {
        Map::new(
            |s: SignalId| self.blocking_on_read@.contains_key(s.0),
            |s: SignalId| self.blocking_on_read@[s.0]@,
        )
    }

    /// A reactor that nobody waits on.
    pub fn new() -> (reactor: Self)
        ensures
            reactor@ == Map::<SignalId, Seq<TaskWaker>>::empty(),
    {
        let reactor = Reactor { blocking_on_read: BTreeMap::new() };
        assert(reactor@ =~= Map::<SignalId, Seq<TaskWaker>>::empty());
        reactor
    }

    /// Arranges for a wakeup when a signal becomes readable.
    pub fn register_reader(&mut self, signal_id: SignalId, waker: TaskWaker)
        ensures
            final(self)@ == registered(old(self)@, signal_id, waker),
    {
        let mut wakers = match self.blocking_on_read.remove(&signal_id.0) {
            Some(wakers) => wakers,
            None => Vec::new(),
        };
        wakers.push(waker);
        self.blocking_on_read.insert(signal_id.0, wakers);
        assert(self@ =~= registered(old(self)@, signal_id, waker));
    }

    /// The event handler: wakes every task that waits for the signal of the
    /// event, and forgets that it waited.
    pub fn react(&mut self, event: Event, task_queue: &mut SegQueue<usize>)
        ensures
            final(self)@ == reacted(old(self)@, event),
            queue_items(*final(task_queue)) == queue_items(*old(task_queue)) + woken(
                old(self)@,
                event,
            ),
    {
        match event {
            Event::SignalReadable(signal_id) => {
                match self.blocking_on_read.remove(&signal_id.0) {
                    Some(wakers) => {
                        wake_all(&wakers, task_queue);
                    },
                    None => {
                        assert(queue_items(*task_queue) =~= queue_items(*old(task_queue)) + woken(
                            old(self)@,
                            event,
                        ));
                    },
                }
                assert(self@ =~= reacted(old(self)@, event));
            },
        }
    }
}

} // verus!
