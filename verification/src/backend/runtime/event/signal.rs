//! Waiting for a value.
use crate::backend::runtime::reactor::{registered, Reactor};
use crate::backend::runtime::storage::{ReaderOf, SignalId};
use crate::backend::runtime::task::Polled;
use crate::backend::runtime::waker::TaskWaker;
use vstd::prelude::*;

verus! {

/// The wait for a signal to obtain a value in a store. Polling it gives the
/// value once it is there, and pauses the task that polls until then.
pub struct Signal {
    pub addr: SignalId,
}

impl Signal {
    pub fn new(addr: SignalId) -> (signal: Self)
        ensures
            signal.addr == addr,
    {
        Signal { addr }
    }

    /// The value at the address, if it was written: then nothing changes.
    /// Else `waker` is registered with the reactor for the address.
    pub fn poll<T: Copy, S: ReaderOf<T, Addr = SignalId>>(
        &self,
        storage: &S,
        reactor: &mut Reactor,
        waker: TaskWaker,
    ) -> (value: Polled<T>)
        requires
            storage.cells().contains_key(self.addr),
        ensures
            match value {
                Polled::Ready(v) => storage.cells()[self.addr] == Some(v) && final(reactor)@
                    == old(reactor)@,
                Polled::Pending => storage.cells()[self.addr] is None && final(reactor)@
                    == registered(old(reactor)@, self.addr, waker),
            },
    {
        if let Some(value) = storage.get(&self.addr) {
            return Polled::Ready(*value);
        }
        // A value that is written between the check above and the
        // registration would wake nobody: register first, then look again.
        reactor.register_reader(self.addr, waker);
        match storage.get(&self.addr) {
            Some(value) => Polled::Ready(*value),
            None => Polled::Pending,
        }
    }
}

} // verus!
