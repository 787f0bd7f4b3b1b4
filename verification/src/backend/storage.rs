//! Value stores whose cells are named by raw addresses and read through
//! typed ones.
use std::marker::PhantomData;
use vstd::prelude::*;

verus! {

/// The address of a cell that holds a value of type `T`.
pub struct TypedAddr<S: Storage, T> {
    pub addr: S::RawAddr,
    pub _pd: PhantomData<T>,
}

pub trait Storage: Sized {
    type RawAddr: Copy;

    /// The raw address behind a typed one.
    fn to_raw<T>(ta: &TypedAddr<Self, T>) -> (raw: Self::RawAddr)
        ensures
            raw == ta.addr,
    ;
}

/// The cells that a store holds for values of type `T`: `None` for a cell
/// that was not written yet.
pub trait Cells<T>: Storage {
    spec fn cells(&self) -> Map<Self::RawAddr, Option<T>>;
}

pub trait AllocatorOf<T>: Cells<T> {
    /// A new cell, which is empty.
    fn allocate(&mut self) -> (addr: Self::RawAddr)
        ensures
            !old(self).cells().contains_key(addr),
            final(self).cells() == old(self).cells().insert(addr, None),
    ;
}

pub trait WriterOf<T>: Cells<T> {
    /// Writes a cell that was not written before.
    fn put(&mut self, addr: &Self::RawAddr, val: T)
        requires
            old(self).cells().contains_key(*addr),
            old(self).cells()[*addr] is None,
        ensures
            final(self).cells() == old(self).cells().insert(*addr, Some(val)),
    ;
}

pub trait ReaderOf<T>: Cells<T> {
    /// The value of a cell that was written.
    fn get(&self, addr: &Self::RawAddr) -> (val: &T)
        requires
            self.cells().contains_key(*addr),
            self.cells()[*addr] is Some,
        ensures
            self.cells()[*addr] == Some(*val),
    ;
}

} // verus!
