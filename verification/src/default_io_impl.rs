//! Every aggregate of signals and variables can take its values from
//! outside and hand them out.
use crate::circuit::{Circuit, StandardVariables};
use crate::node_struct::{
    leaves_assigned, leaves_values, leaves_writable, leaves_written, SVStruct,
};
use vstd::prelude::*;

verus! {

/// What writes a value from outside to an aggregate.
pub struct Injector<N> {
    pub target: N,
}

impl<N: Copy> Injector<N> {
    /// Writes the value to the aggregate. No leaf has been written before.
    pub fn call<C: Circuit>(&self, c: &mut C, value: N::FStruct) where N: SVStruct<C>
        requires
            leaves_writable(old(c)@, self.target.raw_addrs()),
        ensures
            leaves_written(old(c)@, final(c)@, self.target.raw_addrs(), N::flatten(value)),
    {
        self.target.write_to(c, value)
    }
}

/// What hands out the value of an aggregate.
pub struct Reader<N> {
    pub source: N,
}

impl<N: Copy> Reader<N> {
    /// The value of the aggregate. Every leaf has been written.
    pub fn call<C: Circuit>(&self, c: &C) -> (value: N::FStruct) where N: SVStruct<C>
        requires
            leaves_assigned(c@, self.source.raw_addrs()),
        ensures
            value == N::unflatten(leaves_values(c@, self.source.raw_addrs())),
    {
        self.source.read_from(c)
    }
}

/// An aggregate that can take a value from outside the circuit and hand its
/// value out of it.
pub trait IO<C: Circuit>: Sized {
    type InputObject;

    type OutputObject;

    /// What writes a value from outside to the aggregate. The builder stays
    /// as it is.
    fn inputize(self, circuit: &mut C) -> (input: Self::InputObject)
        ensures
            final(circuit)@ == old(circuit)@,
    ;

    /// What hands the value of the aggregate out. The builder stays as it
    /// is.
    fn outputize(self, circuit: &mut C) -> (output: Self::OutputObject)
        ensures
            final(circuit)@ == old(circuit)@,
    ;
}

impl<C: Circuit + StandardVariables, N: SVStruct<C>> IO<C> for N {
    type InputObject = Injector<N>;

    type OutputObject = Reader<N>;

    fn inputize(self, circuit: &mut C) -> (input: Injector<N>)
        ensures
            input == (Injector { target: self }),
    {
        Injector { target: self }
    }

    fn outputize(self, circuit: &mut C) -> (output: Reader<N>)
        ensures
            output == (Reader { source: self }),
    {
        Reader { source: self }
    }
}

} // verus!
