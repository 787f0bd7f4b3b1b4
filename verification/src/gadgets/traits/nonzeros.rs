//! The gadget that enforces that a signal is not zero.
use crate::circuit::{Circuit, Sig};
use vstd::prelude::*;

verus! {

/// A builder that can enforce that a signal is not zero.
pub trait Nonzeros: Circuit {
    type INonzeros: NonzerosImpl<Self>;

    /// Enforces that `x` is not zero: the builder becomes what the gadget
    /// of the builder makes of it, which the gadget says with its relation
    /// `enforced`.
    fn enforce_nonzero(&mut self, x: Sig<Self, Self::F>)
        ensures
            <Self::INonzeros as NonzerosImpl<Self>>::enforced(old(self), final(self), x),
    {
        Self::INonzeros::enforce_nonzero(self, x);
    }
}

/// The gadget of a builder of type `C`. What it does to the builder is its
/// own to say: it says it with the relation `enforced`.
pub trait NonzerosImpl<C: Circuit> {
    /// Whether enforcing that `x` is not zero makes the builder `after` of
    /// the builder `before`.
    spec fn enforced(before: &C, after: &C, x: Sig<C, C::F>) -> bool;

    fn enforce_nonzero(c: &mut C, x: Sig<C, C::F>)
        ensures
            Self::enforced(old(c), final(c), x),
    ;
}

} // verus!
