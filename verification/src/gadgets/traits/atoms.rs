//! The smallest gadgets.
use crate::circuit::{Circuit, Sig, Signals};
use vstd::prelude::*;

verus! {

/// A builder that can raise a signal to the fifth power.
pub trait Pow5: Circuit + Signals {
    fn pow5(&mut self, i: Sig<Self, Self::F>) -> Sig<Self, Self::F>;
}

/// A builder that can combine signals linearly.
pub trait LinearCombination: Circuit + Signals {
    /// The signal that is the sum of the signals, each multiplied by its
    /// coefficient. There is one coefficient for each signal.
    fn lc(&mut self, coeffs: Vec<Self::F>, sigs: Vec<Sig<Self, Self::F>>) -> Sig<Self, Self::F>
        requires
            coeffs@.len() == sigs@.len(),
    ;
}

} // verus!
