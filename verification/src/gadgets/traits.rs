//! The interfaces of the gadgets, and what they share.
pub mod atoms;
pub mod bigint_arith;
pub mod nonzeros;
pub mod poseidon;
pub mod poseidon_permutation;
