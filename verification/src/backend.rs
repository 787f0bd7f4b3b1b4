//! What runs a circuit: the value stores and the runtime that drives advices.
pub mod api;
pub mod runtime;
pub mod storage;
