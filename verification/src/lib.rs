//! Core of a circuit construction and execution framework: a typed node
//! allocator, aggregates of typed addresses, the lowering of advices to a
//! value store, and the decisions of a cooperative runtime.
pub mod advices;
pub mod arrays;
pub mod backend;
pub mod circuit;
pub mod circuit_impl_simple;
pub mod default_io_impl;
pub mod example;
pub mod gadgets;
pub mod node_struct;
pub mod tuples;
