//! A verified circuit writer and witness model for a zero-knowledge
//! constraint system: symbolic cell-variable allocation, constraint-row
//! emission with double-generic packing, copy-constraint (permutation)
//! cycles, and deterministic witness generation by replaying the value
//! graph.

pub mod ast;
pub mod circuit_writer;
pub mod error;
pub mod field;
pub mod permutation;
pub mod var;
pub mod witness;
pub mod writer;
