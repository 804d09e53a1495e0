//! Hierarchical consensus building blocks: hybrid logical clocks,
//! CRDTs and leader leases.

pub mod hlc;
pub mod leases;
pub mod crdt;
