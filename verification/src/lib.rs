//! A vector-addressed hypergraph runtime: fixed-width node vectors in a
//! fixed-capacity store, an explicit connection table, named hyperedge
//! processors and the deterministic schedule that runs them.
//!
//! Scalars are carried as IEEE-754 single-precision encodings. The runtime
//! decides what is read, what may be written and in which order; the
//! arithmetic of the update rules is supplied by the caller as functions.
//!
//! - [`scalar`]: order and clipping of encodings.
//! - [`layout`], [`vector`], [`store`]: the node vector, its regions and
//!   the store that holds one vector per node id.
//! - [`names`], [`connections`]: label to id, and the table of edges.
//! - [`processor`], [`runtime`]: hyperedge processors, and the runtime that
//!   ties store, indexes and processors together.
//! - [`scheduler`], [`engine`], [`determinism`]: the order of a step, the
//!   steps and runs themselves, and why they are deterministic.
//! - [`learning`]: Hebbian strengthening, decay and consolidation.
//! - [`instruction`]: the vocabulary of a front end.
//! - [`locking`]: the lock order.
use vstd::prelude::*;

pub mod error;
pub mod scalar;
pub mod layout;
pub mod vector;
pub mod store;
pub mod names;
pub mod connections;
pub mod processor;
pub mod runtime;
pub mod scheduler;
pub mod engine;
pub mod determinism;
pub mod learning;
pub mod instruction;
pub mod locking;

verus! {

} // verus!
