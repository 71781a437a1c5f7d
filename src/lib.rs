//! Synchronisation core of a two-layer chain node: a block arena with
//! verified linkage and state roots, the reconciliation of settlement-layer
//! commitments against it, reverts, a pending overlay, and storage reads.

pub mod types;
pub mod chain;
pub mod pending;
pub mod query;
pub mod reconcile;
pub mod tracker;
pub mod supervisor;
