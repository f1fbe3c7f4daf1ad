//! Declarative package reconciliation core.
//!
//! The library reconciles a user's declared package intent (named groups of
//! per-backend package declarations) against the observed state of one or
//! more package-management backends.  It computes, per backend, the sorted
//! set of missing packages (declared but not installed) and the sorted set
//! of unmanaged packages (explicitly installed but not declared), aggregates
//! the results across backends with per-backend failure isolation, and
//! drives the confirm-then-act decision sequence.  All querying, printing,
//! confirmation and package-tool invocation is left to the caller; the
//! functions here take the observed values as arguments and are verified.

pub mod backend;
pub mod collect;
pub mod group;
pub mod order;
pub mod session;
pub mod todo;
