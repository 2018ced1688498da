//! Request routing for a network of scheduler nodes: sticky assignment of
//! work units to schedulers, affinity and least-load selection, and the
//! reconciliation of a declared scheduler list into the registry.

pub mod text;
pub mod model;
pub mod store;
pub mod select;
pub mod address;
pub mod router;
pub mod bootstrap;
