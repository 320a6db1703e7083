//! Aggregation of per-host block-device topologies into a cluster-wide view.
pub mod device;
pub mod propagate;
pub mod resolve;
pub mod registry;
pub mod query;
pub mod snapshot;
pub mod shared;
