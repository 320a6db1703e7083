//! GraphQL queries on snapshot policies.
pub mod list_intervals;
pub mod list_retentions;
