//! The cluster controller: the cluster-wide view of power.

pub mod access;
pub mod aggregator;
pub mod api;
pub mod application;
pub mod carbon;
pub mod kepler;
pub mod queries;
pub mod scheduler;
