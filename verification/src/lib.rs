//! Power observability for clusters: from hardware readings and kernel observations to the power
//! of processes, pods, namespaces, clusters and fleets.
//!
//! - [`hardware`], [`ebpf`], [`agent`] and [`attribution`] turn a node's readings into the power of
//!   its processes and pods; [`k8s`], [`store`] and [`output`] name, keep and serve it.
//! - [`controller`] gathers what the nodes report into the view of a cluster.
//! - [`fleet`] gathers what clusters report into the view of all of them.
//!
//! Amounts are integers of small units: microwatts, microjoules, nanoseconds, and units
//! of 10⁻¹⁸ for ratios. Times are handed in.

pub mod agent;
pub mod arith;
pub mod attribution;
pub mod common;
pub mod controller;
pub mod decimal;
pub mod ebpf;
pub mod fleet;
pub mod hardware;
pub mod json;
pub mod k8s;
pub mod output;
pub mod prom;
pub mod report;
pub mod sort;
pub mod store;
pub mod sums;
pub mod table;
pub mod tally;
pub mod text;
pub mod watts;
pub mod wide;
