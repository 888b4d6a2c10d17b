//! Kubernetes: which container, pod and namespace a process belongs to, and what a workload is.

pub mod enrich;
pub mod group;
pub mod workload;
