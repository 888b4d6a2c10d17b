//! The node agent: what each process and pod on a node draws.

pub mod adjust;
pub mod interval;
pub mod io;
pub mod kernel_pods;
pub mod pods;
pub mod procfs;
pub mod selection;
pub mod usage;
