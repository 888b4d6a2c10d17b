//! Power attribution: from raw observations and energy readings to power per process.

pub mod engine;
pub mod ledger;
pub mod model;
pub mod observe;
pub mod split;
pub mod tuner;
pub mod types;
pub mod variation;
