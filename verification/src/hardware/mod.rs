//! Hardware signal collection.
//!
//! Power and energy readings of all hardware sources. Every reading is tagged with the component
//! it covers, the level it was taken at, and how it was obtained.

pub mod collector;
pub mod discovery;
pub mod gpu;
pub mod hwmon;
pub mod platform;
pub mod rapl;
pub mod source;
