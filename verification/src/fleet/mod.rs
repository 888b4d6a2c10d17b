//! The fleet manager: power, carbon and cost across clusters.
//!
//! Amounts are whole numbers of small units: power is in microwatts, carbon intensity in
//! milligrams of CO2 equivalent per kWh, reported emissions are in micrograms, prices in millionths
//! of the currency, ratios in units of 10⁻¹⁸. What a power emits or costs is in picograms and in
//! units of 10⁻¹⁵ of the currency, so that nothing is rounded before it is added up.

pub mod policy;
pub mod registry;
pub mod reporting;
