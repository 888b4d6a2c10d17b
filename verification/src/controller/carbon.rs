//! Carbon intensity: converts power into carbon emissions and cost.
//!
//! Amounts are whole numbers of small units, rounded down: intensity is in milligrams of CO2
//! equivalent per kWh, emissions are in micrograms, prices in millionths of the currency.

use crate::arith::{lemma_floor, wide_share};
use crate::text::joined;
use vstd::prelude::*;

verus! {

/// Carbon intensity at a point in time.
#[derive(Debug)]
pub struct CarbonIntensity {
    /// Milligrams of CO2 equivalent per kWh
    pub mg_co2_per_kwh: u32,
    /// Data source name
    pub source: String,
    /// Region/zone this intensity applies to
    pub region: String,
    /// Nanoseconds since the Unix epoch at which it was measured or forecast for
    pub timestamp_ns: u64,
    /// Whether this is a forecast or actual measurement
    pub is_forecast: bool,
}

impl Clone for CarbonIntensity {
    fn clone(&self) -> (r: Self)
        ensures
            r == *self,
    {
        CarbonIntensity {
            mg_co2_per_kwh: self.mg_co2_per_kwh,
            source: self.source.clone(),
            region: self.region.clone(),
            timestamp_ns: self.timestamp_ns,
            is_forecast: self.is_forecast,
        }
    }
}

/// Cost configuration for energy pricing.
#[derive(Debug)]
pub struct EnergyCost {
    /// Currency code (USD, EUR, etc.)
    pub currency: String,
    /// Cost per kWh in millionths of the currency
    pub micros_per_kwh: u32,
    /// Region/zone this pricing applies to
    pub region: String,
}

impl Clone for EnergyCost {
    fn clone(&self) -> (r: Self)
        ensures
            r == *self,
    {
        EnergyCost {
            currency: self.currency.clone(),
            micros_per_kwh: self.micros_per_kwh,
            region: self.region.clone(),
        }
    }
}

/// Carbon and cost of a power reading over an interval.
#[derive(Debug)]
pub struct CarbonReport {
    /// Power in microwatts
    pub power_uw: u64,
    /// Energy consumed in this interval, in units of 10⁻¹⁵ watt-hours
    pub energy_fwh: u128,
    /// Carbon emissions in this interval, in picograms of CO2 equivalent
    pub carbon_pg: u128,
    /// Annualized carbon emissions, in picograms of CO2 equivalent
    pub carbon_pg_per_year: u128,
    /// Cost of this interval, in units of 10⁻¹⁵ of the currency
    pub cost_femto: u128,
    /// Annualized cost, in units of 10⁻¹⁵ of the currency
    pub cost_femto_per_year: u128,
    /// Carbon intensity used for calculation
    pub intensity: CarbonIntensity,
    /// Energy cost used for calculation
    pub energy_cost: EnergyCost,
}

/// Tracks carbon intensity and computes emissions.
#[derive(Debug)]
pub struct CarbonTracker {
    /// Current carbon intensity
    pub current_intensity: Option<CarbonIntensity>,
    /// Current energy cost
    pub current_cost: EnergyCost,
    /// Address of carbon intensity data
    pub api_endpoint: Option<String>,
    /// Region of this cluster
    pub region: String,
    /// How often to refresh carbon data, in nanoseconds
    pub refresh_interval: u64,
}

/// Nanoseconds in an hour: microwatts for an hour, at a price or an intensity per kWh, come to
/// picograms and to units of 10⁻¹⁵ of the currency.
pub const NS_PER_HOUR: u128 = 3_600_000_000_000;

/// Hours in a year of 365.25 days.
pub const HOURS_PER_YEAR: u64 = 8766;

/// What `rate` per kWh comes to for a power over a time: milligrams come to picograms, and
/// millionths of the currency to units of 10⁻¹⁵ of it.
pub open spec fn per_kwh(power_uw: int, time_ns: int, rate: int) -> int {
    power_uw * time_ns * rate / 3_600_000_000_000
}

/// What `rate` per kWh comes to in a year of constant power, in the same units.
pub open spec fn per_year(power_uw: int, rate: int) -> int {
    power_uw * 8766 * rate
}

/// The carbon report of a power over an interval.
pub open spec fn is_carbon_report(
    r: CarbonReport,
    intensity: CarbonIntensity,
    cost: EnergyCost,
    power_uw: u64,
    interval_ns: u64,
) -> bool {
    &&& r.power_uw == power_uw
    &&& r.energy_fwh == power_uw * interval_ns / 3_600
    &&& r.carbon_pg == per_kwh(
        power_uw as int,
        interval_ns as int,
        intensity.mg_co2_per_kwh as int,
    )
    &&& r.carbon_pg_per_year == per_year(power_uw as int, intensity.mg_co2_per_kwh as int)
    &&& r.cost_femto == per_kwh(
        power_uw as int,
        interval_ns as int,
        cost.micros_per_kwh as int,
    )
    &&& r.cost_femto_per_year == per_year(power_uw as int, cost.micros_per_kwh as int)
    &&& r.intensity == intensity
    &&& r.energy_cost == cost
}

fn rate_per_kwh(power_uw: u64, time_ns: u64, rate: u32) -> (r: u128)
    ensures
        r == per_kwh(power_uw as int, time_ns as int, rate as int),
{
    proof {
        let p = power_uw as int;
        let t = time_ns as int;
        assert(0 <= p * t <= 0xffff_ffff_ffff_ffff * 0xffff_ffff_ffff_ffff) by (nonlinear_arith)
            requires
                0 <= p <= 0xffff_ffff_ffff_ffff,
                0 <= t <= 0xffff_ffff_ffff_ffff,
        ;
    }
    let energy: u128 = power_uw as u128 * time_ns as u128;
    wide_share(energy, rate as u128, NS_PER_HOUR)
}

fn rate_per_year(power_uw: u64, rate: u32) -> (r: u128)
    ensures
        r == per_year(power_uw as int, rate as int),
{
    proof {
        let p = power_uw as int;
        let k = rate as int;
        assert(0 <= p * 8766 * k <= 0xffff_ffff_ffff_ffff * 8766 * 0xffff_ffff) by (nonlinear_arith)
            requires
                0 <= p <= 0xffff_ffff_ffff_ffff,
                0 <= k <= 0xffff_ffff,
        ;
    }
    power_uw as u128 * HOURS_PER_YEAR as u128 * rate as u128
}

impl CarbonTracker {
    /// A tracker for a region, with the default price of 0.10 USD per kWh. `region` is "unknown"
    /// where none is set.
    pub fn new(api_endpoint: Option<String>, region: Option<String>) -> (r: Self)
        ensures
            r.current_intensity is None,
            r.current_cost.currency@ == "USD"@,
            r.current_cost.micros_per_kwh == 100_000,
            r.current_cost.region@ == "default"@,
            r.api_endpoint == api_endpoint,
            r.region@ == match region {
                Some(s) => s@,
                None => "unknown"@,
            },
            r.refresh_interval == 300_000_000_000,
    {
        CarbonTracker {
            current_intensity: None,
            current_cost: EnergyCost {
                currency: "USD".to_owned(),
                micros_per_kwh: 100_000,
                region: "default".to_owned(),
            },
            api_endpoint,
            region: match region {
                Some(s) => s,
                None => "unknown".to_owned(),
            },
            refresh_interval: 300_000_000_000,
        }
    }

    /// Current carbon intensity.
    pub fn current(&self) -> (r: Option<&CarbonIntensity>)
        ensures
            self.current_intensity == match r {
                Some(x) => Some(*x),
                None => None,
            },
    {
        self.current_intensity.as_ref()
    }

    /// Calculates the carbon report for a given power level over an interval. There is none while
    /// the intensity is not known.
    pub fn calculate(&self, power_uw: u64, interval_ns: u64) -> (r: Option<CarbonReport>)
        ensures
            match r {
                Some(c) => self.current_intensity is Some && is_carbon_report(
                    c,
                    self.current_intensity->0,
                    self.current_cost,
                    power_uw,
                    interval_ns,
                ),
                None => self.current_intensity is None,
            },
    {
        let intensity: &CarbonIntensity = match &self.current_intensity {
            Some(i) => i,
            None => {
                return None;
            },
        };
        proof {
            let p = power_uw as int;
            let t = interval_ns as int;
            assert(0 <= p * t <= 0xffff_ffff_ffff_ffff * 0xffff_ffff_ffff_ffff) by (nonlinear_arith)
                requires
                    0 <= p <= 0xffff_ffff_ffff_ffff,
                    0 <= t <= 0xffff_ffff_ffff_ffff,
            ;
        }
        let energy_fwh: u128 = power_uw as u128 * interval_ns as u128 / 3_600;
        let carbon_pg: u128 = rate_per_kwh(power_uw, interval_ns, intensity.mg_co2_per_kwh);
        let cost_femto: u128 = rate_per_kwh(
            power_uw,
            interval_ns,
            self.current_cost.micros_per_kwh,
        );
        Some(
            CarbonReport {
                power_uw,
                energy_fwh,
                carbon_pg,
                carbon_pg_per_year: rate_per_year(power_uw, intensity.mg_co2_per_kwh),
                cost_femto,
                cost_femto_per_year: rate_per_year(power_uw, self.current_cost.micros_per_kwh),
                intensity: intensity.clone(),
                energy_cost: self.current_cost.clone(),
            },
        )
    }

    /// Refreshes carbon intensity: the global average of about 400 g per kWh.
    pub fn refresh(&mut self, now_ns: u64)
        ensures
            final(self).current_intensity is Some,
            final(self).current_intensity->0.mg_co2_per_kwh == 400_000,
            final(self).current_intensity->0.source@ == match old(self).api_endpoint {
                Some(e) => "static (endpoint configured: "@ + e@ + ")"@,
                None => "static_default"@,
            },
            final(self).current_intensity->0.region@ == old(self).region@,
            final(self).current_intensity->0.timestamp_ns == now_ns,
            !final(self).current_intensity->0.is_forecast,
            final(self).current_cost == old(self).current_cost,
            final(self).api_endpoint == old(self).api_endpoint,
            final(self).region == old(self).region,
            final(self).refresh_interval == old(self).refresh_interval,
    {
        let source: String = match &self.api_endpoint {
            Some(e) => joined("static (endpoint configured: ", e.as_str()).concat(")"),
            None => "static_default".to_owned(),
        };
        let region: String = self.region.clone();
        self.current_intensity = Some(
            CarbonIntensity {
                mg_co2_per_kwh: 400_000,
                source,
                region,
                timestamp_ns: now_ns,
                is_forecast: false,
            },
        );
    }
}

/// A report's energy, emissions and cost are the most that the power suffices for over the
/// interval: 10⁻¹⁵ watt-hours are 3600 microwatt-nanoseconds, and a rate per kWh is for 3.6 million
/// joules. What it was made from is told as it is.
pub proof fn law_report_of_interval(
    r: CarbonReport,
    intensity: CarbonIntensity,
    cost: EnergyCost,
    power_uw: u64,
    interval_ns: u64,
)
    requires
        is_carbon_report(r, intensity, cost, power_uw, interval_ns),
    ensures
        r.power_uw == power_uw,
        r.intensity == intensity,
        r.energy_cost == cost,
        r.energy_fwh * 3_600 <= power_uw * interval_ns < (r.energy_fwh + 1) * 3_600,
        r.carbon_pg * (3_600 * 1_000_000_000) <= power_uw * interval_ns * intensity.mg_co2_per_kwh
            < (r.carbon_pg + 1) * (3_600 * 1_000_000_000),
        r.cost_femto * (3_600 * 1_000_000_000) <= power_uw * interval_ns * cost.micros_per_kwh
            < (r.cost_femto + 1) * (3_600 * 1_000_000_000),
{
    let e = power_uw * interval_ns;
    lemma_floor(e, 3_600);
    lemma_floor(e * intensity.mg_co2_per_kwh, 3_600_000_000_000);
    lemma_floor(e * cost.micros_per_kwh, 3_600_000_000_000);
}

/// A year is 365.25 days of what an hour of the same power emits and costs.
pub proof fn law_year_of_hours(
    r: CarbonReport,
    hour: CarbonReport,
    intensity: CarbonIntensity,
    cost: EnergyCost,
    power_uw: u64,
    interval_ns: u64,
)
    requires
        is_carbon_report(r, intensity, cost, power_uw, interval_ns),
        is_carbon_report(hour, intensity, cost, power_uw, 3_600_000_000_000),
    ensures
        4 * r.carbon_pg_per_year == hour.carbon_pg * 24 * 1461,
        4 * r.cost_femto_per_year == hour.cost_femto * 24 * 1461,
        hour.energy_fwh == power_uw * 1_000_000_000,
{
    let p = power_uw as int;
    lemma_hour(p, intensity.mg_co2_per_kwh as int);
    lemma_hour(p, cost.micros_per_kwh as int);
}

proof fn lemma_hour(p: int, rate: int)
    ensures
        per_kwh(p, 3_600_000_000_000, rate) == p * rate,
        4 * per_year(p, rate) == (p * rate) * 24 * 1461,
{
    assert(p * 3_600_000_000_000 * rate == 3_600_000_000_000 * (p * rate)) by (nonlinear_arith);
    assert(p * 8766 * rate == 8766 * (p * rate)) by (nonlinear_arith);
}

} // verus!
