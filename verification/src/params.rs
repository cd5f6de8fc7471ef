//! The immutable configuration of a run and its validation.
use vstd::prelude::*;
use rand::rngs::ThreadRng;
use crate::units::UNIT;
use crate::rng::draw;

verus! {

/// Longest side of a domain, in cells.
pub const MAX_SIDE: u32 = 32_768;

/// Why a configuration cannot start a run.
#[derive(Clone, Copy, Debug, PartialEq, Eq, Structural)]
pub enum ConfigError {
    /// The domain has no cells.
    EmptyDomain,
    /// A side of the domain is longer than `MAX_SIDE`.
    DomainTooLarge,
    /// The decay factor is not strictly between zero and one.
    DecayOutOfRange,
    /// The nearest sensing distance exceeds the farthest.
    SensorRangeInverted,
    /// Agents are to be placed but the placement radius is zero.
    InitRadiusEmpty,
    /// Nutrient zones are requested but their radius range is empty.
    ZoneRadiusRange,
    /// The widest nutrient zone does not fit inside the domain.
    ZoneTooWide,
    /// The nutrient overlay handed in does not have the domain's shape, or
    /// holds a cell stronger than one.
    OverlayMismatch,
    /// The number of agents handed in is not the configured one.
    AgentCountMismatch,
    /// An agent handed in lies outside the domain, or its heading is not
    /// reduced to one turn.
    AgentOutsideDomain,
}

/// Everything a run is configured with. Distances are in steps of
/// `1 / UNIT` cell, intensities in steps of `1 / UNIT`, angles in steps of
/// `1 / TURN` of a full turn.
#[derive(Clone, Copy, Debug, PartialEq, Eq, Structural)]
pub struct ParameterSet {
    pub n_agents: u32,
    pub width: u32,
    pub height: u32,
    /// Radius of the disc around the centre in which agents start.
    pub r_init: u32,
    /// Intensity an agent adds to its cell each frame.
    pub deposit: u32,
    /// Factor applied to the blurred field each frame, in `1 / UNIT`.
    pub decay: u32,
    /// Distance moved each frame; may be zero or negative.
    pub velocity: i32,
    /// Angle between the central sensor and each side sensor.
    pub phi_sens: u32,
    /// Angle turned in one frame.
    pub turn_speed: u32,
    pub sens_range_min: u32,
    pub sens_range_max: u32,
    /// Number of nutrient zones.
    pub n_fix: u32,
    /// Smallest nutrient zone radius, in cells.
    pub r_fix_min: u32,
    /// One more than the largest nutrient zone radius, in cells.
    pub r_fix_max: u32,
    pub seed: u64,
}

impl ParameterSet {
    /// The first reason, in a fixed order of checks, why this configuration
    /// is unusable; `None` when it is usable.
    pub open spec fn fault(self) -> Option<ConfigError> {
        if self.width == 0 || self.height == 0 {
            Some(ConfigError::EmptyDomain)
        } else if self.width > MAX_SIDE || self.height > MAX_SIDE {
            Some(ConfigError::DomainTooLarge)
        } else if self.decay == 0 || self.decay >= UNIT {
            Some(ConfigError::DecayOutOfRange)
        } else if self.sens_range_min > self.sens_range_max {
            Some(ConfigError::SensorRangeInverted)
        } else if self.n_agents > 0 && self.r_init == 0 {
            Some(ConfigError::InitRadiusEmpty)
        } else if self.n_fix > 0 && self.r_fix_min >= self.r_fix_max {
            Some(ConfigError::ZoneRadiusRange)
        } else if self.n_fix > 0 && (2 * (self.r_fix_max - 1) >= self.width || 2 * (self.r_fix_max
            - 1) >= self.height) {
            Some(ConfigError::ZoneTooWide)
        } else {
            None
        }
    }

    /// A configuration that can start a run.
    pub open spec fn valid(self) -> bool {
        self.fault() is None
    }

    /// Accepts a usable configuration and names the first fault of any other.
    pub fn validate(&self) -> (r: Result<(), ConfigError>)
        ensures
            r is Ok <==> self.valid(),
            r is Err ==> self.fault() == Some(r->Err_0),
    {
        if self.width == 0 || self.height == 0 {
            return Err(ConfigError::EmptyDomain);
        }
        if self.width > MAX_SIDE || self.height > MAX_SIDE {
            return Err(ConfigError::DomainTooLarge);
        }
        if self.decay == 0 || self.decay as u64 >= UNIT {
            return Err(ConfigError::DecayOutOfRange);
        }
        if self.sens_range_min > self.sens_range_max {
            return Err(ConfigError::SensorRangeInverted);
        }
        if self.n_agents > 0 && self.r_init == 0 {
            return Err(ConfigError::InitRadiusEmpty);
        }
        if self.n_fix > 0 {
            if self.r_fix_min >= self.r_fix_max {
                return Err(ConfigError::ZoneRadiusRange);
            }
            let widest: u64 = 2 * (self.r_fix_max as u64 - 1);
            if widest >= self.width as u64 || widest >= self.height as u64 {
                return Err(ConfigError::ZoneTooWide);
            }
        }
        Ok(())
    }

    /// What `random` may return: every drawn quantity lies in its range,
    /// lower bound included, upper bound not.
    pub open spec fn in_random_ranges(self) -> bool {
        &&& 5_000_000 <= self.r_init < 100_000_000
        &&& 100 <= self.deposit < 100_000
        &&& 100_000 <= self.decay < 900_000
        &&& 500_000 <= self.velocity < 25_000_000
        &&& 3_277 <= self.phi_sens < 16_384
        &&& 104 <= self.turn_speed < 6_554
        &&& 1_000_000 <= self.sens_range_min < 5_000_000
        &&& 5_000_000 <= self.sens_range_max < 50_000_000
        &&& self.n_fix < 25
        &&& self.r_fix_min == 1
        &&& 2 <= self.r_fix_max < 10
        &&& 10_000_000 <= self.seed < u32::MAX
    }

    /// A configuration drawn at random, for a run that was given none:
    /// placement radius from 5 to 100 cells, deposit from 0.0001 to 0.1,
    /// decay from 0.1 to 0.9, velocity from 0.5 to 25 cells, sensor angle
    /// from a twentieth to a quarter of a turn, turn speed from about a
    /// six-hundredth to a tenth of a turn, nearest sensing distance from 1
    /// to 5 cells and farthest from 5 to 50, up to 24 nutrient zones of
    /// radius 1 to 8. Whatever is drawn, the configuration is usable on
    /// any domain with sides of more than 16 and at most `MAX_SIDE` cells.
    pub fn random(rng: &mut ThreadRng, n_agents: u32, width: u32, height: u32) -> (p: ParameterSet)
        ensures
            p.n_agents == n_agents,
            p.width == width,
            p.height == height,
            p.in_random_ranges(),
            (16 < width <= MAX_SIDE && 16 < height <= MAX_SIDE) ==> p.valid(),
    {
        let r_init: u32 = draw(rng, 5_000_000, 100_000_000);
        let deposit: u32 = draw(rng, 100, 100_000);
        let decay: u32 = draw(rng, 100_000, 900_000);
        let speed: u32 = draw(rng, 500_000, 25_000_000);
        let phi_sens: u32 = draw(rng, 3_277, 16_384);
        let turn_speed: u32 = draw(rng, 104, 6_554);
        let sens_range_min: u32 = draw(rng, 1_000_000, 5_000_000);
        let sens_range_max: u32 = draw(rng, 5_000_000, 50_000_000);
        let n_fix: u32 = draw(rng, 0, 25);
        let r_fix_min: u32 = draw(rng, 1, 2);
        let r_fix_max: u32 = draw(rng, 2, 10);
        let seed: u32 = draw(rng, 10_000_000, u32::MAX);
        ParameterSet {
            n_agents,
            width,
            height,
            r_init,
            deposit,
            decay,
            velocity: speed as i32,
            phi_sens,
            turn_speed,
            sens_range_min,
            sens_range_max,
            n_fix,
            r_fix_min,
            r_fix_max,
            seed: seed as u64,
        }
    }
}

} // verus!
