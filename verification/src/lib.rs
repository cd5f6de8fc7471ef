//! Slime-mould growth on a torus: agents sense, steer, move and deposit a
//! trail; the trail field blurs and fades every frame.
//!
//! All quantities are fixed-point integers so that every run is exactly
//! reproducible; `units::UNIT` steps make up one cell, one unit of trail
//! intensity, and the factor one.
pub mod units;
pub mod params;
pub mod field;
pub mod balance;
pub mod trig;
pub mod rng;
pub mod nutrient;
pub mod agent;
pub mod sim;
pub mod control;
