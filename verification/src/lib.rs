//! A colony of robots exploring a toroidal grid, harvesting its cells and
//! bringing what they gather home to a station that builds more robots.

pub mod discovered;
pub mod ledger;
pub mod map;
pub mod movement;
pub mod random;
pub mod renderer;
pub mod robot;
pub mod shared;
pub mod simulation;
pub mod station;
pub mod tally;
pub mod terrain;
