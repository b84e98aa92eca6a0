//! A verified port/ship/container logistics simulator.
//!
//! The world holds ports (with geographic coordinates and container
//! inventories), ships (with fuel and capacity limits) and classified cargo
//! containers. Operations arrive one at a time and are applied by
//! [`world::World::process`]; voyages consume fuel according to a
//! great-circle distance model and a cargo-dependent surcharge.
//!
//! All quantities are fixed-point integers: coordinates in micro-degrees,
//! distances in milli-kilometres, fuel and fuel rates in milli-units.

#![verifier::loop_isolation(false)]

use vstd::prelude::*;

pub mod container;
pub mod geo;
pub mod idvec;
pub mod lookup;
pub mod port;
pub mod ship;
pub mod snapshot;
pub mod world;

verus! {

/// Scale factor of the fixed-point fuel and distance quantities: one
/// stored unit is 1/1000 of a fuel unit or of a kilometre.
pub const MILLI: u64 = 1000;

} // verus!
