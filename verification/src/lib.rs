//! Numerical core of a solar-system-scale simulation.
//!
//! Positions are held as an integer grid cell plus a bounded local offset in
//! micrometers, so that sub-millimeter resolution survives at coordinates of
//! hundreds of billions of meters.  On top of that coordinate model sit an
//! N-body gravity integrator and a closed-form Keplerian orbit propagator.
//! All quantities are fixed-point integers; every public operation carries a
//! contract that pins its result down exactly.

pub mod grid;
pub mod common_math;
pub mod physics_math;
pub mod solarsystem;
pub mod trig;
pub mod orbit;
pub mod localization;
pub mod rhai_asset_loader;
pub mod toml_asset_loader;
pub mod textures;
