//! A discrete-time height-field wave simulation over a fixed 2D grid.
//!
//! Every cell carries an altitude, a velocity, an acceleration and a damping
//! divisor; a per-tick update propagates disturbances outward by neighbor
//! averaging while a uniform global correction pulls the mean altitude toward
//! zero. All quantities are fixed-point integers: one logical unit is `SCALE`
//! (1000) fixed-point steps, so an altitude of `500.0` units is stored as
//! `500_000`. Time is measured in whole microseconds.
//!
//! The grid is driven by a host that forwards discrete activation events to
//! [`grid::WaveGrid::trigger`] and elapsed time to [`grid::WaveGrid::advance`],
//! and reads altitudes back through [`grid::WaveGrid::altitude_at`].

pub mod camera;
pub mod fixed;
pub mod grid;
pub mod laws;
