//! Core of a 2D scalar wave simulator: a damped finite-difference update over
//! a fixed-size grid, advanced tick by tick with triple-buffered state and a
//! queue of live edit commands.
//!
//! All quantities (amplitudes, the per-cell propagation ratio `c` and damping
//! ratio `k`, the Gaussian seeding arguments) are fixed-point numbers: an
//! `i64` value `v` stands for the real number `v / SCALE`.

use vstd::prelude::*;

pub mod fixed;
pub mod laws;
pub mod space;
pub mod stencil;
pub mod wave_simulator;

verus! {

/// Fixed-point scale: an `i64` value `v` stands for the real number `v / SCALE`.
pub const SCALE: i64 = 1_000_000;

/// Simulation time step `dt = 1/60`, fixed-point.
pub const DT: i64 = 16_667;

/// `dt^2 / dx^2` with `dt = 1/60` and cell spacing `dx = 0.1`, fixed-point
/// (`1/36`, about `0.027778`). The per-cell stencil coefficient is
/// `c^2 * COEFF_BASE`.
pub const COEFF_BASE: i64 = 27_778;

/// Propagation ratio every cell starts with (`0.2`).
pub const DEFAULT_PROPAGATION: i64 = 200_000;

/// Damping ratio every cell starts with (`0.2`).
pub const DEFAULT_DAMPING: i64 = 200_000;

/// Largest supported grid side length; keeps `size * size` and all index
/// arithmetic comfortably inside machine integers.
pub const MAX_SIZE: usize = 1024;

/// Largest magnitude accepted for a Gaussian pulse center coordinate
/// (100 000 cells, fixed-point).
pub const COORD_LIMIT: i64 = 100_000_000_000;

/// Smallest accepted Gaussian width; below this `sigma * sigma` truncates to
/// zero in fixed point and the kernel would divide by zero.
pub const SIGMA_MIN: i64 = 1_000;

/// Largest accepted Gaussian width (one million cells, fixed-point).
pub const SIGMA_MAX: i64 = 1_000_000_000_000;

/// Everything that can go wrong in the simulator.
#[derive(Copy, Clone, Debug, PartialEq, Eq, Structural)]
pub enum SimError {
    /// Grid size and worker count do not fit together at construction.
    ConfigurationError,
    /// A point access or a command names a cell outside `[0, N)` x `[0, N)`.
    IndexOutOfRange,
    /// A coefficient or seeding argument is outside its documented range.
    InvalidParameter,
    /// An amplitude left the representable range (the fixed-point analogue of
    /// a non-finite float); the simulation must not silently continue.
    NumericInstability,
}

} // verus!
