//! Integer model of a Schwarzschild black-hole scene: masses and their
//! horizons, the Flamm-paraboloid warp of a reference grid, and the
//! termination rules and colours of a traced light ray.
//!
//! World lengths are whole metres held in integers, so no quantity here can
//! overflow or become not-a-number. Horizon radii are rounded up to the next
//! metre and square roots down; every other comparison is exact.

pub mod isqrt;
pub mod mass;
pub mod scene;
pub mod grid;
pub mod trace;
