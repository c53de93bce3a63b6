//! Escape-time fractal kernel: the discrete decisions of a generalised
//! Mandelbrot renderer, verified.
//!
//! Real quantities (viewport bounds, the escape threshold, the modulus of an
//! iterate) travel through this crate as binary64 bit patterns held in `u64`.
//! The crate compares and orders them (see [`ieee`]) and never does
//! arithmetic on them: the caller maps pixels to the plane and iterates the
//! recurrence, and hands back the modulus after each iteration.
//!
//! - [`config`]: the evaluator's configuration and its validation.
//! - [`range`]: one viewport axis and the test for a degenerate one.
//! - [`orbit`]: the escape-time rule for one point.
//! - [`evaluation`]: the row-major walk over the grid and the resolution of
//!   point values against the palette.
pub mod config;
pub mod error;
pub mod evaluation;
pub mod ieee;
pub mod orbit;
pub mod range;
