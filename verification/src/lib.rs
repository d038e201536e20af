//! Escape-time rendering of the Mandelbrot set, verified with Verus.
//!
//! The renderer is written over an abstract number type, [`scalar::Scalar`],
//! so that every contract is stated over the arithmetic of that type. The
//! crate supplies one such type, the saturating fixed-point number
//! [`fixed::Fixed`], whose arithmetic is itself verified.

pub mod scalar;
pub mod fixed;
pub mod complex;
pub mod mandelbrot;
pub mod image;
