//! Verified Mandelbrot rendering engine.
//!
//! Maps a rectangular region of the complex plane onto a pixel grid,
//! computes an escape-time value per pixel in fixed-point arithmetic,
//! converts that value into a color via a gradient, and drives an
//! interactive zoom-and-debounce render session.

pub mod color;
pub mod escape;
pub mod render;
pub mod session;
pub mod viewport;
