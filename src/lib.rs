//! Escape-time fractal atlas: the integer side of rendering a Mandelbrot atlas.
//!
//! The library decides everything that does not need floating point: when an
//! orbit counts as escaped, how escape results become grey levels in a pixel
//! buffer, which tiles an atlas is cut into, whether a tile is worth keeping,
//! how a kept tile becomes a PNG file, and how a run is configured and
//! summarised.
pub mod escape;
pub mod pixels;
pub mod atlas;
pub mod schedule;
pub mod encode;
