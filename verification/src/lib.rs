//! Fixed-point field generators for terminal glyph rendering: an escape-time
//! iterator over a quadratic complex map, a permutation-table gradient-noise
//! field, a symbol quantizer, and a grid driver that turns a rectangular
//! domain into rows of glyphs.
pub mod escape;
pub mod fixed;
pub mod grid;
pub mod noise;
pub mod quantize;
pub mod rng;
