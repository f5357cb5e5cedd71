//! Deterministic identicon generation: a seed string is hashed to a
//! 32-byte digest, from which a brightness-banded RGB color and a
//! horizontally symmetric boolean pattern grid are derived; the grid is
//! then rasterized onto a square pixel canvas with percentage padding.

pub mod color;
pub mod digest;
pub mod pattern;
pub mod raster;
