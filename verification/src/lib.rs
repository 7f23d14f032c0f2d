//! A small color library: an exact RGB color value with a hex codec,
//! linear blending between two colors, adjacent-duplicate removal, and a
//! squared Euclidean distance between colors.
//!
//! Each channel is held as an exact rational number in the unit interval,
//! so blending and the distance metric carry no rounding error; rounding
//! to 8-bit channels happens once, at the hex-encoding boundary.

pub mod color;
pub mod color_blender;
pub mod error;
pub mod frac;
