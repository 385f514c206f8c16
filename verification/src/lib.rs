//! A per-pixel colour-space engine for flat RGBA8 buffers.
//!
//! Each pixel of a buffer is converted into a cylindrical colour model
//! (hue / saturation / lightness, or hue / saturation / value), adjusted
//! by a fixed-point amount, converted back to 8-bit RGB and written in
//! place; the alpha byte is carried through untouched.  A separate pass
//! blends every pixel toward a flat colour through a per-channel lookup
//! table.  All component arithmetic is exact rational arithmetic, so the
//! stated contracts pin each output byte down completely.

pub mod frac;
pub mod hue;
pub mod hsl;
pub mod hsv;
pub mod adjust;
pub mod engine;
pub mod mixer;
pub mod laws;

pub use crate::adjust::Operation;
pub use crate::adjust::parse_operation;
pub use crate::engine::BufferSizeError;
pub use crate::engine::hsl;
pub use crate::engine::hsv;
pub use crate::engine::saturate_hsl;
pub use crate::engine::saturate_hsv;
pub use crate::engine::desaturate_hsl;
pub use crate::engine::desaturate_hsv;
pub use crate::engine::lighten_hsl;
pub use crate::engine::lighten_hsv;
pub use crate::engine::darken_hsl;
pub use crate::engine::darken_hsv;
pub use crate::engine::hue_rotate_hsl;
pub use crate::engine::hue_rotate_hsv;
pub use crate::mixer::Rgb;
pub use crate::mixer::mix_with_colour;
