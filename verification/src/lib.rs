//! Raster image buffers with two, three or four components per pixel.
//!
//! A buffer stores its components densely in row-major order, the channel
//! varying fastest. A coordinate pair is always `[x, y]`: the column first,
//! then the row. Sizes are `[width, height]` in the same order. Components
//! are bytes.
//!
//! - [`raster`] is the mathematical model: what a buffer holds, what each
//!   operation makes of it, and the laws that relate the operations.
//! - [`array`] holds the `ndarray` arrays that store the data, with the
//!   contracts that are assumed of `ndarray`.
//! - [`access`] builds and reads those arrays.
//! - [`buffer`] has the operations that the pixel formats share.
//! - [`frequency`] counts the distinct items of a sequence.
//! - [`image_ga`], [`image_rgb`] and [`image_rgba`] are the three pixel
//!   formats.

pub mod access;
pub mod array;
pub mod buffer;
pub mod frequency;
pub mod image_ga;
pub mod image_rgb;
pub mod image_rgba;
pub mod raster;
