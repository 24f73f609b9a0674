//! Block-average pixelation of RGB rasters.
//!
//! An image is trimmed so that both of its dimensions are multiples of a
//! block size, cut into square blocks, and every block is painted with the
//! mean colour of its pixels.  All of it is stated over [`grid::PixelGrid`],
//! the mathematical view of a [`buffer::PixelBuffer`].

pub mod average;
pub mod blocks;
pub mod buffer;
pub mod grid;
pub mod laws;
pub mod paint;
pub mod pipeline;
pub mod trim;

pub use average::get_average_of_square;
pub use blocks::get_rbg_averages;
pub use buffer::PixelBuffer;
pub use grid::PixelGrid;
pub use paint::write_square_to_image;
pub use pipeline::{pixelate, Config, PixelateError, DEFAULT_INPUT, DEFAULT_OUTPUT, DEFAULT_RATIO};
pub use trim::resize_image;
