//! Building blocks of valid-mode 2D convolution over grayscale images:
//! the image buffer, window geometry, tiling, matrix data movement and the
//! decisions that choose between multiplication strategies.

mod arith;
pub mod pow2;
pub mod image;
pub mod window;
pub mod matrix;
pub mod plan;
pub mod tiling;
pub mod tuning;
pub mod kernel;
