//! Halftoning of 8-bit grayscale images: ordered (Bayer) dithering,
//! Floyd-Steinberg error diffusion in raster and serpentine order, and
//! gamma correction through a lookup table.
//!
//! Every transformation takes a [`grid::Grid`] by reference and returns a new
//! one of the same dimensions. What each returns is stated in its contract
//! over [`grid::GridView`], the mathematical content of a grid, and proved.
//! The only statements taken on trust are those about the image buffer that
//! a grid is stored in; they are gathered in [`grid`].

pub mod algorithm;
pub mod bayer;
pub mod floyd_steinberg;
pub mod gamma_correction;
pub mod grid;
