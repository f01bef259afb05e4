//! Escape-time rendering of the Mandelbrot set: sampling a grid of cells,
//! finding the value range of the finished grid, and colouring the grid into
//! a raster.
//!
//! The escape estimates are IEEE-754 doubles, and so are the points of the
//! plane. This crate does no arithmetic on them. It carries each estimate as
//! its ordering key (see [`sortkey`]), an integer that compares the way the
//! double does, and it takes the numeric steps from the caller as closures:
//! the step of the iteration, the average of estimates, the blend of colours.
//! What it decides, and what is proved of it, is everything around those
//! steps: which cells are sampled and by whom, how long an iteration runs,
//! which estimates bound the colour scale, and which colour a cell gets.

pub mod config;
pub mod grid;
pub mod palette;
pub mod range;
pub mod render;
pub mod sample;
pub mod sortkey;
