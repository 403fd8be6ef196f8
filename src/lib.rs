//! Conway's Game of Life on a fixed-size grid.
//!
//! [`vec2d::Vec2D`] is a row-major two-dimensional container with
//! bounds-checked lookup; [`board::Board`] holds one generation of cells in
//! such a grid and computes the next one.

pub mod vec2d;
pub mod board;
