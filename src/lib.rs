//! Conway's Game of Life on a torus: a fixed-size grid of cells whose edges
//! wrap around, with verified point and bulk edits and generation advance.

pub mod grid;

pub use grid::{Conway, DimensionMismatch, OutOfBounds, Position};
