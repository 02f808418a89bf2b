//! Conway's Game of Life on a bounded grid whose edges are clamped, not wrapped.

pub mod bits;
pub mod board;
pub mod grid;
pub mod laws;
pub mod life;
