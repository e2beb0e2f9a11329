//! A bit-packed toroidal grid engine for Conway's Game of Life.
//!
//! The grid stores one bit per cell inside byte-granular storage, addresses
//! cells with wraparound (torus) coordinates, and advances generations by
//! applying the classic rule to every cell against a pre-step snapshot.

pub mod cell;
pub mod grid;
