//! Conway's Game of Life on a fixed-size rectangular grid.
//!
//! The grid is a flat boolean vector with row-major addressing. One
//! generation step counts, for every cell, the live cells among its at most
//! eight in-grid neighbours (no wraparound) and applies the standard
//! birth/death rule. A parser turns a text stream of decimal digit runs into
//! validated coordinate pairs, and a cycle detector recognises previously
//! seen board states by exact snapshot comparison.

pub mod board;
pub mod detect;
pub mod errors;
pub mod numbers;
pub mod parser;
pub mod rules;

pub use board::Conway;
pub use board::Coordinates;
pub use errors::ConwayError;
