//! A verified Conway's Game of Life engine: a two-dimensional grid of binary
//! cells, advanced one generation at a time by the canonical birth/survival
//! rule. The boundary policy is chosen at construction: with the default
//! bounded edges, out-of-range neighbors count as dead; with toroidal edges,
//! neighbor lookups wrap around to the opposite side.

pub mod grid;
pub mod rule;
pub mod stepper;
pub mod laws;
