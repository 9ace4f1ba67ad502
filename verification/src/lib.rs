//! Procedural map generation on boolean tile grids: seed shapes, cellular
//! automata smoothing, diffusion-limited aggregation, breadth-first flood
//! distances and a connector-based tileset, with their contracts.

pub mod grid;
pub mod random;
pub mod post;
pub mod freeform;
pub mod tileset;
pub mod editor;
