//! A verified minesweeper core: a generic 2D grid, per-tile game state with
//! reveal/flag transitions, and a randomized board generator with proved
//! mine-count and adjacency properties.
pub mod generator;
pub mod minefield;
pub mod tile;
pub mod tile_type;
