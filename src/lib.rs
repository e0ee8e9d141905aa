//! The Akari ("Light Up") puzzle: a grid of walls and togglable cells, with
//! bulbs that light their row and column up to the nearest wall.

pub mod tile;
pub mod grid;
pub mod illumination;
pub mod render;
pub mod game;
