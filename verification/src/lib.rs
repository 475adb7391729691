//! A sliding-tile merge puzzle on a rectangular grid: the line reducer that
//! compacts and merges one row or column, and the board engine built on it.

pub mod board;
mod chance;
pub mod grid;
pub mod grid_laws;
pub mod laws;
pub mod line;
pub mod line_laws;
pub mod placement;
pub mod render;
pub mod text;
pub mod tile;
