//! Tile-layer generation for 2D platform-game levels: a freeze corridor
//! carved by a bounded random walk, and a maze level with start and finish
//! markers, composed into layers and groups.

pub mod tiles;
pub mod grid;
pub mod random;
pub mod fly;
pub mod maze;
pub mod error;
pub mod layout;
