pub mod error;
pub mod grid;
pub mod map;
pub mod render;
pub mod state;
pub mod tile;
pub mod transform;
