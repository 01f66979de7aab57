//! Core of a turn-based dungeon crawler: procedural dungeon generation
//! (non-overlapping rooms joined by corridors), a tile grid with persistent
//! exploration state, a field-of-view engine, and movement validation.
//!
//! Rendering and input handling live outside this crate; the core is queried
//! by coordinate and answers with plain terrain and visibility values.

use vstd::prelude::*;

pub mod generator;
pub mod geometry;
pub mod object;
pub mod rng;
pub mod tile;
pub mod visibility;

pub use geometry::Rect;
pub use object::Color;
pub use object::Object;
pub use rng::DungeonRng;
pub use tile::Tile;
pub use tile::TileGrid;
pub use visibility::Fov;

verus! {

/// What can go wrong in the core: a generator configuration no room can
/// satisfy, or a coordinate outside the grid.
#[derive(Clone, Copy, Debug, PartialEq, Eq, Structural)]
pub enum GameError {
    Configuration,
    OutOfBounds,
}

/// The state a dungeon level owns for its lifetime: the tile grid.
pub struct Game {
    pub map: TileGrid,
}

} // verus!
