//! The isometric grid: its components, geometry and occupancy index.

pub mod components;
pub mod cursor;
pub mod occupancy;
pub mod resolver;
pub mod resource;

pub use components::{Coordinates, Displacement, Floor, Order, Position, Side};
pub use cursor::components::{Cursor, Data, HoverCursor, Rect, SelectCursor};
pub use occupancy::{Occupant, Positions};
pub use resource::{Point, TileMap, Translation};

use vstd::prelude::*;

verus! {

/// The number of columns, and of rows, of the map that `TileMap::default`
/// makes.
pub const MAP_SIZE: u16 = 11;

/// The width and the height of a tile of that map, before it is scaled.
pub const TILE_SIZE: (u16, u16) = (16, 17);

/// How many times as large as its tile a tile of that map is drawn.
pub const SCALE_FACTOR: u8 = 4;

} // verus!
