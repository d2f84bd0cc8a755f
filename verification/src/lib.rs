//! Isometric map model for a tactical roguelike: tile coordinates, the
//! occupancy index, stack resolution under the pointer, and unit movement.

pub mod map;
pub mod unit;
