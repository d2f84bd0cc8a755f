//! The two cursors of the map: one under the pointer, one on the selected
//! unit.

pub mod components;
pub mod systems;
