//! Where the cursors are drawn.

use crate::map::components::{Coordinates, Floor, Position};
use crate::map::occupancy::{Occupant, Positions};
use crate::map::resource::{Point, TileMap, Translation};
use vstd::prelude::*;

verus! {

/// How far below the anchor of its cell a cursor is drawn, in quarters of a
/// world unit: five and a half world units.
pub const CURSOR_DROP: i64 = 22;

/// Where a cursor at a position is drawn: where an occupant at that
/// position is drawn, lowered by `CURSOR_DROP`.
pub open spec fn spec_cursor_translation(map: &TileMap, position: Position) -> Translation {
    let on_cell = map.spec_position_to_translation(position);
    Translation { x: on_cell.x, y: (on_cell.y - CURSOR_DROP) as i64, z: on_cell.z }
}

/// Where a cursor at `position` is drawn.
pub fn cursor_translation(map: &TileMap, position: &Position) -> (translation: Translation)
    ensures
        translation == spec_cursor_translation(map, *position),
        translation.y == map.spec_position_to_translation(*position).y - CURSOR_DROP,
{
    map.valid();
    proof {
        map.lemma_projection_bounds(
            position.coordinates.0 - position.floor.0,
            position.coordinates.1 - position.floor.0,
        );
    }
    let on_cell = map.position_to_translation(position);
    Translation { x: on_cell.x, y: on_cell.y - CURSOR_DROP, z: on_cell.z }
}

/// Where the cursor under the pointer is shown, if it is shown.
///
/// The cell under the point is resolved against the stacks of the map. The
/// cursor is shown where that finds a cell and the cell lies on the map:
/// at that cell and on the floor found, with the cursor's own order. It is
/// hidden where nothing is found, and where the cell found is off the map.
pub open spec fn spec_hovering(
    map: &TileMap,
    positions: Map<Occupant, Position>,
    point: Point,
    cursor: Position,
) -> Option<Translation> {
    match map.spec_resolve(map.spec_point_to_coordinates(point), positions) {
        Some((coordinates, floor)) => if map.spec_in_bounds(coordinates) {
            Some(
                spec_cursor_translation(
                    map,
                    Position { coordinates, floor, order: cursor.order },
                ),
            )
        } else {
            None
        },
        None => None,
    }
}

/// Where the cursor under the pointer is shown, with the pointer at `point`;
/// `None` where the cursor is hidden.
pub fn hovering(map: &TileMap, positions: &Positions, point: Point, cursor: &Position) -> (shown:
    Option<Translation>)
    ensures
        shown == spec_hovering(map, positions@, point, *cursor),
{
    let under_pointer = map.point_to_coordinates(point);
    match map.resolve(under_pointer, positions) {
        Some((coordinates, floor)) => {
            if map.in_bounds(coordinates) {
                Some(cursor_translation(map, &Position { coordinates, floor, order: cursor.order }))
            } else {
                None
            }
        },
        None => None,
    }
}

} // verus!
