//! Stack resolution: which occupied cell, on which floor, a cell under the
//! pointer refers to.
//!
//! A stack of floors is drawn shifted up the screen, so that the cell under
//! the pointer may show the top of a stack that stands one or two cells
//! further down the map. The resolver looks for such a stack from the
//! highest floor down.

use super::components::{Coordinates, Floor, Position, Side};
use super::occupancy::{lemma_topmost, topmost, Occupant, Positions};
use super::resource::TileMap;
use vstd::prelude::*;
use vstd::std_specs::hash::group_hash_axioms;

verus! {

broadcast use group_hash_axioms;

/// The highest floor that the resolver looks for.
pub const HIGHEST_PROBE: u16 = 2;

/// The cell that a probe lands on when the stack it met is higher than the
/// probe: the pointer is on the side face of that stack. From the left half
/// of the start cell the row moves on by the height of the stack, from the
/// right half the column; from the centre nothing moves.
pub open spec fn corrected(column: int, row: int, side: Side, height: int) -> Coordinates {
    match side {
        Side::Left => Coordinates(column as i32, (row + height) as i32, side),
        Side::Right => Coordinates((column + height) as i32, row as i32, side),
        Side::Center => Coordinates(column as i32, row as i32, side),
    }
}

impl TileMap {
    /// What the probe of one floor finds, from the start cell `start`.
    ///
    /// The probe looks at the cell `level` columns and `level` rows further
    /// on. It finds nothing where that cell is off the map, where none of
    /// the occupants filed under it is placed, and where the topmost of them
    /// is below `level`. Where the topmost is on `level`, it finds that cell;
    /// where the topmost is above `level`, the corrected cell. The floor it
    /// finds is `level`, and the side is that of `start`.
    pub open spec fn spec_probe(
        &self,
        start: Coordinates,
        level: int,
        positions: Map<Occupant, Position>,
    ) -> Option<(Coordinates, Floor)> {
        let column = start.0 + level;
        let row = start.1 + level;
        if self.holds(column, row) {
            match topmost(self.occupants(column, row), positions) {
                None => None,
                Some(top) => {
                    let height = positions[top].floor.0 as int;
                    if height < level {
                        None
                    } else if level < height {
                        Some((corrected(column, row, start.2, height), Floor(level as u16)))
                    } else {
                        Some((Coordinates(column as i32, row as i32, start.2), Floor(level as u16)))
                    }
                },
            }
        } else {
            None
        }
    }

    /// The cell and floor that the start cell refers to: what the first
    /// probe finds that finds anything, from floor `HIGHEST_PROBE` down to
    /// the ground.
    pub open spec fn spec_resolve(&self, start: Coordinates, positions: Map<Occupant, Position>) -> Option<
        (Coordinates, Floor),
    > {
        if self.spec_probe(start, 2, positions) is Some {
            self.spec_probe(start, 2, positions)
        } else if self.spec_probe(start, 1, positions) is Some {
            self.spec_probe(start, 1, positions)
        } else {
            self.spec_probe(start, 0, positions)
        }
    }

    /// Probes one floor from the start cell.
    pub fn probe(&self, start: Coordinates, level: u16, positions: &Positions) -> (found: Option<
        (Coordinates, Floor),
    >)
        ensures
            found == self.spec_probe(start, level as int, positions@),
    {
        let (columns, rows) = self.size();
        let column: i64 = start.0 as i64 + level as i64;
        let row: i64 = start.1 as i64 + level as i64;
        if !(0 <= column && column < columns as i64 && 0 <= row && row < rows as i64) {
            return None;
        }
        let candidate = Coordinates(column as i32, row as i32, start.2);
        proof {
            lemma_topmost(self.occupants(column as int, row as int), positions@);
        }
        let top = match self.topmost_at(candidate, positions) {
            None => {
                return None;
            },
            Some(top) => top,
        };
        let height: u16 = match positions.get(&top) {
            None => {
                return None;
            },
            Some(position) => position.floor.0,
        };
        if height < level {
            None
        } else if level < height {
            let landed = match start.2 {
                Side::Left => Coordinates(candidate.0, candidate.1 + height as i32, start.2),
                Side::Right => Coordinates(candidate.0 + height as i32, candidate.1, start.2),
                Side::Center => candidate,
            };
            Some((landed, Floor(level)))
        } else {
            Some((candidate, Floor(level)))
        }
    }

    /// Resolves the start cell against the stacks of the map; `None` where it
    /// refers to nothing.
    pub fn resolve(&self, start: Coordinates, positions: &Positions) -> (found: Option<
        (Coordinates, Floor),
    >)
        ensures
            found == self.spec_resolve(start, positions@),
    {
        let mut level: u16 = HIGHEST_PROBE;
        loop
            invariant
                level <= HIGHEST_PROBE,
                forall|above: int|
                    level < above <= HIGHEST_PROBE ==> self.spec_probe(start, above, positions@)
                        is None,
            decreases level,
        {
            let found = self.probe(start, level, positions);
            if found.is_some() {
                return found;
            }
            if level == 0 {
                return None;
            }
            level -= 1;
        }
    }

    /// What is resolved was met on the map: the floor found is that of one
    /// of the probes, the cell that this probe looked at lies on the map,
    /// and a placed occupant is filed under it. The cell found has the side
    /// of the start cell.
    pub proof fn lemma_resolved_on_the_map(
        &self,
        start: Coordinates,
        positions: Map<Occupant, Position>,
    )
        ensures
            self.spec_resolve(start, positions) matches Some((cell, floor)) ==> {
                &&& floor.0 <= HIGHEST_PROBE
                &&& self.holds(start.0 + floor.0, start.1 + floor.0)
                &&& topmost(
                    self.occupants(start.0 + floor.0, start.1 + floor.0),
                    positions,
                ) is Some
                &&& cell.2 == start.2
            },
    {
    }

    /// Off the map nothing is resolved: where none of the three cells that
    /// the probes look at lies on the map, the start cell refers to nothing,
    /// whatever the index holds.
    pub proof fn lemma_unresolved_off_the_map(
        &self,
        start: Coordinates,
        positions: Map<Occupant, Position>,
    )
        requires
            !self.holds(start.0 + 2, start.1 + 2),
            !self.holds(start.0 + 1, start.1 + 1),
            !self.holds(start.0 as int, start.1 as int),
        ensures
            self.spec_resolve(start, positions) is None,
    {
    }
}

} // verus!
