//! The values that place an occupant on the grid.

use vstd::prelude::*;
use vstd::std_specs::cmp::{PartialEqSpecImpl, PartialOrdSpecImpl};
use std::cmp::Ordering;
use vstd::std_specs::ops::{AddSpec, SubSpec};
use std::hash::{Hash, Hasher};
use std::ops::{Add, Sub};

verus! {

/// Which half of a diamond cell a point fell into.
#[derive(Copy, Clone, PartialEq, Eq, Structural, Hash, Debug)]
pub enum Side {
    Left,
    Center,
    Right,
}

impl Default for Side {
    fn default() -> (side: Side)
        ensures
            side == Side::Center,
    {
        Side::Center
    }
}

/// A vertical stacking level; level 0 is the ground. Floors are ordered by
/// their level.
#[derive(Copy, Clone, PartialEq, Eq, Structural, Ord, Debug)]
pub struct Floor(pub u16);

impl PartialOrd for Floor {
    fn partial_cmp(&self, other: &Self) -> (order: Option<Ordering>) {
        if self.0 < other.0 {
            Some(Ordering::Less)
        } else if self.0 > other.0 {
            Some(Ordering::Greater)
        } else {
            Some(Ordering::Equal)
        }
    }
}

impl PartialOrdSpecImpl for Floor {
    open spec fn obeys_partial_cmp_spec() -> bool {
        true
    }

    open spec fn partial_cmp_spec(&self, other: &Self) -> Option<Ordering> {
        if self.0 < other.0 {
            Some(Ordering::Less)
        } else if self.0 > other.0 {
            Some(Ordering::Greater)
        } else {
            Some(Ordering::Equal)
        }
    }
}

impl Default for Floor {
    fn default() -> (floor: Floor)
        ensures
            floor == Floor(0),
    {
        Floor(0)
    }
}

/// A cell of the grid: column, row, and the half of the cell that was hit.
///
/// Two coordinates are the same cell when column and row agree; the side
/// takes no part in `==` or in hashing.
#[derive(Copy, Clone, Debug)]
pub struct Coordinates(pub i32, pub i32, pub Side);

impl Default for Coordinates {
    fn default() -> (coordinates: Coordinates)
        ensures
            coordinates == Coordinates(0, 0, Side::Center),
    {
        Coordinates(0, 0, Side::Center)
    }
}

impl PartialEq for Coordinates {
    fn eq(&self, other: &Self) -> (equal: bool) {
        self.0 == other.0 && self.1 == other.1
    }
}

impl Eq for Coordinates {}

impl PartialEqSpecImpl for Coordinates {
    open spec fn obeys_eq_spec() -> bool {
        true
    }

    open spec fn eq_spec(&self, other: &Self) -> bool {
        self.0 == other.0 && self.1 == other.1
    }
}

/// `i32`'s implementation of `Hash::hash`: feeds the value to the hasher.
/// Nothing is claimed of the hasher's state afterwards.
pub assume_specification<H: Hasher>[ <i32 as Hash>::hash::<H> ](value: &i32, state: &mut H);

impl Hash for Coordinates {
    fn hash<H: Hasher>(&self, state: &mut H) {
        self.0.hash(state);
        self.1.hash(state);
    }
}

impl Add<Floor> for Coordinates {
    type Output = Coordinates;

    fn add(self, rhs: Floor) -> (shifted: Coordinates) {
        Coordinates(self.0 + rhs.0 as i32, self.1 + rhs.0 as i32, self.2)
    }
}

impl vstd::std_specs::ops::AddSpecImpl<Floor> for Coordinates {
    open spec fn obeys_add_spec() -> bool {
        true
    }

    open spec fn add_req(self, rhs: Floor) -> bool {
        self.0 + rhs.0 <= i32::MAX && self.1 + rhs.0 <= i32::MAX
    }

    open spec fn add_spec(self, rhs: Floor) -> Coordinates {
        Coordinates((self.0 + rhs.0) as i32, (self.1 + rhs.0) as i32, self.2)
    }
}

impl Sub<Floor> for Coordinates {
    type Output = Coordinates;

    fn sub(self, rhs: Floor) -> (shifted: Coordinates) {
        Coordinates(self.0 - rhs.0 as i32, self.1 - rhs.0 as i32, self.2)
    }
}

impl vstd::std_specs::ops::SubSpecImpl<Floor> for Coordinates {
    open spec fn obeys_sub_spec() -> bool {
        true
    }

    open spec fn sub_req(self, rhs: Floor) -> bool {
        self.0 - rhs.0 >= i32::MIN && self.1 - rhs.0 >= i32::MIN
    }

    open spec fn sub_spec(self, rhs: Floor) -> Coordinates {
        Coordinates((self.0 - rhs.0) as i32, (self.1 - rhs.0) as i32, self.2)
    }
}

/// How far one cell lies from another, in columns and in rows.
#[derive(Copy, Clone, PartialEq, Eq, Structural, Debug)]
pub struct Displacement(pub i64, pub i64);

impl Sub<Coordinates> for Coordinates {
    type Output = Displacement;

    fn sub(self, rhs: Coordinates) -> (displacement: Displacement) {
        Displacement(self.0 as i64 - rhs.0 as i64, self.1 as i64 - rhs.1 as i64)
    }
}

impl vstd::std_specs::ops::SubSpecImpl<Coordinates> for Coordinates {
    open spec fn obeys_sub_spec() -> bool {
        true
    }

    open spec fn sub_req(self, rhs: Coordinates) -> bool {
        true
    }

    open spec fn sub_spec(self, rhs: Coordinates) -> Displacement {
        Displacement((self.0 - rhs.0) as i64, (self.1 - rhs.1) as i64)
    }
}

/// Shifting a cell up by a floor and back down by the same floor gives the
/// cell again, side included, wherever the shifted cell exists.
pub proof fn lemma_floor_shift_inverts(coordinates: Coordinates, floor: Floor)
    requires
        coordinates.add_req(floor),
    ensures
        coordinates.add_spec(floor).sub_req(floor),
        coordinates.add_spec(floor).sub_spec(floor) == coordinates,
{
}

/// Shifting a cell down by a floor and back up by the same floor gives the
/// cell again, side included, wherever the shifted cell exists.
pub proof fn lemma_floor_unshift_inverts(coordinates: Coordinates, floor: Floor)
    requires
        coordinates.sub_req(floor),
    ensures
        coordinates.sub_spec(floor).add_req(floor),
        coordinates.sub_spec(floor).add_spec(floor) == coordinates,
{
}

/// A manual drawing priority; the grid logic hands it on unchanged.
#[derive(Copy, Clone, PartialEq, Eq, Structural, Debug)]
pub struct Order(pub i32);

impl Default for Order {
    fn default() -> (order: Order)
        ensures
            order == Order(0),
    {
        Order(0)
    }
}

/// The full placement of an occupant.
#[derive(Copy, Clone, Debug)]
pub struct Position {
    pub coordinates: Coordinates,
    pub floor: Floor,
    pub order: Order,
}

impl Default for Position {
    fn default() -> (position: Position)
        ensures
            position == (Position {
                coordinates: Coordinates(0, 0, Side::Center),
                floor: Floor(0),
                order: Order(0),
            }),
    {
        Position { coordinates: Coordinates(0, 0, Side::Center), floor: Floor(0), order: Order(0) }
    }
}

impl Position {
    /// This position, taken to the cell and the floor of `other`; it keeps
    /// its order.
    pub open spec fn taken_to(self, other: Position) -> Position {
        Position { coordinates: other.coordinates, floor: other.floor, order: self.order }
    }

    /// The ground footprint: the column and the row of the cell under the
    /// occupant once the stacking shift of its floor is taken away.
    pub open spec fn spec_ground(self) -> (int, int) {
        (self.coordinates.0 - self.floor.0, self.coordinates.1 - self.floor.0)
    }

    /// The column and the row of the ground footprint.
    pub fn ground(&self) -> (ground: (i64, i64))
        ensures
            ground.0 == self.spec_ground().0,
            ground.1 == self.spec_ground().1,
    {
        (
            self.coordinates.0 as i64 - self.floor.0 as i64,
            self.coordinates.1 as i64 - self.floor.0 as i64,
        )
    }
}

} // verus!
