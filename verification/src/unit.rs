//! Units: the selection of the turn, and the movement of the selected unit.
//!
//! Durations are whole microseconds.

use crate::map::components::{Coordinates, Position};
use crate::map::cursor::systems::{cursor_translation, spec_cursor_translation};
use crate::map::occupancy::{Occupant, Positions};
use crate::map::resource::{floor_div, Point, TileMap, Translation};
use vstd::arithmetic::div_mod::lemma_fundamental_div_mod;
use vstd::prelude::*;
use vstd::std_specs::hash::group_hash_axioms;

verus! {

broadcast use group_hash_axioms;

/// The time that a unit takes for one step along a column or a row, in
/// milliseconds.
pub const SPEED: u64 = 200;

/// The number of microseconds in a millisecond.
pub const MICROS_PER_MILLI: u64 = 1000;

/// A move under way: where it leads, how long it takes, and how much of
/// that time has passed.
#[derive(Copy, Clone, Debug)]
pub struct Movement {
    pub position: Position,
    pub total_time: u64,
    pub time_passed: u64,
}

/// The number of single steps along columns and rows between two cells.
pub open spec fn steps_between(from: Coordinates, to: Coordinates) -> int {
    (if from.0 <= to.0 {
        to.0 - from.0
    } else {
        from.0 - to.0
    }) + (if from.1 <= to.1 {
        to.1 - from.1
    } else {
        from.1 - to.1
    })
}

/// The sum of a run of time steps.
pub open spec fn total(steps: Seq<u64>) -> int
    decreases steps.len(),
{
    if steps.len() == 0 {
        0
    } else {
        total(steps.drop_last()) + steps.last()
    }
}

impl Movement {
    /// Whether the time of the move has passed. A move that takes no time
    /// is complete from the start.
    pub open spec fn is_complete(self) -> bool {
        self.time_passed >= self.total_time
    }

    /// The move once `dt` more has passed. The time that has passed is held
    /// to the range of `u64`.
    pub open spec fn advanced(self, dt: u64) -> Movement {
        Movement {
            position: self.position,
            total_time: self.total_time,
            time_passed: if self.time_passed + dt > u64::MAX {
                u64::MAX
            } else {
                (self.time_passed + dt) as u64
            },
        }
    }

    /// The move once each of a run of time steps has passed.
    pub open spec fn advanced_by(self, steps: Seq<u64>) -> Movement
        decreases steps.len(),
    {
        if steps.len() == 0 {
            self
        } else {
            self.advanced_by(steps.drop_last()).advanced(steps.last())
        }
    }

    /// The move that takes a unit from where it is to `target`. Each step
    /// along a column or a row takes `SPEED` milliseconds; floors take no
    /// time.
    pub open spec fn planned(current: Position, target: Position) -> Movement {
        Movement {
            position: target,
            total_time: (steps_between(current.coordinates, target.coordinates) * SPEED
                * MICROS_PER_MILLI) as u64,
            time_passed: 0,
        }
    }

    /// Plans the move from `current` to `target`.
    pub fn plan(current: &Position, target: Position) -> (movement: Movement)
        ensures
            movement == Self::planned(*current, target),
            movement.total_time == steps_between(current.coordinates, target.coordinates) * SPEED
                * MICROS_PER_MILLI,
    {
        let displacement = target.coordinates - current.coordinates;
        let across: u64 = if displacement.0 >= 0 {
            displacement.0 as u64
        } else {
            (-displacement.0) as u64
        };
        let along: u64 = if displacement.1 >= 0 {
            displacement.1 as u64
        } else {
            (-displacement.1) as u64
        };
        let step_time: u64 = SPEED * MICROS_PER_MILLI;
        assert(step_time == 200_000);
        assert(across + along == steps_between(current.coordinates, target.coordinates));
        assert((across + along) * step_time == steps_between(
            current.coordinates,
            target.coordinates,
        ) * SPEED * MICROS_PER_MILLI) by (nonlinear_arith)
            requires
                across + along == steps_between(current.coordinates, target.coordinates),
                step_time == SPEED * MICROS_PER_MILLI,
        ;
        Movement { position: target, total_time: (across + along) * step_time, time_passed: 0 }
    }

    /// Lets `dt` more pass, and says whether the move is complete.
    pub fn advance(&mut self, dt: u64) -> (completed: bool)
        ensures
            *final(self) == old(self).advanced(dt),
            completed == final(self).is_complete(),
            completed == (old(self).time_passed + dt >= old(self).total_time),
    {
        self.time_passed = self.time_passed.saturating_add(dt);
        self.time_passed >= self.total_time
    }

    /// Time adds up: after a run of time steps the time that has passed is
    /// what had passed before and the sum of the steps, held to the range of
    /// `u64`. So the move is complete after the run exactly when that sum
    /// reaches the time that was left, however the time was cut into steps.
    pub proof fn lemma_advanced_by_total(self, steps: Seq<u64>)
        ensures
            self.advanced_by(steps).position == self.position,
            self.advanced_by(steps).total_time == self.total_time,
            self.advanced_by(steps).time_passed == (if self.time_passed + total(steps) > u64::MAX {
                u64::MAX as int
            } else {
                self.time_passed + total(steps)
            }),
            self.advanced_by(steps).is_complete() <==> self.time_passed + total(steps)
                >= self.total_time,
        decreases steps.len(),
    {
        if steps.len() > 0 {
            self.lemma_advanced_by_total(steps.drop_last());
            lemma_total_is_natural(steps.drop_last());
        }
    }
}

/// A sum of time steps is not negative.
pub proof fn lemma_total_is_natural(steps: Seq<u64>)
    ensures
        total(steps) >= 0,
    decreases steps.len(),
{
    if steps.len() > 0 {
        lemma_total_is_natural(steps.drop_last());
    }
}

/// The unit that the turn has selected, and its move, if one is under way.
#[derive(Copy, Clone, Debug)]
pub struct SelectedUnit {
    pub entity: Occupant,
    pub movement: Option<Movement>,
}

/// The selection of the turn: one unit at most.
#[derive(Copy, Clone, Debug)]
pub struct Turn {
    pub selected_unit: Option<SelectedUnit>,
}

impl Default for Turn {
    fn default() -> (turn: Turn)
        ensures
            turn.selected_unit is None,
    {
        Turn { selected_unit: None }
    }
}

impl Turn {
    /// Whether the selected unit is on a move whose time has not passed.
    pub open spec fn spec_moving(self) -> bool {
        match self.selected_unit {
            Some(SelectedUnit { movement: Some(movement), .. }) => !movement.is_complete(),
            _ => false,
        }
    }

    /// The turn with `unit` selected and no move under way.
    pub open spec fn selected(unit: Occupant) -> Turn {
        Turn { selected_unit: Some(SelectedUnit { entity: unit, movement: None }) }
    }

    /// The turn after a click on `unit`: nothing is selected where `unit`
    /// was, and `unit` is where it was not.
    pub open spec fn toggled(self, unit: Occupant) -> Turn {
        match self.selected_unit {
            Some(SelectedUnit { entity, .. }) if entity == unit => Turn { selected_unit: None },
            _ => Self::selected(unit),
        }
    }

    /// The turn after the selected unit was asked to move to `target`: the
    /// move is planned where a unit is selected that is not on a move, and
    /// nothing changes otherwise.
    pub open spec fn requested(self, current: Position, target: Position) -> Turn {
        match self.selected_unit {
            Some(SelectedUnit { entity, .. }) if !self.spec_moving() => Turn {
                selected_unit: Some(
                    SelectedUnit { entity, movement: Some(Movement::planned(current, target)) },
                ),
            },
            _ => self,
        }
    }

    /// Selects `unit` in place of what was selected; a move that was under
    /// way is let go.
    pub fn select(&mut self, unit: Occupant)
        ensures
            *final(self) == Self::selected(unit),
    {
        self.selected_unit = Some(SelectedUnit { entity: unit, movement: None });
    }

    /// Takes a click on `unit`: deselects it where it was selected, selects
    /// it otherwise.
    pub fn toggle(&mut self, unit: Occupant)
        ensures
            *final(self) == old(self).toggled(unit),
    {
        match self.selected_unit {
            Some(selected) if selected.entity == unit => {
                self.selected_unit = None;
            },
            _ => {
                self.select(unit);
            },
        }
    }

    /// Asks the selected unit, which stands at `current`, to move to
    /// `target`. Says whether the move was taken on.
    pub fn request_move(&mut self, current: &Position, target: Position) -> (accepted: bool)
        ensures
            *final(self) == old(self).requested(*current, target),
            accepted == (old(self).selected_unit is Some && !old(self).spec_moving()),
    {
        if moving(self) {
            return false;
        }
        match self.selected_unit {
            Some(selected) => {
                self.selected_unit = Some(
                    SelectedUnit {
                        entity: selected.entity,
                        movement: Some(Movement::plan(current, target)),
                    },
                );
                true
            },
            None => false,
        }
    }
}

/// One unit at most is selected, and a click on a unit decides which.
/// A click on a unit that is not selected selects it in place of whatever
/// was selected, with no move under way; a second click on it selects
/// nothing; and where nothing is selected, a click on a further unit selects
/// that one alone.
pub proof fn lemma_single_selection(turn: Turn, unit: Occupant, other: Occupant)
    ensures
        !(turn.selected_unit matches Some(selected) && selected.entity == unit) ==> turn.toggled(
            unit,
        ) == Turn::selected(unit),
        Turn::selected(unit).toggled(unit).selected_unit is None,
        other != unit ==> Turn::selected(unit).toggled(other) == Turn::selected(other),
{
}

/// Whether the selected unit is on a move whose time has not passed.
pub fn moving(turn: &Turn) -> (under_way: bool)
    ensures
        under_way == turn.spec_moving(),
{
    match &turn.selected_unit {
        Some(selected_unit) => match &selected_unit.movement {
            Some(movement) => movement.time_passed < movement.total_time,
            None => false,
        },
        None => false,
    }
}

/// Whether a unit is placed on a cell. The side of the cell is not asked.
pub open spec fn stands_on(positions: Map<Occupant, Position>, unit: Occupant, cell: Coordinates) -> bool {
    &&& positions.contains_key(unit)
    &&& positions[unit].coordinates.0 == cell.0
    &&& positions[unit].coordinates.1 == cell.1
}

/// Whether the unit at index `i` is the first of the units that stands on a
/// cell.
pub open spec fn is_first_on(
    units: Seq<Occupant>,
    positions: Map<Occupant, Position>,
    cell: Coordinates,
    i: int,
) -> bool {
    &&& 0 <= i < units.len()
    &&& stands_on(positions, units[i], cell)
    &&& forall|j: int| 0 <= j < i ==> !stands_on(positions, #[trigger] units[j], cell)
}

/// The first of the units that stands on a cell, if one does.
pub open spec fn unit_on(units: Seq<Occupant>, positions: Map<Occupant, Position>, cell: Coordinates) -> Option<
    Occupant,
> {
    if exists|i: int| is_first_on(units, positions, cell, i) {
        Some(units[choose|i: int| is_first_on(units, positions, cell, i)])
    } else {
        None
    }
}

/// Units stand on a cell exactly when a first of them does; that one is a
/// unit and stands on the cell.
pub proof fn lemma_unit_on(units: Seq<Occupant>, positions: Map<Occupant, Position>, cell: Coordinates)
    ensures
        unit_on(units, positions, cell) is None <==> forall|j: int|
            0 <= j < units.len() ==> !stands_on(positions, #[trigger] units[j], cell),
        unit_on(units, positions, cell) matches Some(unit) ==> units.contains(unit) && stands_on(
            positions,
            unit,
            cell,
        ),
    decreases units.len(),
{
    if exists|i: int| is_first_on(units, positions, cell, i) {
        let i = choose|i: int| is_first_on(units, positions, cell, i);
        assert(stands_on(positions, units[i], cell));
    } else if units.len() > 0 {
        let front = units.drop_last();
        lemma_unit_on(front, positions, cell);
        assert(forall|k: int| 0 <= k < front.len() ==> front[k] == units[k]);
        if exists|i: int| is_first_on(front, positions, cell, i) {
            let i = choose|i: int| is_first_on(front, positions, cell, i);
            assert(is_first_on(units, positions, cell, i));
        } else {
            assert forall|j: int| 0 <= j < units.len() implies !stands_on(
                positions,
                #[trigger] units[j],
                cell,
            ) by {
                if j < front.len() {
                    assert(!stands_on(positions, front[j], cell));
                } else if stands_on(positions, units[j], cell) {
                    assert(is_first_on(units, positions, cell, j));
                }
            }
        }
    }
}

/// The first of the units that stands on a cell, if one does.
fn find_unit(units: &Vec<Occupant>, positions: &Positions, cell: Coordinates) -> (found: Option<
    Occupant,
>)
    ensures
        found == unit_on(units@, positions@, cell),
{
    let mut i: usize = 0;
    while i < units.len()
        invariant
            i <= units.len(),
            forall|j: int| 0 <= j < i ==> !stands_on(positions@, #[trigger] units@[j], cell),
        decreases units.len() - i,
    {
        match positions.get(&units[i]) {
            Some(position) => {
                if position.coordinates == cell {
                    proof {
                        assert(is_first_on(units@, positions@, cell, i as int));
                        let chosen = choose|k: int| is_first_on(units@, positions@, cell, k);
                        if chosen < i {
                            assert(!stands_on(positions@, units@[chosen], cell));
                        } else if i < chosen {
                            assert(!stands_on(positions@, units@[i as int], cell));
                        }
                    }
                    return Some(units[i]);
                }
            },
            None => {},
        }
        i += 1;
    }
    proof {
        assert forall|k: int| !is_first_on(units@, positions@, cell, k) by {
            if 0 <= k < units@.len() {
                assert(!stands_on(positions@, units@[k], cell));
            }
        }
    }
    None
}

/// The turn after a click at a point.
///
/// A click on the cell of a unit, the first of `units` to stand there,
/// selects that unit, or deselects it where it was selected. A click
/// elsewhere asks the selected unit to move: the cell under the point is
/// resolved against the stacks of the map, and where that finds a cell on
/// the map, the unit is to go there, to the floor found, keeping its order.
/// Nothing changes where no unit is selected, where the selected unit is
/// not placed, where it is on a move, where nothing is found, and where the
/// cell found is off the map.
pub open spec fn spec_click_to_move(
    map: &TileMap,
    positions: Map<Occupant, Position>,
    units: Seq<Occupant>,
    turn: Turn,
    point: Point,
) -> Turn {
    let cell = map.spec_point_to_coordinates(point);
    match unit_on(units, positions, cell) {
        Some(unit) => turn.toggled(unit),
        None => match turn.selected_unit {
            Some(SelectedUnit { entity, .. }) if positions.contains_key(entity) => match map.spec_resolve(
                cell,
                positions,
            ) {
                Some((coordinates, floor)) if map.spec_in_bounds(coordinates) => turn.requested(
                    positions[entity],
                    Position { coordinates, floor, order: positions[entity].order },
                ),
                _ => turn,
            },
            _ => turn,
        },
    }
}

/// A click away from every unit changes nothing where no unit is selected.
pub proof fn lemma_click_without_selection(
    map: &TileMap,
    positions: Map<Occupant, Position>,
    units: Seq<Occupant>,
    turn: Turn,
    point: Point,
)
    requires
        turn.selected_unit is None,
        unit_on(units, positions, map.spec_point_to_coordinates(point)) is None,
    ensures
        spec_click_to_move(map, positions, units, turn, point) == turn,
{
}

/// Takes a click at `point`.
pub fn click_to_move(
    map: &TileMap,
    positions: &Positions,
    units: &Vec<Occupant>,
    turn: &mut Turn,
    point: Point,
)
    ensures
        *final(turn) == spec_click_to_move(map, positions@, units@, *old(turn), point),
{
    let cell = map.point_to_coordinates(point);
    if let Some(unit) = find_unit(units, positions, cell) {
        turn.toggle(unit);
        return;
    }
    let entity = match turn.selected_unit {
        Some(selected) => selected.entity,
        None => {
            return;
        },
    };
    let current = match positions.get(&entity) {
        Some(current) => *current,
        None => {
            return;
        },
    };
    if let Some((coordinates, floor)) = map.resolve(cell, positions) {
        if map.in_bounds(coordinates) {
            turn.request_move(&current, Position { coordinates, floor, order: current.order });
        }
    }
}

/// How a tick left the move of the selected unit.
#[derive(Copy, Clone, PartialEq, Eq, Structural, Debug)]
pub enum Progress {
    /// No move was under way.
    Idle,
    /// The move went on and is not complete.
    Moving,
    /// The move is complete: the unit stands at its target.
    Arrived,
}

/// The unit that is on a move, and its move: the selected unit, where it is
/// placed and has a move.
pub open spec fn under_way(turn: Turn, positions: Map<Occupant, Position>) -> Option<
    (Occupant, Movement),
> {
    match turn.selected_unit {
        Some(SelectedUnit { entity, movement: Some(movement) }) if positions.contains_key(
            entity,
        ) => Some((entity, movement)),
        _ => None,
    }
}

/// Lets `dt` pass for the move of the selected unit.
///
/// Where no move is under way, nothing changes. Otherwise the time of the
/// move goes on by `dt`. Where that completes the move, the unit is taken
/// to the cell and the floor of its target, the index moves it from its old
/// ground footprint to its new one, and the move is over; the unit stays
/// selected. Where it does not, only the time that has passed changes.
pub fn movement(map: &mut TileMap, positions: &mut Positions, turn: &mut Turn, dt: u64) -> (progress:
    Progress)
    ensures
        final(map).same_grid(old(map)),
        old(map).consistent(old(positions)@) ==> final(map).consistent(final(positions)@),
        match under_way(*old(turn), old(positions)@) {
            None => {
                &&& progress == Progress::Idle
                &&& *final(turn) == *old(turn)
                &&& final(positions)@ == old(positions)@
                &&& forall|column: int, row: int| #[trigger]
                    final(map).occupants(column, row) == old(map).occupants(column, row)
            },
            Some((unit, movement)) => if movement.advanced(dt).is_complete() {
                let arrived = old(positions)@[unit].taken_to(movement.position);
                &&& progress == Progress::Arrived
                &&& *final(turn) == Turn::selected(unit)
                &&& final(positions)@ == old(positions)@.insert(unit, arrived)
                &&& final(map).moved(
                    old(map),
                    unit,
                    Some(old(positions)@[unit].spec_ground()),
                    arrived.spec_ground(),
                )
            } else {
                &&& progress == Progress::Moving
                &&& *final(turn) == (Turn {
                    selected_unit: Some(
                        SelectedUnit { entity: unit, movement: Some(movement.advanced(dt)) },
                    ),
                })
                &&& final(positions)@ == old(positions)@
                &&& forall|column: int, row: int| #[trigger]
                    final(map).occupants(column, row) == old(map).occupants(column, row)
            },
        },
{
    proof {
        map.lemma_same_grid_reflexive();
    }
    let (unit, mut movement) = match turn.selected_unit {
        Some(SelectedUnit { entity, movement: Some(movement) }) => (entity, movement),
        _ => {
            return Progress::Idle;
        },
    };
    let current = match positions.get(&unit) {
        Some(current) => *current,
        None => {
            return Progress::Idle;
        },
    };
    if movement.advance(dt) {
        let arrived = Position {
            coordinates: movement.position.coordinates,
            floor: movement.position.floor,
            order: current.order,
        };
        map.place(positions, unit, arrived);
        turn.selected_unit = Some(SelectedUnit { entity: unit, movement: None });
        Progress::Arrived
    } else {
        turn.selected_unit = Some(SelectedUnit { entity: unit, movement: Some(movement) });
        Progress::Moving
    }
}

/// The place that lies between `from` and `to` as the time `passed` lies
/// between nothing and `total`, rounded down.
pub open spec fn between(from: int, to: int, passed: int, total: int) -> int {
    from + (to - from) * passed / total
}

/// Where a unit on a move is drawn: on the straight line from where it
/// stands to its target, as far along as the time of the move has passed,
/// and at its target once the move is complete.
pub open spec fn spec_interpolate(map: &TileMap, current: Position, movement: Movement) -> Translation {
    let from = map.spec_position_to_translation(current);
    let to = map.spec_position_to_translation(movement.position);
    if movement.is_complete() {
        to
    } else {
        Translation {
            x: between(from.x as int, to.x as int, movement.time_passed as int, movement.total_time as int) as i64,
            y: between(from.y as int, to.y as int, movement.time_passed as int, movement.total_time as int) as i64,
            z: between(from.z as int, to.z as int, movement.time_passed as int, movement.total_time as int) as i64,
        }
    }
}

/// One coordinate of `interpolate`.
fn along(from: i64, to: i64, passed: u64, total: u64) -> (place: i64)
    requires
        passed < total,
        -0x1000_0000_0000_0000 <= from <= 0x1000_0000_0000_0000,
        -0x1000_0000_0000_0000 <= to <= 0x1000_0000_0000_0000,
    ensures
        place == between(from as int, to as int, passed as int, total as int),
{
    let span: i128 = to as i128 - from as i128;
    assert(-0x2000_0000_0000_0000_0000_0000_0000_0000 <= span * (passed as i128)
        <= 0x2000_0000_0000_0000_0000_0000_0000_0000) by (nonlinear_arith)
        requires
            -0x2000_0000_0000_0000 <= span <= 0x2000_0000_0000_0000,
            0 <= passed <= 0xFFFF_FFFF_FFFF_FFFF,
    ;
    let part: i128 = floor_div(span * (passed as i128), total);
    proof {
        let n = span * passed;
        lemma_fundamental_div_mod(n, total as int);
        assert(total * (n / (total as int)) == (n / (total as int)) * total) by (nonlinear_arith);
        if span >= 0 {
            assert(0 <= n <= span * total) by (nonlinear_arith)
                requires
                    n == span * passed,
                    span >= 0,
                    0 <= passed < total,
            ;
            assert(0 <= n / (total as int) <= span) by (nonlinear_arith)
                requires
                    0 <= n <= span * total,
                    total > 0,
                    n == (n / (total as int)) * total + n % (total as int),
                    0 <= n % (total as int) < total,
            ;
        } else {
            assert(span * total <= n <= 0) by (nonlinear_arith)
                requires
                    n == span * passed,
                    span < 0,
                    0 <= passed < total,
            ;
            assert(span <= n / (total as int) <= 0) by (nonlinear_arith)
                requires
                    span * total <= n <= 0,
                    total > 0,
                    n == (n / (total as int)) * total + n % (total as int),
                    0 <= n % (total as int) < total,
            ;
        }
    }
    (from as i128 + part) as i64
}

/// Where a unit that stands at `current` is drawn while it is on a move.
pub fn interpolate(map: &TileMap, current: &Position, movement: &Movement) -> (translation:
    Translation)
    ensures
        translation == spec_interpolate(map, *current, *movement),
{
    map.valid();
    proof {
        map.lemma_projection_bounds(
            current.coordinates.0 - current.floor.0,
            current.coordinates.1 - current.floor.0,
        );
        map.lemma_projection_bounds(
            movement.position.coordinates.0 - movement.position.floor.0,
            movement.position.coordinates.1 - movement.position.floor.0,
        );
    }
    let from = map.position_to_translation(current);
    let to = map.position_to_translation(&movement.position);
    if movement.time_passed >= movement.total_time {
        to
    } else {
        Translation {
            x: along(from.x, to.x, movement.time_passed, movement.total_time),
            y: along(from.y, to.y, movement.time_passed, movement.total_time),
            z: along(from.z, to.z, movement.time_passed, movement.total_time),
        }
    }
}

/// Where the cursor on the selected unit is shown, if it is shown, and
/// where that cursor then stands.
///
/// The cursor is shown where a unit is selected that is placed and has no
/// move: it takes the cell and the floor of the unit and keeps its own
/// order. It is hidden otherwise, and stays where it stood.
pub open spec fn spec_highlight_selected(
    map: &TileMap,
    positions: Map<Occupant, Position>,
    turn: Turn,
    cursor: Position,
) -> (Option<Translation>, Position) {
    match turn.selected_unit {
        Some(SelectedUnit { entity, movement: None }) if positions.contains_key(entity) => {
            let on_unit = cursor.taken_to(positions[entity]);
            (Some(spec_cursor_translation(map, on_unit)), on_unit)
        },
        _ => (None, cursor),
    }
}

/// Takes the cursor to the selected unit and says where to show it; `None`
/// where the cursor is hidden.
pub fn highlight_selected(
    map: &TileMap,
    positions: &Positions,
    turn: &Turn,
    cursor: &mut Position,
) -> (shown: Option<Translation>)
    ensures
        (shown, *final(cursor)) == spec_highlight_selected(map, positions@, *turn, *old(cursor)),
{
    let unit = match turn.selected_unit {
        Some(SelectedUnit { entity, movement: None }) => entity,
        _ => {
            return None;
        },
    };
    let unit_position = match positions.get(&unit) {
        Some(unit_position) => *unit_position,
        None => {
            return None;
        },
    };
    cursor.coordinates = unit_position.coordinates;
    cursor.floor = unit_position.floor;
    Some(cursor_translation(map, cursor))
}

} // verus!
