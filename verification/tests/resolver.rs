use std::collections::HashMap;
use tactical_roguelike::map::resolver::HIGHEST_PROBE;
use tactical_roguelike::map::{Coordinates, Floor, Order, Position, Positions, Side, TileMap};

fn on_floor(column: i32, row: i32, floor: u16) -> Position {
    Position { coordinates: Coordinates(column, row, Side::Center), floor: Floor(floor), order: Order(0) }
}

/// A map with one occupant filed under one cell.
fn with_one(size: u16, column: i32, row: i32, floor: u16) -> (TileMap, Positions) {
    let mut map = TileMap::new(size, size, 16, 17, 4);
    let mut positions: Positions = HashMap::new();
    map.insert(Coordinates(column, row, Side::Center), 1);
    positions.insert(1, on_floor(column, row, floor));
    (map, positions)
}

fn plain(found: Option<(Coordinates, Floor)>) -> Option<(i32, i32, Side, u16)> {
    found.map(|(coordinates, floor)| (coordinates.0, coordinates.1, coordinates.2, floor.0))
}

#[test]
fn highest_probe_is_the_second_floor() {
    assert_eq!(HIGHEST_PROBE, 2);
}

#[test]
fn resolver_exact_match() {
    let (map, positions) = with_one(11, 5, 5, 0);
    let found = map.resolve(Coordinates(5, 5, Side::Center), &positions);
    assert_eq!(plain(found), Some((5, 5, Side::Center, 0)));
}

#[test]
fn resolver_overhang_correction() {
    let (map, positions) = with_one(13, 10, 10, 2);
    let left = map.resolve(Coordinates(10, 10, Side::Left), &positions);
    assert_eq!(plain(left), Some((10, 12, Side::Left, 0)));
    let right = map.resolve(Coordinates(10, 10, Side::Right), &positions);
    assert_eq!(plain(right), Some((12, 10, Side::Right, 0)));
    let center = map.resolve(Coordinates(10, 10, Side::Center), &positions);
    assert_eq!(plain(center), Some((10, 10, Side::Center, 0)));
}

#[test]
fn resolver_correction_may_leave_the_map() {
    let (map, positions) = with_one(11, 10, 10, 2);
    let left = map.resolve(Coordinates(10, 10, Side::Left), &positions);
    assert_eq!(plain(left), Some((10, 12, Side::Left, 0)));
    assert!(!map.in_bounds(left.unwrap().0));
}

#[test]
fn resolver_finds_the_top_of_a_stack_from_the_cell_it_is_drawn_over() {
    // The top of a stack of two floors under (7, 7) is looked for from
    // (5, 5), two columns and two rows before it.
    let (map, positions) = with_one(11, 7, 7, 2);
    let found = map.resolve(Coordinates(5, 5, Side::Left), &positions);
    assert_eq!(plain(found), Some((7, 7, Side::Left, 2)));
    let (map, positions) = with_one(11, 6, 6, 1);
    let found = map.resolve(Coordinates(5, 5, Side::Right), &positions);
    assert_eq!(plain(found), Some((6, 6, Side::Right, 1)));
}

#[test]
fn resolver_passes_over_a_stack_that_is_too_low() {
    // Under (7, 7) the topmost is on floor 1: the probe of floor 2 from
    // (5, 5) overshoots, and the lower probes meet nothing.
    let (map, positions) = with_one(11, 7, 7, 1);
    assert_eq!(plain(map.resolve(Coordinates(5, 5, Side::Center), &positions)), None);
}

#[test]
fn resolver_takes_the_highest_probe_that_finds() {
    let mut map = TileMap::default();
    let mut positions: Positions = HashMap::new();
    for (occupant, column, row, floor) in [(1u64, 5, 5, 0u16), (2, 6, 6, 1), (3, 7, 7, 2)] {
        map.insert(Coordinates(column, row, Side::Center), occupant);
        positions.insert(occupant, on_floor(column, row, floor));
    }
    let start = Coordinates(5, 5, Side::Center);
    assert_eq!(plain(map.resolve(start, &positions)), Some((7, 7, Side::Center, 2)));
    map.remove(Coordinates(7, 7, Side::Center), 3);
    assert_eq!(plain(map.resolve(start, &positions)), Some((6, 6, Side::Center, 1)));
    map.remove(Coordinates(6, 6, Side::Center), 2);
    assert_eq!(plain(map.resolve(start, &positions)), Some((5, 5, Side::Center, 0)));
    map.remove(Coordinates(5, 5, Side::Center), 1);
    assert_eq!(plain(map.resolve(start, &positions)), None);
}

#[test]
fn resolver_corrects_at_a_higher_probe() {
    // Under (6, 6) the topmost is on floor 3, above the probe of floor 1.
    let (map, positions) = with_one(11, 6, 6, 3);
    let left = map.resolve(Coordinates(5, 5, Side::Left), &positions);
    assert_eq!(plain(left), Some((6, 9, Side::Left, 1)));
    let right = map.resolve(Coordinates(5, 5, Side::Right), &positions);
    assert_eq!(plain(right), Some((9, 6, Side::Right, 1)));
}

#[test]
fn resolver_finds_nothing_on_an_empty_map() {
    let map = TileMap::default();
    let positions: Positions = HashMap::new();
    assert_eq!(plain(map.resolve(Coordinates(5, 5, Side::Center), &positions)), None);
}

#[test]
fn resolver_passes_over_occupants_that_are_not_placed() {
    let (map, _) = with_one(11, 5, 5, 0);
    let nowhere: Positions = HashMap::new();
    assert_eq!(plain(map.resolve(Coordinates(5, 5, Side::Center), &nowhere)), None);
}

#[test]
fn resolver_never_looks_off_the_map() {
    let mut map = TileMap::default();
    let mut positions: Positions = HashMap::new();
    for (occupant, column, row) in [(1u64, 11, 11), (2, 12, 12), (3, 13, 13), (4, -1, -1), (5, 11, 5)] {
        map.insert(Coordinates(column, row, Side::Center), occupant);
        positions.insert(occupant, on_floor(column, row, 0));
    }
    assert_eq!(plain(map.resolve(Coordinates(11, 11, Side::Center), &positions)), None);
    assert_eq!(plain(map.resolve(Coordinates(-1, -1, Side::Center), &positions)), None);
    assert_eq!(plain(map.resolve(Coordinates(9, 3, Side::Center), &positions)), None);
    assert_eq!(plain(map.resolve(Coordinates(i32::MAX, i32::MAX, Side::Left), &positions)), None);
    assert_eq!(plain(map.resolve(Coordinates(i32::MIN, i32::MIN, Side::Right), &positions)), None);
}

#[test]
fn resolver_from_off_the_map_onto_it() {
    // (-2, -2) is off the map, the cell two columns and two rows on is not.
    let (map, positions) = with_one(11, 0, 0, 2);
    let found = map.resolve(Coordinates(-2, -2, Side::Center), &positions);
    assert_eq!(plain(found), Some((0, 0, Side::Center, 2)));
}

#[test]
fn probe_of_one_floor() {
    let (map, positions) = with_one(11, 7, 7, 2);
    let start = Coordinates(5, 5, Side::Left);
    assert_eq!(plain(map.probe(start, 2, &positions)), Some((7, 7, Side::Left, 2)));
    assert_eq!(plain(map.probe(start, 1, &positions)), None);
    assert_eq!(plain(map.probe(start, 0, &positions)), None);
    assert_eq!(plain(map.probe(Coordinates(7, 7, Side::Left), 0, &positions)), Some((7, 9, Side::Left, 0)));
    assert_eq!(plain(map.probe(Coordinates(6, 6, Side::Right), 1, &positions)), Some((9, 7, Side::Right, 1)));
    assert_eq!(plain(map.probe(Coordinates(4, 4, Side::Right), 3, &positions)), None);
    assert_eq!(plain(map.probe(Coordinates(i32::MAX, 0, Side::Right), u16::MAX, &positions)), None);
}

#[test]
fn correction_with_the_highest_floor_there_is() {
    let (map, positions) = with_one(u16::MAX, 65534, 65534, u16::MAX);
    let left = map.resolve(Coordinates(65534, 65534, Side::Left), &positions);
    assert_eq!(plain(left), Some((65534, 65534 + 65535, Side::Left, 0)));
    let right = map.resolve(Coordinates(65532, 65532, Side::Right), &positions);
    assert_eq!(plain(right), Some((65534 + 65535, 65534, Side::Right, 2)));
}
