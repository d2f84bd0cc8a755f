use std::collections::HashMap;
use tactical_roguelike::map::{
    Coordinates, Floor, Order, Position, Positions, Side, TileMap, Translation,
};
use tactical_roguelike::unit::{
    interpolate, movement, moving, Movement, Progress, SelectedUnit, Turn, MICROS_PER_MILLI, SPEED,
};

fn at(column: i32, row: i32, floor: u16, order: i32) -> Position {
    Position { coordinates: Coordinates(column, row, Side::Center), floor: Floor(floor), order: Order(order) }
}

fn plain(position: &Position) -> (i32, i32, u16, i32) {
    (position.coordinates.0, position.coordinates.1, position.floor.0, position.order.0)
}

#[test]
fn speed_is_a_fifth_of_a_second_a_step() {
    assert_eq!(SPEED, 200);
    assert_eq!(MICROS_PER_MILLI, 1000);
}

#[test]
fn plan_takes_the_manhattan_distance_times_the_speed() {
    let planned = Movement::plan(&at(0, 0, 0, 2), at(3, 4, 0, 2));
    // Seven steps of SPEED / 1000 seconds each: 1.4 seconds.
    assert_eq!(planned.total_time, 7 * SPEED * 1000);
    assert_eq!(planned.total_time, 1_400_000);
    assert_eq!(planned.time_passed, 0);
    assert_eq!(plain(&planned.position), (3, 4, 0, 2));
}

#[test]
fn plan_counts_steps_in_either_direction() {
    assert_eq!(Movement::plan(&at(3, 4, 0, 0), at(0, 0, 0, 0)).total_time, 1_400_000);
    assert_eq!(Movement::plan(&at(-2, 5, 0, 0), at(1, 3, 0, 0)).total_time, 1_000_000);
    assert_eq!(Movement::plan(&at(1, 1, 0, 0), at(1, 9, 0, 0)).total_time, 1_600_000);
}

#[test]
fn plan_takes_no_time_for_floors() {
    let planned = Movement::plan(&at(2, 2, 0, 0), at(2, 2, 2, 5));
    assert_eq!(planned.total_time, 0);
    assert_eq!(plain(&planned.position), (2, 2, 2, 5));
}

#[test]
fn plan_across_the_whole_range() {
    let planned = Movement::plan(&at(i32::MIN, i32::MAX, 0, 0), at(i32::MAX, i32::MIN, 0, 0));
    assert_eq!(planned.total_time, 2 * 4_294_967_295 * 200_000);
}

#[test]
fn advance_completes_when_the_time_has_passed() {
    let mut planned = Movement::plan(&at(0, 0, 0, 0), at(3, 4, 0, 0));
    assert!(!planned.advance(400_000));
    assert_eq!(planned.time_passed, 400_000);
    assert!(!planned.advance(500_000));
    assert!(planned.advance(500_000));
    assert_eq!(planned.time_passed, 1_400_000);
    assert_eq!(planned.total_time, 1_400_000);
    assert_eq!(plain(&planned.position), (3, 4, 0, 0));
}

#[test]
fn advance_however_the_time_is_cut() {
    for steps in [vec![1_400_000u64], vec![700_000, 700_000], vec![1, 1_399_998, 1], vec![0, 0, 1_400_000]] {
        let mut planned = Movement::plan(&at(0, 0, 0, 0), at(3, 4, 0, 0));
        let last = steps.len() - 1;
        for (i, dt) in steps.iter().enumerate() {
            assert_eq!(planned.advance(*dt), i == last);
        }
    }
}

#[test]
fn advance_one_short_is_not_complete() {
    let mut planned = Movement::plan(&at(0, 0, 0, 0), at(3, 4, 0, 0));
    assert!(!planned.advance(1_399_999));
    assert!(planned.advance(1));
    assert!(planned.advance(0));
}

#[test]
fn a_move_that_takes_no_time_completes_at_once() {
    let mut planned = Movement::plan(&at(2, 2, 0, 0), at(2, 2, 0, 0));
    assert_eq!(planned.total_time, 0);
    assert!(planned.advance(0));
    let mut again = Movement::plan(&at(2, 2, 0, 0), at(2, 2, 0, 0));
    assert!(again.advance(16_667));
}

#[test]
fn advance_holds_the_time_to_the_range() {
    let mut long = Movement { position: at(0, 0, 0, 0), total_time: u64::MAX, time_passed: u64::MAX - 5 };
    assert!(!long.advance(4));
    assert_eq!(long.time_passed, u64::MAX - 1);
    assert!(long.advance(u64::MAX));
    assert_eq!(long.time_passed, u64::MAX);
}

#[test]
fn moving_while_time_is_left() {
    let mut turn = Turn::default();
    assert!(!moving(&turn));
    turn.selected_unit = Some(SelectedUnit { entity: 1, movement: None });
    assert!(!moving(&turn));
    turn.selected_unit = Some(SelectedUnit {
        entity: 1,
        movement: Some(Movement { position: at(0, 0, 0, 0), total_time: 10, time_passed: 9 }),
    });
    assert!(moving(&turn));
    turn.selected_unit = Some(SelectedUnit {
        entity: 1,
        movement: Some(Movement { position: at(0, 0, 0, 0), total_time: 10, time_passed: 10 }),
    });
    assert!(!moving(&turn));
    turn.selected_unit = Some(SelectedUnit {
        entity: 1,
        movement: Some(Movement { position: at(0, 0, 0, 0), total_time: 0, time_passed: 0 }),
    });
    assert!(!moving(&turn));
}

#[test]
fn movement_completion_determinism() {
    let mut map = TileMap::default();
    let mut positions: Positions = HashMap::new();
    map.place(&mut positions, 1, at(0, 0, 0, 2));
    map.place(&mut positions, 2, at(0, 0, 0, 0));
    map.place(&mut positions, 3, at(3, 4, 0, 0));
    let mut turn = Turn::default();
    turn.select(1);
    assert!(turn.request_move(&positions[&1], at(3, 4, 0, 2)));
    let total = turn.selected_unit.unwrap().movement.unwrap().total_time;
    assert_eq!(total, 7 * SPEED * 1000);

    assert_eq!(movement(&mut map, &mut positions, &mut turn, 400_000), Progress::Moving);
    assert_eq!(movement(&mut map, &mut positions, &mut turn, 999_999), Progress::Moving);
    assert_eq!(turn.selected_unit.unwrap().movement.unwrap().time_passed, 1_399_999);
    assert_eq!(plain(&positions[&1]), (0, 0, 0, 2));
    assert_eq!(map.occupants_at(Coordinates(0, 0, Side::Center)), vec![1, 2]);
    assert_eq!(map.occupants_at(Coordinates(3, 4, Side::Center)), vec![3]);

    assert_eq!(movement(&mut map, &mut positions, &mut turn, 1), Progress::Arrived);
    assert_eq!(plain(&positions[&1]), (3, 4, 0, 2));
    assert_eq!(map.occupants_at(Coordinates(0, 0, Side::Center)), vec![2]);
    assert_eq!(map.occupants_at(Coordinates(3, 4, Side::Center)), vec![3, 1]);
    let selected = turn.selected_unit.unwrap();
    assert_eq!(selected.entity, 1);
    assert!(selected.movement.is_none());
    assert_eq!(positions.len(), 3);

    assert_eq!(movement(&mut map, &mut positions, &mut turn, 1), Progress::Idle);
    assert_eq!(plain(&positions[&1]), (3, 4, 0, 2));
}

#[test]
fn movement_keeps_the_order_of_the_unit() {
    let mut map = TileMap::default();
    let mut positions: Positions = HashMap::new();
    map.place(&mut positions, 1, at(0, 0, 0, 2));
    let mut turn = Turn {
        selected_unit: Some(SelectedUnit {
            entity: 1,
            movement: Some(Movement { position: at(6, 6, 1, 9), total_time: 5, time_passed: 0 }),
        }),
    };
    assert_eq!(movement(&mut map, &mut positions, &mut turn, 5), Progress::Arrived);
    assert_eq!(plain(&positions[&1]), (6, 6, 1, 2));
    assert_eq!(map.occupants_at(Coordinates(5, 5, Side::Center)), vec![1]);
    assert_eq!(map.occupants_at(Coordinates(0, 0, Side::Center)), Vec::<u64>::new());
}

#[test]
fn movement_that_takes_no_time_arrives_on_the_first_tick() {
    let mut map = TileMap::default();
    let mut positions: Positions = HashMap::new();
    map.place(&mut positions, 1, at(2, 2, 0, 0));
    let mut turn = Turn::default();
    turn.select(1);
    assert!(turn.request_move(&positions[&1], at(2, 2, 0, 0)));
    assert_eq!(movement(&mut map, &mut positions, &mut turn, 0), Progress::Arrived);
    assert_eq!(map.occupants_at(Coordinates(2, 2, Side::Center)), vec![1]);
}

#[test]
fn movement_is_idle_without_a_move() {
    let mut map = TileMap::default();
    let mut positions: Positions = HashMap::new();
    map.place(&mut positions, 1, at(2, 2, 0, 0));
    let mut turn = Turn::default();
    assert_eq!(movement(&mut map, &mut positions, &mut turn, 100), Progress::Idle);
    turn.select(1);
    assert_eq!(movement(&mut map, &mut positions, &mut turn, 100), Progress::Idle);
    assert_eq!(map.occupants_at(Coordinates(2, 2, Side::Center)), vec![1]);
    assert_eq!(turn.selected_unit.unwrap().entity, 1);
}

#[test]
fn movement_is_idle_for_a_unit_that_is_not_placed() {
    let mut map = TileMap::default();
    let mut positions: Positions = HashMap::new();
    let mut turn = Turn {
        selected_unit: Some(SelectedUnit {
            entity: 1,
            movement: Some(Movement { position: at(6, 6, 0, 0), total_time: 5, time_passed: 0 }),
        }),
    };
    assert_eq!(movement(&mut map, &mut positions, &mut turn, 10), Progress::Idle);
    assert!(positions.is_empty());
    assert_eq!(map.occupants_at(Coordinates(6, 6, Side::Center)), Vec::<u64>::new());
    let kept = turn.selected_unit.unwrap().movement.unwrap();
    assert_eq!((kept.total_time, kept.time_passed), (5, 0));
}

#[test]
fn interpolate_goes_along_the_line_with_the_time() {
    let map = TileMap::default();
    let from = at(0, 0, 0, 2);
    // From (0, 748, 8) to (-128, 272, 15).
    let mut under_way = Movement::plan(&from, at(3, 4, 0, 2));
    assert_eq!(interpolate(&map, &from, &under_way), Translation { x: 0, y: 748, z: 8 });
    under_way.time_passed = 700_000;
    assert_eq!(interpolate(&map, &from, &under_way), Translation { x: -64, y: 510, z: 11 });
    under_way.time_passed = 350_000;
    assert_eq!(interpolate(&map, &from, &under_way), Translation { x: -32, y: 629, z: 9 });
    under_way.time_passed = 1_399_999;
    assert_eq!(interpolate(&map, &from, &under_way), Translation { x: -128, y: 272, z: 14 });
}

#[test]
fn interpolate_is_at_the_target_once_the_time_has_passed() {
    let map = TileMap::default();
    let from = at(0, 0, 0, 2);
    let mut under_way = Movement::plan(&from, at(3, 4, 0, 2));
    under_way.time_passed = 1_400_000;
    assert_eq!(interpolate(&map, &from, &under_way), Translation { x: -128, y: 272, z: 15 });
    under_way.time_passed = u64::MAX;
    assert_eq!(interpolate(&map, &from, &under_way), Translation { x: -128, y: 272, z: 15 });
    let at_once = Movement::plan(&from, at(0, 0, 2, 2));
    assert_eq!(at_once.total_time, 0);
    assert_eq!(interpolate(&map, &from, &at_once), map.position_to_translation(&at(0, 0, 2, 2)));
}

#[test]
fn interpolate_rounds_down() {
    let map = TileMap::default();
    let from = at(3, 4, 0, 0);
    // From (-128, 272, 7) to (0, 748, 0): x and y rise, the depth falls.
    let under_way = Movement { position: at(0, 0, 0, 0), total_time: 3, time_passed: 1 };
    assert_eq!(interpolate(&map, &from, &under_way), Translation { x: -86, y: 430, z: 4 });
    let under_way = Movement { position: at(0, 0, 0, 0), total_time: 3, time_passed: 2 };
    assert_eq!(interpolate(&map, &from, &under_way), Translation { x: -43, y: 589, z: 2 });
}

#[test]
fn interpolate_across_the_whole_range() {
    let map = TileMap::new(u16::MAX, u16::MAX, u16::MAX, u16::MAX, u8::MAX);
    let from = Position {
        coordinates: Coordinates(i32::MIN, i32::MAX, Side::Center),
        floor: Floor(u16::MAX),
        order: Order(i32::MIN),
    };
    let to = Position {
        coordinates: Coordinates(i32::MAX, i32::MIN, Side::Center),
        floor: Floor(0),
        order: Order(i32::MAX),
    };
    let start = map.position_to_translation(&from);
    let end = map.position_to_translation(&to);
    let under_way = Movement { position: to, total_time: u64::MAX, time_passed: u64::MAX - 1 };
    let nearly = interpolate(&map, &from, &under_way);
    assert_eq!(nearly.x, end.x - 1);
    assert_eq!(nearly.y, end.y);
    assert_eq!(nearly.z, end.z - 1);
    let under_way = Movement { position: to, total_time: u64::MAX, time_passed: 0 };
    assert_eq!(interpolate(&map, &from, &under_way), start);
}
