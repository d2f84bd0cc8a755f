use std::collections::hash_map::DefaultHasher;
use std::hash::{Hash, Hasher};
use tactical_roguelike::map::{
    Coordinates, Cursor, Displacement, Floor, HoverCursor, Order, Position, Rect, SelectCursor, Side,
};

fn hash_of(coordinates: Coordinates) -> u64 {
    let mut hasher = DefaultHasher::new();
    coordinates.hash(&mut hasher);
    hasher.finish()
}

#[test]
fn defaults() {
    assert_eq!(Side::default(), Side::Center);
    assert_eq!(Floor::default(), Floor(0));
    assert_eq!(Order::default(), Order(0));
    let coordinates = Coordinates::default();
    assert_eq!((coordinates.0, coordinates.1, coordinates.2), (0, 0, Side::Center));
    let position = Position::default();
    assert_eq!(
        (position.coordinates.0, position.coordinates.1, position.coordinates.2),
        (0, 0, Side::Center)
    );
    assert_eq!(position.floor, Floor(0));
    assert_eq!(position.order, Order(0));
}

#[test]
fn coordinates_are_equal_whatever_the_side() {
    assert!(Coordinates(3, 4, Side::Left) == Coordinates(3, 4, Side::Right));
    assert!(Coordinates(3, 4, Side::Center) == Coordinates(3, 4, Side::Center));
    assert!(Coordinates(3, 4, Side::Left) != Coordinates(4, 3, Side::Left));
    assert!(Coordinates(3, 4, Side::Left) != Coordinates(3, 5, Side::Left));
    assert!(Coordinates(3, 4, Side::Left) != Coordinates(2, 4, Side::Left));
}

#[test]
fn coordinates_hash_alike_whatever_the_side() {
    assert_eq!(hash_of(Coordinates(3, 4, Side::Left)), hash_of(Coordinates(3, 4, Side::Right)));
    assert_eq!(hash_of(Coordinates(-1, 7, Side::Center)), hash_of(Coordinates(-1, 7, Side::Left)));
    assert_ne!(hash_of(Coordinates(3, 4, Side::Left)), hash_of(Coordinates(4, 3, Side::Left)));
}

#[test]
fn floor_shifts_column_and_row_and_keeps_the_side() {
    let up = Coordinates(3, 4, Side::Left) + Floor(2);
    assert_eq!((up.0, up.1, up.2), (5, 6, Side::Left));
    let down = Coordinates(3, 4, Side::Right) - Floor(5);
    assert_eq!((down.0, down.1, down.2), (-2, -1, Side::Right));
    let same = Coordinates(3, 4, Side::Center) + Floor(0);
    assert_eq!((same.0, same.1, same.2), (3, 4, Side::Center));
}

#[test]
fn floor_shift_and_back() {
    for side in [Side::Left, Side::Center, Side::Right] {
        for floor in [0u16, 1, 2, 7, u16::MAX] {
            for (column, row) in [(0, 0), (5, -5), (i32::MIN, 17), (i32::MAX - 65535, i32::MIN)] {
                let cell = Coordinates(column, row, side);
                let back = (cell + Floor(floor)) - Floor(floor);
                assert_eq!((back.0, back.1, back.2), (column, row, side));
            }
            for (column, row) in [(0, 0), (5, -5), (i32::MAX, 17), (i32::MIN + 65535, i32::MAX)] {
                let cell = Coordinates(column, row, side);
                let back = (cell - Floor(floor)) + Floor(floor);
                assert_eq!((back.0, back.1, back.2), (column, row, side));
            }
        }
    }
}

#[test]
fn displacement_between_cells() {
    assert_eq!(Coordinates(3, 4, Side::Left) - Coordinates(1, 6, Side::Right), Displacement(2, -2));
    assert_eq!(Coordinates(0, 0, Side::Center) - Coordinates(0, 0, Side::Left), Displacement(0, 0));
    assert_eq!(
        Coordinates(i32::MAX, i32::MIN, Side::Center) - Coordinates(i32::MIN, i32::MAX, Side::Center),
        Displacement(4294967295, -4294967295)
    );
}

#[test]
fn floors_are_ordered_by_their_level() {
    assert!(Floor(0) < Floor(1));
    assert!(Floor(2) > Floor(1));
    assert!(Floor(2) >= Floor(2));
    assert_eq!(Floor(1).max(Floor(2)), Floor(2));
}

#[test]
fn ground_takes_the_floor_away() {
    let position =
        Position { coordinates: Coordinates(10, 10, Side::Left), floor: Floor(2), order: Order(0) };
    assert_eq!(position.ground(), (8, 8));
    let ground = Position { coordinates: Coordinates(3, 4, Side::Left), floor: Floor(0), order: Order(9) };
    assert_eq!(ground.ground(), (3, 4));
    let low = Position {
        coordinates: Coordinates(i32::MIN, 0, Side::Center),
        floor: Floor(u16::MAX),
        order: Order(0),
    };
    assert_eq!(low.ground(), (i32::MIN as i64 - 65535, -65535));
}

#[test]
fn the_two_cursors_differ_in_sprite_and_rectangle() {
    let hover = HoverCursor::new();
    assert_eq!(hover.data().index, 0);
    assert_eq!(hover.data().rect, Rect { min_x: 0, min_y: 16, max_x: 16, max_y: 25 });
    let select = SelectCursor::new();
    assert_eq!(select.data().index, 1);
    assert_eq!(select.data().rect, Rect { min_x: 16, min_y: 16, max_x: 32, max_y: 25 });
}
