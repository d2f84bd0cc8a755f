//! The map: its size, its tile size, and the transform between world points
//! and cells.
//!
//! World points are fixed-point: one unit of a [`Point`] is a quarter of a
//! world unit, which is the finest step the isometric projection of a cell
//! can land on. All geometry is exact integer arithmetic.

use super::components::{Coordinates, Position, Side};
use super::{MAP_SIZE, SCALE_FACTOR, TILE_SIZE};
use std::collections::HashMap;
use vstd::arithmetic::div_mod::{lemma_fundamental_div_mod, lemma_fundamental_div_mod_converse};
use vstd::prelude::*;

verus! {

/// A world-space point, in quarters of a world unit.
#[derive(Copy, Clone, PartialEq, Eq, Structural, Debug)]
pub struct Point {
    pub x: i64,
    pub y: i64,
}

/// Where to draw an occupant: `x` and `y` in quarters of a world unit, the
/// depth `z` in twentieths.
#[derive(Copy, Clone, PartialEq, Eq, Structural, Debug)]
pub struct Translation {
    pub x: i64,
    pub y: i64,
    pub z: i64,
}

/// The least integer `q` with `q * d >= n`, for a positive `d`.
pub open spec fn ceil_div(n: int, d: int) -> int {
    (n + d - 1) / d
}

/// `v`, held to the range of `i32`.
pub open spec fn saturate(v: int) -> int {
    if v < i32::MIN {
        i32::MIN as int
    } else if v > i32::MAX {
        i32::MAX as int
    } else {
        v
    }
}

/// The half of a cell that the exact column `n / d` falls into, once it was
/// rounded to the cell `cell`: the right half when the rounding added at most
/// one half, the left half otherwise.
pub open spec fn side_of(n: int, d: int, cell: int) -> Side {
    if 0 <= 2 * (cell * d - n) <= d {
        Side::Right
    } else {
        Side::Left
    }
}

/// `ceil_div(n, d)` is the least integer whose product with `d` reaches `n`.
pub proof fn lemma_ceil_div_is_least(n: int, d: int)
    requires
        d > 0,
    ensures
        ceil_div(n, d) * d >= n,
        (ceil_div(n, d) - 1) * d < n,
{
    let m = n + d - 1;
    lemma_fundamental_div_mod(m, d);
    assert((m / d) * d == d * (m / d)) by (nonlinear_arith);
    assert((m / d - 1) * d == d * (m / d) - d) by (nonlinear_arith);
}

/// The integer whose product with `d` reaches `n`, while the one before it
/// does not, is `ceil_div(n, d)`.
pub proof fn lemma_ceil_div_unique(n: int, d: int, q: int)
    requires
        d > 0,
        q * d >= n,
        (q - 1) * d < n,
    ensures
        q == ceil_div(n, d),
{
    lemma_ceil_div_is_least(n, d);
    let c = ceil_div(n, d);
    assert(q == c) by (nonlinear_arith)
        requires
            d > 0,
            q * d >= n,
            (q - 1) * d < n,
            c * d >= n,
            (c - 1) * d < n,
    ;
}

/// The quotient of `n` by a positive `d`, rounded up.
fn ceiling(n: i128, d: u64) -> (q: i128)
    requires
        d > 0,
        -0x1_0000_0000_0000_0000_0000_0000 <= n <= 0x1_0000_0000_0000_0000_0000_0000,
    ensures
        q == ceil_div(n as int, d as int),
{
    let wide: u128 = d as u128;
    if n >= 0 {
        let m: u128 = n as u128;
        let q: u128 = m / wide;
        let r: u128 = m % wide;
        proof {
            lemma_fundamental_div_mod(m as int, d as int);
            assert(d * q == q * d) by (nonlinear_arith);
            assert((q + 1) * d == q * d + d) by (nonlinear_arith);
            if r == 0 {
                lemma_fundamental_div_mod_converse(n + d - 1, d as int, q as int, d - 1);
            } else {
                lemma_fundamental_div_mod_converse(n + d - 1, d as int, q + 1, r - 1);
            }
        }
        if r == 0 {
            q as i128
        } else {
            (q + 1) as i128
        }
    } else {
        let m: u128 = (-n) as u128;
        let q: u128 = m / wide;
        proof {
            let r = (m % wide) as int;
            lemma_fundamental_div_mod(m as int, d as int);
            assert(d * q == q * d) by (nonlinear_arith);
            assert((-(q as int)) * d == -(q * d)) by (nonlinear_arith);
            lemma_fundamental_div_mod_converse(n + d - 1, d as int, -(q as int), d - 1 - r);
        }
        -(q as i128)
    }
}

/// The quotient of `n` by a positive `d`, rounded down.
pub(crate) fn floor_div(n: i128, d: u64) -> (q: i128)
    requires
        d > 0,
        -0x4000_0000_0000_0000_0000_0000_0000_0000 <= n <= 0x4000_0000_0000_0000_0000_0000_0000_0000,
    ensures
        q == n as int / d as int,
{
    let wide: u128 = d as u128;
    if n >= 0 {
        let m: u128 = n as u128;
        (m / wide) as i128
    } else {
        let m: u128 = (-n) as u128;
        let q: u128 = m / wide;
        let r: u128 = m % wide;
        proof {
            lemma_fundamental_div_mod(m as int, d as int);
            assert(d * q == q * d) by (nonlinear_arith);
            if r == 0 {
                assert((-(q as int)) * d == -(q * d)) by (nonlinear_arith);
                lemma_fundamental_div_mod_converse(n as int, d as int, -(q as int), 0);
            } else {
                assert((-(q as int) - 1) * d == -(q * d) - d) by (nonlinear_arith);
                lemma_fundamental_div_mod_converse(n as int, d as int, -(q as int) - 1, d - r);
            }
        }
        if r == 0 {
            -(q as i128)
        } else {
            -(q as i128) - 1
        }
    }
}

/// `v`, held to the range of `i32`.
fn clamp(v: i128) -> (held: i32)
    ensures
        held == saturate(v as int),
{
    if v < i32::MIN as i128 {
        i32::MIN
    } else if v > i32::MAX as i128 {
        i32::MAX
    } else {
        v as i32
    }
}

/// The widest and the tallest a tile can be, in world units.
pub const MAX_TILE: u32 = 0xFF_FFFF;

/// The measures of a map: its size in cells and the size of a drawn tile in
/// world units.
#[derive(Copy, Clone)]
pub(crate) struct Grid {
    pub(crate) columns: u16,
    pub(crate) rows: u16,
    pub(crate) tile_width: u32,
    pub(crate) tile_height: u32,
}

impl Grid {
    #[verifier::type_invariant]
    pub(crate) closed spec fn wf(&self) -> bool {
        &&& 0 < self.tile_width <= MAX_TILE
        &&& 0 < self.tile_height <= MAX_TILE
    }
}

/// The map: a grid of `columns` by `rows` cells, drawn with tiles of a fixed
/// size, and the index of what stands on each cell.
pub struct TileMap {
    pub(crate) grid: Grid,
    pub(crate) tiles: HashMap<u128, Vec<u64>>,
}

impl TileMap {
    /// A tile has a width and a height, so that the isometric basis can be
    /// inverted. This holds of every map that the library hands out.
    pub closed spec fn wf(&self) -> bool {
        self.grid.wf()
    }

    /// Whether two maps have the same size and the same tiles; they may
    /// differ in their occupants.
    pub open spec fn same_grid(&self, other: &TileMap) -> bool {
        &&& self.wf() == other.wf()
        &&& self.columns() == other.columns()
        &&& self.rows() == other.rows()
        &&& self.tile_width() == other.tile_width()
        &&& self.tile_height() == other.tile_height()
    }

    /// A map has the same grid as itself.
    pub(crate) proof fn lemma_same_grid_reflexive(&self)
        ensures
            self.same_grid(self),
    {
    }

    /// Maps with the same measures have the same grid.
    pub(crate) proof fn lemma_same_grid(&self, other: &TileMap)
        requires
            self.grid == other.grid,
        ensures
            self.same_grid(other),
    {
    }

    /// The number of columns.
    pub closed spec fn columns(&self) -> int {
        self.grid.columns as int
    }

    /// The number of rows.
    pub closed spec fn rows(&self) -> int {
        self.grid.rows as int
    }

    /// The width of a drawn tile, in world units.
    pub closed spec fn tile_width(&self) -> int {
        self.grid.tile_width as int
    }

    /// The height of a drawn tile, in world units.
    pub closed spec fn tile_height(&self) -> int {
        self.grid.tile_height as int
    }

    /// A map of `columns` by `rows` cells without occupants, whose tiles are
    /// drawn `scale_factor` times as large as `tile_width` by `tile_height`.
    pub fn new(columns: u16, rows: u16, tile_width: u16, tile_height: u16, scale_factor: u8) -> (map:
        TileMap)
        requires
            tile_width > 0,
            tile_height > 0,
            scale_factor > 0,
        ensures
            map.wf(),
            map.columns() == columns,
            map.rows() == rows,
            map.tile_width() == tile_width * scale_factor,
            map.tile_height() == tile_height * scale_factor,
            forall|column: int, row: int|
                #[trigger] map.occupants(column, row) == Seq::<u64>::empty(),
    {
        assert(0 < tile_width * scale_factor <= MAX_TILE) by (nonlinear_arith)
            requires
                0 < tile_width <= 0xFFFF,
                0 < scale_factor <= 0xFF,
        ;
        assert(0 < tile_height * scale_factor <= MAX_TILE) by (nonlinear_arith)
            requires
                0 < tile_height <= 0xFFFF,
                0 < scale_factor <= 0xFF,
        ;
        let map = TileMap {
            grid: Grid {
                columns,
                rows,
                tile_width: tile_width as u32 * scale_factor as u32,
                tile_height: tile_height as u32 * scale_factor as u32,
            },
            tiles: HashMap::new(),
        };
        proof {
            map.lemma_empty_index();
        }
        map
    }

    /// Every map in use is well formed.
    pub(crate) fn valid(&self)
        ensures
            self.wf(),
    {
        proof {
            use_type_invariant(&self.grid);
        }
    }

    /// Columns and rows.
    pub fn size(&self) -> (size: (u16, u16))
        ensures
            size.0 == self.columns(),
            size.1 == self.rows(),
    {
        (self.grid.columns, self.grid.rows)
    }

    /// Width and height of a drawn tile, in world units.
    pub fn tile_size(&self) -> (tile_size: (u32, u32))
        ensures
            tile_size.0 == self.tile_width(),
            tile_size.1 == self.tile_height(),
            0 < tile_size.0 <= MAX_TILE,
            0 < tile_size.1 <= MAX_TILE,
    {
        proof {
            use_type_invariant(&self.grid);
        }
        (self.grid.tile_width, self.grid.tile_height)
    }

    /// Whether the map has a cell in this column and this row.
    pub open spec fn holds(&self, column: int, row: int) -> bool {
        0 <= column < self.columns() && 0 <= row < self.rows()
    }

    /// Whether the cell lies on the map.
    pub open spec fn spec_in_bounds(&self, coordinates: Coordinates) -> bool {
        self.holds(coordinates.0 as int, coordinates.1 as int)
    }

    /// Whether the cell lies on the map.
    pub fn in_bounds(&self, coordinates: Coordinates) -> (inside: bool)
        ensures
            inside == self.spec_in_bounds(coordinates),
    {
        coordinates.0 >= 0 && coordinates.0 < self.grid.columns as i32 && coordinates.1 >= 0
            && coordinates.1 < self.grid.rows as i32
    }

    /// The cell of the tile with the given index, counting row by row. On a
    /// map without columns the quotient that gives the row has no value: the
    /// row is then 0 for index 0 and the largest row there is otherwise. A
    /// row beyond the range of `i32` is held to it.
    pub open spec fn spec_index_to_coordinates(&self, index: usize) -> Coordinates {
        if self.columns() == 0 {
            Coordinates(0, if index == 0 { 0 } else { i32::MAX }, Side::Center)
        } else {
            Coordinates(
                (index as int % self.columns()) as i32,
                saturate(index as int / self.columns()) as i32,
                Side::Center,
            )
        }
    }

    /// The cell of the tile with the given index, counting row by row.
    pub fn index_to_coordinates(&self, index: usize) -> (coordinates: Coordinates)
        ensures
            coordinates == self.spec_index_to_coordinates(index),
    {
        if self.grid.columns == 0 {
            Coordinates(0, if index == 0 { 0 } else { i32::MAX }, Side::Center)
        } else {
            let columns: usize = self.grid.columns as usize;
            let row: usize = index / columns;
            Coordinates(
                (index % columns) as i32,
                if row > i32::MAX as usize { i32::MAX } else { row as i32 },
                Side::Center,
            )
        }
    }

    /// The horizontal place of a cell's anchor, in quarters of a world unit:
    /// half a tile to the right for each column, half a tile to the left for
    /// each row.
    pub open spec fn project_x(&self, column: int, row: int) -> int {
        2 * (column - row) * self.tile_width()
    }

    /// The vertical place of a cell's anchor, in quarters of a world unit: a
    /// quarter of a tile down for each column and each row, from a quarter
    /// of a tile times the number of rows.
    pub open spec fn project_y(&self, column: int, row: int) -> int {
        self.tile_height() * (self.rows() - column - row)
    }

    /// The anchor of a cell on the ground.
    pub open spec fn spec_coordinates_to_point(&self, coordinates: Coordinates) -> Point {
        Point {
            x: self.project_x(coordinates.0 as int, coordinates.1 as int) as i64,
            y: self.project_y(coordinates.0 as int, coordinates.1 as int) as i64,
        }
    }

    /// The anchor of a cell on the ground.
    pub fn coordinates_to_point(&self, coordinates: Coordinates) -> (point: Point)
        ensures
            point == self.spec_coordinates_to_point(coordinates),
            point.x == self.project_x(coordinates.0 as int, coordinates.1 as int),
            point.y == self.project_y(coordinates.0 as int, coordinates.1 as int),
    {
        let (x, y) = self.project(coordinates.0 as i64, coordinates.1 as i64);
        Point { x, y }
    }

    /// The anchor of every cell whose column and row are within reach of an
    /// `i32` by a floor lies well within the range of a point.
    pub proof fn lemma_projection_bounds(&self, column: int, row: int)
        requires
            self.wf(),
            i32::MIN - u16::MAX <= column <= i32::MAX,
            i32::MIN - u16::MAX <= row <= i32::MAX,
            i32::MIN - i32::MAX <= column - row <= i32::MAX - i32::MIN,
        ensures
            -0x200_0000_0000_0000 <= self.project_x(column, row) <= 0x200_0000_0000_0000,
            -0x400_0000_0000_0000 <= self.project_y(column, row) <= 0x400_0000_0000_0000,
    {
        let tw = self.tile_width();
        let th = self.tile_height();
        let across = column - row;
        let down = self.rows() - column - row;
        assert(-0x100_0000_0000_0000 <= across * tw <= 0x100_0000_0000_0000) by (nonlinear_arith)
            requires
                -0x1_0000_0000 <= across <= 0x1_0000_0000,
                0 < tw <= 0xFF_FFFF,
        ;
        assert(-0x400_0000_0000_0000 <= th * down <= 0x400_0000_0000_0000) by (nonlinear_arith)
            requires
                -0x4_0000_0000 <= down <= 0x4_0000_0000,
                0 < th <= 0xFF_FFFF,
        ;
        assert(2 * (column - row) * tw == 2 * (across * tw)) by (nonlinear_arith)
            requires
                across == column - row,
        ;
    }

    /// The anchor of the cell in `column` and `row`.
    fn project(&self, column: i64, row: i64) -> (point: (i64, i64))
        requires
            i32::MIN - u16::MAX <= column <= i32::MAX,
            i32::MIN - u16::MAX <= row <= i32::MAX,
            i32::MIN - i32::MAX <= column - row <= i32::MAX - i32::MIN,
        ensures
            point.0 == self.project_x(column as int, row as int),
            point.1 == self.project_y(column as int, row as int),
    {
        proof {
            use_type_invariant(&self.grid);
            self.lemma_projection_bounds(column as int, row as int);
        }
        let tw: i64 = self.grid.tile_width as i64;
        let th: i64 = self.grid.tile_height as i64;
        let across: i64 = column - row;
        let down: i64 = self.grid.rows as i64 - column - row;
        assert(-0x100_0000_0000_0000 <= across * tw <= 0x100_0000_0000_0000) by (nonlinear_arith)
            requires
                -0x1_0000_0000 <= across <= 0x1_0000_0000,
                0 < tw <= 0xFF_FFFF,
        ;
        assert(2 * (column - row) * self.tile_width() == 2 * (across * tw)) by (nonlinear_arith)
            requires
                across == column - row,
                tw == self.tile_width(),
        ;
        (2 * (across * tw), th * down)
    }

    /// The drawing depth of a position, in twentieths: a fifth for each unit
    /// of its order, a twentieth for each column and each row of its ground
    /// footprint, a half for each floor.
    pub open spec fn depth(position: Position) -> int {
        4 * position.order.0 + (position.coordinates.0 - position.floor.0) + (
        position.coordinates.1 - position.floor.0) + 10 * position.floor.0
    }

    /// Where an occupant is drawn: the anchor of its ground footprint, and
    /// its depth.
    pub open spec fn spec_position_to_translation(&self, position: Position) -> Translation {
        let column = position.coordinates.0 - position.floor.0;
        let row = position.coordinates.1 - position.floor.0;
        Translation {
            x: self.project_x(column, row) as i64,
            y: self.project_y(column, row) as i64,
            z: Self::depth(position) as i64,
        }
    }

    /// Where an occupant at `position` is drawn.
    pub fn position_to_translation(&self, position: &Position) -> (translation: Translation)
        ensures
            translation == self.spec_position_to_translation(*position),
            translation.x == self.project_x(
                position.coordinates.0 - position.floor.0,
                position.coordinates.1 - position.floor.0,
            ),
            translation.y == self.project_y(
                position.coordinates.0 - position.floor.0,
                position.coordinates.1 - position.floor.0,
            ),
            translation.z == Self::depth(*position),
    {
        let floor: i64 = position.floor.0 as i64;
        let column: i64 = position.coordinates.0 as i64 - floor;
        let row: i64 = position.coordinates.1 as i64 - floor;
        let (x, y) = self.project(column, row);
        let z: i64 = 4 * position.order.0 as i64 + column + row + 10 * floor;
        Translation { x, y, z }
    }

    /// Where a cursor on an occupant is drawn: as the occupant, but half a
    /// tile further right for each floor.
    pub open spec fn spec_position_to_translation_cursor(&self, position: Position) -> Translation {
        let column = position.coordinates.0 - position.floor.0;
        let row = position.coordinates.1 - position.floor.0;
        Translation {
            x: (self.project_x(column, row) + 2 * self.tile_width() * position.floor.0) as i64,
            y: self.project_y(column, row) as i64,
            z: Self::depth(position) as i64,
        }
    }

    /// Where a cursor on an occupant at `position` is drawn.
    pub fn position_to_translation_cursor(&self, position: &Position) -> (translation: Translation)
        ensures
            translation == self.spec_position_to_translation_cursor(*position),
            translation.x == self.project_x(
                position.coordinates.0 - position.floor.0,
                position.coordinates.1 - position.floor.0,
            ) + 2 * self.tile_width() * position.floor.0,
            translation.y == self.project_y(
                position.coordinates.0 - position.floor.0,
                position.coordinates.1 - position.floor.0,
            ),
            translation.z == Self::depth(*position),
    {
        proof {
            use_type_invariant(&self.grid);
            self.lemma_projection_bounds(
                position.coordinates.0 - position.floor.0,
                position.coordinates.1 - position.floor.0,
            );
        }
        let on_occupant = self.position_to_translation(position);
        let tw: i64 = self.grid.tile_width as i64;
        let floor: i64 = position.floor.0 as i64;
        assert(0 <= tw * floor <= 0xFF_FFFF_0000) by (nonlinear_arith)
            requires
                0 < tw <= 0xFF_FFFF,
                0 <= floor <= 0xFFFF,
        ;
        assert(2 * self.tile_width() * position.floor.0 == 2 * (tw * floor)) by (nonlinear_arith)
            requires
                tw == self.tile_width(),
                floor == position.floor.0,
        ;
        Translation { x: on_occupant.x + 2 * (tw * floor), y: on_occupant.y, z: on_occupant.z }
    }

    /// The common denominator of the exact column and the exact row of a
    /// point.
    pub open spec fn denominator(&self) -> int {
        4 * self.tile_width() * self.tile_height()
    }

    /// The exact column of a point, times `denominator()`. With `x` and `y`
    /// in world units the exact column is
    /// `x / tile_width - 2 * y / tile_height + columns / 2`: the inverse of
    /// the isometric basis, moved by half the map.
    pub open spec fn column_numerator(&self, point: Point) -> int {
        point.x * self.tile_height() - 2 * point.y * self.tile_width() + 2 * self.columns()
            * self.tile_width() * self.tile_height()
    }

    /// The exact row of a point, times `denominator()`. With `x` and `y` in
    /// world units the exact row is
    /// `-x / tile_width - 2 * y / tile_height + rows / 2`.
    pub open spec fn row_numerator(&self, point: Point) -> int {
        -point.x * self.tile_height() - 2 * point.y * self.tile_width() + 2 * self.rows()
            * self.tile_width() * self.tile_height()
    }

    /// The cell under a point. Column and row are the exact values rounded
    /// up, never down, and held to the range of `i32`; the side tells how
    /// much the rounding added to the column.
    pub open spec fn spec_point_to_coordinates(&self, point: Point) -> Coordinates {
        let d = self.denominator();
        let column = saturate(ceil_div(self.column_numerator(point), d));
        let row = saturate(ceil_div(self.row_numerator(point), d));
        Coordinates(column as i32, row as i32, side_of(self.column_numerator(point), d, column))
    }

    /// The cell under a point: rounded up, and possibly off the map.
    pub fn point_to_coordinates(&self, point: Point) -> (coordinates: Coordinates)
        ensures
            coordinates == self.spec_point_to_coordinates(point),
    {
        proof {
            use_type_invariant(&self.grid);
        }
        let tw: i128 = self.grid.tile_width as i128;
        let th: i128 = self.grid.tile_height as i128;
        let x: i128 = point.x as i128;
        let y: i128 = point.y as i128;
        let columns: i128 = self.grid.columns as i128;
        let rows: i128 = self.grid.rows as i128;
        assert(-0x80_0000_0000_0000_0000_0000 <= x * th <= 0x80_0000_0000_0000_0000_0000)
            by (nonlinear_arith)
            requires
                -0x8000_0000_0000_0000 <= x <= 0x8000_0000_0000_0000,
                0 < th <= 0xFF_FFFF,
        ;
        assert(-0x80_0000_0000_0000_0000_0000 <= y * tw <= 0x80_0000_0000_0000_0000_0000)
            by (nonlinear_arith)
            requires
                -0x8000_0000_0000_0000 <= y <= 0x8000_0000_0000_0000,
                0 < tw <= 0xFF_FFFF,
        ;
        assert(0 < tw * th <= 0xFFFF_FFFF_FFFF) by (nonlinear_arith)
            requires
                0 < tw <= 0xFF_FFFF,
                0 < th <= 0xFF_FFFF,
        ;
        let area: i128 = tw * th;
        assert(0 <= columns * area <= 0xFFFF_FFFF_FFFF_FFFF) by (nonlinear_arith)
            requires
                0 <= columns <= 0xFFFF,
                0 < area <= 0xFFFF_FFFF_FFFF,
        ;
        assert(0 <= rows * area <= 0xFFFF_FFFF_FFFF_FFFF) by (nonlinear_arith)
            requires
                0 <= rows <= 0xFFFF,
                0 < area <= 0xFFFF_FFFF_FFFF,
        ;
        let d: u64 = (4 * area) as u64;
        let column_n: i128 = x * th - 2 * (y * tw) + 2 * (columns * area);
        let row_n: i128 = -(x * th) - 2 * (y * tw) + 2 * (rows * area);
        proof {
            assert(2 * point.y * self.tile_width() == 2 * (y * tw)) by (nonlinear_arith)
                requires
                    point.y == y,
                    self.tile_width() == tw,
            ;
            assert(2 * self.columns() * self.tile_width() * self.tile_height() == 2 * (columns
                * area)) by (nonlinear_arith)
                requires
                    self.columns() == columns,
                    area == self.tile_width() * self.tile_height(),
            ;
            assert(2 * self.rows() * self.tile_width() * self.tile_height() == 2 * (rows * area))
                by (nonlinear_arith)
                requires
                    self.rows() == rows,
                    area == self.tile_width() * self.tile_height(),
            ;
            assert(-point.x * self.tile_height() == -(x * th)) by (nonlinear_arith)
                requires
                    point.x == x,
                    self.tile_height() == th,
            ;
            assert(4 * self.tile_width() * self.tile_height() == 4 * area) by (nonlinear_arith)
                requires
                    area == self.tile_width() * self.tile_height(),
            ;
            assert(column_n == self.column_numerator(point));
            assert(row_n == self.row_numerator(point));
            assert(d == self.denominator());
        }
        let column: i32 = clamp(ceiling(column_n, d));
        let row: i32 = clamp(ceiling(row_n, d));
        assert(-0x2_0000_0000_0000_0000_0000 <= (column as i128) * (d as i128)
            <= 0x2_0000_0000_0000_0000_0000) by (nonlinear_arith)
            requires
                -0x8000_0000 <= column <= 0x8000_0000,
                0 < d <= 0x4_0000_0000_0000,
        ;
        let added: i128 = 2 * ((column as i128) * (d as i128) - column_n);
        let side = if 0 <= added && added <= d as i128 {
            Side::Right
        } else {
            Side::Left
        };
        Coordinates(column, row, side)
    }

    /// The cell under a point is never rounded down. Short of the ends of
    /// the range, the column of the cell is the exact column of the point or
    /// the next whole number above it, and so is the row.
    pub proof fn lemma_rounds_up(&self, point: Point)
        requires
            self.wf(),
        ensures
            ({
                let cell = self.spec_point_to_coordinates(point);
                let d = self.denominator();
                &&& d > 0
                &&& i32::MIN < cell.0 < i32::MAX ==> (cell.0 - 1) * d < self.column_numerator(point)
                    <= cell.0 * d
                &&& i32::MIN < cell.1 < i32::MAX ==> (cell.1 - 1) * d < self.row_numerator(point)
                    <= cell.1 * d
            }),
    {
        let d = self.denominator();
        assert(d > 0) by (nonlinear_arith)
            requires
                d == 4 * self.tile_width() * self.tile_height(),
                self.tile_width() > 0,
                self.tile_height() > 0,
        ;
        lemma_ceil_div_is_least(self.column_numerator(point), d);
        lemma_ceil_div_is_least(self.row_numerator(point), d);
    }

    /// Round trip, with its bias. The anchor of a cell on the map leads back to
    /// the row of that cell and to the right half. The column that comes back
    /// is the cell's column moved by half of `columns - rows`, rounded up: the
    /// cell's own column exactly where the map has as many rows as columns, or
    /// one row more.
    pub proof fn lemma_round_trip(&self, coordinates: Coordinates)
        requires
            self.wf(),
            self.spec_in_bounds(coordinates),
        ensures
            self.spec_point_to_coordinates(self.spec_coordinates_to_point(coordinates)) == Coordinates(
                (coordinates.0 + ceil_div(self.columns() - self.rows(), 2)) as i32,
                coordinates.1,
                Side::Right,
            ),
            0 <= self.rows() - self.columns() <= 1 ==> self.spec_point_to_coordinates(
                self.spec_coordinates_to_point(coordinates),
            ) == Coordinates(coordinates.0, coordinates.1, Side::Right),
    {
        let c = coordinates.0 as int;
        let r = coordinates.1 as int;
        let tw = self.tile_width();
        let th = self.tile_height();
        let k = self.columns() - self.rows();
        let a = tw * th;
        let d = self.denominator();
        self.lemma_projection_bounds(c, r);
        let point = self.spec_coordinates_to_point(coordinates);
        assert(point.x == 2 * (c - r) * tw);
        assert(point.y == th * (self.rows() - c - r));
        assert(a > 0) by (nonlinear_arith)
            requires
                a == tw * th,
                tw > 0,
                th > 0,
        ;
        assert(d == 4 * a) by (nonlinear_arith)
            requires
                d == 4 * tw * th,
                a == tw * th,
        ;
        let column_n = self.column_numerator(point);
        let row_n = self.row_numerator(point);
        assert(column_n == a * (4 * c + 2 * k)) by (nonlinear_arith)
            requires
                column_n == (2 * (c - r) * tw) * th - 2 * (th * (self.rows() - c - r)) * tw + 2
                    * self.columns() * tw * th,
                k == self.columns() - self.rows(),
                a == tw * th,
        ;
        assert(row_n == 4 * a * r) by (nonlinear_arith)
            requires
                row_n == -(2 * (c - r) * tw) * th - 2 * (th * (self.rows() - c - r)) * tw + 2
                    * self.rows() * tw * th,
                a == tw * th,
        ;
        let h = ceil_div(k, 2);
        lemma_ceil_div_is_least(k, 2);
        let q = c + h;
        assert(q * d - column_n == 2 * a * (2 * h - k)) by (nonlinear_arith)
            requires
                q == c + h,
                d == 4 * a,
                column_n == a * (4 * c + 2 * k),
        ;
        assert(0 <= 2 * a * (2 * h - k) <= 2 * a) by (nonlinear_arith)
            requires
                a > 0,
                0 <= 2 * h - k <= 1,
        ;
        assert((q - 1) * d == q * d - d) by (nonlinear_arith);
        lemma_ceil_div_unique(column_n, d, q);
        assert(r * d == row_n) by (nonlinear_arith)
            requires
                d == 4 * a,
                row_n == 4 * a * r,
        ;
        assert((r - 1) * d == r * d - d) by (nonlinear_arith);
        lemma_ceil_div_unique(row_n, d, r);
        assert(-0x8000 <= h <= 0x8000);
        assert(saturate(q) == q);
        assert(saturate(r) == r);
    }
}

impl Default for TileMap {
    /// A square map of `MAP_SIZE` cells a side, with tiles of `TILE_SIZE`
    /// drawn `SCALE_FACTOR` times as large, without occupants.
    fn default() -> (map: TileMap)
        ensures
            map.wf(),
            map.columns() == MAP_SIZE,
            map.rows() == MAP_SIZE,
            map.tile_width() == TILE_SIZE.0 * SCALE_FACTOR,
            map.tile_height() == TILE_SIZE.1 * SCALE_FACTOR,
            forall|column: int, row: int|
                #[trigger] map.occupants(column, row) == Seq::<u64>::empty(),
    {
        TileMap::new(MAP_SIZE, MAP_SIZE, TILE_SIZE.0, TILE_SIZE.1, SCALE_FACTOR)
    }
}

} // verus!
