//! What tells the two cursors apart.

use vstd::prelude::*;

verus! {

/// A rectangle of a texture, by its least and its greatest corner, in
/// texels.
#[derive(Copy, Clone, PartialEq, Eq, Structural, Debug)]
pub struct Rect {
    pub min_x: u32,
    pub min_y: u32,
    pub max_x: u32,
    pub max_y: u32,
}

/// What a cursor is drawn with: the index of its sprite and where the sprite
/// lies in the texture.
#[derive(Copy, Clone, PartialEq, Eq, Structural, Debug)]
pub struct Data {
    pub index: usize,
    pub rect: Rect,
}

/// A kind of cursor.
pub trait Cursor: Sized {
    /// What every cursor of this kind is drawn with.
    spec fn drawn_with() -> Data;

    /// A cursor of this kind.
    fn new() -> (cursor: Self)
        ensures
            *cursor.data() == Self::drawn_with(),
    ;

    /// What this cursor is drawn with.
    #[verifier::when_used_as_spec(spec_data)]
    fn data(&self) -> (data: &Data)
        ensures
            data == self.spec_data(),
    ;

    /// What this cursor is drawn with.
    spec fn spec_data(&self) -> &Data;
}

/// The cursor under the pointer.
#[derive(Copy, Clone, Debug)]
pub struct HoverCursor(pub Data);

/// The cursor on the selected unit.
#[derive(Copy, Clone, Debug)]
pub struct SelectCursor(pub Data);

impl Cursor for HoverCursor {
    open spec fn drawn_with() -> Data {
        Data { index: 0, rect: Rect { min_x: 0, min_y: 16, max_x: 16, max_y: 25 } }
    }

    fn new() -> (cursor: Self) {
        Self(Data { index: 0, rect: Rect { min_x: 0, min_y: 16, max_x: 16, max_y: 25 } })
    }

    fn data(&self) -> (data: &Data) {
        &self.0
    }

    open spec fn spec_data(&self) -> &Data {
        &self.0
    }
}

impl Cursor for SelectCursor {
    open spec fn drawn_with() -> Data {
        Data { index: 1, rect: Rect { min_x: 16, min_y: 16, max_x: 32, max_y: 25 } }
    }

    fn new() -> (cursor: Self) {
        Self(Data { index: 1, rect: Rect { min_x: 16, min_y: 16, max_x: 32, max_y: 25 } })
    }

    fn data(&self) -> (data: &Data) {
        &self.0
    }

    open spec fn spec_data(&self) -> &Data {
        &self.0
    }
}

} // verus!
