//! The occupancy index of the map: which occupants stand on which cell.
//!
//! The index holds handles only. Where an occupant is, and on which floor,
//! is kept elsewhere; the index is told under which cell to file a handle.

use super::components::{Coordinates, Position};
use super::resource::TileMap;
use std::collections::HashMap;
use vstd::multiset::{group_multiset_axioms, Multiset};
use vstd::prelude::*;
use vstd::seq_lib::{to_multiset_build, to_multiset_remove};
use vstd::std_specs::hash::group_hash_axioms;

verus! {

broadcast use group_hash_axioms;

/// The handle of an occupant.
pub type Occupant = u64;

/// The key under which the bucket of a cell is kept: both numbers moved
/// into the naturals, the column in the upper half.
spec fn key_of(column: int, row: int) -> u128 {
    ((column + 0x8000_0000_0000_0000) * 0x1_0000_0000_0000_0000 + (row + 0x8000_0000_0000_0000)) as u128
}

/// Different cells have different keys.
proof fn lemma_keys_differ(column: int, row: int, other_column: int, other_row: int)
    requires
        i64::MIN <= column <= i64::MAX,
        i64::MIN <= row <= i64::MAX,
        i64::MIN <= other_column <= i64::MAX,
        i64::MIN <= other_row <= i64::MAX,
        column != other_column || row != other_row,
    ensures
        key_of(column, row) != key_of(other_column, other_row),
{
}

/// The key of the cell in `column` and `row`.
fn key(column: i64, row: i64) -> (key: u128)
    ensures
        key == key_of(column as int, row as int),
{
    let high: u128 = (column as i128 + 0x8000_0000_0000_0000) as u128;
    let low: u128 = (row as i128 + 0x8000_0000_0000_0000) as u128;
    high * 0x1_0000_0000_0000_0000 + low
}

/// Where each occupant is placed, by its handle. An occupant without an
/// entry is not placed: the index may name it, and it is then passed over.
pub type Positions = HashMap<Occupant, Position>;

/// Whether the occupant at index `i` of a bucket is its topmost: it is
/// placed, no placed occupant of the bucket is on a higher floor, and those
/// filed behind it are on a lower one. Among several on the highest floor
/// the one filed last is the topmost.
pub open spec fn is_topmost(bucket: Seq<Occupant>, positions: Map<Occupant, Position>, i: int) -> bool {
    &&& 0 <= i < bucket.len()
    &&& positions.contains_key(bucket[i])
    &&& forall|j: int|
        0 <= j < bucket.len() && positions.contains_key(#[trigger] bucket[j])
            ==> positions[bucket[j]].floor.0 <= positions[bucket[i]].floor.0
    &&& forall|j: int|
        i < j < bucket.len() && positions.contains_key(#[trigger] bucket[j]) ==> positions[bucket[j]].floor.0
            < positions[bucket[i]].floor.0
}

/// The topmost occupant of a bucket, if any of its occupants is placed.
pub open spec fn topmost(bucket: Seq<Occupant>, positions: Map<Occupant, Position>) -> Option<
    Occupant,
> {
    if exists|i: int| is_topmost(bucket, positions, i) {
        Some(bucket[choose|i: int| is_topmost(bucket, positions, i)])
    } else {
        None
    }
}

/// A bucket has at most one topmost occupant.
pub proof fn lemma_topmost_unique(
    bucket: Seq<Occupant>,
    positions: Map<Occupant, Position>,
    i: int,
    j: int,
)
    requires
        is_topmost(bucket, positions, i),
        is_topmost(bucket, positions, j),
    ensures
        i == j,
{
    if i < j {
        assert(positions.contains_key(bucket[j]));
    } else if j < i {
        assert(positions.contains_key(bucket[i]));
    }
}

/// A bucket has a topmost occupant exactly when one of its occupants is
/// placed; that occupant is then placed and filed in the bucket, and no
/// placed occupant of the bucket is on a higher floor.
pub proof fn lemma_topmost(bucket: Seq<Occupant>, positions: Map<Occupant, Position>)
    ensures
        topmost(bucket, positions) is None <==> forall|j: int|
            0 <= j < bucket.len() ==> !positions.contains_key(#[trigger] bucket[j]),
        topmost(bucket, positions) matches Some(top) ==> {
            &&& bucket.contains(top)
            &&& positions.contains_key(top)
            &&& forall|j: int|
                0 <= j < bucket.len() && positions.contains_key(#[trigger] bucket[j])
                    ==> positions[bucket[j]].floor.0 <= positions[top].floor.0
        },
    decreases bucket.len(),
{
    if exists|i: int| is_topmost(bucket, positions, i) {
        let i = choose|i: int| is_topmost(bucket, positions, i);
        assert(positions.contains_key(bucket[i]));
    } else if bucket.len() > 0 {
        let front = bucket.drop_last();
        let last = bucket.last();
        lemma_topmost(front, positions);
        assert forall|j: int| 0 <= j < bucket.len() implies !positions.contains_key(
            #[trigger] bucket[j],
        ) by {
            if positions.contains_key(last) {
                if exists|i: int| is_topmost(front, positions, i) {
                    let i = choose|i: int| is_topmost(front, positions, i);
                    assert(forall|k: int| 0 <= k < front.len() ==> front[k] == bucket[k]);
                    if positions[front[i]].floor.0 > positions[last].floor.0 {
                        assert(is_topmost(bucket, positions, i));
                    } else {
                        assert(is_topmost(bucket, positions, bucket.len() - 1));
                    }
                } else {
                    assert(forall|k: int| 0 <= k < front.len() ==> front[k] == bucket[k]);
                    assert(is_topmost(bucket, positions, bucket.len() - 1));
                }
            } else {
                if exists|i: int| is_topmost(front, positions, i) {
                    let i = choose|i: int| is_topmost(front, positions, i);
                    assert(forall|k: int| 0 <= k < front.len() ==> front[k] == bucket[k]);
                    assert(is_topmost(bucket, positions, i));
                } else {
                    assert(forall|k: int| 0 <= k < front.len() ==> front[k] == bucket[k]);
                    if j < front.len() {
                        assert(!positions.contains_key(front[j]));
                    }
                }
            }
        }
    }
}

/// A change to what the index files under one cell.
pub enum Change {
    /// The occupant is filed under the cell, behind those already there.
    Insert { column: int, row: int, occupant: Occupant },
    /// The first entry of the occupant under the cell leaves, if there is
    /// one.
    Remove { column: int, row: int, occupant: Occupant },
}

impl Change {
    /// Whether the change is to the cell in `column` and `row`.
    pub open spec fn is_at(self, column: int, row: int) -> bool {
        match self {
            Change::Insert { column: c, row: r, .. } => c == column && r == row,
            Change::Remove { column: c, row: r, .. } => c == column && r == row,
        }
    }

    /// The occupant that comes or leaves.
    pub open spec fn occupant(self) -> Occupant {
        match self {
            Change::Insert { occupant, .. } => occupant,
            Change::Remove { occupant, .. } => occupant,
        }
    }

    /// What is filed under the cell in `column` and `row` after the change,
    /// where `bucket` was filed there before.
    pub open spec fn applied(self, bucket: Seq<Occupant>, column: int, row: int) -> Seq<Occupant> {
        if self.is_at(column, row) {
            match self {
                Change::Insert { occupant, .. } => bucket.push(occupant),
                Change::Remove { occupant, .. } => bucket.remove_value(occupant),
            }
        } else {
            bucket
        }
    }

    /// The change, made on occupants that are counted and not ordered.
    pub open spec fn counted(self, bucket: Multiset<Occupant>, column: int, row: int) -> Multiset<
        Occupant,
    > {
        if self.is_at(column, row) {
            match self {
                Change::Insert { occupant, .. } => bucket.insert(occupant),
                Change::Remove { occupant, .. } => bucket.remove(occupant),
            }
        } else {
            bucket
        }
    }

    /// Whether two changes can be made in either order: they are to
    /// different cells, or to different occupants, or both file, or both
    /// take out.
    pub open spec fn independent_of(self, other: Change) -> bool {
        ||| self.occupant() != other.occupant()
        ||| (forall|column: int, row: int| !(self.is_at(column, row) && other.is_at(column, row)))
        ||| (self is Insert && other is Insert)
        ||| (self is Remove && other is Remove)
    }
}

/// What is filed under the cell in `column` and `row` after a run of
/// changes, made one after the other, where `bucket` was filed there before.
pub open spec fn after_changes(bucket: Seq<Occupant>, changes: Seq<Change>, column: int, row: int) -> Seq<
    Occupant,
>
    decreases changes.len(),
{
    if changes.len() == 0 {
        bucket
    } else {
        changes.last().applied(
            after_changes(bucket, changes.drop_last(), column, row),
            column,
            row,
        )
    }
}

/// The occupants that a run of changes has filed under the cell in `column`
/// and `row` and has not taken out again, each as often as it was.
pub open spec fn outstanding(changes: Seq<Change>, column: int, row: int) -> Multiset<Occupant>
    decreases changes.len(),
{
    if changes.len() == 0 {
        Multiset::empty()
    } else {
        changes.last().counted(outstanding(changes.drop_last(), column, row), column, row)
    }
}

/// A change does to the count of each occupant under a cell what it says:
/// filing adds one entry, taking out removes one where there is one, and
/// where in the bucket the entries stand has no part in it.
pub proof fn lemma_change_counts(change: Change, bucket: Seq<Occupant>, column: int, row: int)
    ensures
        change.applied(bucket, column, row).to_multiset() == change.counted(
            bucket.to_multiset(),
            column,
            row,
        ),
{
    broadcast use group_multiset_axioms;

    if change.is_at(column, row) {
        match change {
            Change::Insert { occupant, .. } => {
                to_multiset_build(bucket, occupant);
            },
            Change::Remove { occupant, .. } => {
                bucket.index_of_first_ensures(occupant);
                bucket.to_multiset_ensures();
                match bucket.index_of_first(occupant) {
                    Some(at) => {
                        to_multiset_remove(bucket, at);
                    },
                    None => {
                        assert(bucket.to_multiset().count(occupant) == 0);
                        assert(bucket.to_multiset().remove(occupant) =~= bucket.to_multiset());
                    },
                }
            },
        }
    }
}

/// After any run of changes to an index without occupants, a cell holds
/// exactly the occupants that were filed under it and not taken out again.
pub proof fn lemma_outstanding(changes: Seq<Change>, column: int, row: int)
    ensures
        after_changes(Seq::empty(), changes, column, row).to_multiset() == outstanding(
            changes,
            column,
            row,
        ),
    decreases changes.len(),
{
    if changes.len() == 0 {
        Seq::<Occupant>::empty().to_multiset_ensures();
        assert(Seq::<Occupant>::empty().to_multiset().len() == 0);
        assert(Seq::<Occupant>::empty().to_multiset() =~= Multiset::empty()) by {
            broadcast use group_multiset_axioms;

        }
    } else {
        lemma_outstanding(changes.drop_last(), column, row);
        lemma_change_counts(
            changes.last(),
            after_changes(Seq::empty(), changes.drop_last(), column, row),
            column,
            row,
        );
    }
}

/// Two changes that are independent of each other leave the same occupants
/// under every cell, each as often, in whichever order they are made.
pub proof fn lemma_independent_changes_commute(
    first: Change,
    second: Change,
    bucket: Seq<Occupant>,
    column: int,
    row: int,
)
    requires
        first.independent_of(second),
    ensures
        second.applied(first.applied(bucket, column, row), column, row).to_multiset()
            == first.applied(second.applied(bucket, column, row), column, row).to_multiset(),
{
    broadcast use group_multiset_axioms;

    lemma_change_counts(first, bucket, column, row);
    lemma_change_counts(second, bucket, column, row);
    lemma_change_counts(second, first.applied(bucket, column, row), column, row);
    lemma_change_counts(first, second.applied(bucket, column, row), column, row);
    let counted = bucket.to_multiset();
    assert(second.counted(first.counted(counted, column, row), column, row) =~= first.counted(
        second.counted(counted, column, row),
        column,
        row,
    ));
}

/// The ground footprint of an occupant, if it is placed.
pub open spec fn ground_of(positions: Map<Occupant, Position>, occupant: Occupant) -> Option<
    (int, int),
> {
    if positions.contains_key(occupant) {
        Some(positions[occupant].spec_ground())
    } else {
        None
    }
}

/// What is filed under the cell `here` once an occupant has left the cell
/// `from`, if it had one, and has come to the cell `to`: it is taken out
/// where it left and filed last where it came.
pub open spec fn after_move(
    bucket: Seq<Occupant>,
    here: (int, int),
    occupant: Occupant,
    from: Option<(int, int)>,
    to: (int, int),
) -> Seq<Occupant> {
    let left = if from == Some(here) {
        bucket.remove_value(occupant)
    } else {
        bucket
    };
    if to == here {
        left.push(occupant)
    } else {
        left
    }
}

/// Taking an occupant out of a bucket without repetitions leaves a bucket
/// without repetitions that holds the other occupants and not this one.
pub proof fn lemma_remove_value(bucket: Seq<Occupant>, occupant: Occupant)
    requires
        bucket.no_duplicates(),
    ensures
        bucket.remove_value(occupant).no_duplicates(),
        !bucket.remove_value(occupant).contains(occupant),
        forall|other: Occupant|
            other != occupant ==> (#[trigger] bucket.remove_value(occupant).contains(other)
                <==> bucket.contains(other)),
{
    bucket.index_of_first_ensures(occupant);
    let rest = bucket.remove_value(occupant);
    match bucket.index_of_first(occupant) {
        None => {},
        Some(at) => {
            assert forall|i: int, j: int| 0 <= i < rest.len() && 0 <= j < rest.len() && i != j implies rest[i]
                != rest[j] by {
                let from_i = if i < at { i } else { i + 1 };
                let from_j = if j < at { j } else { j + 1 };
                assert(rest[i] == bucket[from_i]);
                assert(rest[j] == bucket[from_j]);
            }
            assert forall|i: int| 0 <= i < rest.len() implies rest[i] != occupant by {
                let from_i = if i < at { i } else { i + 1 };
                assert(rest[i] == bucket[from_i]);
            }
            assert forall|other: Occupant| other != occupant implies (#[trigger] rest.contains(other)
                <==> bucket.contains(other)) by {
                if rest.contains(other) {
                    let i = choose|i: int| 0 <= i < rest.len() && rest[i] == other;
                    let from_i = if i < at { i } else { i + 1 };
                    assert(bucket[from_i] == other);
                }
                if bucket.contains(other) {
                    let i = choose|i: int| 0 <= i < bucket.len() && bucket[i] == other;
                    let to_i = if i < at { i } else { i - 1 };
                    assert(rest[to_i] == other);
                }
            }
        },
    }
}

/// Where in a bucket an occupant stands first, if it stands there at all.
fn first_index(bucket: &Vec<Occupant>, occupant: Occupant) -> (index: Option<usize>)
    ensures
        match index {
            Some(i) => bucket@.index_of_first(occupant) == Some(i as int),
            None => bucket@.index_of_first(occupant) == None::<int>,
        },
{
    proof {
        bucket@.index_of_first_ensures(occupant);
    }
    let mut i: usize = 0;
    while i < bucket.len()
        invariant
            i <= bucket.len(),
            forall|j: int| 0 <= j < i ==> bucket@[j] != occupant,
        decreases bucket.len() - i,
    {
        if bucket[i] == occupant {
            proof {
                bucket@.index_of_first_ensures(occupant);
                assert(bucket@[i as int] == occupant);
            }
            return Some(i);
        }
        i += 1;
    }
    None
}

impl TileMap {
    /// The occupants filed under a cell, in the order in which they came.
    /// No occupants are filed under a cell that was never named, or from
    /// which all have left.
    pub closed spec fn occupants(&self, column: int, row: int) -> Seq<Occupant> {
        if i64::MIN <= column <= i64::MAX && i64::MIN <= row <= i64::MAX && self.tiles@.contains_key(
            key_of(column, row),
        ) {
            self.tiles@[key_of(column, row)]@
        } else {
            Seq::empty()
        }
    }

    /// Whether this map files its occupants as `before` does after a change.
    pub open spec fn changed(&self, before: &TileMap, change: Change) -> bool {
        forall|column: int, row: int| #[trigger]
            self.occupants(column, row) == change.applied(
                before.occupants(column, row),
                column,
                row,
            )
    }

    /// Whether this map files its occupants as `before` does, but for one
    /// that has left the cell `from`, if it had one, and has come to `to`.
    pub open spec fn moved(
        &self,
        before: &TileMap,
        occupant: Occupant,
        from: Option<(int, int)>,
        to: (int, int),
    ) -> bool {
        forall|column: int, row: int| #[trigger]
            self.occupants(column, row) == after_move(
                before.occupants(column, row),
                (column, row),
                occupant,
                from,
                to,
            )
    }

    /// Whether the index agrees with where the occupants are placed: each
    /// occupant filed under a cell is placed and has that cell as its
    /// ground footprint, and none is filed twice.
    pub open spec fn consistent(&self, positions: Map<Occupant, Position>) -> bool {
        &&& forall|column: int, row: int, occupant: Occupant| #[trigger]
            self.occupants(column, row).contains(occupant) ==> ground_of(positions, occupant)
                == Some((column, row))
        &&& forall|column: int, row: int| #[trigger] self.occupants(column, row).no_duplicates()
    }

    /// A move keeps the index in agreement with the placements. Where the
    /// index agreed with them before, and an occupant is placed anew while
    /// the index moves it from its old ground footprint to its new one, the
    /// index agrees with the new placements.
    pub proof fn lemma_move_keeps_consistency(
        &self,
        before: &TileMap,
        positions: Map<Occupant, Position>,
        occupant: Occupant,
        position: Position,
    )
        requires
            before.consistent(positions),
            self.moved(before, occupant, ground_of(positions, occupant), position.spec_ground()),
        ensures
            self.consistent(positions.insert(occupant, position)),
    {
        let from = ground_of(positions, occupant);
        let to = position.spec_ground();
        let placed = positions.insert(occupant, position);
        assert forall|column: int, row: int|
            (#[trigger] self.occupants(column, row)).no_duplicates() && forall|other: Occupant|
                self.occupants(column, row).contains(other) ==> ground_of(placed, other) == Some(
                    (column, row),
                ) by {
            let here = (column, row);
            let bucket = before.occupants(column, row);
            assert(bucket.no_duplicates());
            lemma_remove_value(bucket, occupant);
            let left = if from == Some(here) {
                bucket.remove_value(occupant)
            } else {
                bucket
            };
            if bucket.contains(occupant) {
                assert(ground_of(positions, occupant) == Some(here));
            }
            assert(!left.contains(occupant));
            assert(forall|other: Occupant| #[trigger] left.contains(other) ==> bucket.contains(other));
            let now = self.occupants(column, row);
            assert(now == after_move(bucket, here, occupant, from, to));
            if to == here {
                assert(now == left.push(occupant));
                assert forall|i: int, j: int| 0 <= i < now.len() && 0 <= j < now.len() && i
                    != j implies now[i] != now[j] by {
                    if i < left.len() {
                        assert(left.contains(now[i]));
                    }
                    if j < left.len() {
                        assert(left.contains(now[j]));
                    }
                }
            }
            assert forall|other: Occupant| now.contains(other) implies ground_of(placed, other)
                == Some(here) by {
                let i = choose|i: int| 0 <= i < now.len() && now[i] == other;
                if i < left.len() {
                    assert(left.contains(other));
                    assert(bucket.contains(other));
                }
            }
        }
    }

    /// A map whose index is empty files no occupant under any cell.
    pub(crate) proof fn lemma_empty_index(&self)
        requires
            self.tiles@ == Map::<u128, Vec<Occupant>>::empty(),
        ensures
            forall|column: int, row: int| #[trigger] self.occupants(column, row) == Seq::<Occupant>::empty(),
    {
    }

    /// Files an occupant under the cell in `column` and `row`, behind those
    /// already there.
    pub(crate) fn file(&mut self, column: i64, row: i64, occupant: Occupant)
        ensures
            final(self).same_grid(old(self)),
            final(self).occupants(column as int, row as int)
                == old(self).occupants(column as int, row as int).push(occupant),
            forall|other_column: int, other_row: int|
                other_column != column || other_row != row
                    ==> #[trigger] final(self).occupants(other_column, other_row)
                        == old(self).occupants(other_column, other_row),
    {
        let key = key(column, row);
        let mut bucket = match self.tiles.remove(&key) {
            Some(bucket) => bucket,
            None => Vec::new(),
        };
        bucket.push(occupant);
        self.tiles.insert(key, bucket);
        proof {
            self.lemma_same_grid(old(self));
            assert forall|other_column: int, other_row: int|
                other_column != column || other_row != row implies #[trigger] self.occupants(
                other_column,
                other_row,
            ) == old(self).occupants(other_column, other_row) by {
                if i64::MIN <= other_column <= i64::MAX && i64::MIN <= other_row <= i64::MAX {
                    lemma_keys_differ(other_column, other_row, column as int, row as int);
                }
            }
        }
    }

    /// Takes an occupant out from under the cell in `column` and `row`,
    /// where it is filed there: the first of its entries leaves, and the
    /// others keep their order. Says whether one left.
    pub(crate) fn unfile(&mut self, column: i64, row: i64, occupant: Occupant) -> (removed: bool)
        ensures
            final(self).same_grid(old(self)),
            removed == old(self).occupants(column as int, row as int).contains(occupant),
            final(self).occupants(column as int, row as int)
                == old(self).occupants(column as int, row as int).remove_value(occupant),
            forall|other_column: int, other_row: int|
                other_column != column || other_row != row
                    ==> #[trigger] final(self).occupants(other_column, other_row)
                        == old(self).occupants(other_column, other_row),
    {
        let key = key(column, row);
        let ghost before = old(self).occupants(column as int, row as int);
        proof {
            before.index_of_first_ensures(occupant);
        }
        let removed = match self.tiles.remove(&key) {
            None => false,
            Some(mut bucket) => {
                let found = first_index(&bucket, occupant);
                let removed = match found {
                    Some(i) => {
                        bucket.remove(i);
                        true
                    },
                    None => false,
                };
                if bucket.len() > 0 {
                    self.tiles.insert(key, bucket);
                }
                removed
            },
        };
        proof {
            self.lemma_same_grid(old(self));
            assert(self.occupants(column as int, row as int) =~= before.remove_value(occupant));
            assert forall|other_column: int, other_row: int|
                other_column != column || other_row != row implies #[trigger] self.occupants(
                other_column,
                other_row,
            ) == old(self).occupants(other_column, other_row) by {
                if i64::MIN <= other_column <= i64::MAX && i64::MIN <= other_row <= i64::MAX {
                    lemma_keys_differ(other_column, other_row, column as int, row as int);
                }
            }
        }
        removed
    }

    /// Files an occupant under a cell, behind those already there. What
    /// is filed under the other cells stays.
    pub fn insert(&mut self, coordinates: Coordinates, occupant: Occupant)
        ensures
            final(self).same_grid(old(self)),
            final(self).occupants(coordinates.0 as int, coordinates.1 as int)
                == old(self).occupants(coordinates.0 as int, coordinates.1 as int).push(occupant),
            final(self).changed(
                old(self),
                Change::Insert { column: coordinates.0 as int, row: coordinates.1 as int, occupant },
            ),
    {
        self.file(coordinates.0 as i64, coordinates.1 as i64, occupant)
    }

    /// Takes an occupant out from under a cell, where it is filed there:
    /// the first of its entries leaves, and the others keep their order.
    /// What is filed under the other cells stays. Says whether one left.
    pub fn remove(&mut self, coordinates: Coordinates, occupant: Occupant) -> (removed: bool)
        ensures
            final(self).same_grid(old(self)),
            removed == old(self).occupants(coordinates.0 as int, coordinates.1 as int).contains(
                occupant,
            ),
            final(self).occupants(coordinates.0 as int, coordinates.1 as int)
                == old(self).occupants(coordinates.0 as int, coordinates.1 as int).remove_value(
                occupant,
            ),
            final(self).changed(
                old(self),
                Change::Remove { column: coordinates.0 as int, row: coordinates.1 as int, occupant },
            ),
    {
        self.unfile(coordinates.0 as i64, coordinates.1 as i64, occupant)
    }

    /// The occupants filed under a cell, in the order in which they came.
    pub fn occupants_at(&self, coordinates: Coordinates) -> (occupants: Vec<Occupant>)
        ensures
            occupants@ == self.occupants(coordinates.0 as int, coordinates.1 as int),
    {
        let key = key(coordinates.0 as i64, coordinates.1 as i64);
        let mut occupants: Vec<Occupant> = Vec::new();
        match self.tiles.get(&key) {
            None => {},
            Some(bucket) => {
                let mut i: usize = 0;
                while i < bucket.len()
                    invariant
                        i <= bucket.len(),
                        occupants@ == bucket@.take(i as int),
                    decreases bucket.len() - i,
                {
                    occupants.push(bucket[i]);
                    assert(bucket@.take(i + 1) =~= bucket@.take(i as int).push(bucket@[i as int]));
                    i += 1;
                }
                assert(bucket@.take(bucket@.len() as int) =~= bucket@);
            },
        }
        occupants
    }

    /// The topmost occupant under a cell: the one on the highest floor among
    /// those that are placed, and the one filed last among several on that
    /// floor.
    pub fn topmost_at(&self, coordinates: Coordinates, positions: &Positions) -> (top: Option<
        Occupant,
    >)
        ensures
            top == topmost(
                self.occupants(coordinates.0 as int, coordinates.1 as int),
                positions@,
            ),
    {
        let key = key(coordinates.0 as i64, coordinates.1 as i64);
        let ghost all = self.occupants(coordinates.0 as int, coordinates.1 as int);
        match self.tiles.get(&key) {
            None => {
                assert(forall|i: int| !is_topmost(all, positions@, i));
                None
            },
            Some(bucket) => {
                let mut best: Option<(usize, u16)> = None;
                let mut i: usize = 0;
                while i < bucket.len()
                    invariant
                        i <= bucket.len(),
                        match best {
                            Some((at, floor)) => is_topmost(
                                bucket@.take(i as int),
                                positions@,
                                at as int,
                            ) && floor == positions@[bucket@[at as int]].floor.0,
                            None => forall|j: int|
                                0 <= j < i ==> !positions@.contains_key(#[trigger] bucket@[j]),
                        },
                    decreases bucket.len() - i,
                {
                    let ghost seen = bucket@.take(i as int);
                    let ghost next = bucket@.take(i + 1);
                    assert(forall|k: int| 0 <= k < seen.len() ==> seen[k] == next[k]);
                    match positions.get(&bucket[i]) {
                        None => {
                            assert(!positions@.contains_key(next[i as int]));
                        },
                        Some(position) => {
                            assert(positions@.contains_key(next[i as int]));
                            match best {
                                Some((_, floor)) if floor > position.floor.0 => {},
                                _ => {
                                    best = Some((i, position.floor.0));
                                },
                            }
                        },
                    }
                    i += 1;
                }
                assert(bucket@.take(bucket@.len() as int) =~= bucket@);
                match best {
                    Some((at, _)) => {
                        proof {
                            let chosen = choose|i: int| is_topmost(all, positions@, i);
                            lemma_topmost_unique(all, positions@, chosen, at as int);
                        }
                        Some(bucket[at])
                    },
                    None => {
                        assert(forall|i: int| !is_topmost(all, positions@, i));
                        None
                    },
                }
            },
        }
    }

    /// Places an occupant: notes where it is, and moves it in the index
    /// from its old ground footprint, if it was placed, to its new one.
    pub fn place(&mut self, positions: &mut Positions, occupant: Occupant, position: Position)
        ensures
            final(self).same_grid(old(self)),
            final(positions)@ == old(positions)@.insert(occupant, position),
            final(self).moved(
                old(self),
                occupant,
                ground_of(old(positions)@, occupant),
                position.spec_ground(),
            ),
            old(self).consistent(old(positions)@) ==> final(self).consistent(final(positions)@),
    {
        let came_from = positions.insert(occupant, position);
        match came_from {
            Some(before) => {
                let (column, row) = before.ground();
                self.unfile(column, row, occupant);
            },
            None => {},
        }
        let (column, row) = position.ground();
        self.file(column, row, occupant);
        proof {
            if old(self).consistent(old(positions)@) {
                self.lemma_move_keeps_consistency(old(self), old(positions)@, occupant, position);
            }
        }
    }
}

} // verus!
