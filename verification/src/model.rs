use crate::component::{ComponentMeta, FieldValue};
use crate::error::ArchtypeError;
use crate::layout::{declares, distinct_identities};
use crate::row::{arranged, fits, has_duplicate, lemma_position, refusal, supplies};
use vstd::prelude::*;

verus! {

/// What an archetype holds: its field types in column order, the number of
/// rows it has room for, and its rows. A row is one value per column, each
/// value given by its bytes.
pub struct ArchtypeView {
    pub layout: Seq<ComponentMeta>,
    pub capacity: nat,
    pub rows: Seq<Seq<Seq<u8>>>,
}

impl ArchtypeView {
    /// What holds of every archetype: no identity is declared twice, there
    /// are no more rows than the capacity, and every row has one value of
    /// the declared size in each column.
    pub open spec fn valid(self) -> bool {
        &&& distinct_identities(self.layout)
        &&& self.rows.len() <= self.capacity
        &&& forall|r: int|
            0 <= r < self.rows.len() ==> (#[trigger] self.rows[r]).len() == self.layout.len()
        &&& forall|r: int, c: int|
            0 <= r < self.rows.len() && 0 <= c < self.layout.len() ==> (
            #[trigger] self.rows[r][c]).len() == self.layout[c].size
    }

    /// The archetype without rows.
    pub open spec fn empty(layout: Seq<ComponentMeta>, capacity: nat) -> ArchtypeView {
        ArchtypeView { layout, capacity, rows: Seq::empty() }
    }

    /// What inserting `row` answers: the index of the new row, or why there
    /// is none. A row that does not fit the layout is refused for that; one
    /// that fits is refused where the archetype is full.
    pub open spec fn verdict(self, row: Seq<FieldValue>) -> Result<nat, ArchtypeError> {
        match refusal(self.layout, row) {
            Some(e) => Err(e),
            None => if self.rows.len() < self.capacity {
                Ok(self.rows.len())
            } else {
                Err(ArchtypeError::CapacityExceeded)
            },
        }
    }

    /// The archetype after inserting `row`: one row more where the row was
    /// accepted, the same archetype where it was refused.
    pub open spec fn insert(self, row: Seq<FieldValue>) -> ArchtypeView {
        if self.verdict(row) is Ok {
            ArchtypeView { rows: self.rows.push(arranged(self.layout, row)), ..self }
        } else {
            self
        }
    }

    /// The archetype after inserting each of `rows` in turn.
    pub open spec fn insert_all(self, rows: Seq<Seq<FieldValue>>) -> ArchtypeView
        decreases rows.len(),
    {
        if rows.len() == 0 {
            self
        } else {
            self.insert_all(rows.drop_last()).insert(rows.last())
        }
    }

    /// The column of the field type `id`.
    pub open spec fn column_of(self, id: u64) -> int {
        choose|c: int| 0 <= c < self.layout.len() && (#[trigger] self.layout[c]).id == id
    }

    /// The value of the field type `id` in row `row`.
    pub open spec fn value(self, id: u64, row: int) -> Seq<u8> {
        self.rows[row][self.column_of(id)]
    }
}


/// Inserting a row keeps an archetype valid: there are never more rows than
/// the capacity, and every row is whole.
pub proof fn lemma_insert_keeps_valid(view: ArchtypeView, row: Seq<FieldValue>)
    requires
        view.valid(),
    ensures
        view.insert(row).valid(),
        view.insert(row).layout == view.layout,
        view.insert(row).capacity == view.capacity,
{
    if view.verdict(row) is Ok {
        let after = view.insert(row);
        let added = arranged(view.layout, row);
        assert forall|r: int, c: int|
            0 <= r < after.rows.len() && 0 <= c < after.layout.len() implies (
        #[trigger] after.rows[r][c]).len() == after.layout[c].size by {
            if r == view.rows.len() {
                assert(supplies(row, view.layout[c]));
                let i = choose|i: int|
                    0 <= i < row.len() && (#[trigger] row[i]).id == view.layout[c].id
                        && row[i].bytes@.len() == view.layout[c].size;
                lemma_position(row, i);
            } else {
                assert(after.rows[r] == view.rows[r]);
            }
        }
    }
}

/// A row that is refused, for whatever reason, leaves the archetype as it
/// was.
pub proof fn lemma_refused_row_changes_nothing(view: ArchtypeView, row: Seq<FieldValue>)
    requires
        view.verdict(row) is Err,
    ensures
        view.insert(row) == view,
{
}

/// A row with two values of one field type is refused as a duplicate,
/// whatever else holds of it and of the archetype, and changes nothing.
pub proof fn lemma_duplicate_is_refused(view: ArchtypeView, row: Seq<FieldValue>)
    requires
        has_duplicate(row),
    ensures
        view.verdict(row) == Err::<nat, ArchtypeError>(ArchtypeError::DuplicateComponent),
        view.insert(row) == view,
{
}

/// A full archetype refuses every row and stays as it is; a row that fits
/// the layout is refused for the capacity.
pub proof fn lemma_full_refuses(view: ArchtypeView, row: Seq<FieldValue>)
    requires
        view.rows.len() >= view.capacity,
    ensures
        view.verdict(row) is Err,
        view.insert(row) == view,
        fits(view.layout, row) ==> view.verdict(row) == Err::<nat, ArchtypeError>(
            ArchtypeError::CapacityExceeded,
        ),
{
}

/// Rows that fit are taken one by one until the archetype is full: of
/// `rows.len()` such rows, offered to an archetype without rows, as many are
/// held as the capacity allows.
pub proof fn lemma_rows_held(layout: Seq<ComponentMeta>, capacity: nat, rows: Seq<Seq<FieldValue>>)
    requires
        forall|k: int| 0 <= k < rows.len() ==> fits(layout, #[trigger] rows[k]),
    ensures
        ({
            let after = ArchtypeView::empty(layout, capacity).insert_all(rows);
            &&& after.layout == layout
            &&& after.capacity == capacity
            &&& after.rows.len() == if rows.len() <= capacity {
                rows.len()
            } else {
                capacity
            }
        }),
    decreases rows.len(),
{
    if rows.len() > 0 {
        let earlier = rows.drop_last();
        assert forall|k: int| 0 <= k < earlier.len() implies fits(layout, #[trigger] earlier[k]) by {
            assert(earlier[k] == rows[k]);
        }
        lemma_rows_held(layout, capacity, earlier);
        assert(fits(layout, rows.last()));
    }
}

/// An archetype made with room for `capacity` rows holds exactly that many
/// after that many rows that fit; the next such row is refused for the
/// capacity, and the archetype still holds `capacity` rows.
pub proof fn lemma_capacity_bound(
    layout: Seq<ComponentMeta>,
    capacity: nat,
    rows: Seq<Seq<FieldValue>>,
    next: Seq<FieldValue>,
)
    requires
        rows.len() == capacity,
        forall|k: int| 0 <= k < rows.len() ==> fits(layout, #[trigger] rows[k]),
        fits(layout, next),
    ensures
        ({
            let full = ArchtypeView::empty(layout, capacity).insert_all(rows);
            &&& full.rows.len() == capacity
            &&& full.verdict(next) == Err::<nat, ArchtypeError>(ArchtypeError::CapacityExceeded)
            &&& full.insert(next) == full
        }),
{
    lemma_rows_held(layout, capacity, rows);
}

/// What was inserted is what is read back: once `row` is accepted, the new
/// row holds, for the field type of each value of `row`, that value byte for
/// byte, and the earlier rows hold what they held.
pub proof fn lemma_round_trip(view: ArchtypeView, row: Seq<FieldValue>, i: int)
    requires
        view.verdict(row) is Ok,
        0 <= i < row.len(),
    ensures
        view.insert(row).value(row[i].id, view.rows.len() as int) == row[i].bytes@,
        forall|id: u64, r: int|
            0 <= r < view.rows.len() ==> #[trigger] view.insert(row).value(id, r) == view.value(
                id,
                r,
            ),
{
    let after = view.insert(row);
    let id = row[i].id;
    assert(declares(view.layout, id));
    let c = after.column_of(id);
    assert(0 <= c < view.layout.len() && view.layout[c].id == id);
    lemma_position(row, i);
    assert(after.rows[view.rows.len() as int] == arranged(view.layout, row));
    assert forall|id: u64, r: int| 0 <= r < view.rows.len() implies #[trigger] after.value(id, r)
        == view.value(id, r) by {
        assert(after.rows[r] == view.rows[r]);
        assert(after.column_of(id) == view.column_of(id));
    }
}

} // verus!
