use crate::component::{erases, Component, ComponentMeta, FieldValue};
use crate::error::ArchtypeError;
use crate::layout::{declares, Layout};
use crate::model::ArchtypeView;
use crate::row::{arranged, lemma_position, supplies};
use crate::teardown::{calls_view, DestructorCall};
use vstd::prelude::*;

verus! {

/// The bytes of row `row` in a column buffer whose values have `size` bytes.
spec fn cell_of(column: Seq<u8>, size: int, row: int) -> Seq<u8> {
    column.subrange(row * size, row * size + size)
}

/// Some column of `layout` with `capacity` rows has at least one byte.
pub open spec fn needs_memory(layout: Seq<ComponentMeta>, capacity: int) -> bool {
    exists|c: int| 0 <= c < layout.len() && (#[trigger] layout[c]).size * capacity > 0
}

/// Some column of `layout` with `capacity` rows has more bytes than a
/// buffer can have.
pub open spec fn exceeds_memory(layout: Seq<ComponentMeta>, capacity: int) -> bool {
    exists|c: int| 0 <= c < layout.len() && (#[trigger] layout[c]).size * capacity > usize::MAX
}

/// Rows of one layout, column by column. The buffer of a column has room for
/// `capacity` values; the first `size` of them are rows, the rest is never
/// read. The capacity is fixed when the archetype is made.
pub struct Archtype {
    layout: Layout,
    columns: Vec<Vec<u8>>,
    capacity: usize,
    size: usize,
}

impl View for Archtype {
    type V = ArchtypeView;

    closed spec fn view(&self) -> ArchtypeView {
        ArchtypeView {
            layout: self.layout@,
            capacity: self.capacity as nat,
            rows: Seq::new(
                self.size as nat,
                |r: int|
                    Seq::new(
                        self.layout@.len(),
                        |c: int| cell_of(self.columns@[c]@, self.layout@[c].size as int, r),
                    ),
            ),
        }
    }
}

/// A buffer of `bytes` zero bytes, or nothing where the memory for it cannot
/// be had. No memory is asked for where `bytes` is zero.
fn zeroed_buffer(bytes: usize) -> (buffer: Option<Vec<u8>>)
    ensures
        match buffer {
            Some(b) => b@ == Seq::new(bytes as nat, |i: int| 0u8),
            None => bytes > 0,
        },
{
    let mut buffer: Vec<u8> = Vec::new();
    if bytes == 0 {
        return Some(buffer);
    }
    if buffer.try_reserve(bytes).is_err() {
        return None;
    }
    let mut k: usize = 0;
    while k < bytes
        invariant
            k <= bytes,
            buffer@ == Seq::new(k as nat, |i: int| 0u8),
        decreases bytes - k,
    {
        buffer.push(0u8);
        k += 1;
    }
    Some(buffer)
}

/// Puts `bytes` into `column` from the byte `offset` on. Nothing else in
/// `column` changes.
fn write_cell(column: &mut Vec<u8>, offset: usize, bytes: &Vec<u8>)
    requires
        offset + bytes@.len() <= old(column)@.len(),
    ensures
        final(column)@.len() == old(column)@.len(),
        final(column)@.subrange(offset as int, offset + bytes@.len()) == bytes@,
        forall|i: int|
            0 <= i < offset || offset + bytes@.len() <= i < old(column)@.len()
                ==> final(column)@[i] == old(column)@[i],
{
    let total = column.len();
    let mut k: usize = 0;
    while k < bytes.len()
        invariant
            k <= bytes@.len(),
            offset + bytes@.len() <= total,
            column@.len() == total == old(column)@.len(),
            forall|i: int| 0 <= i < k ==> column@[offset + i] == bytes@[i],
            forall|i: int|
                0 <= i < offset || offset + k <= i < column@.len()
                    ==> column@[i] == old(column)@[i],
        decreases bytes@.len() - k,
    {
        column[offset + k] = bytes[k];
        k += 1;
    }
    assert(column@.subrange(offset as int, offset + bytes@.len()) =~= bytes@);
}

/// The `len` bytes of `column` from the byte `offset` on.
fn copy_cell(column: &Vec<u8>, offset: usize, len: usize) -> (bytes: Vec<u8>)
    requires
        offset + len <= column@.len(),
    ensures
        bytes@ == column@.subrange(offset as int, offset + len),
{
    let total = column.len();
    let mut bytes: Vec<u8> = Vec::new();
    let mut k: usize = 0;
    while k < len
        invariant
            k <= len,
            offset + len <= total == column@.len(),
            bytes@ == column@.subrange(offset as int, offset + k),
        decreases len - k,
    {
        bytes.push(column[offset + k]);
        assert(bytes@ =~= column@.subrange(offset as int, offset + k + 1));
        k += 1;
    }
    bytes
}

impl Archtype {
    /// The invariant of every archetype.
    pub closed spec fn wf(&self) -> bool {
        &&& self.layout.wf()
        &&& self.columns@.len() == self.layout@.len()
        &&& self.size <= self.capacity
        &&& forall|c: int|
            0 <= c < self.columns@.len() ==> (#[trigger] self.columns@[c])@.len() == self.capacity
                * self.layout@[c].size
    }

    /// What an archetype holds is valid.
    pub proof fn lemma_valid(&self)
        requires
            self.wf(),
        ensures
            self@.valid(),
    {
        let view = self@;
        assert forall|r: int, c: int|
            0 <= r < view.rows.len() && 0 <= c < view.layout.len() implies (
        #[trigger] view.rows[r][c]).len() == view.layout[c].size by {
            let size = self.layout@[c].size as int;
            assert(self.columns@[c]@.len() == self.capacity * size);
            assert(0 <= r * size && r * size + size <= self.capacity * size) by (nonlinear_arith)
                requires
                    0 <= r < self.capacity,
                    0 <= size,
            ;
        }
    }

    /// An archetype without rows, with one column for each field type of
    /// `layout` and room for `capacity` rows. The memory of a column is asked
    /// for at once, and only where the column has any bytes; where it cannot
    /// be had, no archetype is made. Whether memory can be had is for the
    /// allocator to say, except that a column of more bytes than `usize`
    /// counts is never had, and that columns without bytes always are.
    pub fn new(layout: Layout, capacity: usize) -> (r: Result<Archtype, ArchtypeError>)
        requires
            layout.wf(),
        ensures
            match r {
                Ok(a) => a.wf() && a@ == ArchtypeView::empty(layout@, capacity as nat),
                Err(e) => e == ArchtypeError::AllocationFailed && needs_memory(
                    layout@,
                    capacity as int,
                ),
            },
            !needs_memory(layout@, capacity as int) ==> r is Ok,
            exceeds_memory(layout@, capacity as int) ==> r is Err,
    {
        let mut columns: Vec<Vec<u8>> = Vec::new();
        let mut c: usize = 0;
        while c < layout.len()
            invariant
                c <= layout@.len(),
                columns@.len() == c,
                forall|k: int|
                    0 <= k < c ==> (#[trigger] columns@[k])@.len() == capacity * layout@[k].size,
                forall|k: int| 0 <= k < c ==> (#[trigger] layout@[k]).size * capacity <= usize::MAX,
            decreases layout@.len() - c,
        {
            let meta = layout.get(c).unwrap();
            let bytes = match meta.size.checked_mul(capacity) {
                Some(bytes) => bytes,
                None => {
                    return Err(ArchtypeError::AllocationFailed);
                },
            };
            assert(bytes == capacity * layout@[c as int].size) by (nonlinear_arith)
                requires
                    bytes == layout@[c as int].size * capacity,
            ;
            match zeroed_buffer(bytes) {
                Some(buffer) => {
                    columns.push(buffer);
                },
                None => {
                    return Err(ArchtypeError::AllocationFailed);
                },
            }
            c += 1;
        }
        let archtype = Archtype { layout, columns, capacity, size: 0 };
        assert(archtype@.rows =~= Seq::empty());
        Ok(archtype)
    }

    /// Inserts `row` behind the rows that the archetype holds and gives its
    /// index. The row is held against the layout before anything is written:
    /// it has to be one value of the declared size for each field type, and
    /// the archetype must not be full. A refused row changes nothing.
    pub fn insert_row(&mut self, row: Vec<FieldValue>) -> (r: Result<usize, ArchtypeError>)
        requires
            old(self).wf(),
        ensures
            final(self).wf(),
            final(self)@ == old(self)@.insert(row@),
            answers(old(self)@, row@, r),
    {
        let places = match self.layout.arrange(&row) {
            Ok(places) => places,
            Err(e) => {
                return Err(e);
            },
        };
        if self.size >= self.capacity {
            return Err(ArchtypeError::CapacityExceeded);
        }
        let at = self.size;
        let ghost before = *self;
        let ghost layout = self.layout@;
        proof {
            assert forall|k: int| 0 <= k < layout.len() implies 0 <= (#[trigger] places@[k])
                < row@.len() && row@[places@[k] as int].bytes@.len() == layout[k].size by {
                assert(supplies(row@, layout[k]));
                let i = choose|i: int|
                    0 <= i < row@.len() && (#[trigger] row@[i]).id == layout[k].id
                        && row@[i].bytes@.len() == layout[k].size;
                lemma_position(row@, i);
            }
        }
        let mut c: usize = 0;
        while c < self.columns.len()
            invariant
                c <= self.columns@.len(),
                self.layout == before.layout,
                layout == self.layout@,
                self.capacity == before.capacity,
                self.size == at,
                at < self.capacity,
                self.columns@.len() == layout.len(),
                before.columns@.len() == layout.len(),
                places@.len() == layout.len(),
                forall|k: int|
                    0 <= k < layout.len() ==> 0 <= (#[trigger] places@[k]) < row@.len()
                        && row@[places@[k] as int].bytes@.len() == layout[k].size,
                forall|k: int|
                    0 <= k < layout.len() ==> (#[trigger] self.columns@[k])@.len()
                        == self.capacity * layout[k].size,
                forall|k: int|
                    0 <= k < c ==> cell_of(
                        (#[trigger] self.columns@[k])@,
                        layout[k].size as int,
                        at as int,
                    ) == row@[places@[k] as int].bytes@,
                forall|k: int, r: int|
                    0 <= k < layout.len() && 0 <= r < at ==> #[trigger] cell_of(
                        self.columns@[k]@,
                        layout[k].size as int,
                        r,
                    ) == cell_of(before.columns@[k]@, layout[k].size as int, r),
            decreases self.columns@.len() - c,
        {
            let meta = self.layout.get(c).unwrap();
            let place = places[c];
            let total = self.columns[c].len();
            let ghost size = meta.size as int;
            assert(0 <= at * size && at * size + size <= self.capacity * size)
                by (nonlinear_arith)
                requires
                    0 <= at < self.capacity,
                    0 <= size,
            ;
            assert(self.capacity * size == total);
            let offset = at * meta.size;
            let ghost columns = self.columns@;
            write_cell(&mut self.columns[c], offset, &row[place].bytes);
            proof {
                assert forall|k: int, r: int|
                    0 <= k < layout.len() && 0 <= r < at implies #[trigger] cell_of(
                    self.columns@[k]@,
                    layout[k].size as int,
                    r,
                ) == cell_of(before.columns@[k]@, layout[k].size as int, r) by {
                    if k == c {
                        assert(0 <= r * size && r * size + size <= at * size)
                            by (nonlinear_arith)
                            requires
                                0 <= r < at,
                                0 <= size,
                        ;
                        assert(cell_of(self.columns@[k]@, size, r) =~= cell_of(
                            columns[k]@,
                            size,
                            r,
                        ));
                    } else {
                        assert(self.columns@[k] == columns[k]);
                    }
                }
            }
            c += 1;
        }
        self.size = at + 1;
        proof {
            let old_rows = before@.rows;
            let new_rows = self@.rows;
            let added = arranged(layout, row@);
            assert(new_rows.len() == old_rows.len() + 1);
            assert forall|r: int| 0 <= r < new_rows.len() implies new_rows[r] == old_rows.push(
                added,
            )[r] by {
                if r < at {
                    assert(new_rows[r] =~= old_rows[r]);
                } else {
                    assert(new_rows[r] =~= added);
                }
            }
            assert(new_rows =~= old_rows.push(added));
        }
        Ok(at)
    }

    /// The column that `index_of` found is the column of that field type.
    proof fn lemma_column_of(&self, id: u64, c: int)
        requires
            self.wf(),
            0 <= c < self.layout@.len(),
            self.layout@[c].id == id,
        ensures
            self@.column_of(id) == c,
    {
        let found = self@.column_of(id);
        assert(0 <= found < self.layout@.len() && self.layout@[found].id == id);
        if found < c {
            assert(self.layout@[found].id != self.layout@[c].id);
        } else if c < found {
            assert(self.layout@[c].id != self.layout@[found].id);
        }
    }

    /// The value of the field type `id` in row `row`: its bytes, or nothing
    /// where the archetype holds no such row. A field type that the layout
    /// does not declare is refused.
    pub fn read(&self, id: u64, row: usize) -> (r: Result<Option<Vec<u8>>, ArchtypeError>)
        requires
            self.wf(),
        ensures
            match r {
                Ok(Some(bytes)) => declares(self@.layout, id) && row < self@.rows.len() && bytes@
                    == self@.value(id, row as int),
                Ok(None) => declares(self@.layout, id) && row >= self@.rows.len(),
                Err(e) => e == ArchtypeError::ComponentNotInLayout && !declares(self@.layout, id),
            },
    {
        let c = match self.layout.index_of(id) {
            Some(c) => c,
            None => {
                return Err(ArchtypeError::ComponentNotInLayout);
            },
        };
        if row >= self.size {
            return Ok(None);
        }
        let meta = self.layout.get(c).unwrap();
        let total = self.columns[c].len();
        proof {
            self.lemma_column_of(id, c as int);
            let size = meta.size as int;
            assert(0 <= row * size && row * size + size <= self.capacity * size)
                by (nonlinear_arith)
                requires
                    0 <= row < self.capacity,
                    0 <= size,
            ;
        }
        Ok(Some(copy_cell(&self.columns[c], row * meta.size, meta.size)))
    }

    /// The values of the field type `id`, row by row. A field type that the
    /// layout does not declare is refused.
    pub fn column(&self, id: u64) -> (r: Result<Vec<Vec<u8>>, ArchtypeError>)
        requires
            self.wf(),
        ensures
            match r {
                Ok(values) => {
                    &&& declares(self@.layout, id)
                    &&& values@.len() == self@.rows.len()
                    &&& forall|row: int|
                        0 <= row < values@.len() ==> (#[trigger] values@[row])@ == self@.value(
                            id,
                            row,
                        )
                },
                Err(e) => e == ArchtypeError::ComponentNotInLayout && !declares(self@.layout, id),
            },
    {
        let c = match self.layout.index_of(id) {
            Some(c) => c,
            None => {
                return Err(ArchtypeError::ComponentNotInLayout);
            },
        };
        let meta = self.layout.get(c).unwrap();
        let total = self.columns[c].len();
        proof {
            self.lemma_column_of(id, c as int);
        }
        let mut values: Vec<Vec<u8>> = Vec::new();
        let mut row: usize = 0;
        while row < self.size
            invariant
                self.wf(),
                row <= self.size,
                c < self.layout@.len(),
                meta == self.layout@[c as int],
                total == self.columns@[c as int]@.len(),
                self@.column_of(id) == c,
                values@.len() == row,
                forall|k: int|
                    0 <= k < row ==> (#[trigger] values@[k])@ == self@.value(id, k),
            decreases self.size - row,
        {
            proof {
                let size = meta.size as int;
                assert(0 <= row * size && row * size + size <= self.capacity * size)
                    by (nonlinear_arith)
                    requires
                        0 <= row < self.capacity,
                        0 <= size,
                ;
            }
            values.push(copy_cell(&self.columns[c], row * meta.size, meta.size));
            row += 1;
        }
        Ok(values)
    }

    /// Tears the archetype down: gives up its buffers and hands out, for
    /// cleanup, every value of every field type that has a destructor, each
    /// one once, column after column and in row order. Rows that were never
    /// inserted are not touched.
    pub fn teardown(self) -> (calls: Vec<DestructorCall>)
        requires
            self.wf(),
        ensures
            calls_view(calls@) == self@.destructions(),
    {
        let ghost view = self@;
        let mut calls: Vec<DestructorCall> = Vec::new();
        let mut c: usize = 0;
        assert(view.destructions_by_column(0).flatten() =~= Seq::empty());
        while c < self.layout.len()
            invariant
                self.wf(),
                view == self@,
                c <= self.layout@.len(),
                calls_view(calls@) =~= view.destructions_by_column(c as nat).flatten(),
            decreases self.layout@.len() - c,
        {
            let meta = self.layout.get(c).unwrap();
            let ghost done = calls_view(calls@);
            if meta.destructor {
                let total = self.columns[c].len();
                let mut row: usize = 0;
                while row < self.size
                    invariant
                        self.wf(),
                        view == self@,
                        c < self.layout@.len(),
                        meta == self.layout@[c as int],
                        meta.destructor,
                        total == self.columns@[c as int]@.len(),
                        row <= self.size,
                        calls_view(calls@) =~= done + view.column_destructions(c as int).take(
                            row as int,
                        ),
                    decreases self.size - row,
                {
                    proof {
                        let size = meta.size as int;
                        assert(0 <= row * size && row * size + size <= self.capacity * size)
                            by (nonlinear_arith)
                            requires
                                0 <= row < self.capacity,
                                0 <= size,
                        ;
                    }
                    let bytes = copy_cell(&self.columns[c], row * meta.size, meta.size);
                    let ghost earlier = calls_view(calls@);
                    let call = DestructorCall { id: meta.id, row, bytes };
                    proof {
                        let due = view.column_destructions(c as int);
                        assert(view.rows[row as int][c as int] == call@.bytes);
                        assert(due[row as int] == call@);
                        assert(due.take(row + 1) =~= due.take(row as int).push(due[row as int]));
                    }
                    calls.push(call);
                    assert(calls_view(calls@) =~= earlier.push(call@));
                    row += 1;
                }
                assert(view.column_destructions(c as int).take(row as int)
                    =~= view.column_destructions(c as int));
            }
            proof {
                let before = view.destructions_by_column(c as nat);
                let due = view.column_destructions(c as int);
                assert(calls_view(calls@) =~= done + due);
                assert(view.destructions_by_column((c + 1) as nat) =~= before.push(due));
                before.lemma_flatten_push(due);
            }
            c += 1;
        }
        calls
    }

    /// The field types of the archetype.
    pub fn layout(&self) -> (layout: &Layout)
        ensures
            layout@ == self@.layout,
    {
        &self.layout
    }

    /// The number of rows that the archetype has room for.
    pub fn capacity(&self) -> (capacity: usize)
        ensures
            capacity == self@.capacity,
    {
        self.capacity
    }

    /// The number of rows that the archetype holds.
    pub fn size(&self) -> (size: usize)
        ensures
            size == self@.rows.len(),
    {
        self.size
    }
}

/// Whether `r` is what inserting `row` into an archetype that holds `view`
/// answers.
pub open spec fn answers(
    view: ArchtypeView,
    row: Seq<FieldValue>,
    r: Result<usize, ArchtypeError>,
) -> bool {
    match r {
        Ok(at) => view.verdict(row) == Ok::<nat, ArchtypeError>(at as nat),
        Err(e) => view.verdict(row) == Err::<nat, ArchtypeError>(e),
    }
}

/// Insertion of typed values: `C` is one value, or several that make up one
/// row together.
pub trait ArchtypeOps<C> {
    /// What the receiver has to satisfy before values are added, and
    /// satisfies afterwards.
    spec fn ready(&self) -> bool;

    /// Inserts `components` as one row and gives its index, or says why
    /// there is none.
    fn add_components(&mut self, components: C) -> (r: Result<usize, ArchtypeError>)
        requires
            old(self).ready(),
        ensures
            final(self).ready(),
    ;
}

impl<A: Component> ArchtypeOps<A> for Archtype {
    open spec fn ready(&self) -> bool {
        self.wf()
    }

    /// Inserts the one value as a row, as `insert_row` does for the row that
    /// holds nothing but its identity and bytes.
    fn add_components(&mut self, component: A) -> (r: Result<usize, ArchtypeError>)
        ensures
            exists|row: Seq<FieldValue>|
                {
                    &&& row.len() == 1
                    &&& erases(component, row[0])
                    &&& answers(old(self)@, row, r)
                    &&& final(self)@ == #[trigger] old(self)@.insert(row)
                },
    {
        let mut row: Vec<FieldValue> = Vec::new();
        row.push(FieldValue::of(component));
        let r = self.insert_row(row);
        assert(final(self)@ == old(self)@.insert(row@));
        r
    }
}

impl<A: Component, B: Component> ArchtypeOps<(A, B)> for Archtype {
    open spec fn ready(&self) -> bool {
        self.wf()
    }

    /// Inserts the two values as one row, as `insert_row` does for the row
    /// that holds their identities and bytes in this order.
    fn add_components(&mut self, components: (A, B)) -> (r: Result<usize, ArchtypeError>)
        ensures
            exists|row: Seq<FieldValue>|
                {
                    &&& row.len() == 2
                    &&& erases(components.0, row[0])
                    &&& erases(components.1, row[1])
                    &&& answers(old(self)@, row, r)
                    &&& final(self)@ == #[trigger] old(self)@.insert(row)
                },
    {
        let mut row: Vec<FieldValue> = Vec::new();
        row.push(FieldValue::of(components.0));
        row.push(FieldValue::of(components.1));
        let r = self.insert_row(row);
        assert(final(self)@ == old(self)@.insert(row@));
        r
    }
}

} // verus!
