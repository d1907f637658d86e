use crate::component::{ComponentMeta, FieldValue};
use crate::error::ArchtypeError;
use crate::layout::{declares, Layout};
use vstd::prelude::*;

verus! {

/// Two values of `row` are of the same field type.
pub open spec fn has_duplicate(row: Seq<FieldValue>) -> bool {
    exists|i: int, j: int|
        0 <= i < j < row.len() && (#[trigger] row[i]).id == (#[trigger] row[j]).id
}

/// A value of `row` is of a field type that `layout` does not declare.
pub open spec fn has_undeclared(layout: Seq<ComponentMeta>, row: Seq<FieldValue>) -> bool {
    exists|i: int| 0 <= i < row.len() && !declares(layout, (#[trigger] row[i]).id)
}

/// `row` holds a value of the field type that `meta` describes, of the size
/// that `meta` declares.
pub open spec fn supplies(row: Seq<FieldValue>, meta: ComponentMeta) -> bool {
    exists|i: int|
        0 <= i < row.len() && (#[trigger] row[i]).id == meta.id && row[i].bytes@.len()
            == meta.size
}

/// `row` holds a value of the declared size for every field type of `layout`.
pub open spec fn is_complete(layout: Seq<ComponentMeta>, row: Seq<FieldValue>) -> bool {
    forall|c: int| 0 <= c < layout.len() ==> supplies(row, #[trigger] layout[c])
}

/// Why `row` cannot be a row of an archetype with the layout `layout`, if
/// anything stands against it. A duplicate is reported before an undeclared
/// field type, and that before a missing or wrongly sized value.
pub open spec fn refusal(layout: Seq<ComponentMeta>, row: Seq<FieldValue>) -> Option<
    ArchtypeError,
> {
    if has_duplicate(row) {
        Some(ArchtypeError::DuplicateComponent)
    } else if has_undeclared(layout, row) {
        Some(ArchtypeError::ComponentNotInLayout)
    } else if !is_complete(layout, row) {
        Some(ArchtypeError::MalformedRow)
    } else {
        None
    }
}

/// `row` is one value for each field type of `layout` and nothing else.
pub open spec fn fits(layout: Seq<ComponentMeta>, row: Seq<FieldValue>) -> bool {
    refusal(layout, row) is None
}

/// Where in `row` the value of the field type `id` stands.
pub open spec fn position(row: Seq<FieldValue>, id: u64) -> int {
    choose|i: int| 0 <= i < row.len() && (#[trigger] row[i]).id == id
}

/// The bytes of the values of `row`, in the order of the columns of `layout`.
pub open spec fn arranged(layout: Seq<ComponentMeta>, row: Seq<FieldValue>) -> Seq<Seq<u8>> {
    Seq::new(layout.len(), |c: int| row[position(row, layout[c].id)].bytes@)
}

/// In a row without duplicates, the value of a field type stands where
/// `position` says.
pub proof fn lemma_position(row: Seq<FieldValue>, i: int)
    requires
        !has_duplicate(row),
        0 <= i < row.len(),
    ensures
        position(row, row[i].id) == i,
{
    let p = position(row, row[i].id);
    assert(0 <= p < row.len() && row[p].id == row[i].id);
    if p < i {
        assert(row[p].id == row[i].id);
    } else if i < p {
        assert(row[i].id == row[p].id);
    }
}

/// Whether two values of `row` are of the same field type.
fn find_duplicate(row: &Vec<FieldValue>) -> (found: bool)
    ensures
        found == has_duplicate(row@),
{
    let mut j: usize = 0;
    while j < row.len()
        invariant
            j <= row@.len(),
            forall|a: int, b: int|
                0 <= a < b < j ==> (#[trigger] row@[a]).id != (#[trigger] row@[b]).id,
        decreases row@.len() - j,
    {
        let mut i: usize = 0;
        while i < j
            invariant
                i <= j < row@.len(),
                forall|a: int| 0 <= a < i ==> (#[trigger] row@[a]).id != row@[j as int].id,
            decreases j - i,
        {
            if row[i].id == row[j].id {
                return true;
            }
            i += 1;
        }
        j += 1;
    }
    false
}

/// The place in `row` of a value of the field type of `meta` with the
/// declared size, if `row` holds one.
fn find_supply(row: &Vec<FieldValue>, meta: ComponentMeta) -> (at: Option<usize>)
    ensures
        match at {
            Some(i) => i < row@.len() && row@[i as int].id == meta.id && row@[i as int].bytes@.len()
                == meta.size,
            None => !supplies(row@, meta),
        },
{
    let mut i: usize = 0;
    while i < row.len()
        invariant
            i <= row@.len(),
            forall|a: int|
                0 <= a < i ==> !((#[trigger] row@[a]).id == meta.id && row@[a].bytes@.len()
                    == meta.size),
        decreases row@.len() - i,
    {
        if row[i].id == meta.id && row[i].bytes.len() == meta.size {
            return Some(i);
        }
        i += 1;
    }
    None
}

impl Layout {
    /// Holds `row` against this layout. A row that fits gives, for each
    /// column, the place in `row` of the value that belongs there; any other
    /// row gives the reason why it does not fit.
    pub fn arrange(&self, row: &Vec<FieldValue>) -> (r: Result<Vec<usize>, ArchtypeError>)
        ensures
            match refusal(self@, row@) {
                Some(e) => r == Err::<Vec<usize>, ArchtypeError>(e),
                None => r is Ok && r->Ok_0@.len() == self@.len() && forall|c: int|
                    0 <= c < self@.len() ==> (#[trigger] r->Ok_0@[c]) == position(
                        row@,
                        self@[c].id,
                    ),
            },
    {
        if find_duplicate(row) {
            return Err(ArchtypeError::DuplicateComponent);
        }
        let mut i: usize = 0;
        while i < row.len()
            invariant
                i <= row@.len(),
                !has_duplicate(row@),
                forall|a: int| 0 <= a < i ==> declares(self@, (#[trigger] row@[a]).id),
            decreases row@.len() - i,
        {
            if !self.has_component_id(row[i].id) {
                assert(!declares(self@, row@[i as int].id));
                return Err(ArchtypeError::ComponentNotInLayout);
            }
            i += 1;
        }
        let mut places: Vec<usize> = Vec::new();
        let mut c: usize = 0;
        while c < self.len()
            invariant
                c <= self@.len(),
                !has_duplicate(row@),
                !has_undeclared(self@, row@),
                places@.len() == c,
                forall|a: int| 0 <= a < c ==> supplies(row@, #[trigger] self@[a]),
                forall|a: int|
                    0 <= a < c ==> (#[trigger] places@[a]) == position(row@, self@[a].id),
            decreases self@.len() - c,
        {
            let meta = self.get(c).unwrap();
            match find_supply(row, meta) {
                Some(at) => {
                    proof {
                        lemma_position(row@, at as int);
                    }
                    places.push(at);
                },
                None => {
                    return Err(ArchtypeError::MalformedRow);
                },
            }
            c += 1;
        }
        Ok(places)
    }
}

} // verus!
