use crate::model::ArchtypeView;
use vstd::prelude::*;

verus! {

/// One value that is due for cleanup: the identity of its field type, its
/// row, and its bytes.
pub struct Destruction {
    pub id: u64,
    pub row: nat,
    pub bytes: Seq<u8>,
}

/// One value handed out for cleanup when its archetype is torn down.
#[derive(Debug)]
pub struct DestructorCall {
    /// The identity of the field type of the value.
    pub id: u64,
    /// The row that held the value.
    pub row: usize,
    /// The bytes of the value.
    pub bytes: Vec<u8>,
}

impl View for DestructorCall {
    type V = Destruction;

    open spec fn view(&self) -> Destruction {
        Destruction { id: self.id, row: self.row as nat, bytes: self.bytes@ }
    }
}

/// What each of `calls` stands for.
pub open spec fn calls_view(calls: Seq<DestructorCall>) -> Seq<Destruction> {
    calls.map_values(|call: DestructorCall| call@)
}

impl ArchtypeView {
    /// The values of column `c` that are due for cleanup, in row order: every
    /// value of the column where its field type has a destructor, none where
    /// it has not.
    pub open spec fn column_destructions(self, c: int) -> Seq<Destruction> {
        if self.layout[c].destructor {
            Seq::new(
                self.rows.len(),
                |r: int| Destruction { id: self.layout[c].id, row: r as nat, bytes: self.rows[r][c] },
            )
        } else {
            Seq::empty()
        }
    }

    /// The values of the first `n` columns that are due for cleanup, one
    /// sequence per column.
    pub open spec fn destructions_by_column(self, n: nat) -> Seq<Seq<Destruction>> {
        Seq::new(n, |c: int| self.column_destructions(c))
    }

    /// The values that are due for cleanup when the archetype is torn down,
    /// column after column.
    pub open spec fn destructions(self) -> Seq<Destruction> {
        self.destructions_by_column(self.layout.len()).flatten()
    }
}

/// The values among `calls` that are of the field type `id`.
pub open spec fn destructions_of(calls: Seq<Destruction>, id: u64) -> Seq<Destruction> {
    calls.filter(|call: Destruction| call.id == id)
}

/// Where every one of `calls` is of the field type `id`, all of them are
/// counted for it; where none is, none.
proof fn lemma_destructions_of_one_column(calls: Seq<Destruction>, column: u64, id: u64)
    requires
        forall|k: int| 0 <= k < calls.len() ==> (#[trigger] calls[k]).id == column,
    ensures
        destructions_of(calls, id).len() == if column == id {
            calls.len()
        } else {
            0
        },
    decreases calls.len(),
{
    reveal(Seq::filter);
    if calls.len() > 0 {
        let earlier = calls.drop_last();
        assert forall|k: int| 0 <= k < earlier.len() implies (#[trigger] earlier[k]).id
            == column by {
            assert(earlier[k] == calls[k]);
        }
        lemma_destructions_of_one_column(earlier, column, id);
        assert(calls.last() == calls[calls.len() - 1]);
    }
}

/// The count of the destructions of `id` among the first `n` columns.
proof fn lemma_accounting_upto(view: ArchtypeView, id: u64, n: nat)
    requires
        view.valid(),
        n <= view.layout.len(),
    ensures
        destructions_of(view.destructions_by_column(n).flatten(), id).len() == if exists|c: int|
            0 <= c < n && (#[trigger] view.layout[c]).id == id && view.layout[c].destructor {
            view.rows.len()
        } else {
            0
        },
    decreases n,
{
    let pred = |call: Destruction| call.id == id;
    if n == 0 {
        assert(view.destructions_by_column(0).flatten() =~= Seq::empty());
        lemma_destructions_of_one_column(Seq::empty(), id, id);
    } else {
        let last = n - 1;
        let earlier = view.destructions_by_column(last as nat);
        let due = view.column_destructions(last);
        lemma_accounting_upto(view, id, last as nat);
        assert(view.destructions_by_column(n) =~= earlier.push(due));
        earlier.lemma_flatten_push(due);
        Seq::filter_distributes_over_add(earlier.flatten(), due, pred);
        lemma_destructions_of_one_column(due, view.layout[last].id, id);
        if view.layout[last].id == id && view.layout[last].destructor {
            assert forall|c: int| 0 <= c < last implies !((#[trigger] view.layout[c]).id == id
                && view.layout[c].destructor) by {
                assert(view.layout[c].id != view.layout[last].id);
            }
        } else {
            assert(due.len() == 0 || view.layout[last].id != id);
        }
    }
}

/// Every value is accounted for once. Tearing down an archetype hands out,
/// for a field type with a destructor, as many values as the archetype has
/// rows, and none for a field type without one.
pub proof fn lemma_destructor_accounting(view: ArchtypeView, c: int)
    requires
        view.valid(),
        0 <= c < view.layout.len(),
    ensures
        destructions_of(view.destructions(), view.layout[c].id).len() == if view.layout[c].destructor {
            view.rows.len()
        } else {
            0
        },
{
    let id = view.layout[c].id;
    lemma_accounting_upto(view, id, view.layout.len());
    if !view.layout[c].destructor {
        assert forall|k: int| 0 <= k < view.layout.len() implies !((#[trigger] view.layout[k]).id
            == id && view.layout[k].destructor) by {
            if k < c {
                assert(view.layout[k].id != view.layout[c].id);
            } else if c < k {
                assert(view.layout[c].id != view.layout[k].id);
            }
        }
    }
}

} // verus!
