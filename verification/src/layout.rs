use crate::component::{describes, Component, ComponentMeta};
use crate::error::ArchtypeError;
use vstd::prelude::*;

verus! {

/// Whether one of `metas` carries the identity `id`.
pub open spec fn declares(metas: Seq<ComponentMeta>, id: u64) -> bool {
    exists|i: int| 0 <= i < metas.len() && (#[trigger] metas[i]).id == id
}

/// No two of `metas` carry the same identity.
pub open spec fn distinct_identities(metas: Seq<ComponentMeta>) -> bool {
    forall|i: int, j: int|
        0 <= i < j < metas.len() ==> (#[trigger] metas[i]).id != (#[trigger] metas[j]).id
}

/// Whether `r` and `after` are what declaring `meta` behind `before` gives: the
/// duplicate refused and nothing changed, or `meta` appended.
pub open spec fn declared(
    before: Seq<ComponentMeta>,
    meta: ComponentMeta,
    r: Result<(), ArchtypeError>,
    after: Seq<ComponentMeta>,
) -> bool {
    if declares(before, meta.id) {
        r == Err::<(), ArchtypeError>(ArchtypeError::DuplicateComponent) && after == before
    } else {
        r == Ok::<(), ArchtypeError>(()) && after == before.push(meta)
    }
}

/// The identities that `metas` carry, as a set.
pub open spec fn identities(metas: Seq<ComponentMeta>) -> Set<u64> {
    Set::new(|id: u64| declares(metas, id))
}

/// The same field types in another order carry the same identities.
pub proof fn lemma_identities_ignore_order(first: Seq<ComponentMeta>, second: Seq<ComponentMeta>)
    requires
        first.to_multiset() == second.to_multiset(),
    ensures
        identities(first) == identities(second),
{
    broadcast use vstd::seq_lib::to_multiset_contains;

    assert forall|id: u64| declares(first, id) == declares(second, id) by {
        if declares(first, id) {
            let i = choose|i: int| 0 <= i < first.len() && (#[trigger] first[i]).id == id;
            assert(first.contains(first[i]));
            assert(second.to_multiset().contains(first[i]));
            assert(second.contains(first[i]));
            let j = choose|j: int| 0 <= j < second.len() && second[j] == first[i];
            assert(second[j].id == id);
        }
        if declares(second, id) {
            let i = choose|i: int| 0 <= i < second.len() && (#[trigger] second[i]).id == id;
            assert(second.contains(second[i]));
            assert(first.to_multiset().contains(second[i]));
            assert(first.contains(second[i]));
            let j = choose|j: int| 0 <= j < first.len() && first[j] == second[i];
            assert(first[j].id == id);
        }
    }
    assert(identities(first) =~= identities(second));
}

/// Matching does not depend on order. Two layouts that declare the same
/// field types, in whatever order each was built, give the same answer, and
/// so do two lists that name the same identities.
pub proof fn lemma_matches_ignores_order(
    first: Layout,
    second: Layout,
    ids: Seq<u64>,
    others: Seq<u64>,
)
    requires
        first@.to_multiset() == second@.to_multiset(),
        ids.to_set() == others.to_set(),
    ensures
        first.spec_matches(ids) == second.spec_matches(others),
{
    lemma_identities_ignore_order(first@, second@);
}

/// The field types of an archetype, in the order of its columns. No two of
/// them have the same identity.
pub struct Layout {
    components: Vec<ComponentMeta>,
}

impl View for Layout {
    type V = Seq<ComponentMeta>;

    closed spec fn view(&self) -> Seq<ComponentMeta> {
        self.components@
    }
}

/// Whether `ids` holds `id`.
fn slice_contains(ids: &[u64], id: u64) -> (found: bool)
    ensures
        found == ids@.contains(id),
{
    let mut k: usize = 0;
    while k < ids.len()
        invariant
            k <= ids@.len(),
            forall|j: int| 0 <= j < k ==> ids@[j] != id,
        decreases ids@.len() - k,
    {
        if ids[k] == id {
            return true;
        }
        k += 1;
    }
    false
}

impl Layout {
    /// The invariant of every layout: no identity is declared twice.
    pub open spec fn wf(&self) -> bool {
        distinct_identities(self@)
    }

    /// The identities of the declared field types.
    pub open spec fn identities(&self) -> Set<u64> {
        identities(self@)
    }

    /// What `matches` answers for the identities `ids`: whether they are, as
    /// a set, the identities of this layout.
    pub open spec fn spec_matches(&self, ids: Seq<u64>) -> bool {
        self.identities() == ids.to_set()
    }

    /// The layout without field types.
    pub fn new() -> (layout: Layout)
        ensures
            layout@ == Seq::<ComponentMeta>::empty(),
            layout.wf(),
    {
        Layout { components: Vec::new() }
    }

    /// The number of declared field types.
    pub fn len(&self) -> (n: usize)
        ensures
            n == self@.len(),
    {
        self.components.len()
    }

    /// The descriptor of column `column`, where there is such a column.
    pub fn get(&self, column: usize) -> (meta: Option<ComponentMeta>)
        ensures
            meta == if column < self@.len() {
                Some(self@[column as int])
            } else {
                None
            },
    {
        if column < self.components.len() {
            Some(self.components[column])
        } else {
            None
        }
    }

    /// The column of the field type `id`, where the layout declares it.
    pub fn index_of(&self, id: u64) -> (column: Option<usize>)
        ensures
            match column {
                Some(c) => c < self@.len() && self@[c as int].id == id,
                None => !declares(self@, id),
            },
    {
        let mut k: usize = 0;
        while k < self.components.len()
            invariant
                k <= self.components@.len(),
                forall|j: int| 0 <= j < k ==> (#[trigger] self.components@[j]).id != id,
            decreases self.components@.len() - k,
        {
            if self.components[k].id == id {
                return Some(k);
            }
            k += 1;
        }
        None
    }

    /// Declares the field type that `meta` describes, behind those already
    /// declared. A field type whose identity is already declared is refused.
    pub fn add_component_meta(&mut self, meta: ComponentMeta) -> (r: Result<(), ArchtypeError>)
        requires
            old(self).wf(),
        ensures
            final(self).wf(),
            declared(old(self)@, meta, r, final(self)@),
    {
        match self.index_of(meta.id) {
            Some(_) => Err(ArchtypeError::DuplicateComponent),
            None => {
                self.components.push(meta);
                Ok(())
            },
        }
    }

    /// Declares the field type `C`, behind those already declared. Its
    /// identity is the one `C` names; where the layout declares that
    /// identity already, `C` is refused and the layout stays as it was.
    pub fn add_component<C: Component>(&mut self) -> (r: Result<(), ArchtypeError>)
        requires
            old(self).wf(),
        ensures
            final(self).wf(),
            exists|meta: ComponentMeta|
                describes::<C>(meta) && #[trigger] declared(old(self)@, meta, r, final(self)@),
    {
        let meta = ComponentMeta::of::<C>();
        self.add_component_meta(meta)
    }

    /// Whether the layout declares the field type `id`.
    pub fn has_component_id(&self, id: u64) -> (found: bool)
        ensures
            found == self.identities().contains(id),
    {
        self.index_of(id).is_some()
    }

    /// Whether the layout declares the field type `C`, by the identity that
    /// `C` names.
    pub fn has_component<C: Component>(&self) -> (found: bool)
        ensures
            exists|id: u64|
                #[trigger] call_ensures(C::type_identity, (), id) && found
                    == self.identities().contains(id),
    {
        let id = C::type_identity();
        self.has_component_id(id)
    }

    /// Whether `components`, read as a set, holds exactly the identities of
    /// this layout. Neither the order of `components` nor the order in which
    /// the layout was built matters.
    pub fn matches(&self, components: &[u64]) -> (same: bool)
        ensures
            same == self.spec_matches(components@),
    {
        let mut k: usize = 0;
        while k < components.len()
            invariant
                k <= components@.len(),
                forall|j: int| 0 <= j < k ==> declares(self@, #[trigger] components@[j]),
            decreases components@.len() - k,
        {
            if !self.has_component_id(components[k]) {
                assert(components@.to_set().contains(components@[k as int]));
                assert(!self.identities().contains(components@[k as int]));
                return false;
            }
            k += 1;
        }
        let mut c: usize = 0;
        while c < self.components.len()
            invariant
                c <= self.components@.len(),
                forall|j: int|
                    0 <= j < components@.len() ==> declares(self@, #[trigger] components@[j]),
                forall|j: int|
                    0 <= j < c ==> components@.contains((#[trigger] self.components@[j]).id),
            decreases self.components@.len() - c,
        {
            if !slice_contains(components, self.components[c].id) {
                assert(self.identities().contains(self@[c as int].id));
                assert(!components@.to_set().contains(self@[c as int].id));
                return false;
            }
            c += 1;
        }
        assert(self.identities() =~= components@.to_set());
        true
    }
}

} // verus!
