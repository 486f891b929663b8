//! Archetypes. An archetype is the unique set of component kinds carried by
//! a class of entities, split into its table-stored and its sparse-stored
//! kinds. Each archetype owns one table (under the same index) and a dense
//! range of [`ArchetypeComponentId`]s, one per component kind it carries;
//! those ids let two queries over the same component kind but disjoint
//! archetypes be recognised as non-conflicting. Archetypes are created
//! lazily, the first time a distinct component set appears, and are never
//! merged, split or removed.

use vstd::prelude::*;
use crate::component::ComponentId;
use crate::storage::Table;

verus! {

/// Identifier of one (archetype, component kind) pair, used for
/// fine-grained access-conflict detection.
#[derive(Clone, Copy, PartialEq, Eq, Structural, Hash, Debug)]
pub struct ArchetypeComponentId(pub usize);

impl ArchetypeComponentId {
    /// The dense index of this id.
    pub fn index(&self) -> (r: usize)
        ensures
            r == self.0,
    {
        self.0
    }
}

/// One archetype: its component set and the base of its dense range of
/// archetype-component ids.
pub struct Archetype {
    pub(crate) id: usize,
    pub(crate) table_components: Vec<ComponentId>,
    pub(crate) sparse_components: Vec<ComponentId>,
    pub(crate) acid_base: usize,
}

impl Archetype {
    /// This archetype's index; its table lives under the same index.
    pub closed spec fn sp_id(self) -> int {
        self.id as int
    }

    /// The table-stored component kinds, in strictly increasing order.
    pub closed spec fn sp_table_components(self) -> Seq<ComponentId> {
        self.table_components@
    }

    /// The sparse-stored component kinds, in strictly increasing order.
    pub closed spec fn sp_sparse_components(self) -> Seq<ComponentId> {
        self.sparse_components@
    }

    /// Does the archetype carry component kind `c` in its table?
    pub open spec fn sp_has_table_component(self, c: ComponentId) -> bool {
        self.sp_table_components().contains(c)
    }

    /// Does the archetype carry component kind `c` in a sparse set?
    pub open spec fn sp_has_sparse_component(self, c: ComponentId) -> bool {
        self.sp_sparse_components().contains(c)
    }

    /// Does the archetype carry component kind `c` at all?
    pub open spec fn sp_contains(self, c: ComponentId) -> bool {
        self.sp_has_table_component(c) || self.sp_has_sparse_component(c)
    }

    /// First archetype-component id of this archetype's dense range.
    pub closed spec fn sp_acid_base(self) -> int {
        self.acid_base as int
    }

    /// How many component kinds the archetype carries.
    pub open spec fn sp_component_count(self) -> int {
        self.sp_table_components().len() + self.sp_sparse_components().len() as int
    }

    /// Both component lists are strictly increasing and disjoint, and the
    /// id range does not overflow.
    pub closed spec fn wf(self) -> bool {
        &&& forall|p: int, q: int|
            0 <= p < q < self.table_components@.len() ==> self.table_components@[p].0
                < self.table_components@[q].0
        &&& forall|p: int, q: int|
            0 <= p < q < self.sparse_components@.len() ==> self.sparse_components@[p].0
                < self.sparse_components@[q].0
        &&& forall|p: int, q: int|
            0 <= p < self.table_components@.len() && 0 <= q < self.sparse_components@.len()
                ==> self.table_components@[p] != self.sparse_components@[q]
        &&& self.acid_base + self.table_components@.len() + self.sparse_components@.len()
            <= usize::MAX / 2
    }

    /// Number of table-stored component kinds.
    pub fn table_component_count(&self) -> (r: usize)
        ensures
            r == self.sp_table_components().len(),
    {
        self.table_components.len()
    }

    /// The table-stored component kinds.
    pub fn table_components(&self) -> (r: &Vec<ComponentId>)
        ensures
            r@ == self.sp_table_components(),
    {
        &self.table_components
    }

    /// The sparse-stored component kinds.
    pub fn sparse_components(&self) -> (r: &Vec<ComponentId>)
        ensures
            r@ == self.sp_sparse_components(),
    {
        &self.sparse_components
    }

    /// Does the archetype carry component kind `c`?
    pub fn contains(&self, c: ComponentId) -> (r: bool)
        ensures
            r == self.sp_contains(c),
    {
        contains_id(&self.table_components, c) || contains_id(&self.sparse_components, c)
    }

    /// The archetype-component id of kind `c` here, if the archetype
    /// carries it: table kinds first, then sparse kinds, each offset from
    /// the archetype's base.
    pub fn get_archetype_component_id(&self, c: ComponentId) -> (r: Option<ArchetypeComponentId>)
        requires
            self.wf(),
        ensures
            r is Some == self.sp_contains(c),
            r is Some ==> 2 * self.sp_acid_base() <= r.unwrap().0 < 2 * (self.sp_acid_base()
                + self.sp_component_count()),
            r is Some ==> r.unwrap().0 % 2 == 0,
    {
        match position_of(&self.table_components, c) {
            Some(k) => Some(ArchetypeComponentId(2 * (self.acid_base + k))),
            None => {
                match position_of(&self.sparse_components, c) {
                    Some(k) => Some(
                        ArchetypeComponentId(
                            2 * (self.acid_base + self.table_components.len() + k),
                        ),
                    ),
                    None => None,
                }
            },
        }
    }
}

/// Does the list contain `c`?
pub(crate) fn contains_id(v: &Vec<ComponentId>, c: ComponentId) -> (r: bool)
    ensures
        r == v@.contains(c),
{
    let n = v.len();
    let mut k: usize = 0;
    while k < n
        invariant
            k <= n,
            n == v@.len(),
            forall|j: int| 0 <= j < k ==> v@[j] != c,
        decreases n - k,
    {
        if v[k].0 == c.0 {
            proof {
                assert(v@[k as int] == c);
            }
            return true;
        }
        k += 1;
    }
    false
}

/// The position of `c` in the list, if it occurs.
pub(crate) fn position_of(v: &Vec<ComponentId>, c: ComponentId) -> (r: Option<usize>)
    ensures
        match r {
            Some(k) => k < v@.len() && v@[k as int] == c,
            None => !v@.contains(c),
        },
{
    let n = v.len();
    let mut k: usize = 0;
    while k < n
        invariant
            k <= n,
            n == v@.len(),
            forall|j: int| 0 <= j < k ==> v@[j] != c,
        decreases n - k,
    {
        if v[k].0 == c.0 {
            proof {
                assert(v@[k as int] == c);
            }
            return Some(k);
        }
        k += 1;
    }
    None
}

/// Insert `c` into a strictly increasing id list, keeping the order; a list
/// already containing `c` comes back unchanged.
pub(crate) fn insert_sorted(v: &Vec<ComponentId>, c: ComponentId) -> (r: Vec<ComponentId>)
    requires
        forall|p: int, q: int| 0 <= p < q < v@.len() ==> v@[p].0 < v@[q].0,
        v@.len() < usize::MAX,
    ensures
        forall|p: int, q: int| 0 <= p < q < r@.len() ==> r@[p].0 < r@[q].0,
        forall|x: ComponentId| r@.contains(x) == (v@.contains(x) || x == c),
        r@.contains(c),
        v@.contains(c) ==> r@ == v@,
        !v@.contains(c) ==> r@.len() == v@.len() + 1,
        !v@.contains(c) ==> exists|k: int|
            0 <= k <= v@.len() && r@ =~= v@.subrange(0, k).push(c) + v@.subrange(
                k,
                v@.len() as int,
            ),
{
    let n = v.len();
    let mut out: Vec<ComponentId> = Vec::new();
    let mut k: usize = 0;
    // copy the ids below `c`
    while k < n && v[k].0 < c.0
        invariant
            k <= n,
            n == v@.len(),
            forall|p: int, q: int| 0 <= p < q < v@.len() ==> v@[p].0 < v@[q].0,
            out@ == v@.subrange(0, k as int),
            forall|j: int| 0 <= j < k ==> v@[j].0 < c.0,
        decreases n - k,
    {
        out.push(v[k]);
        k += 1;
    }
    if k < n && v[k].0 == c.0 {
        // already present: hand the list back as it stands
        proof {
            assert(v@[k as int] == c);
            assert(v@.contains(c));
        }
        let mut copy: Vec<ComponentId> = out;
        let mut j: usize = k;
        while j < n
            invariant
                k <= j <= n,
                n == v@.len(),
                copy@ == v@.subrange(0, j as int),
            decreases n - j,
        {
            copy.push(v[j]);
            j += 1;
        }
        proof {
            assert(copy@ == v@);
        }
        copy
    } else {
        proof {
            assert forall|x: ComponentId| v@.contains(x) implies x != c by {
                let w = choose|w: int| 0 <= w < v@.len() && v@[w] == x;
                if w < k as int {
                    assert(v@[w].0 < c.0);
                } else if w == k as int {
                    assert(v@[w].0 > c.0 || v@[w].0 < c.0);
                } else {
                    assert(k < n ==> v@[k as int].0 < v@[w].0);
                    assert(k < n ==> v@[k as int].0 > c.0);
                }
            }
        }
        out.push(c);
        let ghost mid = out@;
        let mut j: usize = k;
        while j < n
            invariant
                k <= j <= n,
                n == v@.len(),
                out@ == mid + v@.subrange(k as int, j as int),
                mid == v@.subrange(0, k as int).push(c),
            decreases n - j,
        {
            out.push(v[j]);
            proof {
                assert(v@.subrange(k as int, j + 1) == v@.subrange(k as int, j as int).push(
                    v@[j as int],
                ));
            }
            j += 1;
        }
        proof {
            assert(out@ == v@.subrange(0, k as int).push(c) + v@.subrange(k as int, n as int));
            assert(out@ =~= v@.subrange(0, k as int).push(c) + v@.subrange(k as int, v@.len() as int));
            assert forall|p: int, q: int| 0 <= p < q < out@.len() implies out@[p].0
                < out@[q].0 by {
                assert(forall|w: int| 0 <= w < k ==> out@[w] == v@[w]);
                assert(out@[k as int] == c);
                assert(forall|w: int| k < w < out@.len() ==> out@[w] == v@[w - 1]);
                assert(forall|w: int| 0 <= w < k ==> v@[w].0 < c.0);
                assert(forall|w: int| k <= w < n ==> c.0 < v@[w].0);
            }
            assert forall|x: ComponentId| out@.contains(x) == (v@.contains(x) || x == c) by {
                if out@.contains(x) {
                    let w = choose|w: int| 0 <= w < out@.len() && out@[w] == x;
                    if w < k as int {
                        assert(v@[w] == x);
                        assert(v@.contains(x));
                    } else if w == k as int {
                        assert(x == c);
                    } else {
                        assert(v@[w - 1] == x);
                        assert(v@.contains(x));
                    }
                }
                if v@.contains(x) {
                    let w = choose|w: int| 0 <= w < v@.len() && v@[w] == x;
                    if w < k as int {
                        assert(out@[w] == x);
                        assert(out@.contains(x));
                    } else {
                        assert(out@[w + 1] == x);
                        assert(out@.contains(x));
                    }
                }
                if x == c {
                    assert(out@[k as int] == c);
                    assert(out@.contains(x));
                }
            }
        }
        out
    }
}

/// Are two id lists equal, element by element?
pub(crate) fn ids_equal(a: &Vec<ComponentId>, b: &Vec<ComponentId>) -> (r: bool)
    ensures
        r == (a@ =~= b@),
{
    let n = a.len();
    if n != b.len() {
        return false;
    }
    let mut k: usize = 0;
    while k < n
        invariant
            k <= n,
            n == a@.len(),
            n == b@.len(),
            forall|j: int| 0 <= j < k ==> a@[j] == b@[j],
        decreases n - k,
    {
        if a[k].0 != b[k].0 {
            return false;
        }
        proof {
            assert(a@[k as int] == b@[k as int]);
        }
        k += 1;
    }
    true
}

/// The registry of archetypes. Component sets are unique across the
/// registry, and the archetype-component id ranges of distinct archetypes
/// never overlap.
pub struct Archetypes {
    pub(crate) archetypes: Vec<Archetype>,
    pub(crate) next_acid: usize,
}

impl Archetypes {
    /// Archetype `a`.
    pub closed spec fn sp_archetype(self, a: int) -> Archetype {
        self.archetypes@[a]
    }

    /// How many archetypes exist.
    pub closed spec fn sp_len(self) -> int {
        self.archetypes@.len() as int
    }

    /// First archetype-component id not handed out yet.
    pub closed spec fn sp_next_acid(self) -> int {
        self.next_acid as int
    }

    /// Each archetype is well formed, sits at its own index, owns an id
    /// range below `next_acid` that does not collide with any other
    /// archetype's range, and no two archetypes share a component set.
    pub closed spec fn wf(self) -> bool {
        &&& forall|a: int|
            0 <= a < self.archetypes@.len() ==> (#[trigger] self.archetypes@[a]).wf()
                && self.archetypes@[a].id == a
        &&& forall|a: int|
            0 <= a < self.archetypes@.len()
                ==> (#[trigger] self.archetypes@[a]).sp_acid_base()
                + self.archetypes@[a].sp_component_count() <= self.next_acid
        &&& forall|a: int, b: int|
            0 <= a < b < self.archetypes@.len()
                ==> (#[trigger] self.archetypes@[a]).sp_acid_base()
                + self.archetypes@[a].sp_component_count()
                <= (#[trigger] self.archetypes@[b]).sp_acid_base()
        &&& forall|a: int, b: int|
            0 <= a < b < self.archetypes@.len() ==> !((#[trigger] self.archetypes@[a]).table_components@
                =~= (#[trigger] self.archetypes@[b]).table_components@
                && self.archetypes@[a].sparse_components@
                =~= self.archetypes@[b].sparse_components@)
    }

    /// An empty registry.
    pub fn new() -> (r: Archetypes)
        ensures
            r.wf(),
            r.sp_len() == 0,
            r.sp_next_acid() == 0,
    {
        Archetypes { archetypes: Vec::new(), next_acid: 0 }
    }

    /// How many archetypes exist.
    pub fn len(&self) -> (r: usize)
        ensures
            r == self.sp_len(),
    {
        self.archetypes.len()
    }

    /// Create the archetype with the given component lists, handing back
    /// its index. The caller guarantees that no archetype with that set
    /// exists yet.
    pub(crate) fn push_new(
        &mut self,
        table_ids: Vec<ComponentId>,
        sparse_ids: Vec<ComponentId>,
    ) -> (a: usize)
        requires
            old(self).wf(),
            forall|p: int, q: int|
                0 <= p < q < table_ids@.len() ==> table_ids@[p].0 < table_ids@[q].0,
            forall|p: int, q: int|
                0 <= p < q < sparse_ids@.len() ==> sparse_ids@[p].0 < sparse_ids@[q].0,
            forall|p: int, q: int|
                0 <= p < table_ids@.len() && 0 <= q < sparse_ids@.len() ==> table_ids@[p]
                    != sparse_ids@[q],
            old(self).sp_next_acid() + table_ids@.len() + sparse_ids@.len() <= usize::MAX / 2,
            old(self).sp_len() < usize::MAX,
            forall|b: int|
                0 <= b < old(self).sp_len() ==> !((#[trigger] old(self).sp_archetype(
                    b,
                )).sp_table_components() =~= table_ids@ && old(self).sp_archetype(
                    b,
                ).sp_sparse_components() =~= sparse_ids@),
        ensures
            final(self).wf(),
            final(self).sp_len() == old(self).sp_len() + 1,
            (a as int) == old(self).sp_len(),
            final(self).sp_archetype(a as int).sp_table_components() == table_ids@,
            final(self).sp_archetype(a as int).sp_sparse_components() == sparse_ids@,
            forall|b: int|
                0 <= b < old(self).sp_len() ==> final(self).sp_archetype(b) == old(
                    self,
                ).sp_archetype(b),
            final(self).sp_next_acid() <= old(self).sp_next_acid() + table_ids@.len()
                + sparse_ids@.len(),
            old(self).sp_next_acid() <= final(self).sp_next_acid(),
    {
        let n = self.archetypes.len();
        let base = self.next_acid;
        let count = table_ids.len() + sparse_ids.len();
        let arch = Archetype {
            id: n,
            table_components: table_ids,
            sparse_components: sparse_ids,
            acid_base: base,
        };
        self.archetypes.push(arch);
        self.next_acid = base + count;
        proof {
            assert(forall|b: int|
                0 <= b < n ==> (#[trigger] self.archetypes@[b]) == old(self).archetypes@[b]);
            assert(self.archetypes@[n as int].wf());
            assert forall|b: int, b2: int|
                0 <= b < b2 < self.archetypes@.len() implies !((
            #[trigger] self.archetypes@[b]).table_components@ == (
            #[trigger] self.archetypes@[b2]).table_components@ && self.archetypes@[b].sparse_components@
                == self.archetypes@[b2].sparse_components@) by {
                if b2 == n as int {
                    assert(!(old(self).sp_archetype(b).sp_table_components()
                        =~= self.archetypes@[n as int].table_components@ && old(
                        self,
                    ).sp_archetype(b).sp_sparse_components()
                        =~= self.archetypes@[n as int].sparse_components@));
                }
            }
            assert forall|b: int, b2: int|
                0 <= b < b2 < self.archetypes@.len() implies (
            #[trigger] self.archetypes@[b]).sp_acid_base()
                + self.archetypes@[b].sp_component_count() <= (
            #[trigger] self.archetypes@[b2]).sp_acid_base() by {
                if b2 == n as int {
                    assert(old(self).sp_archetype(b).sp_acid_base() + old(self).sp_archetype(
                        b,
                    ).sp_component_count() <= old(self).sp_next_acid());
                }
            }
        }
        n
    }

    /// Archetype `a`.
    pub fn get(&self, a: usize) -> (r: &Archetype)
        requires
            a < self.sp_len(),
        ensures
            *r == self.sp_archetype(a as int),
    {
        &self.archetypes[a]
    }
}

/// A well-formed archetype has strictly increasing, disjoint component
/// lists.
pub broadcast proof fn lemma_archetype_wf_facts(ar: Archetype)
    ensures
        #[trigger] ar.wf() ==> (forall|p: int, q: int|
            0 <= p < q < ar.sp_table_components().len() ==> (
            #[trigger] ar.sp_table_components()[p]).0 < (
            #[trigger] ar.sp_table_components()[q]).0) && (forall|p: int, q: int|
            0 <= p < q < ar.sp_sparse_components().len() ==> (
            #[trigger] ar.sp_sparse_components()[p]).0 < (
            #[trigger] ar.sp_sparse_components()[q]).0) && (forall|p: int, q: int|
            0 <= p < ar.sp_table_components().len() && 0 <= q < ar.sp_sparse_components().len()
                ==> (#[trigger] ar.sp_table_components()[p]) != (
            #[trigger] ar.sp_sparse_components()[q])),
{
}

/// In a well-formed registry every archetype is well formed and sits at
/// its own index.
pub broadcast proof fn lemma_archetypes_index_wf(s: Archetypes, a: int)
    ensures
        s.wf() && 0 <= a < s.sp_len() ==> (#[trigger] s.sp_archetype(a)).wf() && s.sp_archetype(
            a,
        ).sp_id() == a,
{
}

/// The archetype-component counter never goes negative.
pub broadcast proof fn lemma_next_acid_nonneg(s: Archetypes)
    ensures
        #[trigger] s.sp_next_acid() >= 0,
{
}

/// In a well-formed registry no two archetypes share a component set.
pub proof fn lemma_archetypes_sets_unique(s: Archetypes, a: int, b: int)
    requires
        s.wf(),
        0 <= a < s.sp_len(),
        0 <= b < s.sp_len(),
        a != b,
    ensures
        !(s.sp_archetype(a).sp_table_components() =~= s.sp_archetype(b).sp_table_components()
            && s.sp_archetype(a).sp_sparse_components() =~= s.sp_archetype(
            b,
        ).sp_sparse_components()),
{
}

} // verus!
