//! The query engine. A query declares terms (component kinds it reads or
//! writes) and filters (kinds required present, absent, changed or added);
//! its state carries the resulting filtered access. Matching is decided per
//! archetype by a cheap id-set test, then per entity for the tick-driven
//! filters; fetching hands out the stored values of matching entities.

use vstd::prelude::*;
use crate::access::{Access, FilteredAccess};
use crate::archetype::Archetype;
use crate::component::ComponentId;
use crate::entity::Entity;
use crate::tick::{ComponentTicks, tick_in_window};
use crate::world::World;

verus! {

/// One fetched term of a query: shared or exclusive access to a kind.
#[derive(Clone, Copy, PartialEq, Eq, Structural, Debug)]
pub enum QueryTerm {
    Read(ComponentId),
    Write(ComponentId),
}

impl QueryTerm {
    /// The component kind the term touches.
    pub open spec fn sp_id(self) -> ComponentId {
        match self {
            QueryTerm::Read(c) => c,
            QueryTerm::Write(c) => c,
        }
    }

    /// Does the term take exclusive access?
    pub open spec fn sp_writes(self) -> bool {
        self is Write
    }
}

/// One filter of a query. Filters restrict which entities match; they
/// never change which components are fetched.
#[derive(Clone, Copy, PartialEq, Eq, Structural, Debug)]
pub enum QueryFilter {
    With(ComponentId),
    Without(ComponentId),
    Changed(ComponentId),
    Added(ComponentId),
}

/// The baked state of one query: its terms, its filters, and the filtered
/// access computed from them.
pub struct QueryState {
    terms: Vec<QueryTerm>,
    filters: Vec<QueryFilter>,
    component_access: FilteredAccess,
}

/// Does entity `e` of world `w` satisfy one filter, judged against the
/// window `(last, now)`?
pub open spec fn sp_filter_matches(
    w: World,
    e: Entity,
    f: QueryFilter,
    last: u32,
    now: u32,
) -> bool {
    match f {
        QueryFilter::With(c) => w.sp_has_component(e, c),
        QueryFilter::Without(c) => !w.sp_has_component(e, c),
        QueryFilter::Changed(c) => w.sp_has_component(e, c) && tick_in_window(
            w.sp_ticks_of(e, c).changed,
            last,
            now,
        ),
        QueryFilter::Added(c) => w.sp_has_component(e, c) && tick_in_window(
            w.sp_ticks_of(e, c).added,
            last,
            now,
        ),
    }
}

impl QueryState {
    /// The terms.
    pub closed spec fn sp_terms(self) -> Seq<QueryTerm> {
        self.terms@
    }

    /// The filters.
    pub closed spec fn sp_filters(self) -> Seq<QueryFilter> {
        self.filters@
    }

    /// The computed filtered access.
    pub closed spec fn sp_access(self) -> FilteredAccess {
        self.component_access
    }

    /// Does entity `e` match the query in world `w`, judged against the
    /// window `(last, now)`?
    pub open spec fn sp_matches(self, w: World, e: Entity, last: u32, now: u32) -> bool {
        &&& w.sp_live(e)
        &&& forall|k: int|
            0 <= k < self.sp_terms().len() ==> w.sp_has_component(
                e,
                (#[trigger] self.sp_terms()[k]).sp_id(),
            )
        &&& forall|k: int|
            0 <= k < self.sp_filters().len() ==> sp_filter_matches(
                w,
                e,
                #[trigger] self.sp_filters()[k],
                last,
                now,
            )
    }

    /// Bake a query from its terms and filters, computing its access.
    /// Within one query shared and exclusive access to the same kind must
    /// not mix: the first term that collides with an earlier one is
    /// reported, exactly as its id.
    pub fn new(terms: Vec<QueryTerm>, filters: Vec<QueryFilter>) -> (r: Result<
        QueryState,
        ComponentId,
    >)
        ensures
            match r {
                Ok(q) => {
                    &&& q.sp_terms() == terms@
                    &&& q.sp_filters() == filters@
                    &&& !q.sp_access().sp_access().sp_reads_all()
                    &&& forall|i: int|
                        q.sp_access().sp_access().sp_declares(i) == exists|k: int|
                            0 <= k < terms@.len() && (#[trigger] terms@[k]).sp_id().0 == i
                    &&& forall|i: int|
                        q.sp_access().sp_access().sp_has_write(i) == exists|k: int|
                            0 <= k < terms@.len() && (#[trigger] terms@[k]).sp_id().0 == i
                                && terms@[k].sp_writes()
                    &&& forall|p: int, q2: int|
                        0 <= p < q2 < terms@.len() ==> (#[trigger] terms@[p]).sp_id() != (
                        #[trigger] terms@[q2]).sp_id() || (!terms@[p].sp_writes() && !terms@[
                            q2].sp_writes())
                },
                Err(c) => exists|p: int, q2: int|
                    0 <= p < q2 < terms@.len() && ((#[trigger] terms@[p]).sp_id() == (
                    #[trigger] terms@[q2]).sp_id()) && (terms@[p].sp_writes()
                        || terms@[q2].sp_writes()) && terms@[q2].sp_id() == c,
            },
            // a same-kind pair with a write is always refused; clean term
            // lists are always accepted
            r is Err == !(forall|p: int, q2: int|
                0 <= p < q2 < terms@.len() ==> (#[trigger] terms@[p]).sp_id() != (
                #[trigger] terms@[q2]).sp_id() || (!terms@[p].sp_writes() && !terms@[
                    q2].sp_writes())),
    {
        let mut access = FilteredAccess::new();
        let n = terms.len();
        let mut k: usize = 0;
        while k < n
            invariant
                k <= n,
                n == terms@.len(),
                forall|p: int|
                    0 <= p < k ==> access.sp_access().sp_declares(
                        (#[trigger] terms@[p]).sp_id().0 as int,
                    ),
                forall|p: int|
                    0 <= p < k && (#[trigger] terms@[p]).sp_writes()
                        ==> access.sp_access().sp_has_write(terms@[p].sp_id().0 as int),
                forall|i: int|
                    access.sp_access().sp_declares(i) ==> exists|p: int|
                        0 <= p < k && (#[trigger] terms@[p]).sp_id().0 == i,
                forall|i: int|
                    access.sp_access().sp_has_write(i) ==> exists|p: int|
                        0 <= p < k && (#[trigger] terms@[p]).sp_id().0 == i && terms@[
                            p].sp_writes(),
                !access.sp_access().sp_reads_all(),
                forall|p: int, q2: int|
                    0 <= p < q2 < k ==> (#[trigger] terms@[p]).sp_id() != (
                    #[trigger] terms@[q2]).sp_id() || (!terms@[p].sp_writes() && !terms@[
                        q2].sp_writes()),
            decreases n - k,
        {
            let term = terms[k];
            let ghost acc0 = access;
            match term {
                QueryTerm::Read(c) => {
                    if access.access().has_write(c.0) {
                        proof {
                            assert(access.sp_access().sp_has_write(c.0 as int));
                            assert(exists|p: int|
                                0 <= p < k && (#[trigger] terms@[p]).sp_id().0 == c.0 as int
                                    && terms@[p].sp_writes());
                            let p = choose|p: int|
                                0 <= p < k && (#[trigger] terms@[p]).sp_id().0 == c.0 as int
                                    && terms@[p].sp_writes();
                            assert(terms@[p].sp_id() == c);
                            assert(terms@[k as int] == term);
                            assert(terms@[k as int].sp_id() == c);
                            assert(0 <= p < k as int && (terms@[p].sp_id() == terms@[
                                k as int].sp_id()) && (terms@[p].sp_writes() || terms@[
                                k as int].sp_writes()) && terms@[k as int].sp_id() == c);
                        }
                        return Err(c);
                    }
                    access.add_read(c.0);
                },
                QueryTerm::Write(c) => {
                    if access.access().has_read(c.0) {
                        proof {
                            assert(access.sp_access().sp_declares(c.0 as int));
                            assert(exists|p: int|
                                0 <= p < k && (#[trigger] terms@[p]).sp_id().0 == c.0 as int);
                            let p = choose|p: int|
                                0 <= p < k && (#[trigger] terms@[p]).sp_id().0 == c.0 as int;
                            assert(terms@[p].sp_id() == c);
                            assert(terms@[k as int] == term);
                            assert(terms@[k as int].sp_id() == c);
                            assert(terms@[k as int].sp_writes());
                            assert(0 <= p < k as int && (terms@[p].sp_id() == terms@[
                                k as int].sp_id()) && (terms@[p].sp_writes() || terms@[
                                k as int].sp_writes()) && terms@[k as int].sp_id() == c);
                        }
                        return Err(c);
                    }
                    access.add_write(c.0);
                },
            }
            proof {
                assert(terms@[k as int] == term);
                assert forall|p: int|
                    0 <= p < k implies ((#[trigger] terms@[p]).sp_id() != terms@[
                    k as int].sp_id() || (!terms@[p].sp_writes() && !terms@[
                    k as int].sp_writes())) by {
                    if terms@[p].sp_id() == terms@[k as int].sp_id() {
                        match term {
                            QueryTerm::Read(c) => {
                                if terms@[p].sp_writes() {
                                    assert(acc0.sp_access().sp_has_write(c.0 as int));
                                }
                            },
                            QueryTerm::Write(c) => {
                                assert(acc0.sp_access().sp_declares(c.0 as int));
                            },
                        }
                    }
                }
            }
            k += 1;
        }
        let mut f: usize = 0;
        let nf = filters.len();
        let ghost access_done = access;
        while f < nf
            invariant
                f <= nf,
                nf == filters@.len(),
                access.sp_access() == access_done.sp_access(),
            decreases nf - f,
        {
            match filters[f] {
                QueryFilter::With(c) => access.add_with(c.0),
                QueryFilter::Without(c) => access.add_without(c.0),
                QueryFilter::Changed(c) => access.add_with(c.0),
                QueryFilter::Added(c) => access.add_with(c.0),
            }
            f += 1;
        }
        Ok(QueryState { terms, filters, component_access: access })
    }

    /// A borrow of the computed filtered access.
    pub fn component_access(&self) -> (r: &FilteredAccess)
        ensures
            *r == self.sp_access(),
    {
        &self.component_access
    }

    /// The cheap per-archetype test: do the id sets allow a match?
    pub fn matches_archetype(&self, arch: &Archetype) -> (r: bool)
        ensures
            r == {
                &&& forall|k: int|
                    0 <= k < self.sp_terms().len() ==> arch.sp_contains(
                        (#[trigger] self.sp_terms()[k]).sp_id(),
                    )
                &&& forall|k: int|
                    0 <= k < self.sp_filters().len() ==> match #[trigger] self.sp_filters()[k] {
                        QueryFilter::With(c) => arch.sp_contains(c),
                        QueryFilter::Without(c) => !arch.sp_contains(c),
                        QueryFilter::Changed(c) => arch.sp_contains(c),
                        QueryFilter::Added(c) => arch.sp_contains(c),
                    }
            },
    {
        let n = self.terms.len();
        let mut k: usize = 0;
        while k < n
            invariant
                k <= n,
                n == self.sp_terms().len(),
                forall|p: int|
                    0 <= p < k ==> arch.sp_contains((#[trigger] self.sp_terms()[p]).sp_id()),
            decreases n - k,
        {
            let c = match self.terms[k] {
                QueryTerm::Read(c) => c,
                QueryTerm::Write(c) => c,
            };
            if !arch.contains(c) {
                proof {
                    assert(self.sp_terms()[k as int].sp_id() == c);
                }
                return false;
            }
            proof {
                assert(self.sp_terms()[k as int].sp_id() == c);
            }
            k += 1;
        }
        let nf = self.filters.len();
        let mut j: usize = 0;
        while j < nf
            invariant
                j <= nf,
                nf == self.sp_filters().len(),
                forall|p: int|
                    0 <= p < self.sp_terms().len() ==> arch.sp_contains(
                        (#[trigger] self.sp_terms()[p]).sp_id(),
                    ),
                forall|p: int|
                    0 <= p < j ==> match #[trigger] self.sp_filters()[p] {
                        QueryFilter::With(c) => arch.sp_contains(c),
                        QueryFilter::Without(c) => !arch.sp_contains(c),
                        QueryFilter::Changed(c) => arch.sp_contains(c),
                        QueryFilter::Added(c) => arch.sp_contains(c),
                    },
            decreases nf - j,
        {
            let ok = match self.filters[j] {
                QueryFilter::With(c) => arch.contains(c),
                QueryFilter::Without(c) => !arch.contains(c),
                QueryFilter::Changed(c) => arch.contains(c),
                QueryFilter::Added(c) => arch.contains(c),
            };
            if !ok {
                return false;
            }
            j += 1;
        }
        true
    }

    /// Does entity `e` pass the per-entity tick filters?
    fn entity_passes_filters(&self, w: &World, e: Entity, last: u32, now: u32) -> (r: bool)
        requires
            w.wf(),
        ensures
            r == forall|k: int|
                0 <= k < self.sp_filters().len() ==> sp_filter_matches(
                    *w,
                    e,
                    #[trigger] self.sp_filters()[k],
                    last,
                    now,
                ),
    {
        let nf = self.filters.len();
        let mut j: usize = 0;
        while j < nf
            invariant
                j <= nf,
                nf == self.sp_filters().len(),
                w.wf(),
                forall|p: int|
                    0 <= p < j ==> sp_filter_matches(
                        *w,
                        e,
                        #[trigger] self.sp_filters()[p],
                        last,
                        now,
                    ),
            decreases nf - j,
        {
            let ok = match self.filters[j] {
                QueryFilter::With(c) => w.get_component(e, c).is_some(),
                QueryFilter::Without(c) => w.get_component(e, c).is_none(),
                QueryFilter::Changed(c) => {
                    match w.get_component_ticks(e, c) {
                        Some(t) => t.is_changed(last, now),
                        None => false,
                    }
                },
                QueryFilter::Added(c) => {
                    match w.get_component_ticks(e, c) {
                        Some(t) => t.is_added(last, now),
                        None => false,
                    }
                },
            };
            proof {
                World::lemma_component_presence(*w, e);
            }
            if !ok {
                return false;
            }
            j += 1;
        }
        true
    }

    /// Every entity that matches the query, judged against the window
    /// `(last, now)`, each exactly once.
    #[verifier::rlimit(100)]
    #[verifier::spinoff_prover]
    pub fn query_entities(&self, w: &World, last: u32, now: u32) -> (r: Vec<Entity>)
        requires
            w.wf(),
        ensures
            forall|e: Entity| r@.contains(e) == self.sp_matches(*w, e, last, now),
            forall|p: int, q2: int| 0 <= p < q2 < r@.len() ==> r@[p] != r@[q2],
    {
        let mut out: Vec<Entity> = Vec::new();
        let na = w.archetype_count();
        let mut a: usize = 0;
        proof {
            assert forall|e: Entity| #![trigger out@.contains(e)]
                out@.contains(e) == (self.sp_matches(*w, e, last, now) && w.sp_archetype_of(e)
                    < 0) by {
                if self.sp_matches(*w, e, last, now) {
                    World::lemma_live_located(*w, e);
                }
            }
        }
        while a < na
            invariant
                a <= na,
                na as int == w.sp_archetype_count(),
                w.wf(),
                forall|e: Entity| #![trigger out@.contains(e)]
                    out@.contains(e) == (self.sp_matches(*w, e, last, now) && w.sp_archetype_of(e)
                        < a),
                forall|p: int, q2: int| 0 <= p < q2 < out@.len() ==> out@[p] != out@[q2],
            decreases na - a,
        {
            if self.matches_archetype(w.archetype_ref(a)) {
                let nr = w.archetype_row_count(a);
                let mut row: usize = 0;
                proof {
                    assert forall|e: Entity| #![trigger out@.contains(e)]
                        out@.contains(e) == (self.sp_matches(*w, e, last, now) && (
                        w.sp_archetype_of(e) < a || (w.sp_archetype_of(e) == a && w.sp_row_of(e)
                            < 0))) by {
                        if self.sp_matches(*w, e, last, now) {
                            World::lemma_live_located(*w, e);
                        }
                    }
                }
                while row < nr
                    invariant
                        row <= nr,
                        a < na,
                        na as int == w.sp_archetype_count(),
                        nr as int == w.sp_rows(a as int).len(),
                        w.wf(),
                        forall|k: int|
                            0 <= k < self.sp_terms().len() ==> w.sp_archetype(
                                a as int,
                            ).sp_contains((#[trigger] self.sp_terms()[k]).sp_id()),
                        forall|e: Entity| #![trigger out@.contains(e)]
                            out@.contains(e) == (self.sp_matches(*w, e, last, now) && (
                            w.sp_archetype_of(e) < a || (w.sp_archetype_of(e) == a && w.sp_row_of(
                                e,
                            ) < row))),
                        forall|p: int, q2: int| 0 <= p < q2 < out@.len() ==> out@[p] != out@[q2],
                    decreases nr - row,
                {
                    let e = w.archetype_row_entity(a, row);
                    proof {
                        World::lemma_row_entity(*w, a as int, row as int);
                    }
                    let passes = self.entity_passes_filters(w, e, last, now);
                    let ghost prev = out@;
                    if passes {
                        out.push(e);
                        proof {
                            assert(out@[out@.len() - 1] == e);
                            assert(self.sp_matches(*w, e, last, now));
                            assert(!prev.contains(e));
                            assert forall|e2: Entity|
                                out@.contains(e2) == (prev.contains(e2) || e2 == e) by {
                                if out@.contains(e2) {
                                    let w2 = choose|w2: int|
                                        0 <= w2 < out@.len() && out@[w2] == e2;
                                    if w2 < prev.len() {
                                        assert(prev[w2] == e2);
                                        assert(prev.contains(e2));
                                    }
                                }
                                if prev.contains(e2) {
                                    let w2 = choose|w2: int|
                                        0 <= w2 < prev.len() && prev[w2] == e2;
                                    assert(out@[w2] == e2);
                                }
                                if e2 == e {
                                    assert(out@.contains(e2));
                                }
                            }
                            assert forall|p: int, q2: int|
                                0 <= p < q2 < out@.len() implies out@[p] != out@[q2] by {
                                if q2 == out@.len() - 1 {
                                    assert(prev[p] == out@[p]);
                                    assert(prev.contains(out@[p]));
                                } else {
                                    assert(prev[p] == out@[p] && prev[q2] == out@[q2]);
                                }
                            }
                        }
                    } else {
                        proof {
                            assert(!self.sp_matches(*w, e, last, now));
                        }
                    }
                    proof {
                        assert forall|e2: Entity| #![trigger out@.contains(e2)]
                            out@.contains(e2) == (self.sp_matches(*w, e2, last, now) && (
                            w.sp_archetype_of(e2) < a || (w.sp_archetype_of(e2) == a
                                && w.sp_row_of(e2) < row + 1))) by {
                            assert(prev.contains(e2) == (self.sp_matches(*w, e2, last, now) && (
                            w.sp_archetype_of(e2) < a || (w.sp_archetype_of(e2) == a
                                && w.sp_row_of(e2) < row))));
                            if passes {
                                assert(out@.contains(e2) == (prev.contains(e2) || e2 == e));
                            } else {
                                assert(out@ == prev);
                            }
                            if e2 == e {
                                assert(w.sp_archetype_of(e2) == a as int);
                                assert(w.sp_row_of(e2) == row as int);
                                if passes {
                                    assert(out@.contains(e2));
                                    assert(self.sp_matches(*w, e2, last, now));
                                } else {
                                    assert(!self.sp_matches(*w, e2, last, now));
                                    assert(!prev.contains(e2));
                                    assert(!out@.contains(e2));
                                }
                            } else {
                                if self.sp_matches(*w, e2, last, now) && w.sp_archetype_of(e2)
                                    == a && w.sp_row_of(e2) == row as int {
                                    World::lemma_live_located(*w, e2);
                                    assert(w.sp_rows(a as int)[row as int] == e2);
                                    assert(e2 == e);
                                }
                            }
                        }
                    }
                    row += 1;
                }
                proof {
                    assert forall|e2: Entity| #![trigger out@.contains(e2)]
                        out@.contains(e2) == (self.sp_matches(*w, e2, last, now)
                            && w.sp_archetype_of(e2) < a + 1) by {
                        if self.sp_matches(*w, e2, last, now) && w.sp_archetype_of(e2) == a as int {
                            World::lemma_live_located(*w, e2);
                        }
                    }
                }
            } else {
                proof {
                    assert forall|e2: Entity| #![trigger out@.contains(e2)]
                        out@.contains(e2) == (self.sp_matches(*w, e2, last, now)
                            && w.sp_archetype_of(e2) < a + 1) by {
                        if self.sp_matches(*w, e2, last, now) && w.sp_archetype_of(e2) == a as int {
                            World::lemma_live_located(*w, e2);
                            let e2a = w.sp_archetype(a as int);
                            assert(forall|k: int|
                                0 <= k < self.sp_terms().len() ==> w.sp_has_component(
                                    e2,
                                    (#[trigger] self.sp_terms()[k]).sp_id(),
                                ));
                            assert forall|k: int|
                                0 <= k < self.sp_terms().len() implies e2a.sp_contains(
                                (#[trigger] self.sp_terms()[k]).sp_id(),
                            ) by {
                                assert(w.sp_has_component(e2, self.sp_terms()[k].sp_id()));
                            }
                            assert forall|k: int|
                                0 <= k < self.sp_filters().len() implies match
                                #[trigger] self.sp_filters()[k] {
                                QueryFilter::With(c) => e2a.sp_contains(c),
                                QueryFilter::Without(c) => !e2a.sp_contains(c),
                                QueryFilter::Changed(c) => e2a.sp_contains(c),
                                QueryFilter::Added(c) => e2a.sp_contains(c),
                            } by {
                                assert(sp_filter_matches(
                                    *w,
                                    e2,
                                    self.sp_filters()[k],
                                    last,
                                    now,
                                ));
                            }
                        }
                    }
                }
            }
            a += 1;
        }
        proof {
            assert forall|e2: Entity| #![trigger out@.contains(e2)]
                out@.contains(e2) == self.sp_matches(*w, e2, last, now) by {
                if self.sp_matches(*w, e2, last, now) {
                    World::lemma_live_located(*w, e2);
                }
            }
        }
        out
    }

    /// The values of this query's terms on entity `e`: one value per term,
    /// in term order, if the entity is live and carries them all.
    pub fn fetch(&self, w: &World, e: Entity) -> (r: Option<Vec<u64>>)
        requires
            w.wf(),
        ensures
            match r {
                Some(vals) => {
                    &&& vals@.len() == self.sp_terms().len()
                    &&& forall|k: int|
                        0 <= k < vals@.len() ==> w.sp_component(
                            e,
                            (#[trigger] self.sp_terms()[k]).sp_id(),
                        ) is Some && vals@[k] == w.sp_value(e, self.sp_terms()[k].sp_id())
                },
                None => !w.sp_live(e) || exists|k: int|
                    0 <= k < self.sp_terms().len() && w.sp_component(
                        e,
                        (#[trigger] self.sp_terms()[k]).sp_id(),
                    ) is None,
            },
    {
        if !w.contains_entity(e) {
            return None;
        }
        let n = self.terms.len();
        let mut vals: Vec<u64> = Vec::new();
        let mut k: usize = 0;
        while k < n
            invariant
                k <= n,
                n == self.sp_terms().len(),
                w.wf(),
                vals@.len() == k,
                forall|p: int|
                    0 <= p < k ==> w.sp_component(
                        e,
                        (#[trigger] self.sp_terms()[p]).sp_id(),
                    ) is Some && vals@[p] == w.sp_value(e, self.sp_terms()[p].sp_id()),
            decreases n - k,
        {
            let c = match self.terms[k] {
                QueryTerm::Read(c2) => c2,
                QueryTerm::Write(c2) => c2,
            };
            proof {
                assert(self.sp_terms()[k as int].sp_id() == c);
            }
            match w.get_component(e, c) {
                Some(v) => {
                    vals.push(v);
                },
                None => {
                    return None;
                },
            }
            k += 1;
        }
        Some(vals)
    }

    /// Overwrite the value of term `k` (which must be a `Write` term) on
    /// entity `e`, stamping it changed on the world's current tick.
    /// Answers whether the entity was live and carried the kind.
    pub fn write_term(&self, w: &mut World, k: usize, e: Entity, value: u64) -> (r: bool)
        requires
            old(w).wf(),
            (k as int) < self.sp_terms().len(),
            self.sp_terms()[k as int].sp_writes(),
        ensures
            final(w).wf(),
            r == (old(w).sp_component(e, self.sp_terms()[k as int].sp_id()) is Some),
            r ==> final(w).sp_component(e, self.sp_terms()[k as int].sp_id()) == Some(
                (
                    value,
                    ComponentTicks {
                        added: old(w).sp_ticks_of(e, self.sp_terms()[k as int].sp_id()).added,
                        changed: old(w).sp_change_tick(),
                    },
                ),
            ),
            !r ==> *final(w) == *old(w),
            forall|e2: Entity, c2: ComponentId|
                !(e2 == e && c2 == self.sp_terms()[k as int].sp_id()) ==> final(w).sp_component(
                    e2,
                    c2,
                ) == old(w).sp_component(e2, c2),
            forall|e2: Entity| final(w).sp_live(e2) == old(w).sp_live(e2),
            final(w).sp_change_tick() == old(w).sp_change_tick(),
            final(w).sp_last_change_tick() == old(w).sp_last_change_tick(),
    {
        let c = match self.terms[k] {
            QueryTerm::Read(c2) => c2,
            QueryTerm::Write(c2) => c2,
        };
        proof {
            assert(self.sp_terms()[k as int].sp_id() == c);
        }
        w.set_component(e, c, value)
    }
}

/// Change trackers for one component of one entity: its ticks together
/// with the observing system's window.
#[derive(Clone, Copy, PartialEq, Eq, Structural, Debug)]
pub struct ChangeTrackers {
    pub component_ticks: ComponentTicks,
    pub last_change_tick: u32,
    pub change_tick: u32,
}

impl ChangeTrackers {
    /// Was the component added since the observing system last ran?
    pub fn is_added(&self) -> (r: bool)
        ensures
            r == tick_in_window(
                self.component_ticks.added,
                self.last_change_tick,
                self.change_tick,
            ),
    {
        self.component_ticks.is_added(self.last_change_tick, self.change_tick)
    }

    /// Was the component written since the observing system last ran?
    pub fn is_changed(&self) -> (r: bool)
        ensures
            r == tick_in_window(
                self.component_ticks.changed,
                self.last_change_tick,
                self.change_tick,
            ),
    {
        self.component_ticks.is_changed(self.last_change_tick, self.change_tick)
    }
}

/// The baked state of a `ChangeTrackers` fetch: the component kind it
/// observes.
#[derive(Clone, Copy, PartialEq, Eq, Structural, Debug)]
pub struct ChangeTrackersState {
    pub component_id: ComponentId,
}

impl ChangeTrackersState {
    /// The trackers of this state's kind on entity `e`, observed through
    /// the window `(last, now)`.
    pub fn fetch(&self, w: &World, e: Entity, last: u32, now: u32) -> (r: Option<ChangeTrackers>)
        requires
            w.wf(),
        ensures
            match r {
                Some(t) => w.sp_component(e, self.component_id) is Some && t == (ChangeTrackers {
                    component_ticks: w.sp_ticks_of(e, self.component_id),
                    last_change_tick: last,
                    change_tick: now,
                }),
                None => w.sp_component(e, self.component_id) is None,
            },
    {
        match w.get_component_ticks(e, self.component_id) {
            Some(t) => Some(
                ChangeTrackers { component_ticks: t, last_change_tick: last, change_tick: now },
            ),
            None => None,
        }
    }
}

} // verus!
