//! The world: the single owned store that every system works on. It ties
//! together the entity allocator, the component registry, the archetypes
//! with their tables, the sparse sets, and the resources (single-row
//! pseudo-components that follow the same access rules as components).
//! Structural changes — spawning, despawning, adding or removing a
//! component — move an entity's row between archetypes; plain writes stay
//! in place and stamp the value's changed tick.

use vstd::prelude::*;
use crate::archetype::{Archetype, ArchetypeComponentId, Archetypes, ids_equal, insert_sorted};
use crate::component::{ComponentId, Components, StorageType};
use crate::entity::{Entities, Entity};
use crate::storage::{ComponentSparseSet, Table};
use crate::tick::ComponentTicks;

verus! {

broadcast use {
    crate::archetype::lemma_archetype_wf_facts,
    crate::archetype::lemma_archetypes_index_wf,
    crate::archetype::lemma_next_acid_nonneg,
    crate::entity::lemma_alive_in_bounds,
    crate::entity::lemma_slot_count_bound,
    crate::storage::lemma_table_column_lens,
    crate::storage::lemma_table_column_views,
    crate::storage::lemma_table_ids_sorted,
    crate::storage::lemma_table_lens_bound,
};

/// A fresh copy of an id list.
fn copy_ids(v: &Vec<ComponentId>) -> (r: Vec<ComponentId>)
    ensures
        r@ == v@,
{
    let n = v.len();
    let mut out: Vec<ComponentId> = Vec::new();
    let mut k: usize = 0;
    while k < n
        invariant
            k <= n,
            n == v@.len(),
            out@ == v@.subrange(0, k as int),
        decreases n - k,
    {
        out.push(v[k]);
        k += 1;
    }
    proof {
        assert(out@ == v@);
    }
    out
}

/// In a strictly increasing id list, the id at position `p` is at least
/// `p`; hence such a list over ids below `n` has at most `n` entries.
pub(crate) proof fn lemma_sorted_ids_bound(v: Seq<ComponentId>)
    requires
        forall|p: int, q: int| 0 <= p < q < v.len() ==> v[p].0 < v[q].0,
    ensures
        forall|p: int| 0 <= p < v.len() ==> (#[trigger] v[p]).0 >= p,
    decreases v.len(),
{
    if v.len() > 0 {
        lemma_sorted_ids_bound(v.drop_last());
        assert forall|p: int| 0 <= p < v.len() implies (#[trigger] v[p]).0 >= p by {
            if p < v.len() - 1 {
                assert(v.drop_last()[p] == v[p]);
            } else if p > 0 {
                assert(v.drop_last()[p - 1] == v[p - 1]);
                assert(v[p - 1].0 < v[p].0);
            }
        }
    }
}

/// `s` with `c` inserted at position `k`.
pub open spec fn seq_insert_at(s: Seq<ComponentId>, k: int, c: ComponentId) -> Seq<ComponentId> {
    s.subrange(0, k).push(c) + s.subrange(k, s.len() as int)
}

/// Membership in `seq_insert_at`: exactly the old members plus `c`.
pub proof fn lemma_seq_insert_at_contains(s: Seq<ComponentId>, k: int, c: ComponentId, x: ComponentId)
    requires
        0 <= k <= s.len(),
    ensures
        seq_insert_at(s, k, c).contains(x) == (s.contains(x) || x == c),
{
    let r = seq_insert_at(s, k, c);
    if r.contains(x) {
        let w = choose|w: int| 0 <= w < r.len() && r[w] == x;
        if w < k {
            assert(s[w] == x);
        } else if w == k {
        } else {
            assert(s[w - 1] == x);
        }
    }
    if s.contains(x) {
        let w = choose|w: int| 0 <= w < s.len() && s[w] == x;
        if w < k {
            assert(r[w] == x);
        } else {
            assert(r[w + 1] == x);
        }
    }
    if x == c {
        assert(r[k] == x);
    }
}

/// In a table with strictly increasing ids, the column of `c` is the unique
/// position holding `c`.
pub proof fn lemma_column_of_unique(t: Table, c: ComponentId, k: int)
    requires
        t.wf(),
        0 <= k < t.sp_ids().len(),
        t.sp_ids()[k] == c,
    ensures
        t.sp_has_column(c),
        t.sp_column_of(c) == k,
{
    assert(t.sp_has_column(c));
    let j = t.sp_column_of(c);
    assert(0 <= j < t.sp_ids().len() && t.sp_ids()[j] == c);
    if j != k {
        if j < k {
            assert(t.sp_ids()[j].0 < t.sp_ids()[k].0);
        } else {
            assert(t.sp_ids()[k].0 < t.sp_ids()[j].0);
        }
    }
}

/// A vector's view is never longer than `usize` can index.
pub(crate) proof fn lemma_world_lens_bound(w: World)
    ensures
        w.tables@.len() <= usize::MAX,
        w.locations@.len() <= usize::MAX,
        w.sparse_sets@.len() <= usize::MAX,
{
    broadcast use vstd::std_specs::vec::axiom_spec_len;

    assert(vstd::std_specs::vec::spec_vec_len(&w.tables) == w.tables@.len());
    assert(vstd::std_specs::vec::spec_vec_len(&w.locations) == w.locations@.len());
    assert(vstd::std_specs::vec::spec_vec_len(&w.sparse_sets) == w.sparse_sets@.len());
}

/// Why a structural operation was refused.
#[derive(Clone, Copy, PartialEq, Eq, Structural, Debug)]
pub enum WorldError {
    /// The entity handle does not resolve to a live entity.
    NoSuchEntity,
    /// The component id was never registered.
    UnregisteredComponent,
}

/// The store all systems share.
pub struct World {
    pub(crate) entities: Entities,
    pub(crate) components: Components,
    pub(crate) archetypes: Archetypes,
    pub(crate) tables: Vec<Table>,
    pub(crate) sparse_sets: Vec<ComponentSparseSet>,
    pub(crate) resources: Vec<Option<(u64, ComponentTicks)>>,
    pub(crate) removed: Vec<Vec<Entity>>,
    pub(crate) locations: Vec<Option<(usize, usize)>>,
    pub(crate) change_tick: u32,
    pub(crate) last_change_tick: u32,
}

impl World {
    /// Does the handle resolve to a live entity?
    pub closed spec fn sp_live(self, e: Entity) -> bool {
        self.entities.sp_contains(e)
    }

    /// The archetype index of a live entity.
    pub closed spec fn sp_archetype_of(self, e: Entity) -> int {
        self.locations@[e.index as int].unwrap().0 as int
    }

    /// The row of a live entity inside its archetype's table.
    pub closed spec fn sp_row_of(self, e: Entity) -> int {
        self.locations@[e.index as int].unwrap().1 as int
    }

    /// Is component kind `c` registered?
    pub closed spec fn sp_registered(self, c: ComponentId) -> bool {
        self.components.sp_registered(c)
    }

    /// Is some component kind registered under `key`?
    pub closed spec fn sp_has_key(self, key: u64) -> bool {
        self.components.sp_has_key(key)
    }

    /// How many component kinds are registered.
    pub closed spec fn sp_component_count(self) -> int {
        self.components.sp_infos().len() as int
    }

    /// The key component kind `c` was registered under.
    pub closed spec fn sp_type_key(self, c: ComponentId) -> u64 {
        self.components.sp_type_key(c)
    }

    /// The registered storage type of `c`.
    pub closed spec fn sp_storage_type(self, c: ComponentId) -> StorageType {
        self.components.sp_storage_type(c)
    }

    /// Archetype `a` of this world.
    pub closed spec fn sp_archetype(self, a: int) -> Archetype {
        self.archetypes.sp_archetype(a)
    }

    /// The entities of archetype `a`, row by row.
    pub closed spec fn sp_rows(self, a: int) -> Seq<Entity> {
        self.tables@[a].sp_entities()
    }

    /// Does live entity `e` carry component kind `c`?
    pub open spec fn sp_has_component(self, e: Entity, c: ComponentId) -> bool {
        self.sp_live(e) && self.sp_archetype(self.sp_archetype_of(e)).sp_contains(c)
    }

    /// The value and ticks of component `c` on entity `e`, if the entity is
    /// live and carries it.
    pub closed spec fn sp_component(self, e: Entity, c: ComponentId) -> Option<(
        u64,
        ComponentTicks,
    )> {
        if !self.sp_live(e) {
            None
        } else {
            let a = self.sp_archetype_of(e);
            let arch = self.archetypes.sp_archetype(a);
            if arch.sp_has_table_component(c) {
                let t = self.tables@[a];
                let k = t.sp_column_of(c);
                Some((t.sp_data(k)[self.sp_row_of(e)], t.sp_ticks(k)[self.sp_row_of(e)]))
            } else if arch.sp_has_sparse_component(c) {
                self.sparse_sets@[c.0 as int].sp_get(e.index as int)
            } else {
                None
            }
        }
    }

    /// The value of component `c` on entity `e`.
    pub open spec fn sp_value(self, e: Entity, c: ComponentId) -> u64 {
        self.sp_component(e, c).unwrap().0
    }

    /// The ticks of component `c` on entity `e`.
    pub open spec fn sp_ticks_of(self, e: Entity, c: ComponentId) -> ComponentTicks {
        self.sp_component(e, c).unwrap().1
    }

    /// The value and ticks of resource `c`, if it has been inserted.
    pub closed spec fn sp_resource(self, c: ComponentId) -> Option<(u64, ComponentTicks)> {
        if 0 <= c.0 < self.resources@.len() {
            self.resources@[c.0 as int]
        } else {
            None
        }
    }

    /// The current change tick.
    pub closed spec fn sp_change_tick(self) -> u32 {
        self.change_tick
    }

    /// The change tick up to which this world's own trackers have been
    /// cleared.
    pub closed spec fn sp_last_change_tick(self) -> u32 {
        self.last_change_tick
    }

    /// The entities recorded as having lost component `c`.
    pub closed spec fn sp_removed(self, c: ComponentId) -> Seq<Entity> {
        self.removed@[c.0 as int]@
    }

    /// The registries are well formed and every per-component vector is as
    /// long as the registry.
    pub(crate) closed spec fn wf_lens(self) -> bool {
        &&& self.entities.wf()
        &&& self.components.wf()
        &&& self.archetypes.wf()
        &&& self.tables@.len() == self.archetypes.sp_len()
        &&& self.sparse_sets@.len() == self.components.sp_infos().len()
        &&& self.resources@.len() == self.components.sp_infos().len()
        &&& self.removed@.len() == self.components.sp_infos().len()
        &&& self.locations@.len() == self.entities.sp_slot_count()
    }

    /// Each archetype's table holds exactly its table components, and every
    /// component kind an archetype names is registered with the matching
    /// storage type.
    pub(crate) closed spec fn wf_tables(self) -> bool {
        &&& forall|a: int|
            0 <= a < self.tables@.len() ==> (#[trigger] self.tables@[a]).wf()
                && self.tables@[a].sp_ids() == self.archetypes.sp_archetype(a).sp_table_components()
        &&& forall|a: int, k: int|
            0 <= a < self.tables@.len() && 0 <= k < self.archetypes.sp_archetype(
                a,
            ).sp_table_components().len() ==> {
                let c = #[trigger] self.archetypes.sp_archetype(a).sp_table_components()[k];
                c.0 < self.components.sp_infos().len() && self.components.sp_storage_type(c)
                    == StorageType::Table
            }
        &&& forall|a: int, k: int|
            0 <= a < self.tables@.len() && 0 <= k < self.archetypes.sp_archetype(
                a,
            ).sp_sparse_components().len() ==> {
                let c = #[trigger] self.archetypes.sp_archetype(a).sp_sparse_components()[k];
                c.0 < self.components.sp_infos().len() && self.components.sp_storage_type(c)
                    == StorageType::SparseSet
            }
    }

    /// Live entities and table rows correspond one to one.
    pub(crate) closed spec fn wf_locations(self) -> bool {
        &&& forall|i: int|
            0 <= i < self.locations@.len() ==> (self.entities.sp_alive(i) == (
            #[trigger] self.locations@[i]) is Some)
        &&& forall|i: int|
            0 <= i < self.locations@.len() && (#[trigger] self.locations@[i]) is Some ==> {
                let (a, row) = self.locations@[i].unwrap();
                &&& (a as int) < self.tables@.len()
                &&& (row as int) < self.tables@[a as int].sp_entities().len()
                &&& self.tables@[a as int].sp_entities()[row as int] == (Entity {
                    index: i as u32,
                    generation: self.entities.sp_generation(i),
                })
            }
        &&& forall|a: int, row: int|
            0 <= a < self.tables@.len() && 0 <= row < self.tables@[a].sp_entities().len() ==> {
                let e = #[trigger] self.tables@[a].sp_entities()[row];
                &&& self.entities.sp_contains(e)
                &&& (e.index as int) < self.locations@.len()
                &&& self.locations@[e.index as int] == Some((a as usize, row as usize))
            }
    }

    /// A sparse set holds a value exactly for the live entities whose
    /// archetype carries its kind sparsely.
    pub(crate) closed spec fn wf_sparse(self) -> bool {
        forall|c: int, i: int|
            0 <= c < self.sparse_sets@.len() ==> ((#[trigger] self.sparse_sets@[c].sp_get(i))
                is Some == (0 <= i < self.locations@.len() && self.locations@[i] is Some
                && self.archetypes.sp_archetype(
                self.locations@[i].unwrap().0 as int,
            ).sp_has_sparse_component(ComponentId(c as usize))))
    }

    /// Everything but the two tick counters is identical in `a` and `b`.
    pub closed spec fn sp_same_data(a: World, b: World) -> bool {
        &&& a.entities == b.entities
        &&& a.components == b.components
        &&& a.archetypes == b.archetypes
        &&& a.tables == b.tables
        &&& a.sparse_sets == b.sparse_sets
        &&& a.resources == b.resources
        &&& a.locations == b.locations
    }

    /// The whole world invariant.
    pub closed spec fn wf(self) -> bool {
        &&& self.wf_lens()
        &&& self.wf_tables()
        &&& self.wf_locations()
        &&& self.wf_sparse()
    }

    /// An empty world on change tick 1.
    pub fn new() -> (r: World)
        ensures
            r.wf(),
            forall|e: Entity| !r.sp_live(e),
            forall|c: ComponentId| !r.sp_registered(c),
            forall|c: ComponentId| r.sp_resource(c) is None,
            r.sp_change_tick() == 1,
            r.sp_last_change_tick() == 0,
    {
        World {
            entities: Entities::new(),
            components: Components::new(),
            archetypes: Archetypes::new(),
            tables: Vec::new(),
            sparse_sets: Vec::new(),
            resources: Vec::new(),
            removed: Vec::new(),
            locations: Vec::new(),
            change_tick: 1,
            last_change_tick: 0,
        }
    }

    /// Register the component kind with key `type_key` under storage type
    /// `storage_type`; a key already registered keeps its id and its
    /// original storage type.
    pub fn init_component(&mut self, type_key: u64, storage_type: StorageType) -> (r: ComponentId)
        requires
            old(self).wf(),
            old(self).sp_component_count() < usize::MAX,
        ensures
            final(self).wf(),
            final(self).sp_registered(r),
            forall|e: Entity, c: ComponentId|
                final(self).sp_component(e, c) == old(self).sp_component(e, c),
            forall|e: Entity| final(self).sp_live(e) == old(self).sp_live(e),
            forall|c: ComponentId| final(self).sp_resource(c) == old(self).sp_resource(c),
            forall|c: ComponentId|
                old(self).sp_registered(c) ==> final(self).sp_registered(c)
                    && final(self).sp_storage_type(c) == old(self).sp_storage_type(c),
            final(self).sp_change_tick() == old(self).sp_change_tick(),
            final(self).sp_last_change_tick() == old(self).sp_last_change_tick(),
            !old(self).sp_has_key(type_key) ==> final(self).sp_storage_type(r)
                == storage_type,
            final(self).sp_type_key(r) == type_key,
            final(self).sp_has_key(type_key),
            r.0 < final(self).sp_component_count(),
            final(self).sp_component_count() <= old(self).sp_component_count() + 1,
            old(self).sp_component_count() <= final(self).sp_component_count(),
            final(self).sp_next_acid() == old(self).sp_next_acid(),
            final(self).sp_archetype_count() == old(self).sp_archetype_count(),
            final(self).sp_slot_count() == old(self).sp_slot_count(),
    {
        let ghost w0 = *self;
        let before_len = self.components.len();
        let r = self.components.init_component(type_key, storage_type);
        if self.components.len() > before_len {
            self.sparse_sets.push(ComponentSparseSet::new());
            self.resources.push(None);
            self.removed.push(Vec::new());
            proof {
                let w1 = *self;
                assert(r.0 == before_len);
                assert forall|a: int, k: int|
                    0 <= a < w1.tables@.len() && 0 <= k < w1.archetypes.sp_archetype(
                        a,
                    ).sp_sparse_components().len() implies w1.archetypes.sp_archetype(
                    a,
                ).sp_sparse_components()[k] != r by {
                    assert(w0.archetypes.sp_archetype(a).sp_sparse_components()[k].0
                        < before_len);
                }
                assert forall|a: int, k: int|
                    0 <= a < w1.tables@.len() && 0 <= k < w1.archetypes.sp_archetype(
                        a,
                    ).sp_table_components().len() implies w1.archetypes.sp_archetype(
                    a,
                ).sp_table_components()[k] != r by {
                    assert(w0.archetypes.sp_archetype(a).sp_table_components()[k].0 < before_len);
                }
                assert forall|e: Entity, c: ComponentId| w1.sp_component(e, c) == w0.sp_component(
                    e,
                    c,
                ) by {
                    if w1.sp_live(e) {
                        assert(w0.entities.sp_alive(e.index as int));
                        assert(w0.locations@[e.index as int] is Some);
                        let a = w1.sp_archetype_of(e);
                        assert(a < w0.tables@.len());
                        let arch = w1.archetypes.sp_archetype(a);
                        if arch.sp_has_sparse_component(c) {
                            let k = choose|k: int|
                                0 <= k < arch.sp_sparse_components().len()
                                    && arch.sp_sparse_components()[k] == c;
                            assert(w0.archetypes.sp_archetype(a).sp_sparse_components()[k].0
                                < before_len);
                            assert(w1.sparse_sets@[c.0 as int] == w0.sparse_sets@[c.0 as int]);
                        }
                    }
                }
                assert forall|c: int, i: int|
                    0 <= c < w1.sparse_sets@.len() implies ((
                #[trigger] w1.sparse_sets@[c].sp_get(i)) is Some == (0 <= i
                    < w1.locations@.len() && w1.locations@[i] is Some
                    && w1.archetypes.sp_archetype(
                    w1.locations@[i].unwrap().0 as int,
                ).sp_has_sparse_component(ComponentId(c as usize)))) by {
                    if c < before_len {
                        assert(w1.sparse_sets@[c] == w0.sparse_sets@[c]);
                    } else {
                        assert(w1.sparse_sets@[c].sp_get(i) is None);
                        if 0 <= i < w1.locations@.len() && w1.locations@[i] is Some {
                            let arch = w1.archetypes.sp_archetype(
                                w1.locations@[i].unwrap().0 as int,
                            );
                            if arch.sp_has_sparse_component(ComponentId(c as usize)) {
                                let k = choose|k: int|
                                    0 <= k < arch.sp_sparse_components().len()
                                        && arch.sp_sparse_components()[k] == ComponentId(
                                        c as usize,
                                    );
                                assert(arch.sp_sparse_components()[k].0 < before_len);
                            }
                        }
                    }
                }
            }
        }
        r
    }

    /// The registered storage type of `c`.
    pub fn storage_type(&self, c: ComponentId) -> (r: Option<StorageType>)
        requires
            self.wf(),
        ensures
            match r {
                Some(s) => self.sp_registered(c) && s == self.sp_storage_type(c),
                None => !self.sp_registered(c),
            },
    {
        self.components.storage_type(c)
    }

    /// The current change tick.
    pub fn read_change_tick(&self) -> (r: u32)
        ensures
            r == self.sp_change_tick(),
    {
        self.change_tick
    }

    /// The tick up to which trackers were last cleared.
    pub fn last_change_tick(&self) -> (r: u32)
        ensures
            r == self.sp_last_change_tick(),
    {
        self.last_change_tick
    }

    /// The value of component `c` on entity `e`; a dead handle or an absent
    /// component answers nothing.
    pub fn get_component(&self, e: Entity, c: ComponentId) -> (r: Option<u64>)
        requires
            self.wf(),
        ensures
            match r {
                Some(v) => self.sp_component(e, c) is Some && v == self.sp_value(e, c),
                None => self.sp_component(e, c) is None,
            },
    {
        if !self.entities.contains(e) {
            return None;
        }
        proof {
            assert(self.locations@[e.index as int] is Some);
        }
        let (a, row) = self.locations[e.index as usize].unwrap();
        proof {
            assert((a as int) < self.tables@.len());
            assert((row as int) < self.tables@[a as int].sp_entities().len());
        }
        let arch = self.archetypes.get(a);
        match self.tables[a].column_index_of(c) {
            Some(k) => Some(self.tables[a].column_at(k).get_data(row)),
            None => {
                if crate::archetype::contains_id(arch.sparse_components(), c) {
                    let r = self.sparse_sets[c.index()].get(e.index);
                    proof {
                        assert(self.sp_component(e, c) == self.sparse_sets@[c.0 as int].sp_get(
                            e.index as int,
                        ));
                    }
                    r
                } else {
                    None
                }
            },
        }
    }

    /// The ticks of component `c` on entity `e`, if the entity is live and
    /// carries it.
    pub fn get_component_ticks(&self, e: Entity, c: ComponentId) -> (r: Option<ComponentTicks>)
        requires
            self.wf(),
        ensures
            match r {
                Some(t) => self.sp_component(e, c) is Some && t == self.sp_ticks_of(e, c),
                None => self.sp_component(e, c) is None,
            },
    {
        if !self.entities.contains(e) {
            return None;
        }
        proof {
            assert(self.locations@[e.index as int] is Some);
        }
        let (a, row) = self.locations[e.index as usize].unwrap();
        proof {
            assert((a as int) < self.tables@.len());
            assert((row as int) < self.tables@[a as int].sp_entities().len());
        }
        let arch = self.archetypes.get(a);
        match self.tables[a].column_index_of(c) {
            Some(k) => Some(self.tables[a].column_at(k).get_ticks(row)),
            None => {
                if crate::archetype::contains_id(arch.sparse_components(), c) {
                    self.sparse_sets[c.index()].get_ticks(e.index)
                } else {
                    None
                }
            },
        }
    }

    /// Overwrite the value of component `c` on entity `e`, stamping it
    /// changed on the current change tick; its added tick and everything
    /// else stay. Answers whether the entity was live and carried `c`.
    pub fn set_component(&mut self, e: Entity, c: ComponentId, value: u64) -> (r: bool)
        requires
            old(self).wf(),
        ensures
            final(self).wf(),
            r == (old(self).sp_component(e, c) is Some),
            r ==> final(self).sp_component(e, c) == Some(
                (
                    value,
                    ComponentTicks {
                        added: old(self).sp_ticks_of(e, c).added,
                        changed: old(self).sp_change_tick(),
                    },
                ),
            ),
            !r ==> *final(self) == *old(self),
            forall|e2: Entity, c2: ComponentId|
                !(e2 == e && c2 == c) ==> final(self).sp_component(e2, c2) == old(
                    self,
                ).sp_component(e2, c2),
            forall|e2: Entity| final(self).sp_live(e2) == old(self).sp_live(e2),
            forall|c2: ComponentId| final(self).sp_resource(c2) == old(self).sp_resource(c2),
            forall|c2: ComponentId| final(self).sp_removed(c2) == old(self).sp_removed(c2),
            final(self).sp_change_tick() == old(self).sp_change_tick(),
            final(self).sp_last_change_tick() == old(self).sp_last_change_tick(),
            forall|e2: Entity, c2: ComponentId|
                final(self).sp_has_component(e2, c2) == old(self).sp_has_component(e2, c2),
    {
        if !self.entities.contains(e) {
            return false;
        }
        proof {
            assert(self.locations@[e.index as int] is Some);
        }
        let (a, row) = self.locations[e.index as usize].unwrap();
        proof {
            assert((a as int) < self.tables@.len());
            assert((row as int) < self.tables@[a as int].sp_entities().len());
        }
        let tick = self.change_tick;
        let has_sparse = crate::archetype::contains_id(
            self.archetypes.get(a).sparse_components(),
            c,
        );
        let kopt = self.tables[a].column_index_of(c);
        match kopt {
            Some(k) => {
                let ghost w0 = *self;
                let t = &mut self.tables[a];
                t.set_value(k, row, value, tick);
                proof {
                    World::lemma_table_cell_write(w0, *self, a, k, row, e, c, value, tick);
                }
                true
            },
            None => {
                if has_sparse {
                    let ghost w0 = *self;
                    let s = &mut self.sparse_sets[c.index()];
                    s.set_value(e.index, value, tick);
                    proof {
                        World::lemma_sparse_cell_write(w0, *self, e, c, value, tick);
                    }
                    true
                } else {
                    false
                }
            },
        }
    }


    /// After overwriting one table cell (value and changed tick of column
    /// `k`, row `row` of table `a`), the world is still well formed, the
    /// written component reads back as written, and nothing else moved.
    pub(crate) proof fn lemma_table_cell_write(
        w0: World,
        w1: World,
        au: usize,
        ku: usize,
        rowu: usize,
        e: Entity,
        c: ComponentId,
        value: u64,
        tick: u32,
    )
        requires
            w0.wf(),
            w1.entities == w0.entities,
            w1.components == w0.components,
            w1.archetypes == w0.archetypes,
            w1.sparse_sets == w0.sparse_sets,
            w1.resources == w0.resources,
            w1.removed == w0.removed,
            w1.locations == w0.locations,
            w1.change_tick == w0.change_tick,
            w1.last_change_tick == w0.last_change_tick,
            w1.tables@.len() == w0.tables@.len(),
            (au as int) < w0.tables@.len(),
            forall|x: int|
                0 <= x < w0.tables@.len() && x != au as int ==> w1.tables@[x] == w0.tables@[x],
            w1.tables@[au as int].wf(),
            w1.tables@[au as int].sp_ids() == w0.tables@[au as int].sp_ids(),
            w1.tables@[au as int].sp_entities() == w0.tables@[au as int].sp_entities(),
            (ku as int) < w0.tables@[au as int].sp_ids().len(),
            (rowu as int) < w0.tables@[au as int].sp_entities().len(),
            w1.tables@[au as int].sp_data(ku as int) == w0.tables@[au as int].sp_data(
                ku as int,
            ).update(rowu as int, value),
            w1.tables@[au as int].sp_ticks(ku as int) == w0.tables@[au as int].sp_ticks(
                ku as int,
            ).update(
                rowu as int,
                ComponentTicks {
                    added: w0.tables@[au as int].sp_ticks(ku as int)[rowu as int].added,
                    changed: tick,
                },
            ),
            forall|j: int|
                0 <= j < w0.tables@[au as int].sp_ids().len() && j != ku as int
                    ==> w1.tables@[au as int].sp_column(j) == w0.tables@[au as int].sp_column(j),
            w0.sp_live(e),
            w0.locations@[e.index as int] == Some((au, rowu)),
            w0.tables@[au as int].sp_ids()[ku as int] == c,
        ensures
            w1.wf(),
            w0.sp_component(e, c) is Some,
            w1.sp_component(e, c) == Some(
                (
                    value,
                    ComponentTicks { added: w0.sp_ticks_of(e, c).added, changed: tick },
                ),
            ),
            forall|e2: Entity, c2: ComponentId|
                !(e2 == e && c2 == c) ==> w1.sp_component(e2, c2) == w0.sp_component(e2, c2),
            forall|e2: Entity| w1.sp_live(e2) == w0.sp_live(e2),
            forall|e2: Entity, c2: ComponentId|
                w1.sp_has_component(e2, c2) == w0.sp_has_component(e2, c2),
    {
        let a = au as int;
        let k = ku as int;
        let row = rowu as int;
        let t0 = w0.tables@[a];
        let t1 = w1.tables@[a];
        assert(w1.wf_lens());
        assert forall|x: int| 0 <= x < w1.tables@.len() implies (#[trigger] w1.tables@[x]).wf()
            && w1.tables@[x].sp_ids() == w1.archetypes.sp_archetype(x).sp_table_components()
            && w1.tables@[x].sp_entities() == w0.tables@[x].sp_entities() by {
            if x != a {
                assert(w1.tables@[x] == w0.tables@[x]);
            }
        }
        assert(w1.wf_tables());
        assert(w1.wf_locations());
        assert(w1.wf_sparse());
        // the written cell
        assert(t0.sp_has_column(c));
        assert(t0.sp_column_of(c) == k) by {
            let j = t0.sp_column_of(c);
            assert(0 <= j < t0.sp_ids().len() && t0.sp_ids()[j] == c);
            if j != k {
                if j < k {
                    assert(t0.sp_ids()[j].0 < t0.sp_ids()[k].0);
                } else {
                    assert(t0.sp_ids()[k].0 < t0.sp_ids()[j].0);
                }
            }
        }
        assert(w0.sp_archetype_of(e) == a);
        assert(w0.sp_row_of(e) == row);
        assert(w0.archetypes.sp_archetype(a).sp_has_table_component(c)) by {
            assert(t0.sp_ids() == w0.archetypes.sp_archetype(a).sp_table_components());
            assert(t0.sp_ids()[k] == c);
        }
        assert(w1.sp_component(e, c) == Some((t1.sp_data(k)[row], t1.sp_ticks(k)[row])));
        // everything else
        assert forall|e2: Entity, c2: ComponentId|
            !(e2 == e && c2 == c) implies w1.sp_component(e2, c2) == w0.sp_component(e2, c2) by {
            if w0.sp_live(e2) {
                let a2 = w0.sp_archetype_of(e2);
                let row2 = w0.sp_row_of(e2);
                let arch2 = w0.archetypes.sp_archetype(a2);
                assert(w0.locations@[e2.index as int] is Some);
                assert(a2 < w0.tables@.len());
                if a2 != a {
                    assert(w1.tables@[a2] == w0.tables@[a2]);
                } else {
                    if arch2.sp_has_table_component(c2) {
                        let k2 = w0.tables@[a].sp_column_of(c2);
                        assert(0 <= k2 < t0.sp_ids().len() && t0.sp_ids()[k2] == c2);
                        if e2 != e {
                            // same table, different row
                            assert(t0.sp_entities()[row2] == e2);
                            assert(t0.sp_entities()[row] == e);
                            assert(row2 != row);
                            if k2 == k {
                                assert(t1.sp_data(k)[row2] == t0.sp_data(k)[row2]);
                                assert(t1.sp_ticks(k)[row2] == t0.sp_ticks(k)[row2]);
                            } else {
                                assert(t1.sp_column(k2) == t0.sp_column(k2));
                            }
                        } else {
                            // same entity, different component, so different column
                            assert(c2 != c);
                            assert(k2 != k) by {
                                assert(t0.sp_ids()[k] == c);
                            }
                            assert(t1.sp_column(k2) == t0.sp_column(k2));
                        }
                    }
                }
            }
        }
    }

    /// After overwriting one sparse-set cell (value and changed tick of
    /// kind `c` for entity `e`), the world is still well formed, the
    /// written component reads back as written, and nothing else moved.
    pub(crate) proof fn lemma_sparse_cell_write(
        w0: World,
        w1: World,
        e: Entity,
        c: ComponentId,
        value: u64,
        tick: u32,
    )
        requires
            w0.wf(),
            w1.entities == w0.entities,
            w1.components == w0.components,
            w1.archetypes == w0.archetypes,
            w1.tables == w0.tables,
            w1.resources == w0.resources,
            w1.removed == w0.removed,
            w1.locations == w0.locations,
            w1.change_tick == w0.change_tick,
            w1.last_change_tick == w0.last_change_tick,
            w1.sparse_sets@.len() == w0.sparse_sets@.len(),
            0 <= c.0 < w0.sparse_sets@.len(),
            forall|x: int|
                0 <= x < w0.sparse_sets@.len() && x != c.0 ==> w1.sparse_sets@[x]
                    == w0.sparse_sets@[x],
            w0.sparse_sets@[c.0 as int].sp_get(e.index as int) is Some,
            w1.sparse_sets@[c.0 as int].sp_get(e.index as int) == Some(
                (
                    value,
                    ComponentTicks {
                        added: w0.sparse_sets@[c.0 as int].sp_get(e.index as int).unwrap().1.added,
                        changed: tick,
                    },
                ),
            ),
            forall|j: int|
                j != e.index as int ==> w1.sparse_sets@[c.0 as int].sp_get(j)
                    == w0.sparse_sets@[c.0 as int].sp_get(j),
            w0.sp_live(e),
            w0.archetypes.sp_archetype(w0.sp_archetype_of(e)).sp_has_sparse_component(c),
        ensures
            w1.wf(),
            w0.sp_component(e, c) is Some,
            w1.sp_component(e, c) == Some(
                (
                    value,
                    ComponentTicks { added: w0.sp_ticks_of(e, c).added, changed: tick },
                ),
            ),
            forall|e2: Entity, c2: ComponentId|
                !(e2 == e && c2 == c) ==> w1.sp_component(e2, c2) == w0.sp_component(e2, c2),
            forall|e2: Entity| w1.sp_live(e2) == w0.sp_live(e2),
            forall|e2: Entity, c2: ComponentId|
                w1.sp_has_component(e2, c2) == w0.sp_has_component(e2, c2),
    {
        assert(w1.wf_lens());
        assert(w1.wf_tables());
        assert(w1.wf_locations());
        assert forall|cc: int, i: int|
            0 <= cc < w1.sparse_sets@.len() implies ((#[trigger] w1.sparse_sets@[cc].sp_get(i))
            is Some == (0 <= i < w1.locations@.len() && w1.locations@[i] is Some
            && w1.archetypes.sp_archetype(
            w1.locations@[i].unwrap().0 as int,
        ).sp_has_sparse_component(ComponentId(cc as usize)))) by {
            if cc != c.0 {
                assert(w1.sparse_sets@[cc] == w0.sparse_sets@[cc]);
            } else {
                if i != e.index as int {
                    assert(w1.sparse_sets@[cc].sp_get(i) == w0.sparse_sets@[cc].sp_get(i));
                } else {
                    assert(w1.sparse_sets@[cc].sp_get(i) is Some);
                    assert(w0.sparse_sets@[cc].sp_get(i) is Some);
                }
            }
        }
        assert(w1.wf_sparse());
        // the archetype of e does not carry c in its table (table and sparse
        // component lists are disjoint)
        let a = w0.sp_archetype_of(e);
        let arch = w0.archetypes.sp_archetype(a);
        assert(w0.locations@[e.index as int] is Some);
        assert(a < w0.tables@.len());
        assert(!arch.sp_has_table_component(c)) by {
            if arch.sp_has_table_component(c) {
                let p = choose|p: int|
                    0 <= p < arch.sp_table_components().len() && arch.sp_table_components()[p]
                        == c;
                assert(w0.components.sp_storage_type(c) == StorageType::Table);
                let q = choose|q: int|
                    0 <= q < arch.sp_sparse_components().len() && arch.sp_sparse_components()[q]
                        == c;
                assert(w0.components.sp_storage_type(c) == StorageType::SparseSet);
            }
        }
        assert forall|e2: Entity, c2: ComponentId|
            !(e2 == e && c2 == c) implies w1.sp_component(e2, c2) == w0.sp_component(e2, c2) by {
            if w0.sp_live(e2) {
                let a2 = w0.sp_archetype_of(e2);
                let arch2 = w0.archetypes.sp_archetype(a2);
                assert(w0.locations@[e2.index as int] is Some);
                assert(a2 < w0.tables@.len());
                if arch2.sp_has_sparse_component(c2) && !arch2.sp_has_table_component(c2) {
                    if c2 != c {
                        assert(w1.sparse_sets@[c2.0 as int] == w0.sparse_sets@[c2.0 as int]) by {
                            let q = choose|q: int|
                                0 <= q < arch2.sp_sparse_components().len()
                                    && arch2.sp_sparse_components()[q] == c2;
                            assert(c2.0 < w0.sparse_sets@.len());
                        }
                    } else {
                        assert(e2 != e);
                        assert(e2.index != e.index || e2.generation != e.generation);
                        if e2.index == e.index {
                            // two live handles to one slot share the generation
                            assert(w0.entities.sp_generation(e.index as int) == e.generation);
                            assert(w0.entities.sp_generation(e2.index as int) == e2.generation);
                        }
                        assert(w1.sparse_sets@[c.0 as int].sp_get(e2.index as int)
                            == w0.sparse_sets@[c.0 as int].sp_get(e2.index as int));
                    }
                }
            }
        }
    }

    /// First archetype-component id not handed out yet.
    pub closed spec fn sp_next_acid(self) -> int {
        self.archetypes.sp_next_acid()
    }

    /// How many archetypes exist.
    pub closed spec fn sp_archetype_count(self) -> int {
        self.archetypes.sp_len()
    }

    /// The archetype whose component set is exactly the two given lists,
    /// created together with its (empty) table if no archetype has that set
    /// yet.
    pub(crate) fn get_or_create_archetype(
        &mut self,
        table_ids: Vec<ComponentId>,
        sparse_ids: Vec<ComponentId>,
    ) -> (a: usize)
        requires
            old(self).wf(),
            forall|p: int, q: int|
                0 <= p < q < table_ids@.len() ==> table_ids@[p].0 < table_ids@[q].0,
            forall|p: int, q: int|
                0 <= p < q < sparse_ids@.len() ==> sparse_ids@[p].0 < sparse_ids@[q].0,
            forall|p: int, q: int|
                0 <= p < table_ids@.len() && 0 <= q < sparse_ids@.len() ==> table_ids@[p]
                    != sparse_ids@[q],
            forall|p: int|
                0 <= p < table_ids@.len() ==> (#[trigger] table_ids@[p]).0
                    < old(self).sp_component_count() && old(self).sp_storage_type(table_ids@[p])
                    == StorageType::Table,
            forall|p: int|
                0 <= p < sparse_ids@.len() ==> (#[trigger] sparse_ids@[p]).0
                    < old(self).sp_component_count() && old(self).sp_storage_type(sparse_ids@[p])
                    == StorageType::SparseSet,
            old(self).sp_next_acid() + table_ids@.len() + sparse_ids@.len() <= usize::MAX / 2,
            old(self).archetypes.sp_len() < usize::MAX,
        ensures
            final(self).wf(),
            (a as int) < final(self).archetypes.sp_len(),
            final(self).archetypes.sp_archetype(a as int).sp_table_components() == table_ids@,
            final(self).archetypes.sp_archetype(a as int).sp_sparse_components() == sparse_ids@,
            old(self).archetypes.sp_len() <= final(self).archetypes.sp_len(),
            final(self).archetypes.sp_len() <= old(self).archetypes.sp_len() + 1,
            forall|b: int|
                0 <= b < old(self).archetypes.sp_len() ==> final(self).archetypes.sp_archetype(b)
                    == old(self).archetypes.sp_archetype(b) && final(self).tables@[b] == old(
                    self,
                ).tables@[b],
            (a as int) == final(self).archetypes.sp_len() - 1 || (a as int) < old(
                self,
            ).archetypes.sp_len(),
            (a as int) >= old(self).archetypes.sp_len() ==> final(self).tables@[a as int].sp_entities().len() == 0,
            final(self).entities == old(self).entities,
            final(self).components == old(self).components,
            final(self).sparse_sets == old(self).sparse_sets,
            final(self).resources == old(self).resources,
            final(self).removed == old(self).removed,
            final(self).locations == old(self).locations,
            final(self).change_tick == old(self).change_tick,
            final(self).last_change_tick == old(self).last_change_tick,
            final(self).sp_next_acid() <= old(self).sp_next_acid() + table_ids@.len()
                + sparse_ids@.len(),
            old(self).sp_next_acid() <= final(self).sp_next_acid(),
            forall|e2: Entity, c2: ComponentId|
                final(self).sp_component(e2, c2) == old(self).sp_component(e2, c2),
            forall|e2: Entity| final(self).sp_live(e2) == old(self).sp_live(e2),
            forall|e2: Entity|
                old(self).sp_live(e2) ==> final(self).sp_archetype_of(e2) == old(
                    self,
                ).sp_archetype_of(e2) && final(self).sp_row_of(e2) == old(self).sp_row_of(e2),
    {
        let n = self.archetypes.len();
        let mut i: usize = 0;
        while i < n
            invariant
                *self == *old(self),
                self.wf(),
                i <= n,
                n == self.archetypes.sp_len(),
                forall|b: int|
                    0 <= b < i ==> !((#[trigger] self.archetypes.sp_archetype(
                        b,
                    )).sp_table_components() =~= table_ids@ && self.archetypes.sp_archetype(
                        b,
                    ).sp_sparse_components() =~= sparse_ids@),
            decreases n - i,
        {
            let matches_table = ids_equal(self.archetypes.get(i).table_components(), &table_ids);
            let matches_sparse = ids_equal(self.archetypes.get(i).sparse_components(), &sparse_ids);
            if matches_table && matches_sparse {
                proof {
                    assert(self.archetypes.sp_archetype(i as int).sp_table_components()
                        == table_ids@);
                    assert(self.archetypes.sp_archetype(i as int).sp_sparse_components()
                        == sparse_ids@);
                }
                return i;
            }
            i += 1;
        }
        let ghost w0 = *self;
        let table = Table::new(copy_ids(&table_ids));
        let ghost tids = table_ids@;
        let ghost sids = sparse_ids@;
        let a2 = self.archetypes.push_new(table_ids, sparse_ids);
        self.tables.push(table);
        proof {
            let w1 = *self;
            assert(a2 == n);
            assert(w1.wf_lens());
            assert(w1.wf_tables()) by {
                assert(forall|x: int|
                    0 <= x < n ==> (#[trigger] w1.tables@[x]) == w0.tables@[x]);
                assert(w1.tables@[n as int].sp_ids() == tids);
            }
            assert(w1.wf_locations()) by {
                assert(forall|x: int|
                    0 <= x < n ==> (#[trigger] w1.tables@[x]) == w0.tables@[x]);
                assert(w1.tables@[n as int].sp_entities().len() == 0);
            }
            assert(w1.wf_sparse()) by {
                assert(forall|i2: int|
                    0 <= i2 < w1.locations@.len() && (#[trigger] w1.locations@[i2]) is Some
                        ==> (w1.locations@[i2].unwrap().0 as int) < n);
            }
            assert forall|e2: Entity, c2: ComponentId| w1.sp_component(e2, c2) == w0.sp_component(
                e2,
                c2,
            ) by {
                if w0.sp_live(e2) {
                    assert(w0.locations@[e2.index as int] is Some);
                    let a2 = w0.sp_archetype_of(e2);
                    assert(a2 < n);
                    assert(w1.tables@[a2] == w0.tables@[a2]);
                    assert(w1.archetypes.sp_archetype(a2) == w0.archetypes.sp_archetype(a2));
                }
            }
        }
        n
    }

    /// How many entity slots exist.
    pub closed spec fn sp_slot_count(self) -> int {
        self.entities.sp_slot_count()
    }

    /// Spawn a fresh entity with no components. The handle is live and
    /// distinct from every previously live handle; nothing else changes.
    pub fn spawn(&mut self) -> (e: Entity)
        requires
            old(self).wf(),
            old(self).sp_slot_count() < u32::MAX,
            old(self).sp_next_acid() <= usize::MAX / 2,
            old(self).sp_archetype_count() < usize::MAX,
        ensures
            final(self).wf(),
            final(self).sp_live(e),
            !old(self).sp_live(e),
            forall|e2: Entity| e2 != e ==> final(self).sp_live(e2) == old(self).sp_live(e2),
            forall|c: ComponentId| final(self).sp_component(e, c) is None,
            forall|c: ComponentId| !final(self).sp_has_component(e, c),
            forall|e2: Entity, c: ComponentId|
                e2 != e ==> final(self).sp_component(e2, c) == old(self).sp_component(e2, c),
            forall|c: ComponentId| final(self).sp_resource(c) == old(self).sp_resource(c),
            forall|c: ComponentId|
                old(self).sp_registered(c) ==> final(self).sp_registered(c)
                    && final(self).sp_removed(c) == old(self).sp_removed(c),
            final(self).sp_registered(ComponentId(0)) == old(self).sp_registered(ComponentId(0)),
            final(self).sp_component_count() == old(self).sp_component_count(),
            final(self).sp_change_tick() == old(self).sp_change_tick(),
            final(self).sp_last_change_tick() == old(self).sp_last_change_tick(),
            final(self).sp_slot_count() <= old(self).sp_slot_count() + 1,
            final(self).sp_next_acid() == old(self).sp_next_acid(),
            final(self).sp_archetype_count() <= old(self).sp_archetype_count() + 1,
    {
        let a = self.get_or_create_archetype_for_spawn();
        let ghost w1 = *self;
        let e = self.entities.allocate();
        if self.locations.len() < self.entities_slot_count() {
            self.locations.push(None);
        }
        proof {
            assert(self.locations@.len() == self.entities.sp_slot_count());
            assert(self.locations@[e.index as int] is None) by {
                if e.index as int == w1.sp_slot_count() {
                } else {
                    assert(!w1.entities.sp_alive(e.index as int));
                    assert(w1.locations@[e.index as int] is None);
                }
            }
            assert(forall|i: int|
                0 <= i < w1.locations@.len() ==> self.locations@[i] == w1.locations@[i]);
        }
        let ghost w2 = *self;
        let row = self.tables[a].len();
        let empty_vals: Vec<u64> = Vec::new();
        let empty_ticks: Vec<ComponentTicks> = Vec::new();
        let t = &mut self.tables[a];
        t.push_row(e, &empty_vals, &empty_ticks);
        self.locations.set(e.index as usize, Some((a, row)));
        proof {
            let wf_ = *self;
            let ai = a as int;
            let arch = w1.archetypes.sp_archetype(ai);
            assert(arch.sp_component_count() == 0);
            assert(wf_.tables@[ai].sp_entities() == w1.tables@[ai].sp_entities().push(e));
            assert(wf_.tables@[ai].sp_ids().len() == 0);
            assert(forall|x: int|
                0 <= x < wf_.tables@.len() && x != ai ==> wf_.tables@[x] == w1.tables@[x]);
            assert(forall|i: int|
                0 <= i < wf_.locations@.len() && i != e.index as int ==> wf_.locations@[i]
                    == w2.locations@[i]);
            // the world invariant, clause by clause
            assert(wf_.wf_lens());
            assert(wf_.wf_tables());
            assert forall|i: int|
                0 <= i < wf_.locations@.len() implies (wf_.entities.sp_alive(i) == (
            #[trigger] wf_.locations@[i]) is Some) by {
                if i != e.index as int {
                    if i < w1.locations@.len() {
                        assert(wf_.entities.sp_alive(i) == w1.entities.sp_alive(i));
                        assert(wf_.locations@[i] == w1.locations@[i]);
                    }
                }
            }
            assert forall|i: int|
                0 <= i < wf_.locations@.len() && (#[trigger] wf_.locations@[i]) is Some implies {
                let (a3, row3) = wf_.locations@[i].unwrap();
                &&& (a3 as int) < wf_.tables@.len()
                &&& (row3 as int) < wf_.tables@[a3 as int].sp_entities().len()
                &&& wf_.tables@[a3 as int].sp_entities()[row3 as int] == (Entity {
                    index: i as u32,
                    generation: wf_.entities.sp_generation(i),
                })
            } by {
                if i == e.index as int {
                    assert(wf_.locations@[i] == Some((a, row)));
                    assert(wf_.tables@[ai].sp_entities()[row as int] == e);
                } else {
                    assert(wf_.locations@[i] == w1.locations@[i]);
                    if w1.locations@[i] is Some {
                        let (a3, row3) = w1.locations@[i].unwrap();
                        assert((row3 as int) < w1.tables@[a3 as int].sp_entities().len());
                        assert(wf_.tables@[a3 as int].sp_entities()[row3 as int]
                            == w1.tables@[a3 as int].sp_entities()[row3 as int]);
                        assert(wf_.entities.sp_generation(i) == w1.entities.sp_generation(i));
                    }
                }
            }
            assert forall|a3: int, row3: int|
                0 <= a3 < wf_.tables@.len() && 0 <= row3 < wf_.tables@[a3].sp_entities().len()
                implies {
                let e2 = #[trigger] wf_.tables@[a3].sp_entities()[row3];
                &&& wf_.entities.sp_contains(e2)
                &&& (e2.index as int) < wf_.locations@.len()
                &&& wf_.locations@[e2.index as int] == Some((a3 as usize, row3 as usize))
            } by {
                if a3 == ai && row3 == row as int {
                    assert(wf_.tables@[a3].sp_entities()[row3] == e);
                } else {
                    assert(wf_.tables@[a3].sp_entities()[row3]
                        == w1.tables@[a3].sp_entities()[row3]);
                    let e2 = w1.tables@[a3].sp_entities()[row3];
                    assert(w1.entities.sp_contains(e2));
                    assert(e2.index as int != e.index as int) by {
                        if e2.index as int == e.index as int {
                            assert(w1.entities.sp_alive(e.index as int));
                        }
                    }
                    assert(wf_.entities.sp_contains(e2));
                    assert(wf_.locations@[e2.index as int] == w1.locations@[e2.index as int]);
                }
            }
            assert(wf_.wf_locations());
            assert forall|c: int, i: int|
                0 <= c < wf_.sparse_sets@.len() implies ((
            #[trigger] wf_.sparse_sets@[c].sp_get(i)) is Some == (0 <= i < wf_.locations@.len()
                && wf_.locations@[i] is Some && wf_.archetypes.sp_archetype(
                wf_.locations@[i].unwrap().0 as int,
            ).sp_has_sparse_component(ComponentId(c as usize)))) by {
                assert(wf_.sparse_sets@[c] == w1.sparse_sets@[c]);
                if i == e.index as int {
                    assert(arch.sp_sparse_components().len() == 0);
                    assert(!arch.sp_has_sparse_component(ComponentId(c as usize)));
                    if wf_.sparse_sets@[c].sp_get(i) is Some {
                        assert(w1.locations@[i] is Some);
                    }
                } else if 0 <= i < wf_.locations@.len() {
                    assert(wf_.locations@[i] == w1.locations@[i]);
                } else {
                    if wf_.sparse_sets@[c].sp_get(i) is Some {
                        assert(0 <= i < w1.locations@.len());
                    }
                }
            }
            assert(wf_.wf_sparse());
            assert(wf_.wf());
            // the contract
            assert(wf_.archetypes == w1.archetypes);
            assert(wf_.sp_archetype_count() == w1.sp_archetype_count());
            assert(wf_.sp_live(e));
            assert forall|c: ComponentId| wf_.sp_component(e, c) is None by {
                assert(!arch.sp_has_table_component(c));
                assert(!arch.sp_has_sparse_component(c));
            }
            assert forall|c: ComponentId| !wf_.sp_has_component(e, c) by {
                assert(!arch.sp_has_table_component(c));
                assert(!arch.sp_has_sparse_component(c));
            }
            assert forall|e2: Entity, c: ComponentId|
                e2 != e implies wf_.sp_component(e2, c) == old(self).sp_component(e2, c) by {
                assert(w1.sp_component(e2, c) == old(self).sp_component(e2, c));
                if w1.sp_live(e2) {
                    assert(w1.locations@[e2.index as int] is Some);
                    let a2 = w1.sp_archetype_of(e2);
                    assert(e2.index != e.index) by {
                        if e2.index == e.index {
                            assert(w1.entities.sp_alive(e.index as int));
                        }
                    }
                    assert(wf_.locations@[e2.index as int] == w1.locations@[e2.index as int]);
                    assert(wf_.sp_live(e2));
                    let arch2 = w1.archetypes.sp_archetype(a2);
                    if a2 == ai {
                        assert(!arch2.sp_has_table_component(c));
                        assert(!arch2.sp_has_sparse_component(c));
                    } else {
                        assert(wf_.tables@[a2] == w1.tables@[a2]);
                    }
                } else {
                    assert(!wf_.sp_live(e2));
                }
            }
        }
        e
    }

    /// Exec helper: current slot count.
    fn entities_slot_count(&self) -> (r: usize)
        ensures
            r as int == self.entities.sp_slot_count(),
    {
        self.entities.slot_count()
    }

    /// The archetype with no components at all, created on first use.
    fn get_or_create_archetype_for_spawn(&mut self) -> (a: usize)
        requires
            old(self).wf(),
            old(self).sp_next_acid() <= usize::MAX / 2,
            old(self).archetypes.sp_len() < usize::MAX,
        ensures
            final(self).wf(),
            (a as int) < final(self).archetypes.sp_len(),
            final(self).archetypes.sp_archetype(a as int).sp_table_components() =~= Seq::<
                ComponentId,
            >::empty(),
            final(self).archetypes.sp_archetype(a as int).sp_sparse_components() =~= Seq::<
                ComponentId,
            >::empty(),
            forall|b: int|
                0 <= b < old(self).archetypes.sp_len() ==> final(self).archetypes.sp_archetype(b)
                    == old(self).archetypes.sp_archetype(b) && final(self).tables@[b] == old(
                    self,
                ).tables@[b],
            (a as int) >= old(self).archetypes.sp_len()
                ==> final(self).tables@[a as int].sp_entities().len() == 0,
            (a as int) == final(self).archetypes.sp_len() - 1 || (a as int) < old(
                self,
            ).archetypes.sp_len(),
            final(self).sp_archetype_count() <= old(self).sp_archetype_count() + 1,
            old(self).sp_archetype_count() <= final(self).sp_archetype_count(),
            final(self).entities == old(self).entities,
            final(self).components == old(self).components,
            final(self).sparse_sets == old(self).sparse_sets,
            final(self).resources == old(self).resources,
            final(self).removed == old(self).removed,
            final(self).locations == old(self).locations,
            final(self).change_tick == old(self).change_tick,
            final(self).last_change_tick == old(self).last_change_tick,
            final(self).sp_next_acid() == old(self).sp_next_acid(),
            forall|e2: Entity, c2: ComponentId|
                final(self).sp_component(e2, c2) == old(self).sp_component(e2, c2),
            forall|e2: Entity| final(self).sp_live(e2) == old(self).sp_live(e2),
    {
        self.get_or_create_archetype(Vec::new(), Vec::new())
    }

    /// Insert component `c` with `value` on entity `e`. An entity that
    /// already carries `c` keeps its row and added tick: the value is
    /// overwritten and stamped changed on the current tick. Otherwise the
    /// entity's row moves to the archetype whose set adds `c` (created on
    /// first use), the other components keep their values and ticks, and
    /// the new value is stamped added and changed on the current tick.
    #[verifier::rlimit(100)]
    #[verifier::spinoff_prover]
    pub fn insert_component(&mut self, e: Entity, c: ComponentId, value: u64) -> (r: Result<
        (),
        WorldError,
    >)
        requires
            old(self).wf(),
            old(self).sp_next_acid() + 2 * old(self).sp_component_count() + 1 <= usize::MAX / 2,
            old(self).sp_archetype_count() < usize::MAX,
        ensures
            final(self).wf(),
            r is Ok == (old(self).sp_live(e) && old(self).sp_registered(c)),
            !old(self).sp_live(e) ==> r == Err::<(), WorldError>(WorldError::NoSuchEntity)
                && *final(self) == *old(self),
            old(self).sp_live(e) && !old(self).sp_registered(c) ==> r == Err::<(), WorldError>(
                WorldError::UnregisteredComponent,
            ) && *final(self) == *old(self),
            r is Ok ==> final(self).sp_component(e, c) == Some(
                (
                    value,
                    ComponentTicks {
                        added: (if old(self).sp_has_component(e, c) {
                            old(self).sp_ticks_of(e, c).added
                        } else {
                            old(self).sp_change_tick()
                        }),
                        changed: old(self).sp_change_tick(),
                    },
                ),
            ),
            forall|c2: ComponentId|
                c2 != c ==> final(self).sp_component(e, c2) == old(self).sp_component(e, c2),
            forall|e2: Entity, c2: ComponentId|
                e2 != e ==> final(self).sp_component(e2, c2) == old(self).sp_component(e2, c2),
            forall|e2: Entity| final(self).sp_live(e2) == old(self).sp_live(e2),
            forall|e2: Entity, c2: ComponentId|
                final(self).sp_has_component(e2, c2) == (old(self).sp_has_component(e2, c2) || (r
                    is Ok && e2 == e && c2 == c)),
            forall|c2: ComponentId| final(self).sp_resource(c2) == old(self).sp_resource(c2),
            forall|c2: ComponentId|
                old(self).sp_registered(c2) ==> final(self).sp_removed(c2) == old(self).sp_removed(
                    c2,
                ),
            final(self).sp_change_tick() == old(self).sp_change_tick(),
            final(self).sp_last_change_tick() == old(self).sp_last_change_tick(),
            final(self).sp_component_count() == old(self).sp_component_count(),
            final(self).sp_slot_count() == old(self).sp_slot_count(),
            final(self).sp_next_acid() <= old(self).sp_next_acid() + 2 * old(
                self,
            ).sp_component_count() + 1,
            old(self).sp_next_acid() <= final(self).sp_next_acid(),
            final(self).sp_archetype_count() <= old(self).sp_archetype_count() + 1,
            forall|c2: ComponentId|
                old(self).sp_registered(c2) ==> final(self).sp_registered(c2)
                    && final(self).sp_storage_type(c2) == old(self).sp_storage_type(c2),
    {
        if !self.entities.contains(e) {
            return Err(WorldError::NoSuchEntity);
        }
        if c.0 >= self.components.len() {
            return Err(WorldError::UnregisteredComponent);
        }
        proof {
            assert(self.locations@[e.index as int] is Some);
        }
        let (a, row) = self.locations[e.index as usize].unwrap();
        proof {
            assert((a as int) < self.tables@.len());
            assert((row as int) < self.tables@[a as int].sp_entities().len());
        }
        let tick = self.change_tick;
        let kopt = self.tables[a].column_index_of(c);
        if let Some(k) = kopt {
            let ghost w0 = *self;
            let t = &mut self.tables[a];
            t.set_value(k, row, value, tick);
            proof {
                assert(w0.archetypes.sp_archetype(a as int).sp_has_table_component(c)) by {
                    assert(w0.tables@[a as int].sp_ids()[k as int] == c);
                    assert(w0.tables@[a as int].sp_ids() == w0.archetypes.sp_archetype(
                        a as int,
                    ).sp_table_components());
                }
                World::lemma_table_cell_write(w0, *self, a, k, row, e, c, value, tick);
                assert(old(self).sp_has_component(e, c));
            }
            return Ok(());
        }
        let arch_has_sparse = crate::archetype::contains_id(
            self.archetypes.get(a).sparse_components(),
            c,
        );
        if arch_has_sparse {
            let ghost w0 = *self;
            proof {
                assert(w0.sparse_sets@[c.0 as int].sp_get(e.index as int) is Some);
            }
            let s = &mut self.sparse_sets[c.0];
            s.set_value(e.index, value, tick);
            proof {
                World::lemma_sparse_cell_write(w0, *self, e, c, value, tick);
                assert(old(self).sp_has_component(e, c));
            }
            return Ok(());
        }
        // the entity does not carry `c` yet: move its row
        let ghost w0 = *self;
        let ghost arch0 = w0.archetypes.sp_archetype(a as int);
        proof {
            assert(arch0.wf());
            assert(!arch0.sp_has_table_component(c)) by {
                assert(w0.tables@[a as int].sp_ids() == arch0.sp_table_components());
                assert(!w0.tables@[a as int].sp_has_column(c));
            }
            assert(!old(self).sp_has_component(e, c));
            assert(w0.sp_component(e, c) is None);
        }
        let st = match self.components.storage_type(c) {
            Some(s) => s,
            None => {
                return Err(WorldError::UnregisteredComponent);
            },
        };
        let old_t = copy_ids(self.archetypes.get(a).table_components());
        let old_s = copy_ids(self.archetypes.get(a).sparse_components());
        proof {
            lemma_sorted_ids_bound(old_t@);
            lemma_sorted_ids_bound(old_s@);
            assert(old_t@.len() <= w0.sp_component_count()) by {
                if old_t@.len() > 0 {
                    assert(arch0.sp_table_components()[old_t@.len() - 1].0
                        < w0.sp_component_count());
                    assert(old_t@[old_t@.len() - 1].0 >= old_t@.len() - 1);
                }
            }
            assert(old_s@.len() <= w0.sp_component_count()) by {
                if old_s@.len() > 0 {
                    assert(arch0.sp_sparse_components()[old_s@.len() - 1].0
                        < w0.sp_component_count());
                    assert(old_s@[old_s@.len() - 1].0 >= old_s@.len() - 1);
                }
            }
        }
        proof {
            assert(old_t@.len() < usize::MAX);
            assert(old_s@.len() < usize::MAX);
        }
        let is_table = match st {
            StorageType::Table => true,
            StorageType::SparseSet => false,
        };
        let new_t = if is_table {
            insert_sorted(&old_t, c)
        } else {
            old_t
        };
        let new_s = if is_table {
            old_s
        } else {
            insert_sorted(&old_s, c)
        };
        let ghost tids = new_t@;
        let ghost sids = new_s@;
        proof {
            assert forall|p: int, q: int|
                0 <= p < tids.len() && 0 <= q < sids.len() implies tids[p] != sids[q] by {
                if is_table {
                    assert(tids.contains(tids[p]));
                    assert(arch0.sp_table_components().contains(tids[p]) || tids[p] == c);
                    if arch0.sp_table_components().contains(tids[p]) {
                        let w = choose|w: int|
                            0 <= w < arch0.sp_table_components().len()
                                && arch0.sp_table_components()[w] == tids[p];
                        assert(arch0.sp_table_components()[w] != sids[q]);
                    } else {
                        assert(!arch0.sp_has_sparse_component(c));
                    }
                } else {
                    assert(sids.contains(sids[q]));
                    assert(arch0.sp_sparse_components().contains(sids[q]) || sids[q] == c);
                    if arch0.sp_sparse_components().contains(sids[q]) {
                        let w = choose|w: int|
                            0 <= w < arch0.sp_sparse_components().len()
                                && arch0.sp_sparse_components()[w] == sids[q];
                        assert(tids[p] != arch0.sp_sparse_components()[w]);
                    } else {
                        assert(!arch0.sp_has_table_component(c));
                    }
                }
            }
            assert forall|p: int|
                0 <= p < tids.len() implies (#[trigger] tids[p]).0 < w0.sp_component_count()
                    && w0.sp_storage_type(tids[p]) == StorageType::Table by {
                assert(tids.contains(tids[p]));
                if is_table {
                    if tids[p] == c {
                    } else {
                        assert(arch0.sp_table_components().contains(tids[p]));
                        let w = choose|w: int|
                            0 <= w < arch0.sp_table_components().len()
                                && arch0.sp_table_components()[w] == tids[p];
                    }
                } else {
                    let w = choose|w: int|
                        0 <= w < arch0.sp_table_components().len()
                            && arch0.sp_table_components()[w] == tids[p];
                }
            }
            assert forall|p: int|
                0 <= p < sids.len() implies (#[trigger] sids[p]).0 < w0.sp_component_count()
                    && w0.sp_storage_type(sids[p]) == StorageType::SparseSet by {
                assert(sids.contains(sids[p]));
                if !is_table {
                    if sids[p] == c {
                    } else {
                        assert(arch0.sp_sparse_components().contains(sids[p]));
                        let w = choose|w: int|
                            0 <= w < arch0.sp_sparse_components().len()
                                && arch0.sp_sparse_components()[w] == sids[p];
                    }
                } else {
                    let w = choose|w: int|
                        0 <= w < arch0.sp_sparse_components().len()
                            && arch0.sp_sparse_components()[w] == sids[p];
                }
            }
        }
        let pos_opt = crate::archetype::position_of(&new_t, c);
        let target = self.get_or_create_archetype(new_t, new_s);
        let ghost w2 = *self;
        let ghost archt = w2.archetypes.sp_archetype(target as int);
        proof {
            assert(archt.sp_table_components() == tids);
            assert(archt.sp_sparse_components() == sids);
            assert(archt.sp_contains(c)) by {
                if is_table {
                } else {
                }
            }
            assert(target != a) by {
                if target == a {
                    assert(arch0.sp_contains(c));
                }
            }
            assert((row as int) < w2.tables@[a as int].sp_entities().len());
        }
        let ta = &mut self.tables[a];
        let (vals, tks) = ta.swap_remove_row(row);
        let ghost w3 = *self;
        let moved_n = self.tables[a].len();
        if row < moved_n {
            proof {
                assert(w3.tables@[a as int].sp_entities()[row as int] == w2.tables@[
                    a as int].sp_entities().last());
                let me = w3.tables@[a as int].sp_entities()[row as int];
                assert(w2.entities.sp_contains(me));
            }
            let moved = self.tables[a].entity_at(row);
            self.locations.set(moved.index as usize, Some((a, row)));
        }
        let ghost w4 = *self;
        let mut new_vals = vals;
        let mut new_tks = tks;
        if is_table {
            let pos = match pos_opt {
                Some(p) => p,
                None => 0,
            };
            proof {
                assert(pos_opt is Some);
                assert(tids[pos as int] == c);
                assert(pos <= new_vals@.len());
            }
            new_vals.insert(pos, value);
            new_tks.insert(pos, ComponentTicks { added: tick, changed: tick });
        } else {
            let ss = &mut self.sparse_sets[c.0];
            ss.insert(e.index, value, ComponentTicks { added: tick, changed: tick });
        }
        let ghost w5 = *self;
        let new_row = self.tables[target].len();
        proof {
            assert(w5.tables@[target as int].sp_ids() == tids);
            assert(new_vals@.len() == tids.len());
            assert(new_tks@.len() == tids.len());
        }
        let tt = &mut self.tables[target];
        tt.push_row(e, &new_vals, &new_tks);
        self.locations.set(e.index as usize, Some((target, new_row)));
        proof {
            let wfi = *self;
            World::lemma_move_row_wf(
                w2, wfi, e, c, value, tick, a, row, target, new_row, is_table,
                (match pos_opt { Some(p) => p, None => 0 }),
                vals@, tks@, new_vals@, new_tks@,
            );
            World::lemma_move_row_values(
                w2, wfi, e, c, value, tick, a, row, target, new_row, is_table,
                (match pos_opt { Some(p) => p, None => 0 }),
                vals@, tks@, new_vals@, new_tks@,
            );
        }
        Ok(())
    }

    /// Moving one entity's row from table `a` to table `target` (by
    /// swap-remove and push) keeps the world well formed.
    #[verifier::rlimit(100)]
    #[verifier::spinoff_prover]
    pub(crate) proof fn lemma_move_row_wf(
        w2: World,
        wfi: World,
        e: Entity,
        c: ComponentId,
        value: u64,
        tick: u32,
        a: usize,
        row: usize,
        target: usize,
        new_row: usize,
        is_table: bool,
        pos: usize,
        vals: Seq<u64>,
        tks: Seq<ComponentTicks>,
        new_vals: Seq<u64>,
        new_tks: Seq<ComponentTicks>,
    )
        requires
            w2.wf(),
            wfi.entities == w2.entities,
            wfi.components == w2.components,
            wfi.archetypes == w2.archetypes,
            wfi.resources == w2.resources,
            wfi.removed == w2.removed,
            wfi.change_tick == w2.change_tick,
            wfi.last_change_tick == w2.last_change_tick,
            wfi.tables@.len() == w2.tables@.len(),
            wfi.sparse_sets@.len() == w2.sparse_sets@.len(),
            wfi.locations@.len() == w2.locations@.len(),
            (a as int) != target as int,
            (a as int) < w2.tables@.len(),
            (target as int) < w2.tables@.len(),
            forall|x: int|
                0 <= x < w2.tables@.len() && x != a as int && x != target as int
                    ==> wfi.tables@[x] == w2.tables@[x],
            // the entity being moved
            w2.sp_live(e),
            w2.locations@[e.index as int] == Some((a, row)),
            (row as int) < w2.tables@[a as int].sp_entities().len(),
            // source and destination archetype
            !w2.archetypes.sp_archetype(a as int).sp_contains(c),
            c.0 < w2.components.sp_infos().len(),
            w2.components.sp_storage_type(c) == (if is_table {
                StorageType::Table
            } else {
                StorageType::SparseSet
            }),
            is_table ==> {
                &&& (pos as int) <= w2.archetypes.sp_archetype(
                    a as int,
                ).sp_table_components().len()
                &&& w2.archetypes.sp_archetype(target as int).sp_table_components()
                    == seq_insert_at(
                    w2.archetypes.sp_archetype(a as int).sp_table_components(),
                    pos as int,
                    c,
                )
                &&& w2.archetypes.sp_archetype(target as int).sp_sparse_components()
                    == w2.archetypes.sp_archetype(a as int).sp_sparse_components()
                &&& new_vals == vals.insert(pos as int, value)
                &&& new_tks == tks.insert(
                    pos as int,
                    ComponentTicks { added: tick, changed: tick },
                )
                &&& wfi.sparse_sets == w2.sparse_sets
            },
            !is_table ==> {
                &&& w2.archetypes.sp_archetype(target as int).sp_table_components()
                    == w2.archetypes.sp_archetype(a as int).sp_table_components()
                &&& forall|x: ComponentId|
                    w2.archetypes.sp_archetype(target as int).sp_sparse_components().contains(x)
                        == (w2.archetypes.sp_archetype(
                        a as int,
                    ).sp_sparse_components().contains(x) || x == c)
                &&& new_vals == vals
                &&& new_tks == tks
                &&& forall|x: int|
                    0 <= x < w2.sparse_sets@.len() && x != c.0 as int ==> wfi.sparse_sets@[x]
                        == w2.sparse_sets@[x]
                &&& wfi.sparse_sets@[c.0 as int].sp_get(e.index as int) == Some(
                    (value, ComponentTicks { added: tick, changed: tick }),
                )
                &&& forall|j: int|
                    j != e.index as int ==> wfi.sparse_sets@[c.0 as int].sp_get(j)
                        == w2.sparse_sets@[c.0 as int].sp_get(j)
            },
            // the source table lost row `row` by swap-remove
            wfi.tables@[a as int].wf(),
            wfi.tables@[a as int].sp_ids() == w2.tables@[a as int].sp_ids(),
            wfi.tables@[a as int].sp_entities() == w2.tables@[a as int].sp_entities().update(
                row as int,
                w2.tables@[a as int].sp_entities().last(),
            ).drop_last(),
            forall|k: int|
                0 <= k < w2.tables@[a as int].sp_ids().len() ==> #[trigger] wfi.tables@[
                    a as int].sp_data(k) == w2.tables@[a as int].sp_data(k).update(
                    row as int,
                    w2.tables@[a as int].sp_data(k).last(),
                ).drop_last(),
            forall|k: int|
                0 <= k < w2.tables@[a as int].sp_ids().len() ==> #[trigger] wfi.tables@[
                    a as int].sp_ticks(k) == w2.tables@[a as int].sp_ticks(k).update(
                    row as int,
                    w2.tables@[a as int].sp_ticks(k).last(),
                ).drop_last(),
            // the removed row's cells
            vals.len() == w2.tables@[a as int].sp_ids().len(),
            tks.len() == w2.tables@[a as int].sp_ids().len(),
            forall|k: int|
                0 <= k < vals.len() ==> vals[k] == w2.tables@[a as int].sp_data(k)[row as int],
            forall|k: int|
                0 <= k < tks.len() ==> tks[k] == w2.tables@[a as int].sp_ticks(k)[row as int],
            // the destination table gained the row at the end
            (new_row as int) == w2.tables@[target as int].sp_entities().len(),
            wfi.tables@[target as int].wf(),
            wfi.tables@[target as int].sp_ids() == w2.tables@[target as int].sp_ids(),
            w2.tables@[target as int].sp_ids() == w2.archetypes.sp_archetype(
                target as int,
            ).sp_table_components(),
            new_vals.len() == w2.tables@[target as int].sp_ids().len(),
            new_tks.len() == w2.tables@[target as int].sp_ids().len(),
            wfi.tables@[target as int].sp_entities() == w2.tables@[
                target as int].sp_entities().push(e),
            forall|k: int|
                0 <= k < w2.tables@[target as int].sp_ids().len() ==> #[trigger] wfi.tables@[
                    target as int].sp_data(k) == w2.tables@[target as int].sp_data(k).push(
                    new_vals[k],
                ),
            forall|k: int|
                0 <= k < w2.tables@[target as int].sp_ids().len() ==> #[trigger] wfi.tables@[
                    target as int].sp_ticks(k) == w2.tables@[target as int].sp_ticks(k).push(
                    new_tks[k],
                ),
            // locations after the move
            wfi.locations@[e.index as int] == Some((target, new_row)),
            (row as int) < w2.tables@[a as int].sp_entities().len() - 1
                ==> wfi.locations@[w2.tables@[a as int].sp_entities().last().index as int]
                == Some((a, row)),
            forall|i: int|
                0 <= i < w2.locations@.len() && i != e.index as int && ((row as int)
                    == w2.tables@[a as int].sp_entities().len() - 1 || i != w2.tables@[
                    a as int].sp_entities().last().index as int) ==> wfi.locations@[i]
                    == w2.locations@[i],
        ensures
            wfi.wf(),
    {
            let wf_ = wfi;
            let ai = a as int;
            let ti = target as int;
            let ei = e.index as int;
            let t_a0 = w2.tables@[ai];
            let t_a1 = wf_.tables@[ai];
            let t_t0 = w2.tables@[ti];
            let t_t1 = wf_.tables@[ti];
            let n_a = t_a0.sp_entities().len() as int;
            lemma_world_lens_bound(w2);
            lemma_world_lens_bound(wfi);
            assert(w2.wf());
            assert(w2.wf_locations());
            let has_moved = (row as int) < n_a - 1;
            let me = t_a0.sp_entities()[n_a - 1];
            let arch0 = w2.archetypes.sp_archetype(ai);
            let archt = w2.archetypes.sp_archetype(ti);
            let tids = archt.sp_table_components();
            let sids = archt.sp_sparse_components();
            // which tables changed how
            assert(wf_.tables@.len() == w2.tables@.len());
            assert(forall|x: int|
                0 <= x < w2.tables@.len() && x != ai && x != ti ==> wf_.tables@[x]
                    == w2.tables@[x]);
            assert(t_a1.sp_entities() == t_a0.sp_entities().update(
                row as int,
                t_a0.sp_entities().last(),
            ).drop_last());
            assert(t_t1.sp_entities() == t_t0.sp_entities().push(e));
            assert(t_a1.sp_ids() == t_a0.sp_ids());
            assert(t_t1.sp_ids() == t_t0.sp_ids());
            // entity bookkeeping facts
            assert(w2.locations@[ei] == Some((a, row)));
            assert(t_a0.sp_entities()[row as int] == e);
            assert(w2.entities.sp_contains(me));
            assert(w2.locations@[me.index as int] == Some((a, (n_a - 1) as usize)));
            assert(me.index != e.index || !has_moved) by {
                if me.index == e.index && has_moved {
                    assert(w2.locations@[ei] == Some((a, (n_a - 1) as usize)));
                }
            }
            if !has_moved {
                assert(row as int == n_a - 1);
                assert(me == e);
            }
            // final locations characterised
            assert(wf_.locations@.len() == w2.locations@.len());
            assert(wf_.locations@[ei] == Some((target, new_row)));
            if has_moved {
                assert(wf_.locations@[me.index as int] == Some((a, row)));
            }
            assert(forall|i: int|
                0 <= i < w2.locations@.len() && i != ei && (!has_moved || i != me.index as int)
                    ==> wf_.locations@[i] == w2.locations@[i]);
            // sparse sets characterised
            assert(forall|x: int|
                0 <= x < w2.sparse_sets@.len() && (is_table || x != c.0 as int)
                    ==> wf_.sparse_sets@[x] == w2.sparse_sets@[x]);
            if !is_table {
                assert(wf_.sparse_sets@[c.0 as int].sp_get(ei) == Some(
                    (value, ComponentTicks { added: tick, changed: tick }),
                ));
                assert(forall|j: int|
                    j != ei ==> wf_.sparse_sets@[c.0 as int].sp_get(j) == w2.sparse_sets@[
                        c.0 as int].sp_get(j));
            }
            // row injectivity in the old tables
            assert forall|r2: int| 0 <= r2 < n_a - 1 implies t_a0.sp_entities()[r2] != me by {
                if t_a0.sp_entities()[r2] == me {
                    assert(w2.locations@[me.index as int] == Some((a, r2 as usize)));
                }
            }
            assert forall|r2: int|
                0 <= r2 < t_t0.sp_entities().len() implies t_t0.sp_entities()[r2] != e
                    && t_t0.sp_entities()[r2] != me by {
                if t_t0.sp_entities()[r2] == e {
                    assert(w2.locations@[ei] == Some((target, r2 as usize)));
                }
                if t_t0.sp_entities()[r2] == me {
                    assert(w2.locations@[me.index as int] == Some((target, r2 as usize)));
                }
            }
            // invariant: lens
            assert(wf_.wf_lens());
            // invariant: tables
            assert forall|x: int|
                0 <= x < wf_.tables@.len() implies (#[trigger] wf_.tables@[x]).wf()
                    && wf_.tables@[x].sp_ids() == wf_.archetypes.sp_archetype(
                    x,
                ).sp_table_components() by {
                if x != ai && x != ti {
                    assert(wf_.tables@[x] == w2.tables@[x]);
                }
            }
            assert(wf_.wf_tables());
            // invariant: locations, clause by clause
            assert forall|i: int|
                0 <= i < wf_.locations@.len() implies (wf_.entities.sp_alive(i) == (
            #[trigger] wf_.locations@[i]) is Some) by {
                if i != ei && (!has_moved || i != me.index as int) {
                    assert(wf_.locations@[i] == w2.locations@[i]);
                }
            }
            assert forall|i: int|
                0 <= i < wf_.locations@.len() && (#[trigger] wf_.locations@[i]) is Some implies {
                let (a3, row3) = wf_.locations@[i].unwrap();
                &&& (a3 as int) < wf_.tables@.len()
                &&& (row3 as int) < wf_.tables@[a3 as int].sp_entities().len()
                &&& wf_.tables@[a3 as int].sp_entities()[row3 as int] == (Entity {
                    index: i as u32,
                    generation: wf_.entities.sp_generation(i),
                })
            } by {
                if i == ei {
                    assert(t_t1.sp_entities()[new_row as int] == e);
                } else if has_moved && i == me.index as int {
                    assert(t_a1.sp_entities()[row as int] == me);
                } else {
                    assert(wf_.locations@[i] == w2.locations@[i]);
                    let (a3, row3) = w2.locations@[i].unwrap();
                    let e3 = Entity { index: i as u32, generation: w2.entities.sp_generation(i) };
                    assert(w2.tables@[a3 as int].sp_entities()[row3 as int] == e3);
                    if a3 as int == ai {
                        assert(e3 != e) by {
                            if e3 == e {
                                assert(w2.locations@[ei] == Some((a3, row3)));
                            }
                        }
                        assert(row3 as int != row as int) by {
                            if row3 as int == row as int {
                                assert(t_a0.sp_entities()[row as int] == e3);
                            }
                        }
                        assert(row3 as int != n_a - 1) by {
                            if row3 as int == n_a - 1 {
                                assert(e3 == me);
                                assert(i == me.index as int);
                                assert(!has_moved);
                                assert(me == e);
                            }
                        }
                        assert(t_a1.sp_entities()[row3 as int] == t_a0.sp_entities()[row3 as int]);
                    } else if a3 as int == ti {
                        assert(t_t1.sp_entities()[row3 as int] == t_t0.sp_entities()[row3 as int]);
                    } else {
                        assert(wf_.tables@[a3 as int] == w2.tables@[a3 as int]);
                    }
                }
            }
            assert forall|a3: int, row3: int|
                0 <= a3 < wf_.tables@.len() && 0 <= row3 < wf_.tables@[a3].sp_entities().len()
                implies {
                let e3 = #[trigger] wf_.tables@[a3].sp_entities()[row3];
                &&& wf_.entities.sp_contains(e3)
                &&& (e3.index as int) < wf_.locations@.len()
                &&& wf_.locations@[e3.index as int] == Some((a3 as usize, row3 as usize))
            } by {
                if a3 == ai {
                    if has_moved && row3 == row as int {
                        assert(wf_.tables@[a3].sp_entities()[row3] == me);
                    } else {
                        assert(row3 != row as int || !has_moved);
                        assert(row3 < n_a - 1);
                        if row3 == row as int {
                            assert(has_moved);
                        }
                        assert(wf_.tables@[a3].sp_entities()[row3] == t_a0.sp_entities()[row3]);
                        let e3 = t_a0.sp_entities()[row3];
                        assert(w2.locations@[e3.index as int] == Some((a, row3 as usize)));
                        assert(e3 != e) by {
                            if e3 == e {
                                assert(w2.locations@[ei] == Some((a, row3 as usize)));
                            }
                        }
                        assert(e3 != me);
                        assert(e3.index as int != ei) by {
                            if e3.index as int == ei {
                                assert(w2.entities.sp_generation(ei) == e3.generation);
                                assert(w2.entities.sp_generation(ei) == e.generation);
                            }
                        }
                        assert(!has_moved || e3.index as int != me.index as int) by {
                            if has_moved && e3.index as int == me.index as int {
                                assert(w2.entities.sp_generation(me.index as int)
                                    == e3.generation);
                                assert(w2.entities.sp_generation(me.index as int)
                                    == me.generation);
                                assert(e3 == me);
                            }
                        }
                    }
                } else if a3 == ti {
                    if row3 == new_row as int {
                        assert(wf_.tables@[a3].sp_entities()[row3] == e);
                    } else {
                        assert(wf_.tables@[a3].sp_entities()[row3] == t_t0.sp_entities()[row3]);
                        let e3 = t_t0.sp_entities()[row3];
                        assert(w2.locations@[e3.index as int] == Some((target, row3 as usize)));
                        assert(e3.index as int != ei) by {
                            if e3.index as int == ei {
                                assert(w2.entities.sp_generation(ei) == e3.generation);
                                assert(w2.entities.sp_generation(ei) == e.generation);
                                assert(e3 == e);
                                assert(w2.locations@[ei] == Some((target, row3 as usize)));
                                assert(w2.locations@[ei] == Some((a, row)));
                                assert(target == a);
                            }
                        }
                        assert(!has_moved || e3.index as int != me.index as int) by {
                            if has_moved && e3.index as int == me.index as int {
                                assert(w2.entities.sp_generation(me.index as int)
                                    == e3.generation);
                                assert(w2.entities.sp_generation(me.index as int)
                                    == me.generation);
                                assert(e3 == me);
                                assert(w2.locations@[me.index as int] == Some(
                                    (target, row3 as usize),
                                ));
                                assert(w2.locations@[me.index as int] == Some(
                                    (a, (n_a - 1) as usize),
                                ));
                                assert(target == a);
                            }
                        }
                    }
                } else {
                    assert(wf_.tables@[a3] == w2.tables@[a3]);
                    let e3 = w2.tables@[a3].sp_entities()[row3];
                    assert(0 <= row3 < w2.tables@[a3].sp_entities().len());
                    assert(w2.entities.sp_contains(e3));
                    assert(w2.locations@[e3.index as int] == Some((a3 as usize, row3 as usize)));
                    assert(e3.index as int != ei) by {
                        if e3.index as int == ei {
                            assert(w2.entities.sp_generation(ei) == e3.generation);
                            assert(w2.entities.sp_generation(ei) == e.generation);
                            assert(e3 == e);
                            assert(w2.locations@[ei] == Some((a3 as usize, row3 as usize)));
                            assert(w2.locations@[ei] == Some((a, row)));
                            assert(a3 as usize == a && a3 < wf_.tables@.len());
                            assert(a3 == a as int);
                        }
                    }
                    assert(!has_moved || e3.index as int != me.index as int) by {
                        if has_moved && e3.index as int == me.index as int {
                            assert(w2.entities.sp_generation(me.index as int) == e3.generation);
                            assert(w2.entities.sp_generation(me.index as int) == me.generation);
                            assert(e3 == me);
                            assert(w2.locations@[me.index as int] == Some(
                                (a3 as usize, row3 as usize),
                            ));
                            assert(w2.locations@[me.index as int] == Some(
                                (a, (n_a - 1) as usize),
                            ));
                            assert(a3 as usize == a);
                            assert(a3 == a as int);
                        }
                    }
                }
            }
            assert(wf_.wf_locations());
            // invariant: sparse sets
            assert forall|cc: int, i: int|
                0 <= cc < wf_.sparse_sets@.len() implies ((
            #[trigger] wf_.sparse_sets@[cc].sp_get(i)) is Some == (0 <= i < wf_.locations@.len()
                && wf_.locations@[i] is Some && wf_.archetypes.sp_archetype(
                wf_.locations@[i].unwrap().0 as int,
            ).sp_has_sparse_component(ComponentId(cc as usize)))) by {
                let ccid = ComponentId(cc as usize);
                if !is_table && cc == c.0 as int && i == ei {
                    assert(wf_.sparse_sets@[cc].sp_get(i) is Some);
                    assert(archt.sp_has_sparse_component(c));
                    assert(ccid == c);
                } else {
                    assert(wf_.sparse_sets@[cc].sp_get(i) == w2.sparse_sets@[cc].sp_get(i));
                    if 0 <= i < w2.locations@.len() {
                        if i == ei {
                            // moved from arch0 to archt; sparse membership other
                            // than c is unchanged
                            assert(w2.locations@[i].unwrap().0 as int == ai);
                            assert(wf_.locations@[i].unwrap().0 as int == ti);
                            assert(ccid != c ==> (arch0.sp_has_sparse_component(ccid)
                                == archt.sp_has_sparse_component(ccid))) by {
                                if is_table {
                                    assert(archt.sp_sparse_components()
                                        == arch0.sp_sparse_components());
                                } else {
                                    assert(forall|x: ComponentId|
                                        archt.sp_sparse_components().contains(x) == (
                                        arch0.sp_sparse_components().contains(x) || x == c));
                                }
                            }
                            if ccid == c {
                                assert(is_table);
                                assert(!arch0.sp_has_sparse_component(c));
                                assert(w2.sparse_sets@[cc].sp_get(i) is None);
                                assert(!archt.sp_has_sparse_component(c)) by {
                                    if archt.sp_has_sparse_component(c) {
                                        let q = choose|q: int|
                                            0 <= q < sids.len() && sids[q] == c;
                                        assert(w2.sp_storage_type(sids[q])
                                            == StorageType::SparseSet);
                                        assert(w2.sp_storage_type(c) == StorageType::Table);
                                    }
                                }
                            }
                        } else if has_moved && i == me.index as int {
                            assert(w2.locations@[i].unwrap().0 as int == ai);
                            assert(wf_.locations@[i].unwrap().0 as int == ai);
                        } else {
                            assert(wf_.locations@[i] == w2.locations@[i]);
                        }
                    } else {
                        if wf_.sparse_sets@[cc].sp_get(i) is Some {
                            assert(0 <= i < w2.locations@.len());
                        }
                    }
                }
            }
            assert(wf_.wf_sparse());
            assert(wf_.wf());
    }

    /// Moving one entity's row from table `a` to table `target` gives the
    /// moved entity its new component and keeps every other component value
    /// and tick of every entity exactly as it was.
    #[verifier::rlimit(100)]
    #[verifier::spinoff_prover]
    pub(crate) proof fn lemma_move_row_values(
        w2: World,
        wfi: World,
        e: Entity,
        c: ComponentId,
        value: u64,
        tick: u32,
        a: usize,
        row: usize,
        target: usize,
        new_row: usize,
        is_table: bool,
        pos: usize,
        vals: Seq<u64>,
        tks: Seq<ComponentTicks>,
        new_vals: Seq<u64>,
        new_tks: Seq<ComponentTicks>,
    )
        requires
            w2.wf(),
            wfi.entities == w2.entities,
            wfi.components == w2.components,
            wfi.archetypes == w2.archetypes,
            wfi.resources == w2.resources,
            wfi.removed == w2.removed,
            wfi.change_tick == w2.change_tick,
            wfi.last_change_tick == w2.last_change_tick,
            wfi.tables@.len() == w2.tables@.len(),
            wfi.sparse_sets@.len() == w2.sparse_sets@.len(),
            wfi.locations@.len() == w2.locations@.len(),
            (a as int) != target as int,
            (a as int) < w2.tables@.len(),
            (target as int) < w2.tables@.len(),
            forall|x: int|
                0 <= x < w2.tables@.len() && x != a as int && x != target as int
                    ==> wfi.tables@[x] == w2.tables@[x],
            // the entity being moved
            w2.sp_live(e),
            w2.locations@[e.index as int] == Some((a, row)),
            (row as int) < w2.tables@[a as int].sp_entities().len(),
            // source and destination archetype
            !w2.archetypes.sp_archetype(a as int).sp_contains(c),
            c.0 < w2.components.sp_infos().len(),
            w2.components.sp_storage_type(c) == (if is_table {
                StorageType::Table
            } else {
                StorageType::SparseSet
            }),
            is_table ==> {
                &&& (pos as int) <= w2.archetypes.sp_archetype(
                    a as int,
                ).sp_table_components().len()
                &&& w2.archetypes.sp_archetype(target as int).sp_table_components()
                    == seq_insert_at(
                    w2.archetypes.sp_archetype(a as int).sp_table_components(),
                    pos as int,
                    c,
                )
                &&& w2.archetypes.sp_archetype(target as int).sp_sparse_components()
                    == w2.archetypes.sp_archetype(a as int).sp_sparse_components()
                &&& new_vals == vals.insert(pos as int, value)
                &&& new_tks == tks.insert(
                    pos as int,
                    ComponentTicks { added: tick, changed: tick },
                )
                &&& wfi.sparse_sets == w2.sparse_sets
            },
            !is_table ==> {
                &&& w2.archetypes.sp_archetype(target as int).sp_table_components()
                    == w2.archetypes.sp_archetype(a as int).sp_table_components()
                &&& forall|x: ComponentId|
                    w2.archetypes.sp_archetype(target as int).sp_sparse_components().contains(x)
                        == (w2.archetypes.sp_archetype(
                        a as int,
                    ).sp_sparse_components().contains(x) || x == c)
                &&& new_vals == vals
                &&& new_tks == tks
                &&& forall|x: int|
                    0 <= x < w2.sparse_sets@.len() && x != c.0 as int ==> wfi.sparse_sets@[x]
                        == w2.sparse_sets@[x]
                &&& wfi.sparse_sets@[c.0 as int].sp_get(e.index as int) == Some(
                    (value, ComponentTicks { added: tick, changed: tick }),
                )
                &&& forall|j: int|
                    j != e.index as int ==> wfi.sparse_sets@[c.0 as int].sp_get(j)
                        == w2.sparse_sets@[c.0 as int].sp_get(j)
            },
            // the source table lost row `row` by swap-remove
            wfi.tables@[a as int].wf(),
            wfi.tables@[a as int].sp_ids() == w2.tables@[a as int].sp_ids(),
            wfi.tables@[a as int].sp_entities() == w2.tables@[a as int].sp_entities().update(
                row as int,
                w2.tables@[a as int].sp_entities().last(),
            ).drop_last(),
            forall|k: int|
                0 <= k < w2.tables@[a as int].sp_ids().len() ==> #[trigger] wfi.tables@[
                    a as int].sp_data(k) == w2.tables@[a as int].sp_data(k).update(
                    row as int,
                    w2.tables@[a as int].sp_data(k).last(),
                ).drop_last(),
            forall|k: int|
                0 <= k < w2.tables@[a as int].sp_ids().len() ==> #[trigger] wfi.tables@[
                    a as int].sp_ticks(k) == w2.tables@[a as int].sp_ticks(k).update(
                    row as int,
                    w2.tables@[a as int].sp_ticks(k).last(),
                ).drop_last(),
            // the removed row's cells
            vals.len() == w2.tables@[a as int].sp_ids().len(),
            tks.len() == w2.tables@[a as int].sp_ids().len(),
            forall|k: int|
                0 <= k < vals.len() ==> vals[k] == w2.tables@[a as int].sp_data(k)[row as int],
            forall|k: int|
                0 <= k < tks.len() ==> tks[k] == w2.tables@[a as int].sp_ticks(k)[row as int],
            // the destination table gained the row at the end
            (new_row as int) == w2.tables@[target as int].sp_entities().len(),
            wfi.tables@[target as int].wf(),
            wfi.tables@[target as int].sp_ids() == w2.tables@[target as int].sp_ids(),
            w2.tables@[target as int].sp_ids() == w2.archetypes.sp_archetype(
                target as int,
            ).sp_table_components(),
            new_vals.len() == w2.tables@[target as int].sp_ids().len(),
            new_tks.len() == w2.tables@[target as int].sp_ids().len(),
            wfi.tables@[target as int].sp_entities() == w2.tables@[
                target as int].sp_entities().push(e),
            forall|k: int|
                0 <= k < w2.tables@[target as int].sp_ids().len() ==> #[trigger] wfi.tables@[
                    target as int].sp_data(k) == w2.tables@[target as int].sp_data(k).push(
                    new_vals[k],
                ),
            forall|k: int|
                0 <= k < w2.tables@[target as int].sp_ids().len() ==> #[trigger] wfi.tables@[
                    target as int].sp_ticks(k) == w2.tables@[target as int].sp_ticks(k).push(
                    new_tks[k],
                ),
            // locations after the move
            wfi.locations@[e.index as int] == Some((target, new_row)),
            (row as int) < w2.tables@[a as int].sp_entities().len() - 1
                ==> wfi.locations@[w2.tables@[a as int].sp_entities().last().index as int]
                == Some((a, row)),
            forall|i: int|
                0 <= i < w2.locations@.len() && i != e.index as int && ((row as int)
                    == w2.tables@[a as int].sp_entities().len() - 1 || i != w2.tables@[
                    a as int].sp_entities().last().index as int) ==> wfi.locations@[i]
                    == w2.locations@[i],
        ensures
            wfi.sp_component(e, c) == Some(
                (value, ComponentTicks { added: tick, changed: tick }),
            ),
            forall|c2: ComponentId|
                c2 != c ==> wfi.sp_component(e, c2) == w2.sp_component(e, c2),
            forall|e2: Entity, c2: ComponentId|
                e2 != e ==> wfi.sp_component(e2, c2) == w2.sp_component(e2, c2),
            forall|e2: Entity| wfi.sp_live(e2) == w2.sp_live(e2),
            forall|e2: Entity, c2: ComponentId|
                wfi.sp_has_component(e2, c2) == (w2.sp_has_component(e2, c2) || (e2 == e && c2
                    == c)),
    {
        let ai = a as int;
        let ti = target as int;
        let ei = e.index as int;
        let t_a0 = w2.tables@[ai];
        let t_a1 = wfi.tables@[ai];
        let t_t0 = w2.tables@[ti];
        let t_t1 = wfi.tables@[ti];
        let n_a = t_a0.sp_entities().len() as int;
        lemma_world_lens_bound(w2);
        lemma_world_lens_bound(wfi);
        let has_moved = (row as int) < n_a - 1;
        let me = t_a0.sp_entities()[n_a - 1];
        let arch0 = w2.archetypes.sp_archetype(ai);
        let archt = w2.archetypes.sp_archetype(ti);
        let otids = arch0.sp_table_components();
        let tids = archt.sp_table_components();
        assert(t_a0.sp_ids() == otids);
        assert(w2.entities.sp_contains(me));
        assert(w2.locations@[me.index as int] == Some((a, (n_a - 1) as usize)));
        // membership of the destination's table list
        assert forall|x: ComponentId|
            tids.contains(x) == (otids.contains(x) || (is_table && x == c)) by {
            if is_table {
                lemma_seq_insert_at_contains(otids, pos as int, c, x);
            }
        }
        // column positions in the destination table
        assert(archt.wf());
        assert(arch0.wf());
        if is_table {
            assert(tids == seq_insert_at(otids, pos as int, c));
            assert(tids.len() == otids.len() + 1);
            assert(forall|j: int| 0 <= j < pos as int ==> tids[j] == otids[j]);
            assert(tids[pos as int] == c);
            assert(forall|j: int| (pos as int) < j < tids.len() ==> tids[j] == otids[j - 1]);
        } else {
            assert(tids == otids);
        }
        // the new component on e
        assert(wfi.sp_live(e));
        assert(wfi.sp_archetype_of(e) == ti);
        assert(wfi.sp_row_of(e) == new_row as int);
        if is_table {
            assert(archt.sp_has_table_component(c)) by {
                assert(tids[pos as int] == c);
            }
            assert(t_t1.sp_ids() == tids);
            lemma_column_of_unique(t_t1, c, pos as int);
            assert(t_t1.sp_column_of(c) == pos as int);
            assert(t_t1.sp_data(pos as int)[new_row as int] == new_vals[pos as int]);
            assert(new_vals[pos as int] == value);
            assert(t_t1.sp_ticks(pos as int)[new_row as int] == new_tks[pos as int]);
            assert(wfi.sp_component(e, c) == Some(
                (value, ComponentTicks { added: tick, changed: tick }),
            ));
        } else {
            assert(archt.sp_has_sparse_component(c));
            assert(!archt.sp_has_table_component(c)) by {
                if archt.sp_has_table_component(c) {
                    let q = choose|q: int| 0 <= q < otids.len() && otids[q] == c;
                    assert(w2.components.sp_storage_type(otids[q]) == StorageType::Table) by {
                        assert(w2.wf_tables());
                    }
                }
            }
            assert(wfi.sp_component(e, c) == wfi.sparse_sets@[c.0 as int].sp_get(ei));
        }
        // other components of e keep value and ticks
        assert forall|c2: ComponentId|
            c2 != c implies wfi.sp_component(e, c2) == w2.sp_component(e, c2) by {
            assert(w2.sp_archetype_of(e) == ai);
            assert(w2.sp_row_of(e) == row as int);
            if arch0.sp_has_table_component(c2) {
                let k0 = choose|k: int| 0 <= k < otids.len() && otids[k] == c2;
                lemma_column_of_unique(t_a0, c2, k0);
                let k1 = if is_table && k0 >= (pos as int) {
                    k0 + 1
                } else {
                    k0
                };
                assert(tids[k1] == c2);
                lemma_column_of_unique(t_t1, c2, k1);
                assert(archt.sp_has_table_component(c2)) by {
                    assert(tids.contains(tids[k1]));
                }
                assert(t_t1.sp_data(k1)[new_row as int] == new_vals[k1]);
                assert(new_vals[k1] == vals[k0]) by {
                    if is_table {
                        assert(new_vals == vals.insert(pos as int, value));
                    }
                }
                assert(vals[k0] == t_a0.sp_data(k0)[row as int]);
                assert(t_t1.sp_ticks(k1)[new_row as int] == new_tks[k1]);
                assert(new_tks[k1] == tks[k0]) by {
                    if is_table {
                        assert(new_tks == tks.insert(
                            pos as int,
                            ComponentTicks { added: tick, changed: tick },
                        ));
                    }
                }
                assert(tks[k0] == t_a0.sp_ticks(k0)[row as int]);
            } else if arch0.sp_has_sparse_component(c2) {
                assert(archt.sp_has_sparse_component(c2));
                assert(!archt.sp_has_table_component(c2)) by {
                    if archt.sp_has_table_component(c2) {
                        assert(otids.contains(c2) || (is_table && c2 == c));
                        let q = choose|q: int|
                            0 <= q < arch0.sp_sparse_components().len()
                                && arch0.sp_sparse_components()[q] == c2;
                        if otids.contains(c2) {
                            let p2 = choose|p2: int| 0 <= p2 < otids.len() && otids[p2] == c2;
                        }
                    }
                }
                assert(c2.0 < w2.sparse_sets@.len()) by {
                    let q = choose|q: int|
                        0 <= q < arch0.sp_sparse_components().len()
                            && arch0.sp_sparse_components()[q] == c2;
                    assert(w2.wf_tables());
                }
                assert(wfi.sparse_sets@[c2.0 as int].sp_get(ei) == w2.sparse_sets@[
                    c2.0 as int].sp_get(ei));
            } else {
                assert(!archt.sp_has_table_component(c2)) by {
                    if archt.sp_has_table_component(c2) {
                        assert(otids.contains(c2) || (is_table && c2 == c));
                    }
                }
                assert(!archt.sp_has_sparse_component(c2)) by {
                    if archt.sp_has_sparse_component(c2) {
                        if is_table {
                            assert(archt.sp_sparse_components()
                                == arch0.sp_sparse_components());
                        }
                    }
                }
                assert(wfi.sp_component(e, c2) is None);
                assert(w2.sp_component(e, c2) is None);
            }
        }
        // every other entity is untouched
        assert forall|e2: Entity, c2: ComponentId|
            e2 != e implies wfi.sp_component(e2, c2) == w2.sp_component(e2, c2) by {
            if w2.sp_live(e2) {
                assert(w2.locations@[e2.index as int] is Some);
                assert(e2.index as int != ei) by {
                    if e2.index as int == ei {
                        assert(w2.entities.sp_generation(ei) == e2.generation);
                        assert(w2.entities.sp_generation(ei) == e.generation);
                    }
                }
                assert(wfi.sp_live(e2));
                let a2 = w2.sp_archetype_of(e2);
                let row2 = w2.sp_row_of(e2);
                let arch2 = w2.archetypes.sp_archetype(a2);
                let moved_here = has_moved && e2.index as int == me.index as int;
                if moved_here {
                    assert(e2 == me) by {
                        assert(w2.entities.sp_generation(me.index as int) == e2.generation);
                        assert(w2.entities.sp_generation(me.index as int) == me.generation);
                    }
                    assert(a2 == ai);
                    assert(row2 == n_a - 1);
                    assert(wfi.locations@[e2.index as int] == Some((a, row)));
                    assert(wfi.sp_archetype_of(e2) == ai);
                    assert(wfi.sp_row_of(e2) == row as int);
                } else {
                    assert(wfi.locations@[e2.index as int] == w2.locations@[e2.index as int]);
                    assert(wfi.sp_archetype_of(e2) == a2);
                    assert(wfi.sp_row_of(e2) == row2);
                }
                if arch2.sp_has_table_component(c2) {
                    let k2 = choose|k: int|
                        0 <= k < arch2.sp_table_components().len()
                            && arch2.sp_table_components()[k] == c2;
                    if a2 == ai {
                        lemma_column_of_unique(t_a0, c2, k2);
                        lemma_column_of_unique(t_a1, c2, k2);
                        if moved_here {
                            assert(t_a1.sp_data(k2)[row as int] == t_a0.sp_data(k2)[n_a - 1]);
                            assert(t_a1.sp_ticks(k2)[row as int] == t_a0.sp_ticks(k2)[n_a - 1]);
                        } else {
                            assert(row2 != row as int) by {
                                if row2 == row as int {
                                    assert(t_a0.sp_entities()[row2] == e2);
                                    assert(t_a0.sp_entities()[row as int] == e);
                                }
                            }
                            assert(row2 != n_a - 1) by {
                                if row2 == n_a - 1 {
                                    assert(t_a0.sp_entities()[row2] == e2);
                                    assert(e2 == me);
                                    if has_moved {
                                        assert(moved_here);
                                    } else {
                                        assert(me == e);
                                    }
                                }
                            }
                            assert(t_a1.sp_data(k2)[row2] == t_a0.sp_data(k2)[row2]);
                            assert(t_a1.sp_ticks(k2)[row2] == t_a0.sp_ticks(k2)[row2]);
                        }
                    } else if a2 == ti {
                        lemma_column_of_unique(t_t0, c2, k2);
                        lemma_column_of_unique(t_t1, c2, k2);
                        assert(row2 < t_t0.sp_entities().len()) by {
                            assert(t_t0.sp_entities()[row2] == e2);
                        }
                        assert(t_t1.sp_data(k2)[row2] == t_t0.sp_data(k2)[row2]);
                        assert(t_t1.sp_ticks(k2)[row2] == t_t0.sp_ticks(k2)[row2]);
                    } else {
                        assert(wfi.tables@[a2] == w2.tables@[a2]);
                    }
                } else if arch2.sp_has_sparse_component(c2) {
                    assert(c2.0 < w2.sparse_sets@.len()) by {
                        let q = choose|q: int|
                            0 <= q < arch2.sp_sparse_components().len()
                                && arch2.sp_sparse_components()[q] == c2;
                        assert(w2.wf_tables());
                    }
                    assert(wfi.sparse_sets@[c2.0 as int].sp_get(e2.index as int)
                        == w2.sparse_sets@[c2.0 as int].sp_get(e2.index as int));
                }
            } else {
                assert(!wfi.sp_live(e2));
            }
        }
        // archetype membership only grows by `c` on `e`
        assert forall|e2: Entity, c2: ComponentId|
            wfi.sp_has_component(e2, c2) == (w2.sp_has_component(e2, c2) || (e2 == e && c2
                == c)) by {
            if w2.sp_live(e2) {
                if e2 == e {
                    assert(wfi.sp_archetype_of(e) == ti);
                    assert(archt.sp_contains(c2) == (arch0.sp_contains(c2) || c2 == c)) by {
                        if is_table {
                            assert(archt.sp_sparse_components()
                                == arch0.sp_sparse_components());
                        } else {
                            assert(archt.sp_table_components() == arch0.sp_table_components());
                        }
                    }
                } else {
                    assert(e2.index as int != ei) by {
                        if e2.index as int == ei {
                            assert(w2.entities.sp_generation(ei) == e2.generation);
                            assert(w2.entities.sp_generation(ei) == e.generation);
                        }
                    }
                    let moved_here = has_moved && e2.index as int == me.index as int;
                    if moved_here {
                        assert(wfi.sp_archetype_of(e2) == ai);
                        assert(w2.sp_archetype_of(e2) == ai) by {
                            assert(e2 == me) by {
                                assert(w2.entities.sp_generation(me.index as int)
                                    == e2.generation);
                                assert(w2.entities.sp_generation(me.index as int)
                                    == me.generation);
                            }
                        }
                    } else {
                        assert(wfi.locations@[e2.index as int] == w2.locations@[
                            e2.index as int]);
                    }
                }
            }
        }
    }

    /// Despawn entity `e`: record every component it carried as removed,
    /// drop its sparse values, release its table row (moving the last row
    /// into its place), and retire the handle so it no longer resolves.
    /// A handle that does not resolve changes nothing.
    #[verifier::rlimit(100)]
    #[verifier::spinoff_prover]
    pub fn despawn(&mut self, e: Entity) -> (r: bool)
        requires
            old(self).wf(),
        ensures
            final(self).wf(),
            r == old(self).sp_live(e),
            !r ==> *final(self) == *old(self),
            forall|e2: Entity| final(self).sp_live(e2) == (old(self).sp_live(e2) && e2 != e),
            forall|e2: Entity, c2: ComponentId|
                e2 != e ==> final(self).sp_component(e2, c2) == old(self).sp_component(e2, c2),
            forall|e2: Entity, c2: ComponentId|
                e2 != e ==> final(self).sp_has_component(e2, c2) == old(self).sp_has_component(
                    e2,
                    c2,
                ),
            forall|c2: ComponentId| final(self).sp_resource(c2) == old(self).sp_resource(c2),
            r ==> forall|c2: ComponentId|
                old(self).sp_registered(c2) ==> final(self).sp_removed(c2) == (if old(
                    self,
                ).sp_has_component(e, c2) {
                    old(self).sp_removed(c2).push(e)
                } else {
                    old(self).sp_removed(c2)
                }),
            final(self).sp_change_tick() == old(self).sp_change_tick(),
            final(self).sp_last_change_tick() == old(self).sp_last_change_tick(),
            final(self).sp_component_count() == old(self).sp_component_count(),
            final(self).sp_slot_count() == old(self).sp_slot_count(),
            final(self).sp_next_acid() == old(self).sp_next_acid(),
            final(self).sp_archetype_count() == old(self).sp_archetype_count(),
            forall|c2: ComponentId|
                old(self).sp_registered(c2) ==> final(self).sp_registered(c2)
                    && final(self).sp_storage_type(c2) == old(self).sp_storage_type(c2),
    {
        if !self.entities.contains(e) {
            return false;
        }
        proof {
            assert(self.locations@[e.index as int] is Some);
        }
        let (a, row) = self.locations[e.index as usize].unwrap();
        proof {
            assert((a as int) < self.tables@.len());
            assert((row as int) < self.tables@[a as int].sp_entities().len());
        }
        let ghost w0 = *self;
        let ghost arch0 = w0.archetypes.sp_archetype(a as int);
        // record the removals
        let t_list = copy_ids(self.archetypes.get(a).table_components());
        let s_list = copy_ids(self.archetypes.get(a).sparse_components());
        self.record_removed(&t_list, e);
        self.record_removed(&s_list, e);
        proof {
            assert forall|c2: ComponentId|
                w0.sp_registered(c2) implies self.sp_removed(c2) == (if w0.sp_has_component(
                e,
                c2,
            ) {
                w0.sp_removed(c2).push(e)
            } else {
                w0.sp_removed(c2)
            }) by {
                assert(!(t_list@.contains(c2) && s_list@.contains(c2))) by {
                    if t_list@.contains(c2) && s_list@.contains(c2) {
                        let p = choose|p: int| 0 <= p < t_list@.len() && t_list@[p] == c2;
                        let q = choose|q: int| 0 <= q < s_list@.len() && s_list@[q] == c2;
                        assert(arch0.sp_table_components()[p]
                            != arch0.sp_sparse_components()[q]);
                    }
                }
            }
        }
        // drop the sparse values
        let mut k: usize = 0;
        let ghost w1 = *self;
        while k < s_list.len()
            invariant
                k <= s_list@.len(),
                w1.wf_lens(),
                w1.wf_tables(),
                s_list@ == w1.archetypes.sp_archetype(a as int).sp_sparse_components(),
                (a as int) < w1.tables@.len(),
                self.entities == w1.entities,
                self.components == w1.components,
                self.archetypes == w1.archetypes,
                self.tables == w1.tables,
                self.resources == w1.resources,
                self.removed == w1.removed,
                self.locations == w1.locations,
                self.change_tick == w1.change_tick,
                self.last_change_tick == w1.last_change_tick,
                self.sparse_sets@.len() == w1.sparse_sets@.len(),
                forall|x: int|
                    0 <= x < w1.sparse_sets@.len() && !(exists|j: int|
                        0 <= j < k && s_list@[j].0 == x) ==> self.sparse_sets@[x]
                        == w1.sparse_sets@[x],
                forall|j: int|
                    0 <= j < k ==> {
                        &&& (#[trigger] self.sparse_sets@[s_list@[j].0 as int]).sp_get(
                            e.index as int,
                        ) is None
                        &&& forall|i: int|
                            i != e.index as int ==> self.sparse_sets@[s_list@[j].0 as int].sp_get(
                                i,
                            ) == w1.sparse_sets@[s_list@[j].0 as int].sp_get(i)
                    },
            decreases s_list@.len() - k,
        {
            let cid = s_list[k];
            proof {
                assert(w1.archetypes.sp_archetype(a as int).sp_sparse_components()[k as int]
                    == cid);
                assert(cid.0 < w1.sparse_sets@.len());
                assert forall|p: int, q: int|
                    0 <= p < q < s_list@.len() implies s_list@[p] != s_list@[q] by {
                    assert(w1.archetypes.sp_archetype(a as int).wf());
                }
            }
            let ghost before = self.sparse_sets@;
            let ss = &mut self.sparse_sets[cid.0];
            ss.remove(e.index);
            proof {
                assert(forall|x: int|
                    0 <= x < before.len() && x != cid.0 as int ==> self.sparse_sets@[x]
                        == before[x]);
                assert forall|j: int|
                    0 <= j < k + 1 implies {
                    &&& (#[trigger] self.sparse_sets@[s_list@[j].0 as int]).sp_get(
                        e.index as int,
                    ) is None
                    &&& forall|i: int|
                        i != e.index as int ==> self.sparse_sets@[s_list@[j].0 as int].sp_get(i)
                            == w1.sparse_sets@[s_list@[j].0 as int].sp_get(i)
                } by {
                    if j < k {
                        assert(s_list@[j] != s_list@[k as int]) by {
                            assert(w1.archetypes.sp_archetype(a as int).wf());
                        }
                        assert(s_list@[j].0 != cid.0) by {
                            if s_list@[j].0 == cid.0 {
                                assert(s_list@[j] == cid);
                            }
                        }
                        assert(self.sparse_sets@[s_list@[j].0 as int] == before[s_list@[
                            j].0 as int]);
                    }
                }
            }
            k += 1;
        }
        let ghost w2 = *self;
        // release the table row
        let ta = &mut self.tables[a];
        let _dropped = ta.swap_remove_row(row);
        let moved_n = self.tables[a].len();
        if row < moved_n {
            let moved = self.tables[a].entity_at(row);
            self.locations.set(moved.index as usize, Some((a, row)));
        }
        self.locations.set(e.index as usize, None);
        let freed = self.entities.free(e);
        proof {
            let wfi = *self;
            lemma_world_lens_bound(w2);
            lemma_world_lens_bound(wfi);
            let ai = a as int;
            let ei = e.index as int;
            let t_a0 = w2.tables@[ai];
            let t_a1 = wfi.tables@[ai];
            let n_a = t_a0.sp_entities().len() as int;
            let has_moved = (row as int) < n_a - 1;
            let me = t_a0.sp_entities()[n_a - 1];
            assert(freed);
            assert(w2.wf_locations()) by {
                assert(w2.locations == w0.locations);
                assert(w2.tables == w0.tables);
                assert(w2.entities == w0.entities);
            }
            assert(w2.sp_live(e));
            assert(w2.locations@[ei] == Some((a, row)));
            assert(t_a0.sp_entities()[row as int] == e);
            assert(w2.entities.sp_contains(me));
            assert(w2.locations@[me.index as int] == Some((a, (n_a - 1) as usize)));
            if !has_moved {
                assert(row as int == n_a - 1);
                assert(me == e);
            }
            assert(me.index != e.index || !has_moved) by {
                if me.index == e.index && has_moved {
                    assert(w2.locations@[ei] == Some((a, (n_a - 1) as usize)));
                }
            }
            // final locations characterised
            assert(wfi.locations@.len() == w2.locations@.len());
            assert(wfi.locations@[ei] is None);
            if has_moved {
                assert(wfi.locations@[me.index as int] == Some((a, row)));
            }
            assert(forall|i: int|
                0 <= i < w2.locations@.len() && i != ei && (!has_moved || i != me.index as int)
                    ==> wfi.locations@[i] == w2.locations@[i]);
            // entity allocator effects
            assert(!wfi.entities.sp_alive(ei));
            assert(forall|i: int|
                0 <= i < wfi.entities.sp_slot_count() && i != ei ==> wfi.entities.sp_alive(i)
                    == w2.entities.sp_alive(i) && wfi.entities.sp_generation(i)
                    == w2.entities.sp_generation(i));
            // invariant: lens
            assert(wfi.wf_lens());
            // invariant: tables
            assert forall|x: int|
                0 <= x < wfi.tables@.len() implies (#[trigger] wfi.tables@[x]).wf()
                    && wfi.tables@[x].sp_ids() == wfi.archetypes.sp_archetype(
                    x,
                ).sp_table_components() by {
                if x != ai {
                    assert(wfi.tables@[x] == w2.tables@[x]);
                }
            }
            assert(wfi.wf_tables());
            // invariant: locations
            assert forall|i: int|
                0 <= i < wfi.locations@.len() implies (wfi.entities.sp_alive(i) == (
            #[trigger] wfi.locations@[i]) is Some) by {
                if i != ei && (!has_moved || i != me.index as int) {
                    assert(wfi.locations@[i] == w2.locations@[i]);
                }
            }
            assert forall|i: int|
                0 <= i < wfi.locations@.len() && (#[trigger] wfi.locations@[i]) is Some implies {
                let (a3, row3) = wfi.locations@[i].unwrap();
                &&& (a3 as int) < wfi.tables@.len()
                &&& (row3 as int) < wfi.tables@[a3 as int].sp_entities().len()
                &&& wfi.tables@[a3 as int].sp_entities()[row3 as int] == (Entity {
                    index: i as u32,
                    generation: wfi.entities.sp_generation(i),
                })
            } by {
                if has_moved && i == me.index as int {
                    assert(t_a1.sp_entities()[row as int] == me);
                } else {
                    assert(i != ei);
                    assert(wfi.locations@[i] == w2.locations@[i]);
                    let (a3, row3) = w2.locations@[i].unwrap();
                    let e3 = Entity { index: i as u32, generation: w2.entities.sp_generation(i) };
                    assert(w2.tables@[a3 as int].sp_entities()[row3 as int] == e3);
                    if a3 as int == ai {
                        assert(e3 != e) by {
                            if e3 == e {
                                assert(w2.locations@[ei] == Some((a3, row3)));
                            }
                        }
                        assert(row3 as int != row as int) by {
                            if row3 as int == row as int {
                                assert(t_a0.sp_entities()[row as int] == e3);
                            }
                        }
                        assert(row3 as int != n_a - 1) by {
                            if row3 as int == n_a - 1 {
                                assert(e3 == me);
                                assert(i == me.index as int);
                                assert(!has_moved);
                                assert(me == e);
                            }
                        }
                        assert(t_a1.sp_entities()[row3 as int] == t_a0.sp_entities()[row3 as int]);
                    } else {
                        assert(wfi.tables@[a3 as int] == w2.tables@[a3 as int]);
                    }
                    assert(wfi.entities.sp_generation(i) == w2.entities.sp_generation(i));
                }
            }
            assert forall|a3: int, row3: int|
                0 <= a3 < wfi.tables@.len() && 0 <= row3 < wfi.tables@[a3].sp_entities().len()
                implies {
                let e3 = #[trigger] wfi.tables@[a3].sp_entities()[row3];
                &&& wfi.entities.sp_contains(e3)
                &&& (e3.index as int) < wfi.locations@.len()
                &&& wfi.locations@[e3.index as int] == Some((a3 as usize, row3 as usize))
            } by {
                if a3 == ai && has_moved && row3 == row as int {
                    assert(wfi.tables@[a3].sp_entities()[row3] == me);
                    assert(me.index as int != ei);
                    assert(wfi.entities.sp_contains(me));
                } else {
                    let e3 = if a3 == ai {
                        t_a0.sp_entities()[row3]
                    } else {
                        w2.tables@[a3].sp_entities()[row3]
                    };
                    if a3 == ai {
                        assert(row3 < n_a - 1);
                        if row3 == row as int {
                            assert(has_moved);
                        }
                        assert(row3 != row as int || !has_moved);
                        assert(wfi.tables@[a3].sp_entities()[row3] == e3);
                    } else {
                        assert(wfi.tables@[a3] == w2.tables@[a3]);
                    }
                    assert(w2.entities.sp_contains(e3));
                    assert(w2.locations@[e3.index as int] == Some((a3 as usize, row3 as usize)));
                    assert(e3.index as int != ei) by {
                        if e3.index as int == ei {
                            assert(w2.entities.sp_generation(ei) == e3.generation);
                            assert(w2.entities.sp_generation(ei) == e.generation);
                            assert(e3 == e);
                            assert(w2.locations@[ei] == Some((a3 as usize, row3 as usize)));
                            assert(w2.locations@[ei] == Some((a, row)));
                            assert(a3 as usize == a);
                            assert(a3 == a as int);
                            assert(row3 == row as int);
                        }
                    }
                    assert(!has_moved || e3.index as int != me.index as int) by {
                        if has_moved && e3.index as int == me.index as int {
                            assert(w2.entities.sp_generation(me.index as int) == e3.generation);
                            assert(w2.entities.sp_generation(me.index as int) == me.generation);
                            assert(e3 == me);
                            assert(w2.locations@[me.index as int] == Some(
                                (a3 as usize, row3 as usize),
                            ));
                            assert(w2.locations@[me.index as int] == Some(
                                (a, (n_a - 1) as usize),
                            ));
                            assert(a3 as usize == a);
                            assert(a3 == a as int);
                            assert(row3 == n_a - 1);
                        }
                    }
                    assert(wfi.locations@[e3.index as int] == w2.locations@[e3.index as int]);
                    assert(wfi.entities.sp_contains(e3));
                }
            }
            assert(wfi.wf_locations());
            // invariant: sparse sets
            assert forall|cc: int, i: int|
                0 <= cc < wfi.sparse_sets@.len() implies ((
            #[trigger] wfi.sparse_sets@[cc].sp_get(i)) is Some == (0 <= i < wfi.locations@.len()
                && wfi.locations@[i] is Some && wfi.archetypes.sp_archetype(
                wfi.locations@[i].unwrap().0 as int,
            ).sp_has_sparse_component(ComponentId(cc as usize)))) by {
                let ccid = ComponentId(cc as usize);
                let s_seq = arch0.sp_sparse_components();
                assert(w0.wf_sparse());
                assert(w1.sparse_sets@ == w0.sparse_sets@);
                assert(wfi.sparse_sets@ == w2.sparse_sets@);
                // relate the final set entry to the original one
                if exists|j: int| 0 <= j < s_seq.len() && s_seq[j].0 == cc {
                    let j = choose|j: int| 0 <= j < s_seq.len() && s_seq[j].0 == cc;
                    assert(s_seq[j] == ccid);
                    assert(s_list@[j] == ccid);
                    assert(w2.sparse_sets@[cc].sp_get(ei) is None);
                    assert(forall|i2: int|
                        i2 != ei ==> w2.sparse_sets@[cc].sp_get(i2) == w0.sparse_sets@[
                            cc].sp_get(i2));
                } else {
                    assert(forall|j: int| 0 <= j < s_list@.len() ==> s_list@[j].0 != cc);
                    assert(w2.sparse_sets@[cc] == w1.sparse_sets@[cc]);
                    assert(!s_seq.contains(ccid)) by {
                        if s_seq.contains(ccid) {
                            let j = choose|j: int| 0 <= j < s_seq.len() && s_seq[j] == ccid;
                        }
                    }
                    assert(w0.sparse_sets@[cc].sp_get(ei) is None) by {
                        assert(w0.locations@[ei] == Some((a, row)));
                        assert(w0.sparse_sets@[cc].sp_get(ei) is Some
                            == arch0.sp_has_sparse_component(ccid));
                    }
                }
                // now decide the biconditional per index
                if i == ei {
                    assert(wfi.locations@[ei] is None);
                    assert(wfi.sparse_sets@[cc].sp_get(ei) is None);
                } else if 0 <= i < wfi.locations@.len() {
                    assert(wfi.sparse_sets@[cc].sp_get(i) == w0.sparse_sets@[cc].sp_get(i));
                    if has_moved && i == me.index as int {
                        assert(wfi.locations@[i].unwrap().0 as int == ai);
                        assert(w0.locations@[i].unwrap().0 as int == ai);
                        assert(wfi.locations@[i] is Some && w0.locations@[i] is Some);
                    } else {
                        assert(wfi.locations@[i] == w0.locations@[i]);
                    }
                } else {
                    assert(wfi.sparse_sets@[cc].sp_get(i) == w0.sparse_sets@[cc].sp_get(i));
                    if wfi.sparse_sets@[cc].sp_get(i) is Some {
                        assert(0 <= i < w0.locations@.len());
                    }
                }
            }
            assert(wfi.wf_sparse());
            assert(wfi.wf());
            // the contract
            assert forall|e2: Entity, c2: ComponentId|
                e2 != e implies wfi.sp_component(e2, c2) == w0.sp_component(e2, c2)
                    && wfi.sp_has_component(e2, c2) == w0.sp_has_component(e2, c2) by {
                if w2.sp_live(e2) {
                    assert(e2.index as int != ei) by {
                        if e2.index as int == ei {
                            assert(w2.entities.sp_generation(ei) == e2.generation);
                            assert(w2.entities.sp_generation(ei) == e.generation);
                        }
                    }
                    assert(wfi.sp_live(e2));
                    let a2 = w2.sp_archetype_of(e2);
                    let row2 = w2.sp_row_of(e2);
                    let arch2 = w2.archetypes.sp_archetype(a2);
                    let moved_here = has_moved && e2.index as int == me.index as int;
                    if moved_here {
                        assert(e2 == me) by {
                            assert(w2.entities.sp_generation(me.index as int) == e2.generation);
                            assert(w2.entities.sp_generation(me.index as int) == me.generation);
                        }
                        assert(a2 == ai);
                        assert(row2 == n_a - 1);
                        assert(wfi.sp_archetype_of(e2) == ai);
                        assert(wfi.sp_row_of(e2) == row as int);
                    } else {
                        assert(wfi.locations@[e2.index as int] == w2.locations@[e2.index as int]);
                    }
                    if arch2.sp_has_table_component(c2) {
                        let k2 = choose|k: int|
                            0 <= k < arch2.sp_table_components().len()
                                && arch2.sp_table_components()[k] == c2;
                        if a2 == ai {
                            lemma_column_of_unique(t_a0, c2, k2);
                            lemma_column_of_unique(t_a1, c2, k2);
                            if moved_here {
                                assert(t_a1.sp_data(k2)[row as int] == t_a0.sp_data(k2)[n_a - 1]);
                                assert(t_a1.sp_ticks(k2)[row as int] == t_a0.sp_ticks(k2)[n_a
                                    - 1]);
                            } else {
                                assert(row2 != row as int) by {
                                    if row2 == row as int {
                                        assert(t_a0.sp_entities()[row2] == e2);
                                        assert(t_a0.sp_entities()[row as int] == e);
                                    }
                                }
                                assert(row2 != n_a - 1) by {
                                    if row2 == n_a - 1 {
                                        assert(t_a0.sp_entities()[row2] == e2);
                                        assert(e2 == me);
                                        if has_moved {
                                            assert(moved_here);
                                        } else {
                                            assert(me == e);
                                        }
                                    }
                                }
                                assert(t_a1.sp_data(k2)[row2] == t_a0.sp_data(k2)[row2]);
                                assert(t_a1.sp_ticks(k2)[row2] == t_a0.sp_ticks(k2)[row2]);
                            }
                        } else {
                            assert(wfi.tables@[a2] == w2.tables@[a2]);
                        }
                    } else if arch2.sp_has_sparse_component(c2) {
                        assert(c2.0 < w2.sparse_sets@.len()) by {
                            let q = choose|q: int|
                                0 <= q < arch2.sp_sparse_components().len()
                                    && arch2.sp_sparse_components()[q] == c2;
                            assert(w2.wf_tables());
                        }
                        assert(wfi.sparse_sets@[c2.0 as int].sp_get(e2.index as int)
                            == w0.sparse_sets@[c2.0 as int].sp_get(e2.index as int)) by {
                            assert(wfi.sparse_sets@ == w2.sparse_sets@);
                            assert(w1.sparse_sets@ == w0.sparse_sets@);
                            if exists|j: int|
                                0 <= j < s_list@.len() && s_list@[j].0 == c2.0 as int {
                                let j = choose|j: int|
                                    0 <= j < s_list@.len() && s_list@[j].0 == c2.0 as int;
                                assert(w2.sparse_sets@[s_list@[j].0 as int].sp_get(
                                    e2.index as int,
                                ) == w1.sparse_sets@[s_list@[j].0 as int].sp_get(
                                    e2.index as int,
                                ));
                            } else {
                                assert(forall|j: int|
                                    0 <= j < s_list@.len() ==> s_list@[j].0 != c2.0 as int);
                                assert(w2.sparse_sets@[c2.0 as int] == w1.sparse_sets@[
                                    c2.0 as int]);
                            }
                        }
                    }
                } else {
                    assert(!wfi.sp_live(e2));
                    assert(!w0.sp_live(e2));
                }
            }
        }
        true
    }

    /// Record `e` in the removal list of every id in `ids`.
    fn record_removed(&mut self, ids: &Vec<ComponentId>, e: Entity)
        requires
            old(self).wf_lens(),
            forall|p: int| 0 <= p < ids@.len() ==> (#[trigger] ids@[p]).0 < old(self).removed@.len(),
            forall|p: int, q: int| 0 <= p < q < ids@.len() ==> ids@[p].0 < ids@[q].0,
        ensures
            final(self).wf_lens(),
            final(self).entities == old(self).entities,
            final(self).components == old(self).components,
            final(self).archetypes == old(self).archetypes,
            final(self).tables == old(self).tables,
            final(self).sparse_sets == old(self).sparse_sets,
            final(self).resources == old(self).resources,
            final(self).locations == old(self).locations,
            final(self).change_tick == old(self).change_tick,
            final(self).last_change_tick == old(self).last_change_tick,
            final(self).removed@.len() == old(self).removed@.len(),
            forall|c2: ComponentId|
                c2.0 < old(self).removed@.len() ==> final(self).sp_removed(c2) == (if ids@.contains(
                    c2,
                ) {
                    old(self).sp_removed(c2).push(e)
                } else {
                    old(self).sp_removed(c2)
                }),
    {
        let n = ids.len();
        let mut k: usize = 0;
        while k < n
            invariant
                k <= n,
                n == ids@.len(),
                self.entities == old(self).entities,
                self.components == old(self).components,
                self.archetypes == old(self).archetypes,
                self.tables == old(self).tables,
                self.sparse_sets == old(self).sparse_sets,
                self.resources == old(self).resources,
                self.locations == old(self).locations,
                self.change_tick == old(self).change_tick,
                self.last_change_tick == old(self).last_change_tick,
                self.removed@.len() == old(self).removed@.len(),
                old(self).wf_lens(),
                forall|p: int|
                    0 <= p < ids@.len() ==> (#[trigger] ids@[p]).0 < old(self).removed@.len(),
                forall|p: int, q: int| 0 <= p < q < ids@.len() ==> ids@[p].0 < ids@[q].0,
                forall|x: int|
                    0 <= x < self.removed@.len() ==> #[trigger] self.removed@[x]@ == (if exists|
                        j: int,
                    |
                        0 <= j < k && ids@[j].0 == x {
                        old(self).removed@[x]@.push(e)
                    } else {
                        old(self).removed@[x]@
                    }),
            decreases n - k,
        {
            let cid = ids[k];
            proof {
                assert(!(exists|j: int| 0 <= j < k && ids@[j].0 == cid.0 as int)) by {
                    if exists|j: int| 0 <= j < k && ids@[j].0 == cid.0 as int {
                        let j = choose|j: int| 0 <= j < k && ids@[j].0 == cid.0 as int;
                        assert(ids@[j].0 < ids@[k as int].0);
                    }
                }
            }
            let ghost before = self.removed@;
            let lst = &mut self.removed[cid.0];
            lst.push(e);
            proof {
                assert(self.removed@[cid.0 as int]@ == before[cid.0 as int]@.push(e));
                assert(forall|x: int|
                    0 <= x < before.len() && x != cid.0 as int ==> self.removed@[x]
                        == before[x]);
                assert forall|x: int|
                    0 <= x < self.removed@.len() implies #[trigger] self.removed@[x]@ == (if exists|
                        j: int,
                    |
                        0 <= j < k + 1 && ids@[j].0 == x {
                        old(self).removed@[x]@.push(e)
                    } else {
                        old(self).removed@[x]@
                    }) by {
                    if x == cid.0 as int {
                        assert(ids@[k as int].0 == x);
                    } else {
                        if exists|j: int| 0 <= j < k + 1 && ids@[j].0 == x {
                            let j = choose|j: int| 0 <= j < k + 1 && ids@[j].0 == x;
                            assert(j < k);
                            assert(exists|j2: int| 0 <= j2 < k && ids@[j2].0 == x);
                        }
                    }
                }
            }
            k += 1;
        }
        proof {
            assert forall|c2: ComponentId|
                c2.0 < old(self).removed@.len() implies self.sp_removed(c2) == (if ids@.contains(
                c2,
            ) {
                old(self).sp_removed(c2).push(e)
            } else {
                old(self).sp_removed(c2)
            }) by {
                if ids@.contains(c2) {
                    let j = choose|j: int| 0 <= j < ids@.len() && ids@[j] == c2;
                    assert(exists|j2: int| 0 <= j2 < n && ids@[j2].0 == c2.0 as int);
                } else {
                    if exists|j: int| 0 <= j < n && ids@[j].0 == c2.0 as int {
                        let j = choose|j: int| 0 <= j < n && ids@[j].0 == c2.0 as int;
                        assert(ids@[j] == c2);
                        assert(ids@.contains(c2));
                    }
                }
            }
        }
    }

    /// How many archetypes exist.
    pub fn archetype_count(&self) -> (r: usize)
        ensures
            r as int == self.sp_archetype_count(),
    {
        self.archetypes.len()
    }

    /// A borrow of archetype `a`.
    pub fn archetype_ref(&self, a: usize) -> (r: &Archetype)
        requires
            (a as int) < self.sp_archetype_count(),
        ensures
            *r == self.sp_archetype(a as int),
    {
        self.archetypes.get(a)
    }

    /// How many entities archetype `a` holds.
    pub fn archetype_row_count(&self, a: usize) -> (r: usize)
        requires
            self.wf(),
            (a as int) < self.sp_archetype_count(),
        ensures
            r as int == self.sp_rows(a as int).len(),
    {
        self.tables[a].len()
    }

    /// The entity in row `row` of archetype `a`.
    pub fn archetype_row_entity(&self, a: usize, row: usize) -> (r: Entity)
        requires
            self.wf(),
            (a as int) < self.sp_archetype_count(),
            (row as int) < self.sp_rows(a as int).len(),
        ensures
            r == self.sp_rows(a as int)[row as int],
    {
        self.tables[a].entity_at(row)
    }

    /// Every table row holds a live entity located exactly there, and its
    /// archetype decides which components it carries.
    pub proof fn lemma_row_entity(w: World, a: int, row: int)
        requires
            w.wf(),
            0 <= a < w.sp_archetype_count(),
            0 <= row < w.sp_rows(a).len(),
        ensures
            w.sp_live(w.sp_rows(a)[row]),
            w.sp_archetype_of(w.sp_rows(a)[row]) == a,
            w.sp_row_of(w.sp_rows(a)[row]) == row,
            forall|c: ComponentId|
                w.sp_has_component(w.sp_rows(a)[row], c) == w.sp_archetype(a).sp_contains(c),
    {
        let e = w.sp_rows(a)[row];
        assert(w.entities.sp_contains(e));
        assert(w.locations@[e.index as int] == Some((a as usize, row as usize)));
        lemma_world_lens_bound(w);
    }

    /// A live entity is located at exactly one row of one archetype.
    pub proof fn lemma_live_located(w: World, e: Entity)
        requires
            w.wf(),
            w.sp_live(e),
        ensures
            0 <= w.sp_archetype_of(e) < w.sp_archetype_count(),
            0 <= w.sp_row_of(e) < w.sp_rows(w.sp_archetype_of(e)).len(),
            w.sp_rows(w.sp_archetype_of(e))[w.sp_row_of(e)] == e,
    {
        assert(w.locations@[e.index as int] is Some);
    }

    /// Distinct rows hold distinct entities.
    pub proof fn lemma_rows_injective(w: World, a1: int, row1: int, a2: int, row2: int)
        requires
            w.wf(),
            0 <= a1 < w.sp_archetype_count(),
            0 <= row1 < w.sp_rows(a1).len(),
            0 <= a2 < w.sp_archetype_count(),
            0 <= row2 < w.sp_rows(a2).len(),
            !(a1 == a2 && row1 == row2),
        ensures
            w.sp_rows(a1)[row1] != w.sp_rows(a2)[row2],
    {
        let e1 = w.sp_rows(a1)[row1];
        let e2 = w.sp_rows(a2)[row2];
        lemma_world_lens_bound(w);
        if e1 == e2 {
            assert(w.locations@[e1.index as int] == Some((a1 as usize, row1 as usize)));
            assert(w.locations@[e2.index as int] == Some((a2 as usize, row2 as usize)));
            assert(a1 as usize == a2 as usize && row1 as usize == row2 as usize);
        }
    }

    /// No two archetypes carry the same component set.
    pub proof fn lemma_archetype_sets_unique(w: World, a: int, b: int)
        requires
            w.wf(),
            0 <= a < w.sp_archetype_count(),
            0 <= b < w.sp_archetype_count(),
            a != b,
        ensures
            !(w.sp_archetype(a).sp_table_components() =~= w.sp_archetype(b).sp_table_components()
                && w.sp_archetype(a).sp_sparse_components() =~= w.sp_archetype(
                b,
            ).sp_sparse_components()),
    {
        crate::archetype::lemma_archetypes_sets_unique(w.archetypes, a, b);
    }

    /// Does the handle resolve to a live entity?
    pub fn contains_entity(&self, e: Entity) -> (r: bool)
        ensures
            r == self.sp_live(e),
    {
        self.entities.contains(e)
    }

    /// A live entity's component reads back a value exactly when its
    /// archetype carries the kind.
    pub proof fn lemma_component_some(w: World, e: Entity, c: ComponentId)
        requires
            w.wf(),
            w.sp_live(e),
        ensures
            w.sp_has_component(e, c) == (w.sp_component(e, c) is Some),
    {
        assert(w.locations@[e.index as int] is Some);
        let a = w.sp_archetype_of(e);
        let arch = w.archetypes.sp_archetype(a);
        assert(a < w.tables@.len());
        if arch.sp_has_sparse_component(c) && !arch.sp_has_table_component(c) {
            let q = choose|q: int|
                0 <= q < arch.sp_sparse_components().len() && arch.sp_sparse_components()[q]
                    == c;
            assert(c.0 < w.sparse_sets@.len());
            assert(w.sparse_sets@[c.0 as int].sp_get(e.index as int) is Some);
        }
    }

    /// A component is present exactly when a value is stored for it.
    pub proof fn lemma_component_presence(w: World, e: Entity)
        requires
            w.wf(),
        ensures
            forall|c: ComponentId|
                #[trigger] w.sp_has_component(e, c) == (w.sp_component(e, c) is Some),
    {
        assert forall|c: ComponentId|
            #[trigger] w.sp_has_component(e, c) == (w.sp_component(e, c) is Some) by {
            if w.sp_live(e) {
                World::lemma_component_some(w, e, c);
            }
        }
    }

    /// A key determines its id: registering the same key twice yields the
    /// same id.
    pub proof fn lemma_key_determines_id(w: World, a: ComponentId, b: ComponentId)
        requires
            w.wf(),
            w.sp_registered(a),
            w.sp_registered(b),
            w.sp_type_key(a) == w.sp_type_key(b),
        ensures
            a == b,
    {
        crate::component::lemma_key_unique(w.components, a, b);
    }

    /// A resource value can exist only under a registered id.
    pub proof fn lemma_unregistered_resource_none(w: World, c: ComponentId)
        requires
            w.wf(),
            !w.sp_registered(c),
        ensures
            w.sp_resource(c) is None,
    {
    }

    /// Has the resource under id `c` been inserted?
    pub fn contains_resource(&self, c: ComponentId) -> (r: bool)
        ensures
            r == (self.sp_resource(c) is Some),
    {
        c.0 < self.resources.len() && self.resources[c.0].is_some()
    }

    /// The value of resource `c`, if it has been inserted.
    pub fn get_resource(&self, c: ComponentId) -> (r: Option<u64>)
        ensures
            match r {
                Some(v) => self.sp_resource(c) is Some && v == self.sp_resource(c).unwrap().0,
                None => self.sp_resource(c) is None,
            },
    {
        if c.0 < self.resources.len() {
            match self.resources[c.0] {
                Some(p) => Some(p.0),
                None => None,
            }
        } else {
            None
        }
    }

    /// The ticks of resource `c`, if it has been inserted.
    pub fn get_resource_ticks(&self, c: ComponentId) -> (r: Option<ComponentTicks>)
        ensures
            match r {
                Some(t) => self.sp_resource(c) is Some && t == self.sp_resource(c).unwrap().1,
                None => self.sp_resource(c) is None,
            },
    {
        if c.0 < self.resources.len() {
            match self.resources[c.0] {
                Some(p) => Some(p.1),
                None => None,
            }
        } else {
            None
        }
    }

    /// Insert (or overwrite) resource `c` with `value`. A fresh resource is
    /// stamped added and changed on the current tick; an overwrite keeps the
    /// added tick and stamps only the changed tick.
    pub fn insert_resource(&mut self, c: ComponentId, value: u64) -> (r: Result<(), WorldError>)
        requires
            old(self).wf(),
        ensures
            final(self).wf(),
            r is Ok == old(self).sp_registered(c),
            r is Err ==> *final(self) == *old(self) && r == Err::<(), WorldError>(
                WorldError::UnregisteredComponent,
            ),
            r is Ok ==> final(self).sp_resource(c) == Some(
                (
                    value,
                    ComponentTicks {
                        added: (if old(self).sp_resource(c) is Some {
                            old(self).sp_resource(c).unwrap().1.added
                        } else {
                            old(self).sp_change_tick()
                        }),
                        changed: old(self).sp_change_tick(),
                    },
                ),
            ),
            forall|d: ComponentId| d != c ==> final(self).sp_resource(d) == old(self).sp_resource(d),
            forall|e2: Entity, c2: ComponentId|
                final(self).sp_component(e2, c2) == old(self).sp_component(e2, c2),
            forall|e2: Entity| final(self).sp_live(e2) == old(self).sp_live(e2),
            forall|c2: ComponentId| final(self).sp_removed(c2) == old(self).sp_removed(c2),
            forall|c2: ComponentId| final(self).sp_registered(c2) == old(self).sp_registered(c2),
            final(self).sp_component_count() == old(self).sp_component_count(),
            final(self).sp_change_tick() == old(self).sp_change_tick(),
            final(self).sp_last_change_tick() == old(self).sp_last_change_tick(),
    {
        if c.0 >= self.resources.len() {
            return Err(WorldError::UnregisteredComponent);
        }
        let tick = self.change_tick;
        let ticks = match self.resources[c.0] {
            Some(p) => ComponentTicks { added: p.1.added, changed: tick },
            None => ComponentTicks { added: tick, changed: tick },
        };
        self.resources.set(c.0, Some((value, ticks)));
        proof {
            assert forall|d: ComponentId| d != c implies self.sp_resource(d) == old(
                self,
            ).sp_resource(d) by {
                if 0 <= d.0 < self.resources@.len() && d.0 == c.0 {
                    assert(d == c);
                }
            }
        }
        Ok(())
    }

    /// Drop resource `c`, handing back its value if it was present.
    pub fn remove_resource(&mut self, c: ComponentId) -> (r: Option<u64>)
        requires
            old(self).wf(),
        ensures
            final(self).wf(),
            match r {
                Some(v) => old(self).sp_resource(c) is Some && v == old(self).sp_resource(
                    c,
                ).unwrap().0,
                None => old(self).sp_resource(c) is None,
            },
            final(self).sp_resource(c) is None,
            forall|d: ComponentId| d != c ==> final(self).sp_resource(d) == old(self).sp_resource(d),
            forall|e2: Entity, c2: ComponentId|
                final(self).sp_component(e2, c2) == old(self).sp_component(e2, c2),
            forall|e2: Entity| final(self).sp_live(e2) == old(self).sp_live(e2),
            forall|c2: ComponentId| final(self).sp_removed(c2) == old(self).sp_removed(c2),
            final(self).sp_change_tick() == old(self).sp_change_tick(),
            final(self).sp_last_change_tick() == old(self).sp_last_change_tick(),
    {
        if c.0 >= self.resources.len() {
            return None;
        }
        let r = match self.resources[c.0] {
            Some(p) => Some(p.0),
            None => None,
        };
        self.resources.set(c.0, None);
        proof {
            assert forall|d: ComponentId| d != c implies self.sp_resource(d) == old(
                self,
            ).sp_resource(d) by {
                if 0 <= d.0 < self.resources@.len() && d.0 == c.0 {
                    assert(d == c);
                }
            }
        }
        r
    }

    /// The archetype-component id standing for resource `c`: resources use
    /// the odd ids, so they never collide with any archetype's component
    /// ids.
    pub fn resource_archetype_component_id(&self, c: ComponentId) -> (r: ArchetypeComponentId)
        requires
            c.0 < usize::MAX / 2,
        ensures
            r.0 == 2 * c.0 + 1,
    {
        ArchetypeComponentId(2 * c.0 + 1)
    }

    /// The entities recorded as having lost component `c` since trackers
    /// were last cleared.
    pub fn removed_with_id(&self, c: ComponentId) -> (r: Vec<Entity>)
        requires
            self.wf(),
        ensures
            self.sp_registered(c) ==> r@ == self.sp_removed(c),
            !self.sp_registered(c) ==> r@.len() == 0,
    {
        if c.0 < self.removed.len() {
            self.removed[c.0].clone()
        } else {
            Vec::new()
        }
    }

    /// End-of-frame bookkeeping: forget the removal lists and advance the
    /// world's own change-detection window. After this call a component
    /// written before the call no longer counts as changed for the world's
    /// own window, unless it is written again on the new tick.
    pub fn clear_trackers(&mut self)
        requires
            old(self).wf(),
        ensures
            final(self).wf(),
            forall|c: ComponentId|
                final(self).sp_registered(c) ==> final(self).sp_removed(c).len() == 0,
            final(self).sp_last_change_tick() == old(self).sp_change_tick(),
            final(self).sp_change_tick() == (if old(self).sp_change_tick() == u32::MAX {
                0u32
            } else {
                (old(self).sp_change_tick() + 1) as u32
            }),
            World::sp_same_data(*final(self), *old(self)),
            forall|e2: Entity, c2: ComponentId|
                final(self).sp_component(e2, c2) == old(self).sp_component(e2, c2),
            forall|e2: Entity| final(self).sp_live(e2) == old(self).sp_live(e2),
            forall|c2: ComponentId| final(self).sp_resource(c2) == old(self).sp_resource(c2),
    {
        let n = self.removed.len();
        let mut k: usize = 0;
        while k < n
            invariant
                k <= n,
                n == self.removed@.len(),
                self.entities == old(self).entities,
                self.components == old(self).components,
                self.archetypes == old(self).archetypes,
                self.tables == old(self).tables,
                self.sparse_sets == old(self).sparse_sets,
                self.resources == old(self).resources,
                self.locations == old(self).locations,
                self.change_tick == old(self).change_tick,
                self.last_change_tick == old(self).last_change_tick,
                forall|j: int| 0 <= j < k ==> (#[trigger] self.removed@[j])@.len() == 0,
            decreases n - k,
        {
            self.removed.set(k, Vec::new());
            k += 1;
        }
        let ghost mid = *self;
        self.last_change_tick = self.increment_change_tick();
        proof {
            assert forall|c: ComponentId|
                self.sp_registered(c) implies self.sp_removed(c).len() == 0 by {
                assert(c.0 < n);
                assert(mid.removed@[c.0 as int]@.len() == 0);
                assert(self.sp_removed(c) == mid.sp_removed(c));
            }
        }
    }

    /// Advance the change tick by one, wrapping, and hand back the tick
    /// that was current before the call.
    pub fn increment_change_tick(&mut self) -> (r: u32)
        ensures
            r == old(self).sp_change_tick(),
            final(self).sp_change_tick() == (if old(self).sp_change_tick() == u32::MAX {
                0u32
            } else {
                (old(self).sp_change_tick() + 1) as u32
            }),
            final(self).wf() == old(self).wf(),
            World::sp_same_data(*final(self), *old(self)),
            forall|c: ComponentId| final(self).sp_removed(c) == old(self).sp_removed(c),
            forall|e: Entity, c: ComponentId|
                final(self).sp_component(e, c) == old(self).sp_component(e, c),
            forall|e: Entity| final(self).sp_live(e) == old(self).sp_live(e),
            forall|c: ComponentId| final(self).sp_resource(c) == old(self).sp_resource(c),
            final(self).sp_last_change_tick() == old(self).sp_last_change_tick(),
    {
        let r = self.change_tick;
        if self.change_tick == u32::MAX {
            self.change_tick = 0;
        } else {
            self.change_tick = self.change_tick + 1;
        }
        r
    }
}

} // verus!
