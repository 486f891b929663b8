//! Stable entity identifiers. An [`Entity`] is an index paired with a
//! generation: the index addresses a slot in the allocator, the generation
//! says which lifetime of that slot the handle belongs to. Freeing a slot
//! bumps its generation, so handles to a despawned entity fail to resolve
//! instead of silently aliasing a later entity at the same index.

use vstd::prelude::*;

verus! {

/// Identifier of one entity: a slot index plus the generation of that slot
/// at the time the entity was allocated.
#[derive(Clone, Copy, PartialEq, Eq, Structural, Hash, Debug)]
pub struct Entity {
    pub index: u32,
    pub generation: u32,
}

impl Entity {
    /// The slot index.
    pub fn id(&self) -> (r: u32)
        ensures
            r == self.index,
    {
        self.index
    }
}

/// One allocator slot.
#[derive(Clone, Copy)]
struct EntityMeta {
    generation: u32,
    alive: bool,
}

/// The entity allocator: a vector of slots and a free list of dead slot
/// indices available for reuse. A slot whose generation has reached
/// `u32::MAX` is retired rather than reused.
pub struct Entities {
    meta: Vec<EntityMeta>,
    free: Vec<u32>,
}

impl Entities {
    /// Is slot `i` occupied by a live entity?
    pub closed spec fn sp_alive(self, i: int) -> bool {
        0 <= i < self.meta@.len() && self.meta@[i].alive
    }

    /// The current generation of slot `i`.
    pub closed spec fn sp_generation(self, i: int) -> u32 {
        self.meta@[i].generation
    }

    /// Number of slots ever allocated.
    pub closed spec fn sp_slot_count(self) -> int {
        self.meta@.len() as int
    }

    /// Does the handle resolve to a live entity?
    pub open spec fn sp_contains(self, e: Entity) -> bool {
        self.sp_alive(e.index as int) && self.sp_generation(e.index as int) == e.generation
    }

    /// Internal consistency: every free-list entry names a dead slot, no
    /// slot is listed twice, and no retired slot is listed at all.
    pub closed spec fn wf(self) -> bool {
        &&& self.meta@.len() <= u32::MAX
        &&& forall|k: int|
            0 <= k < self.free@.len() ==> (#[trigger] self.free@[k]) < self.meta@.len()
                && !self.meta@[self.free@[k] as int].alive
                && self.meta@[self.free@[k] as int].generation < u32::MAX
        &&& forall|p: int, q: int|
            0 <= p < q < self.free@.len() ==> self.free@[p] != self.free@[q]
    }

    /// A fresh allocator with no slots.
    pub fn new() -> (r: Entities)
        ensures
            r.wf(),
            forall|e: Entity| !r.sp_contains(e),
            r.sp_slot_count() == 0,
    {
        Entities { meta: Vec::new(), free: Vec::new() }
    }

    /// How many slots have ever been allocated.
    pub fn slot_count(&self) -> (r: usize)
        ensures
            r as int == self.sp_slot_count(),
    {
        self.meta.len()
    }

    /// Does the handle resolve to a live entity?
    pub fn contains(&self, e: Entity) -> (r: bool)
        ensures
            r == self.sp_contains(e),
    {
        let i = e.index as usize;
        i < self.meta.len() && self.meta[i].alive && self.meta[i].generation == e.generation
    }

    /// Allocate an entity, reusing a dead slot when one is available. The
    /// returned handle is live; every other handle resolves as before.
    pub fn allocate(&mut self) -> (r: Entity)
        requires
            old(self).wf(),
            old(self).sp_slot_count() < u32::MAX,
        ensures
            final(self).wf(),
            final(self).sp_contains(r),
            !old(self).sp_contains(r),
            forall|e: Entity| e != r ==> final(self).sp_contains(e) == old(self).sp_contains(e),
            old(self).sp_slot_count() <= final(self).sp_slot_count(),
            final(self).sp_slot_count() <= old(self).sp_slot_count() + 1,
            r.index < final(self).sp_slot_count(),
            !old(self).sp_alive(r.index as int),
            final(self).sp_alive(r.index as int),
            final(self).sp_generation(r.index as int) == r.generation,
            forall|i: int|
                0 <= i < final(self).sp_slot_count() && i != r.index as int
                    ==> i < old(self).sp_slot_count()
                    && final(self).sp_alive(i) == old(self).sp_alive(i)
                    && final(self).sp_generation(i) == old(self).sp_generation(i),
    {
        if let Some(idx) = self.free.pop() {
            let i = idx as usize;
            let generation = self.meta[i].generation;
            self.meta.set(i, EntityMeta { generation, alive: true });
            Entity { index: idx, generation }
        } else {
            let idx = self.meta.len() as u32;
            self.meta.push(EntityMeta { generation: 0, alive: true });
            Entity { index: idx, generation: 0 }
        }
    }

    /// Release the slot of a live entity, bumping its generation so the
    /// handle (and every other handle to that slot) stops resolving. On a
    /// handle that does not resolve, nothing changes and `false` comes back.
    pub fn free(&mut self, e: Entity) -> (r: bool)
        requires
            old(self).wf(),
        ensures
            final(self).wf(),
            r == old(self).sp_contains(e),
            forall|e2: Entity| e2.index == e.index && r ==> !final(self).sp_contains(e2),
            forall|e2: Entity|
                e2.index != e.index ==> final(self).sp_contains(e2) == old(self).sp_contains(e2),
            !r ==> final(self).sp_contains(e) == old(self).sp_contains(e),
            final(self).sp_slot_count() == old(self).sp_slot_count(),
            r ==> !final(self).sp_alive(e.index as int),
            !r ==> *final(self) == *old(self),
            forall|i: int|
                0 <= i < final(self).sp_slot_count() && i != e.index as int
                    ==> final(self).sp_alive(i) == old(self).sp_alive(i)
                    && final(self).sp_generation(i) == old(self).sp_generation(i),
    {
        if !self.contains(e) {
            return false;
        }
        let i = e.index as usize;
        let generation = self.meta[i].generation;
        if generation < u32::MAX - 1 {
            self.meta.set(i, EntityMeta { generation: generation + 1, alive: false });
            proof {
                assert(forall|k: int|
                    0 <= k < self.free@.len() ==> self.free@[k] != e.index);
            }
            self.free.push(e.index);
        } else {
            // The slot has run out of generations: retire it for good.
            self.meta.set(i, EntityMeta { generation: u32::MAX, alive: false });
        }
        true
    }
}

/// A well-formed allocator never has more slots than `u32` can index.
pub broadcast proof fn lemma_slot_count_bound(es: Entities)
    ensures
        es.wf() ==> #[trigger] es.sp_slot_count() <= u32::MAX,
{
}

/// A live slot index is always inside the allocator's slot range.
pub broadcast proof fn lemma_alive_in_bounds(es: Entities, i: int)
    ensures
        #[trigger] es.sp_alive(i) ==> 0 <= i < es.sp_slot_count(),
{
}

} // verus!
