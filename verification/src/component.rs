//! The component registry. A component kind is registered once per process
//! under a caller-chosen stable key (standing in for the type), receives a
//! dense [`ComponentId`], and picks its [`StorageType`] at that moment; the
//! storage type never changes afterwards, later registrations of the same
//! key simply hand the original id back.

use vstd::prelude::*;

verus! {

/// Dense identifier of a registered component kind.
#[derive(Clone, Copy, PartialEq, Eq, Structural, Hash, Debug)]
pub struct ComponentId(pub usize);

impl ComponentId {
    /// The dense index of this id.
    pub fn index(&self) -> (r: usize)
        ensures
            r == self.0,
    {
        self.0
    }
}

/// Where values of a component kind live: densely in the table column of
/// each archetype, or in one per-kind map keyed by entity.
#[derive(Clone, Copy, PartialEq, Eq, Structural, Hash, Debug)]
pub enum StorageType {
    Table,
    SparseSet,
}

/// What the registry records per component kind.
#[derive(Clone, Copy, Debug)]
pub struct ComponentInfo {
    pub id: ComponentId,
    pub type_key: u64,
    pub storage_type: StorageType,
}

/// The per-process component registry.
pub struct Components {
    infos: Vec<ComponentInfo>,
}

impl Components {
    /// The recorded info of each registered id.
    pub closed spec fn sp_infos(self) -> Seq<ComponentInfo> {
        self.infos@
    }

    /// Is `id` a registered component id?
    pub open spec fn sp_registered(self, id: ComponentId) -> bool {
        id.0 < self.sp_infos().len()
    }

    /// The storage type registered for `id`.
    pub open spec fn sp_storage_type(self, id: ComponentId) -> StorageType {
        self.sp_infos()[id.0 as int].storage_type
    }

    /// The key registered for `id`.
    pub open spec fn sp_type_key(self, id: ComponentId) -> u64 {
        self.sp_infos()[id.0 as int].type_key
    }

    /// Is some component registered under `key`?
    pub open spec fn sp_has_key(self, key: u64) -> bool {
        exists|k: int| 0 <= k < self.sp_infos().len() && (#[trigger] self.sp_infos()[k]).type_key == key
    }

    /// Ids are dense and keys are registered at most once.
    pub closed spec fn wf(self) -> bool {
        &&& forall|k: int| 0 <= k < self.infos@.len() ==> (#[trigger] self.infos@[k]).id.0 == k
        &&& forall|p: int, q: int|
            0 <= p < q < self.infos@.len() ==> self.infos@[p].type_key != self.infos@[q].type_key
    }

    /// An empty registry.
    pub fn new() -> (r: Components)
        ensures
            r.wf(),
            r.sp_infos().len() == 0,
    {
        Components { infos: Vec::new() }
    }

    /// How many component kinds are registered.
    pub fn len(&self) -> (r: usize)
        ensures
            r == self.sp_infos().len(),
    {
        self.infos.len()
    }

    /// Register the component kind with key `type_key`, choosing
    /// `storage_type` if it is new. A kind already registered keeps its id
    /// and its original storage type, whatever is asked for now.
    pub fn init_component(&mut self, type_key: u64, storage_type: StorageType) -> (r: ComponentId)
        requires
            old(self).wf(),
            old(self).sp_infos().len() < usize::MAX,
        ensures
            final(self).wf(),
            final(self).sp_registered(r),
            final(self).sp_type_key(r) == type_key,
            old(self).sp_has_key(type_key) ==> *final(self) == *old(self)
                && old(self).sp_registered(r),
            !old(self).sp_has_key(type_key) ==> {
                &&& final(self).sp_infos() == old(self).sp_infos().push(
                    ComponentInfo { id: r, type_key, storage_type },
                )
                &&& r.0 == old(self).sp_infos().len()
                &&& final(self).sp_storage_type(r) == storage_type
            },
    {
        let mut k: usize = 0;
        while k < self.infos.len()
            invariant
                *self == *old(self),
                self.wf(),
                k <= self.infos@.len(),
                forall|p: int| 0 <= p < k ==> (#[trigger] self.infos@[p]).type_key != type_key,
            decreases self.infos@.len() - k,
        {
            if self.infos[k].type_key == type_key {
                return self.infos[k].id;
            }
            k += 1;
        }
        let id = ComponentId(self.infos.len());
        self.infos.push(ComponentInfo { id, type_key, storage_type });
        id
    }

    /// The info recorded for `id`; an unregistered id yields nothing.
    pub fn get_info(&self, id: ComponentId) -> (r: Option<&ComponentInfo>)
        requires
            self.wf(),
        ensures
            match r {
                Some(info) => self.sp_registered(id) && *info == self.sp_infos()[id.0 as int],
                None => !self.sp_registered(id),
            },
    {
        if id.0 < self.infos.len() {
            Some(&self.infos[id.0])
        } else {
            None
        }
    }

    /// The storage type registered for `id`; an unregistered id yields
    /// nothing.
    pub fn storage_type(&self, id: ComponentId) -> (r: Option<StorageType>)
        requires
            self.wf(),
        ensures
            match r {
                Some(s) => self.sp_registered(id) && s == self.sp_storage_type(id),
                None => !self.sp_registered(id),
            },
    {
        if id.0 < self.infos.len() {
            Some(self.infos[id.0].storage_type)
        } else {
            None
        }
    }
}

/// A key determines its id: two registered ids with the same key are the
/// same id.
pub proof fn lemma_key_unique(c: Components, a: ComponentId, b: ComponentId)
    requires
        c.wf(),
        c.sp_registered(a),
        c.sp_registered(b),
        c.sp_type_key(a) == c.sp_type_key(b),
    ensures
        a == b,
{
    if a.0 != b.0 {
        if a.0 < b.0 {
            assert(c.sp_infos()[a.0 as int].type_key != c.sp_infos()[b.0 as int].type_key);
        } else {
            assert(c.sp_infos()[b.0 as int].type_key != c.sp_infos()[a.0 as int].type_key);
        }
    }
    assert(c.sp_infos()[a.0 as int].id.0 == a.0);
    assert(c.sp_infos()[b.0 as int].id.0 == b.0);
}

/// A kind keeps the storage type of its first registration: registering the
/// same key twice, with any storage types, yields the same id and leaves the
/// first storage type standing.
pub proof fn lemma_storage_type_never_changes(
    c0: Components,
    c1: Components,
    c2: Components,
    key: u64,
    s1: StorageType,
    s2: StorageType,
    id1: ComponentId,
    id2: ComponentId,
)
    requires
        c0.wf(),
        !c0.sp_has_key(key),
        c0.sp_infos().len() < usize::MAX,
        // first registration: c0 -> c1 returned id1
        c1.sp_infos() == c0.sp_infos().push(ComponentInfo { id: id1, type_key: key, storage_type: s1 }),
        id1.0 == c0.sp_infos().len(),
        // second registration of the same key: c1 -> c2 returned id2
        c1.sp_has_key(key) ==> c2 == c1,
        c2.sp_type_key(id2) == key,
        c2.sp_registered(id2),
        c2.wf(),
    ensures
        c2 == c1,
        c2.sp_storage_type(id2) == s1,
        id2 == id1,
{
    assert(c1.sp_infos()[id1.0 as int] == ComponentInfo { id: id1, type_key: key, storage_type: s1 });
    assert(c1.sp_has_key(key));
    assert(c2 == c1);
    assert forall|k: int|
        0 <= k < c1.sp_infos().len() && (#[trigger] c1.sp_infos()[k]).type_key == key implies k
        == id1.0 as int by {
        if k != id1.0 as int {
            assert(c1.sp_infos()[k].type_key != c1.sp_infos()[id1.0 as int].type_key);
        }
    }
    assert(id2.0 == id1.0);
    assert(c2.sp_infos()[id2.0 as int].id == id2);
}

} // verus!
