//! System parameters. Each parameter a system declares registers its access
//! in the system's [`SystemMeta`] when the system is initialized; a
//! parameter whose access collides with one declared earlier in the same
//! system is a configuration error reported at initialization, never a
//! runtime race. Resources are single-row pseudo-components and follow
//! exactly the component rules.

use vstd::prelude::*;
use crate::access::{Access, FilteredAccess, FilteredAccessSet, sp_filtered_equiv};
use crate::component::{ComponentId, StorageType};
use crate::entity::Entity;
use crate::query::QueryState;
use crate::tick::{ComponentTicks, tick_in_window};
use crate::world::World;

verus! {

/// Values storable as resources.
pub trait Resource {

}

impl Resource for u64 {

}

/// What a system accumulates while its parameters initialize: its name key,
/// the per-parameter filtered accesses with their combined access, the
/// archetype-level access, whether it may leave the main thread, and its
/// change-detection window.
pub struct SystemMeta {
    pub name_key: u64,
    pub component_access_set: FilteredAccessSet,
    pub archetype_component_access: Access,
    pub is_send: bool,
    pub last_change_tick: u32,
}

impl SystemMeta {
    /// A fresh meta for the named system: no access, sendable.
    pub fn new(name_key: u64) -> (r: SystemMeta)
        ensures
            r.name_key == name_key,
            r.component_access_set.sp_members().len() == 0,
            !r.component_access_set.sp_combined().sp_reads_all(),
            forall|i: int|
                !r.component_access_set.sp_combined().sp_declares(i)
                    && !r.component_access_set.sp_combined().sp_has_write(i),
            r.is_send,
            r.last_change_tick == 0,
    {
        SystemMeta {
            name_key,
            component_access_set: FilteredAccessSet::new(),
            archetype_component_access: Access::new(),
            is_send: true,
            last_change_tick: 0,
        }
    }

    /// May the system leave the main thread?
    pub fn is_send(&self) -> (r: bool)
        ensures
            r == self.is_send,
    {
        self.is_send
    }

    /// Pin the system to the main thread.
    pub fn set_non_send(&mut self)
        ensures
            !final(self).is_send,
            final(self).name_key == old(self).name_key,
            final(self).component_access_set == old(self).component_access_set,
            final(self).archetype_component_access == old(self).archetype_component_access,
            final(self).last_change_tick == old(self).last_change_tick,
    {
        self.is_send = false;
    }
}

/// The conflicts between a new parameter's access and what the system
/// already declared: empty exactly when they are compatible. A non-empty
/// list is a programming mistake caught at system initialization; the ids
/// come back to the caller, who refuses the system.
pub fn assert_component_access_compatibility(
    system_access: &FilteredAccessSet,
    current: &FilteredAccess,
) -> (r: Result<(), Vec<usize>>)
    ensures
        r is Ok == !system_access.sp_conflicts_with(*current),
        r is Err ==> (r->Err_0)@.len() > 0,
        r is Err ==> forall|id: usize|
            (r->Err_0)@.contains(id) == exists|k: int|
                0 <= k < system_access.sp_members().len() && !FilteredAccess::sp_compatible(
                    #[trigger] system_access.sp_members()[k],
                    *current,
                ) && Access::sp_conflicts_at(
                    system_access.sp_members()[k].sp_access(),
                    current.sp_access(),
                    id as int,
                ),
{
    let conflicts = system_access.get_conflicts_single(current);
    if conflicts.len() == 0 {
        Ok(())
    } else {
        Err(conflicts)
    }
}

/// Shared borrow of a resource, with its change-detection window.
pub struct Res {
    pub value: u64,
    pub ticks: ComponentTicks,
    pub last_change_tick: u32,
    pub change_tick: u32,
}

impl Res {
    /// Was the resource added since the observing system last ran?
    pub fn is_added(&self) -> (r: bool)
        ensures
            r == tick_in_window(self.ticks.added, self.last_change_tick, self.change_tick),
    {
        self.ticks.is_added(self.last_change_tick, self.change_tick)
    }

    /// Was the resource written since the observing system last ran?
    pub fn is_changed(&self) -> (r: bool)
        ensures
            r == tick_in_window(self.ticks.changed, self.last_change_tick, self.change_tick),
    {
        self.ticks.is_changed(self.last_change_tick, self.change_tick)
    }

    /// The borrowed value.
    pub fn into_inner(self) -> (r: u64)
        ensures
            r == self.value,
    {
        self.value
    }
}

/// Shared borrow of a main-thread-only resource.
pub struct NonSend {
    pub value: u64,
    pub ticks: ComponentTicks,
    pub last_change_tick: u32,
    pub change_tick: u32,
}

impl NonSend {
    /// Was the resource added since the observing system last ran?
    pub fn is_added(&self) -> (r: bool)
        ensures
            r == tick_in_window(self.ticks.added, self.last_change_tick, self.change_tick),
    {
        self.ticks.is_added(self.last_change_tick, self.change_tick)
    }

    /// Was the resource written since the observing system last ran?
    pub fn is_changed(&self) -> (r: bool)
        ensures
            r == tick_in_window(self.ticks.changed, self.last_change_tick, self.change_tick),
    {
        self.ticks.is_changed(self.last_change_tick, self.change_tick)
    }
}

/// A per-system local value: visible to its system only.
pub struct Local {
    pub value: u64,
}

/// The state behind a [`Local`]: the stored value itself.
pub struct LocalState {
    pub value: u64,
}

/// The change-detection window of the running system.
pub struct SystemChangeTick {
    pub last_change_tick: u32,
    pub change_tick: u32,
}

impl SystemChangeTick {
    /// The current change tick the system sees.
    pub fn change_tick(&self) -> (r: u32)
        ensures
            r == self.change_tick,
    {
        self.change_tick
    }

    /// The tick the system saw when it last ran.
    pub fn last_change_tick(&self) -> (r: u32)
        ensures
            r == self.last_change_tick,
    {
        self.last_change_tick
    }
}

/// The entities that lost a component of one kind since trackers were last
/// cleared.
pub struct RemovedComponents {
    pub component_id: ComponentId,
    pub entities: Vec<Entity>,
}

impl RemovedComponents {
    /// The recorded entities, in recording order.
    pub fn iter(&self) -> (r: &Vec<Entity>)
        ensures
            r@ == self.entities@,
    {
        &self.entities
    }
}

/// What every parameter state can do once its system ran: hand buffered
/// work back to the world. Most parameters buffer nothing.
pub trait SystemParamState: Sized {
    /// Apply any buffered work to the world.
    fn apply(&mut self, world: &mut World)
        requires
            old(world).wf(),
        ensures
            final(world).wf(),
    ;
}

/// Marker: fetching this parameter only reads the world it is given.
pub trait ReadOnlySystemParamFetch {

}

/// The state of a `Res` parameter: the resource's id.
pub struct ResState {
    pub component_id: ComponentId,
}

/// The state of an `Option<Res>` parameter.
pub struct OptionResState(pub ResState);

/// The state of a `ResMut` parameter: the resource's id.
pub struct ResMutState {
    pub component_id: ComponentId,
}

/// The state of an `Option<ResMut>` parameter.
pub struct OptionResMutState(pub ResMutState);

/// The state of a `NonSend` parameter: the resource's id.
pub struct NonSendState {
    pub component_id: ComponentId,
}

/// The state of an `Option<NonSend>` parameter.
pub struct OptionNonSendState(pub NonSendState);

/// The state of a `NonSendMut` parameter: the resource's id.
pub struct NonSendMutState {
    pub component_id: ComponentId,
}

/// The state of an `Option<NonSendMut>` parameter.
pub struct OptionNonSendMutState(pub NonSendMutState);

/// The state of a whole-world read parameter.
pub struct WorldState;

/// The state of a [`SystemChangeTick`] parameter.
pub struct SystemChangeTickState;

/// The state of a [`RemovedComponents`] parameter: the watched kind.
pub struct RemovedComponentsState {
    pub component_id: ComponentId,
}

/// The state of a borrow of the archetype registry.
pub struct ArchetypesState;

/// The state of a borrow of the component registry.
pub struct ComponentsState;

/// The state of a borrow of the entity allocator.
pub struct EntitiesState;

/// The state of a borrow of the bundle registry.
pub struct BundlesState;

/// The state of a parameter adapted for use in generic positions: it
/// delegates everything to the wrapped state.
pub struct StaticSystemParamState<S>(pub S);

impl SystemParamState for ResState {
    fn apply(&mut self, world: &mut World) {
    }
}

impl SystemParamState for OptionResState {
    fn apply(&mut self, world: &mut World) {
    }
}

impl SystemParamState for ResMutState {
    fn apply(&mut self, world: &mut World) {
    }
}

impl SystemParamState for OptionResMutState {
    fn apply(&mut self, world: &mut World) {
    }
}

impl SystemParamState for NonSendState {
    fn apply(&mut self, world: &mut World) {
    }
}

impl SystemParamState for OptionNonSendState {
    fn apply(&mut self, world: &mut World) {
    }
}

impl SystemParamState for NonSendMutState {
    fn apply(&mut self, world: &mut World) {
    }
}

impl SystemParamState for OptionNonSendMutState {
    fn apply(&mut self, world: &mut World) {
    }
}

impl SystemParamState for WorldState {
    fn apply(&mut self, world: &mut World) {
    }
}

impl SystemParamState for SystemChangeTickState {
    fn apply(&mut self, world: &mut World) {
    }
}

impl SystemParamState for RemovedComponentsState {
    fn apply(&mut self, world: &mut World) {
    }
}

impl SystemParamState for ArchetypesState {
    fn apply(&mut self, world: &mut World) {
    }
}

impl SystemParamState for ComponentsState {
    fn apply(&mut self, world: &mut World) {
    }
}

impl SystemParamState for EntitiesState {
    fn apply(&mut self, world: &mut World) {
    }
}

impl SystemParamState for BundlesState {
    fn apply(&mut self, world: &mut World) {
    }
}

impl<S: SystemParamState> SystemParamState for StaticSystemParamState<S> {
    fn apply(&mut self, world: &mut World) {
        self.0.apply(world);
    }
}

impl ReadOnlySystemParamFetch for ResState {

}

impl ReadOnlySystemParamFetch for OptionResState {

}

impl ReadOnlySystemParamFetch for NonSendState {

}

impl ReadOnlySystemParamFetch for OptionNonSendState {

}

impl ReadOnlySystemParamFetch for WorldState {

}

impl ReadOnlySystemParamFetch for SystemChangeTickState {

}

impl ReadOnlySystemParamFetch for RemovedComponentsState {

}

impl ReadOnlySystemParamFetch for ArchetypesState {

}

impl ReadOnlySystemParamFetch for ComponentsState {

}

impl ReadOnlySystemParamFetch for EntitiesState {

}

impl ReadOnlySystemParamFetch for BundlesState {

}

impl ReadOnlySystemParamFetch for LocalState {

}

impl<S: ReadOnlySystemParamFetch> ReadOnlySystemParamFetch for StaticSystemParamState<S> {

}

impl ResState {
    /// Register a shared resource access for the system. The resource kind
    /// is registered under `type_key` if new; a write on the same id
    /// declared earlier in this system is the conflict reported, exactly
    /// as that id. On success the combined access gains the read, the
    /// archetype-level access gains a read of the resource's
    /// archetype-component id, and a member holding exactly that read is
    /// appended.
    pub fn init(world: &mut World, system_meta: &mut SystemMeta, type_key: u64) -> (r: Result<
        ResState,
        ComponentId,
    >)
        requires
            old(world).wf(),
            old(world).sp_component_count() < usize::MAX / 2,
        ensures
            final(world).wf(),
            match r {
                Ok(st) => {
                    &&& final(world).sp_registered(st.component_id)
                    &&& final(world).sp_type_key(st.component_id) == type_key
                    &&& !old(system_meta).component_access_set.sp_combined().sp_has_write(
                        st.component_id.0 as int,
                    )
                    &&& forall|i: int|
                        final(system_meta).component_access_set.sp_combined().sp_declares(i) == (old(system_meta).component_access_set.sp_combined().sp_declares(i)
                            || i == st.component_id.0 as int)
                    &&& forall|i: int|
                        final(system_meta).component_access_set.sp_combined().sp_has_write(i)
                            == old(system_meta).component_access_set.sp_combined().sp_has_write(i)
                    &&& final(system_meta).component_access_set.sp_combined().sp_reads_all()
                        == old(system_meta).component_access_set.sp_combined().sp_reads_all()
                    &&& final(system_meta).component_access_set.sp_members().len() == old(system_meta).component_access_set.sp_members().len() + 1
                    &&& forall|k: int|
                        0 <= k < old(system_meta).component_access_set.sp_members().len()
                            ==> final(system_meta).component_access_set.sp_members()[k] == old(system_meta).component_access_set.sp_members()[k]
                    &&& forall|i: int|
                        final(system_meta).component_access_set.sp_members().last().sp_access().sp_declares(i) == (
                        i == st.component_id.0 as int)
                    &&& forall|i: int|
                        !final(system_meta).component_access_set.sp_members().last().sp_access().sp_has_write(i)
                    &&& !final(system_meta).component_access_set.sp_members().last().sp_access().sp_reads_all()
                    &&& forall|i: int|
                        final(system_meta).archetype_component_access.sp_declares(i) == (old(system_meta).archetype_component_access.sp_declares(i)
                            || i == 2 * st.component_id.0 + 1)
                    &&& forall|i: int|
                        final(system_meta).archetype_component_access.sp_has_write(i) == old(system_meta).archetype_component_access.sp_has_write(i)
                    &&& final(system_meta).archetype_component_access.sp_reads_all() == old(system_meta).archetype_component_access.sp_reads_all()
                },
                Err(c) => {
                    &&& old(system_meta).component_access_set.sp_combined().sp_has_write(
                        c.0 as int,
                    )
                    &&& final(world).sp_registered(c)
                    &&& final(world).sp_type_key(c) == type_key
                    &&& *final(system_meta) == *old(system_meta)
                },
            },
            final(system_meta).is_send == old(system_meta).is_send,
            final(system_meta).name_key == old(system_meta).name_key,
            final(system_meta).last_change_tick == old(system_meta).last_change_tick,
            forall|e: Entity, c2: ComponentId|
                final(world).sp_component(e, c2) == old(world).sp_component(e, c2),
            forall|c2: ComponentId| final(world).sp_resource(c2) == old(world).sp_resource(c2),
    {
        let component_id = world.init_component(type_key, StorageType::Table);
        if system_meta.component_access_set.combined_access().has_write(component_id.0) {
            return Err(component_id);
        }
        proof {
            assert(component_id.0 < usize::MAX / 2);
        }
        let acid = world.resource_archetype_component_id(component_id);
        let arch2 = system_meta.archetype_component_access.with_read(acid.0);
        system_meta.archetype_component_access = arch2;
        let mut filtered = FilteredAccess::new();
        filtered.add_read(component_id.0);
        let combined = system_meta.component_access_set.combined_access().union_with(
            filtered.access(),
        );
        system_meta.component_access_set.add_with_combined(filtered, combined);
        Ok(ResState { component_id })
    }
}

impl ResMutState {
    /// Register an exclusive resource access for the system. Any earlier
    /// access to the same id in this system — shared or exclusive — is the
    /// conflict reported, exactly as that id. On success the combined
    /// access gains the write, the archetype-level access gains a write of
    /// the resource's archetype-component id, and a member holding exactly
    /// that write is appended.
    pub fn init(world: &mut World, system_meta: &mut SystemMeta, type_key: u64) -> (r: Result<
        ResMutState,
        ComponentId,
    >)
        requires
            old(world).wf(),
            old(world).sp_component_count() < usize::MAX / 2,
        ensures
            final(world).wf(),
            match r {
                Ok(st) => {
                    &&& final(world).sp_registered(st.component_id)
                    &&& final(world).sp_type_key(st.component_id) == type_key
                    &&& !old(system_meta).component_access_set.sp_combined().sp_has_write(
                        st.component_id.0 as int,
                    )
                    &&& !old(system_meta).component_access_set.sp_combined().sp_declares(
                        st.component_id.0 as int,
                    )
                    &&& !old(system_meta).component_access_set.sp_combined().sp_reads_all()
                    &&& forall|i: int|
                        final(system_meta).component_access_set.sp_combined().sp_declares(i) == (old(system_meta).component_access_set.sp_combined().sp_declares(i)
                            || i == st.component_id.0 as int)
                    &&& forall|i: int|
                        final(system_meta).component_access_set.sp_combined().sp_has_write(i) == (old(system_meta).component_access_set.sp_combined().sp_has_write(i)
                            || i == st.component_id.0 as int)
                    &&& final(system_meta).component_access_set.sp_combined().sp_reads_all()
                        == old(system_meta).component_access_set.sp_combined().sp_reads_all()
                    &&& final(system_meta).component_access_set.sp_members().len() == old(system_meta).component_access_set.sp_members().len() + 1
                    &&& forall|k: int|
                        0 <= k < old(system_meta).component_access_set.sp_members().len()
                            ==> final(system_meta).component_access_set.sp_members()[k] == old(system_meta).component_access_set.sp_members()[k]
                    &&& forall|i: int|
                        final(system_meta).component_access_set.sp_members().last().sp_access().sp_declares(i) == (
                        i == st.component_id.0 as int)
                    &&& forall|i: int|
                        final(system_meta).component_access_set.sp_members().last().sp_access().sp_has_write(i) == (
                        i == st.component_id.0 as int)
                    &&& !final(system_meta).component_access_set.sp_members().last().sp_access().sp_reads_all()
                    &&& forall|i: int|
                        final(system_meta).archetype_component_access.sp_declares(i) == (old(system_meta).archetype_component_access.sp_declares(i)
                            || i == 2 * st.component_id.0 + 1)
                    &&& forall|i: int|
                        final(system_meta).archetype_component_access.sp_has_write(i) == (old(system_meta).archetype_component_access.sp_has_write(i)
                            || i == 2 * st.component_id.0 + 1)
                    &&& final(system_meta).archetype_component_access.sp_reads_all() == old(system_meta).archetype_component_access.sp_reads_all()
                },
                Err(c) => {
                    &&& (old(system_meta).component_access_set.sp_combined().sp_has_write(
                        c.0 as int,
                    ) || old(system_meta).component_access_set.sp_combined().sp_declares(
                        c.0 as int,
                    ) || old(system_meta).component_access_set.sp_combined().sp_reads_all())
                    &&& final(world).sp_registered(c)
                    &&& final(world).sp_type_key(c) == type_key
                    &&& *final(system_meta) == *old(system_meta)
                },
            },
            final(system_meta).is_send == old(system_meta).is_send,
            final(system_meta).name_key == old(system_meta).name_key,
            final(system_meta).last_change_tick == old(system_meta).last_change_tick,
            forall|e: Entity, c2: ComponentId|
                final(world).sp_component(e, c2) == old(world).sp_component(e, c2),
            forall|c2: ComponentId| final(world).sp_resource(c2) == old(world).sp_resource(c2),
    {
        let component_id = world.init_component(type_key, StorageType::Table);
        if system_meta.component_access_set.combined_access().has_write(component_id.0) {
            return Err(component_id);
        }
        if system_meta.component_access_set.combined_access().has_read(component_id.0) {
            return Err(component_id);
        }
        proof {
            assert(component_id.0 < usize::MAX / 2);
        }
        let acid = world.resource_archetype_component_id(component_id);
        let arch2 = system_meta.archetype_component_access.with_write(acid.0);
        system_meta.archetype_component_access = arch2;
        let mut filtered = FilteredAccess::new();
        filtered.add_write(component_id.0);
        let combined = system_meta.component_access_set.combined_access().union_with(
            filtered.access(),
        );
        system_meta.component_access_set.add_with_combined(filtered, combined);
        Ok(ResMutState { component_id })
    }
}

impl NonSendState {
    /// As a shared resource access, and the system is pinned to the main
    /// thread so the scheduler never sends it to the worker pool.
    pub fn init(world: &mut World, system_meta: &mut SystemMeta, type_key: u64) -> (r: Result<
        NonSendState,
        ComponentId,
    >)
        requires
            old(world).wf(),
            old(world).sp_component_count() < usize::MAX / 2,
        ensures
            final(world).wf(),
            !final(system_meta).is_send,
            match r {
                Ok(st) => {
                    &&& final(world).sp_registered(st.component_id)
                    &&& final(world).sp_type_key(st.component_id) == type_key
                    &&& !old(system_meta).component_access_set.sp_combined().sp_has_write(
                        st.component_id.0 as int,
                    )
                    &&& forall|i: int|
                        final(system_meta).component_access_set.sp_combined().sp_declares(i) == (old(system_meta).component_access_set.sp_combined().sp_declares(i)
                            || i == st.component_id.0 as int)
                    &&& forall|i: int|
                        final(system_meta).component_access_set.sp_combined().sp_has_write(i)
                            == old(system_meta).component_access_set.sp_combined().sp_has_write(i)
                    &&& final(system_meta).component_access_set.sp_members().len() == old(system_meta).component_access_set.sp_members().len() + 1
                    &&& forall|i: int|
                        final(system_meta).component_access_set.sp_members().last().sp_access().sp_declares(i) == (
                        i == st.component_id.0 as int)
                    &&& forall|i: int|
                        !final(system_meta).component_access_set.sp_members().last().sp_access().sp_has_write(i)
                    &&& forall|i: int|
                        final(system_meta).archetype_component_access.sp_declares(i) == (old(system_meta).archetype_component_access.sp_declares(i)
                            || i == 2 * st.component_id.0 + 1)
                    &&& forall|i: int|
                        final(system_meta).archetype_component_access.sp_has_write(i) == old(system_meta).archetype_component_access.sp_has_write(i)
                },
                Err(c) => {
                    &&& old(system_meta).component_access_set.sp_combined().sp_has_write(
                        c.0 as int,
                    )
                    &&& final(world).sp_registered(c)
                    &&& final(world).sp_type_key(c) == type_key
                    &&& final(system_meta).component_access_set == old(system_meta).component_access_set
                    &&& final(system_meta).archetype_component_access == old(system_meta).archetype_component_access
                },
            },
            forall|e: Entity, c2: ComponentId|
                final(world).sp_component(e, c2) == old(world).sp_component(e, c2),
            forall|c2: ComponentId| final(world).sp_resource(c2) == old(world).sp_resource(c2),
    {
        system_meta.set_non_send();
        match ResState::init(world, system_meta, type_key) {
            Ok(st) => Ok(NonSendState { component_id: st.component_id }),
            Err(c) => Err(c),
        }
    }
}

impl NonSendMutState {
    /// As an exclusive resource access, and the system is pinned to the
    /// main thread so the scheduler never sends it to the worker pool.
    pub fn init(world: &mut World, system_meta: &mut SystemMeta, type_key: u64) -> (r: Result<
        NonSendMutState,
        ComponentId,
    >)
        requires
            old(world).wf(),
            old(world).sp_component_count() < usize::MAX / 2,
        ensures
            final(world).wf(),
            !final(system_meta).is_send,
            match r {
                Ok(st) => {
                    &&& final(world).sp_registered(st.component_id)
                    &&& final(world).sp_type_key(st.component_id) == type_key
                    &&& !old(system_meta).component_access_set.sp_combined().sp_has_write(
                        st.component_id.0 as int,
                    )
                    &&& !old(system_meta).component_access_set.sp_combined().sp_declares(
                        st.component_id.0 as int,
                    )
                    &&& !old(system_meta).component_access_set.sp_combined().sp_reads_all()
                    &&& forall|i: int|
                        final(system_meta).component_access_set.sp_combined().sp_declares(i) == (old(system_meta).component_access_set.sp_combined().sp_declares(i)
                            || i == st.component_id.0 as int)
                    &&& forall|i: int|
                        final(system_meta).component_access_set.sp_combined().sp_has_write(i) == (old(system_meta).component_access_set.sp_combined().sp_has_write(i)
                            || i == st.component_id.0 as int)
                    &&& final(system_meta).component_access_set.sp_members().len() == old(system_meta).component_access_set.sp_members().len() + 1
                    &&& forall|i: int|
                        final(system_meta).component_access_set.sp_members().last().sp_access().sp_declares(i) == (
                        i == st.component_id.0 as int)
                    &&& forall|i: int|
                        final(system_meta).component_access_set.sp_members().last().sp_access().sp_has_write(i) == (
                        i == st.component_id.0 as int)
                    &&& forall|i: int|
                        final(system_meta).archetype_component_access.sp_declares(i) == (old(system_meta).archetype_component_access.sp_declares(i)
                            || i == 2 * st.component_id.0 + 1)
                    &&& forall|i: int|
                        final(system_meta).archetype_component_access.sp_has_write(i) == (old(system_meta).archetype_component_access.sp_has_write(i)
                            || i == 2 * st.component_id.0 + 1)
                },
                Err(c) => {
                    &&& (old(system_meta).component_access_set.sp_combined().sp_has_write(
                        c.0 as int,
                    ) || old(system_meta).component_access_set.sp_combined().sp_declares(
                        c.0 as int,
                    ) || old(system_meta).component_access_set.sp_combined().sp_reads_all())
                    &&& final(world).sp_registered(c)
                    &&& final(world).sp_type_key(c) == type_key
                    &&& final(system_meta).component_access_set == old(system_meta).component_access_set
                    &&& final(system_meta).archetype_component_access == old(system_meta).archetype_component_access
                },
            },
            forall|e: Entity, c2: ComponentId|
                final(world).sp_component(e, c2) == old(world).sp_component(e, c2),
            forall|c2: ComponentId| final(world).sp_resource(c2) == old(world).sp_resource(c2),
    {
        system_meta.set_non_send();
        match ResMutState::init(world, system_meta, type_key) {
            Ok(st) => Ok(NonSendMutState { component_id: st.component_id }),
            Err(c) => Err(c),
        }
    }
}

impl WorldState {
    /// A whole-world read: succeeds exactly when no parameter declared so
    /// far writes anything, and then joins the list as a read-everything
    /// member, at both the component and the archetype level.
    pub fn init(system_meta: &mut SystemMeta) -> (r: Result<WorldState, Vec<usize>>)
        ensures
            r is Ok == (forall|k: int, i: int|
                #![trigger old(system_meta).component_access_set.sp_members()[k].sp_access().sp_has_write(i)]
                0 <= k < old(system_meta).component_access_set.sp_members().len()
                    ==> !old(system_meta).component_access_set.sp_members()[
                k].sp_access().sp_has_write(i)),
            r is Ok ==> {
                &&& final(system_meta).component_access_set.sp_combined().sp_reads_all()
                &&& forall|i: int|
                    final(system_meta).component_access_set.sp_combined().sp_declares(i) == old(system_meta).component_access_set.sp_combined().sp_declares(i)
                &&& forall|i: int|
                    final(system_meta).component_access_set.sp_combined().sp_has_write(i) == old(system_meta).component_access_set.sp_combined().sp_has_write(i)
                &&& final(system_meta).component_access_set.sp_members().len() == old(system_meta).component_access_set.sp_members().len() + 1
                &&& forall|k: int|
                    0 <= k < old(system_meta).component_access_set.sp_members().len()
                        ==> final(system_meta).component_access_set.sp_members()[k] == old(system_meta).component_access_set.sp_members()[k]
                &&& final(system_meta).component_access_set.sp_members().last().sp_access().sp_reads_all()
                &&& forall|i: int|
                    !final(system_meta).component_access_set.sp_members().last().sp_access().sp_declares(i)
                &&& forall|i: int|
                    !final(system_meta).component_access_set.sp_members().last().sp_access().sp_has_write(i)
                &&& forall|i: int|
                    !final(system_meta).component_access_set.sp_members().last().sp_with(i)
                &&& forall|i: int|
                    !final(system_meta).component_access_set.sp_members().last().sp_without(i)
                &&& final(system_meta).archetype_component_access.sp_reads_all()
                &&& forall|i: int|
                    final(system_meta).archetype_component_access.sp_declares(i) == old(system_meta).archetype_component_access.sp_declares(i)
                &&& forall|i: int|
                    final(system_meta).archetype_component_access.sp_has_write(i) == old(system_meta).archetype_component_access.sp_has_write(i)
            },
            r is Err ==> *final(system_meta) == *old(system_meta) && (r->Err_0)@.len() > 0,
            final(system_meta).is_send == old(system_meta).is_send,
            final(system_meta).name_key == old(system_meta).name_key,
            final(system_meta).last_change_tick == old(system_meta).last_change_tick,
    {
        let mut filtered = FilteredAccess::new();
        filtered.read_all();
        let checked = assert_component_access_compatibility(
            &system_meta.component_access_set,
            &filtered,
        );
        proof {
            let members = system_meta.component_access_set.sp_members();
            // the read-everything member collides with a member exactly
            // when that member writes something
            assert forall|k: int|
                0 <= k < members.len() implies (!FilteredAccess::sp_compatible(
                #[trigger] members[k],
                filtered,
            ) == exists|i: int| (#[trigger] members[k]).sp_access().sp_has_write(i)) by {
                let m = members[k];
                if exists|i: int| m.sp_access().sp_has_write(i) {
                    let i = choose|i: int| m.sp_access().sp_has_write(i);
                    assert(Access::sp_conflicts_at(m.sp_access(), filtered.sp_access(), i));
                    assert(!FilteredAccess::sp_filters_disjoint(m, filtered)) by {
                        if FilteredAccess::sp_filters_disjoint(m, filtered) {
                            let j = choose|j: int|
                                (m.sp_with(j) && filtered.sp_without(j)) || (filtered.sp_with(j)
                                    && m.sp_without(j));
                        }
                    }
                }
                if !FilteredAccess::sp_compatible(m, filtered) {
                    assert(!Access::sp_compatible(m.sp_access(), filtered.sp_access()));
                    let i = choose|i: int|
                        Access::sp_conflicts_at(m.sp_access(), filtered.sp_access(), i);
                    assert(m.sp_access().sp_has_write(i)) by {
                        assert(!filtered.sp_access().sp_has_write(i));
                        assert(!filtered.sp_access().sp_declares(i));
                    }
                }
            }
            if system_meta.component_access_set.sp_conflicts_with(filtered) {
                let k = choose|k: int|
                    0 <= k < members.len() && !FilteredAccess::sp_compatible(
                        #[trigger] members[k],
                        filtered,
                    );
                let i = choose|i: int| members[k].sp_access().sp_has_write(i);
            } else {
                assert forall|k: int, i: int|
                    #![trigger members[k].sp_access().sp_has_write(i)]
                    0 <= k < members.len() implies !members[k].sp_access().sp_has_write(i) by {
                    if members[k].sp_access().sp_has_write(i) {
                        assert(exists|i2: int| members[k].sp_access().sp_has_write(i2));
                        assert(!FilteredAccess::sp_compatible(members[k], filtered));
                    }
                }
            }
        }
        match checked {
            Ok(()) => {
                let arch2 = {
                    let mut a = system_meta.archetype_component_access.clone_access();
                    a.read_all();
                    a
                };
                system_meta.archetype_component_access = arch2;
                let combined = system_meta.component_access_set.combined_access().union_with(
                    filtered.access(),
                );
                system_meta.component_access_set.add_with_combined(filtered, combined);
                Ok(WorldState)
            },
            Err(conflicts) => Err(conflicts),
        }
    }
}

impl QueryState {
    /// Register a query parameter: the query's own terms must not collide
    /// among themselves, and its access must not collide with anything the
    /// system declared earlier. The colliding ids are reported exactly.
    pub fn init_param(
        self,
        system_meta: &mut SystemMeta,
    ) -> (r: Result<QueryState, Vec<usize>>)
        ensures
            match r {
                Ok(q) => {
                    &&& q.sp_terms() == self.sp_terms()
                    &&& q.sp_filters() == self.sp_filters()
                    &&& q.sp_access() == self.sp_access()
                    &&& !old(system_meta).component_access_set.sp_conflicts_with(self.sp_access())
                    &&& final(system_meta).component_access_set.sp_members().len() == old(system_meta).component_access_set.sp_members().len() + 1
                    &&& forall|k: int|
                        0 <= k < old(system_meta).component_access_set.sp_members().len()
                            ==> final(system_meta).component_access_set.sp_members()[k] == old(system_meta).component_access_set.sp_members()[k]
                    &&& sp_filtered_equiv(
                        self.sp_access(),
                        final(system_meta).component_access_set.sp_members().last(),
                    )
                },
                Err(conflicts) => {
                    &&& old(system_meta).component_access_set.sp_conflicts_with(self.sp_access())
                    &&& conflicts@.len() > 0
                    &&& *final(system_meta) == *old(system_meta)
                },
            },
    {
        match assert_component_access_compatibility(
            &system_meta.component_access_set,
            self.component_access(),
        ) {
            Ok(()) => {
                let access = self.component_access().duplicate();
                let combined = system_meta.component_access_set.combined_access().union_with(
                    access.access(),
                );
                system_meta.component_access_set.add_with_combined(access, combined);
                Ok(self)
            },
            Err(conflicts) => Err(conflicts),
        }
    }
}

/// A second query whose ids are disjoint from the first query's ids is
/// accepted: initialization of the second parameter must not report a
/// conflict, whatever the two queries write.
pub proof fn lemma_disjoint_second_query_accepted(
    meta: SystemMeta,
    a: FilteredAccess,
    b: FilteredAccess,
)
    requires
        meta.component_access_set.sp_members().len() == 1,
        sp_filtered_equiv(a, meta.component_access_set.sp_members()[0]),
        !a.sp_access().sp_reads_all(),
        !b.sp_access().sp_reads_all(),
        forall|i: int| !(a.sp_access().sp_has_write(i) && b.sp_access().sp_declares(i)),
        forall|i: int| !(a.sp_access().sp_declares(i) && b.sp_access().sp_has_write(i)),
    ensures
        !meta.component_access_set.sp_conflicts_with(b),
{
    crate::access::lemma_disjoint_writes_compatible(a.sp_access(), b.sp_access());
    assert(FilteredAccess::sp_compatible(a, b));
    crate::access::lemma_equiv_compatible(a, meta.component_access_set.sp_members()[0], b);
    if meta.component_access_set.sp_conflicts_with(b) {
        let k = choose|k: int|
            0 <= k < meta.component_access_set.sp_members().len()
                && !FilteredAccess::sp_compatible(
                #[trigger] meta.component_access_set.sp_members()[k],
                b,
            );
        assert(k == 0);
    }
}

/// A second query that writes an id the first query reads or writes — with
/// no filter proving the two disjoint — is refused: initialization must
/// report the conflict.
pub proof fn lemma_overlapping_write_query_refused(
    meta: SystemMeta,
    a: FilteredAccess,
    b: FilteredAccess,
    i: int,
)
    requires
        meta.component_access_set.sp_members().len() == 1,
        sp_filtered_equiv(a, meta.component_access_set.sp_members()[0]),
        a.sp_access().sp_declares(i) && b.sp_access().sp_has_write(i) || a.sp_access().sp_has_write(
            i,
        ) && b.sp_access().sp_declares(i),
        !FilteredAccess::sp_filters_disjoint(a, b),
    ensures
        meta.component_access_set.sp_conflicts_with(b),
{
    assert(Access::sp_conflicts_at(a.sp_access(), b.sp_access(), i));
    assert(!Access::sp_compatible(a.sp_access(), b.sp_access()));
    assert(!FilteredAccess::sp_compatible(a, b));
    crate::access::lemma_equiv_compatible(a, meta.component_access_set.sp_members()[0], b);
    assert(!FilteredAccess::sp_compatible(
        meta.component_access_set.sp_members()[0],
        b,
    ));
}

/// Two queries whose declared accesses touch disjoint ids are compatible:
/// registering them in one system succeeds. In particular two exclusive
/// queries over different kinds never conflict.
pub proof fn lemma_disjoint_queries_compatible(a: FilteredAccess, b: FilteredAccess)
    requires
        !a.sp_access().sp_reads_all(),
        !b.sp_access().sp_reads_all(),
        forall|i: int| !(a.sp_access().sp_has_write(i) && b.sp_access().sp_declares(i)),
        forall|i: int| !(a.sp_access().sp_declares(i) && b.sp_access().sp_has_write(i)),
    ensures
        FilteredAccess::sp_compatible(a, b),
{
    crate::access::lemma_disjoint_writes_compatible(a.sp_access(), b.sp_access());
}

} // verus!
