use ecs_core::component::{ComponentId, StorageType};
use ecs_core::query::{QueryFilter, QueryState, QueryTerm};
use ecs_core::tick::ComponentTicks;
use ecs_core::world::{World, WorldError};

const KEY_A: u64 = 1;
const KEY_B: u64 = 2;
const KEY_C: u64 = 3;
const KEY_SPARSE: u64 = 4;

#[test]
fn registration_is_idempotent_and_keeps_storage_type() {
    let mut w = World::new();
    let a1 = w.init_component(KEY_A, StorageType::Table);
    let a2 = w.init_component(KEY_A, StorageType::SparseSet);
    assert_eq!(a1, a2);
    assert_eq!(w.storage_type(a1), Some(StorageType::Table));
    let s = w.init_component(KEY_SPARSE, StorageType::SparseSet);
    assert_eq!(w.storage_type(s), Some(StorageType::SparseSet));
    assert_ne!(a1, s);
}

#[test]
fn inserted_component_reads_back_with_current_added_tick() {
    // after inserting a component, a query matching the archetype yields
    // exactly one item with the inserted value, added on the current tick
    let mut w = World::new();
    let a = w.init_component(KEY_A, StorageType::Table);
    let e = w.spawn();
    let tick = w.read_change_tick();
    assert_eq!(w.insert_component(e, a, 41), Ok(()));
    assert_eq!(w.get_component(e, a), Some(41));
    let ticks = w.get_component_ticks(e, a).unwrap();
    assert_eq!(ticks.added, tick);
    assert_eq!(ticks.changed, tick);

    let q = QueryState::new(vec![QueryTerm::Read(a)], vec![]).unwrap();
    let hits = q.query_entities(&w, w.last_change_tick(), w.read_change_tick());
    assert_eq!(hits.len(), 1);
    assert_eq!(hits[0], e);
    assert_eq!(q.fetch(&w, e), Some(vec![41]));
}

#[test]
fn sparse_component_reads_back_too() {
    let mut w = World::new();
    let s = w.init_component(KEY_SPARSE, StorageType::SparseSet);
    let e = w.spawn();
    assert_eq!(w.insert_component(e, s, 9), Ok(()));
    assert_eq!(w.get_component(e, s), Some(9));
    let q = QueryState::new(vec![QueryTerm::Read(s)], vec![]).unwrap();
    let hits = q.query_entities(&w, w.last_change_tick(), w.read_change_tick());
    assert_eq!(hits, vec![e]);
}

#[test]
fn insert_on_missing_entity_is_refused() {
    let mut w = World::new();
    let a = w.init_component(KEY_A, StorageType::Table);
    let e = w.spawn();
    assert!(w.despawn(e));
    assert_eq!(w.insert_component(e, a, 1), Err(WorldError::NoSuchEntity));
    let e2 = w.spawn();
    assert_eq!(
        w.insert_component(e2, ComponentId(77), 1),
        Err(WorldError::UnregisteredComponent)
    );
}

#[test]
fn insertion_order_reaches_one_archetype() {
    // adding {A, B, C} in any order lands both entities in the same
    // archetype, and a three-term query finds them both
    let mut w = World::new();
    let a = w.init_component(KEY_A, StorageType::Table);
    let b = w.init_component(KEY_B, StorageType::Table);
    let c = w.init_component(KEY_C, StorageType::Table);
    let e1 = w.spawn();
    let e2 = w.spawn();
    w.insert_component(e1, a, 1).unwrap();
    w.insert_component(e1, b, 2).unwrap();
    w.insert_component(e1, c, 3).unwrap();
    let count_after_first = w.archetype_count();
    w.insert_component(e2, c, 30).unwrap();
    w.insert_component(e2, a, 10).unwrap();
    w.insert_component(e2, b, 20).unwrap();
    // the second path adds intermediate archetypes {C} and {A, C} but ends
    // in the archetype the first entity already lives in
    assert_eq!(w.archetype_count(), count_after_first + 2);
    let q = QueryState::new(
        vec![QueryTerm::Read(a), QueryTerm::Read(b), QueryTerm::Read(c)],
        vec![],
    )
    .unwrap();
    let hits = q.query_entities(&w, w.last_change_tick(), w.read_change_tick());
    assert_eq!(hits.len(), 2);
    assert!(hits.contains(&e1));
    assert!(hits.contains(&e2));
    assert_eq!(q.fetch(&w, e2), Some(vec![10, 20, 30]));
}

#[test]
fn changed_filter_resets_after_clear_trackers() {
    // a write shows up under the changed filter; after clear_trackers the
    // unmodified component no longer counts as changed
    let mut w = World::new();
    let a = w.init_component(KEY_A, StorageType::Table);
    let e = w.spawn();
    w.insert_component(e, a, 5).unwrap();
    let q = QueryState::new(vec![QueryTerm::Read(a)], vec![QueryFilter::Changed(a)]).unwrap();
    let hits = q.query_entities(&w, w.last_change_tick(), w.read_change_tick());
    assert_eq!(hits, vec![e]);
    w.clear_trackers();
    let hits2 = q.query_entities(&w, w.last_change_tick(), w.read_change_tick());
    assert_eq!(hits2.len(), 0);
    // writing again on the new tick makes it changed again
    assert!(w.set_component(e, a, 6));
    let hits3 = q.query_entities(&w, w.last_change_tick(), w.read_change_tick());
    assert_eq!(hits3, vec![e]);
}

#[test]
fn added_filter_resets_after_clear_trackers() {
    let mut w = World::new();
    let a = w.init_component(KEY_A, StorageType::Table);
    let e = w.spawn();
    w.insert_component(e, a, 5).unwrap();
    let q = QueryState::new(vec![QueryTerm::Read(a)], vec![QueryFilter::Added(a)]).unwrap();
    assert_eq!(
        q.query_entities(&w, w.last_change_tick(), w.read_change_tick()),
        vec![e]
    );
    w.clear_trackers();
    assert_eq!(
        q.query_entities(&w, w.last_change_tick(), w.read_change_tick())
            .len(),
        0
    );
}

#[test]
fn overwrite_keeps_added_tick_and_bumps_changed() {
    let mut w = World::new();
    let a = w.init_component(KEY_A, StorageType::Table);
    let e = w.spawn();
    w.insert_component(e, a, 5).unwrap();
    let added = w.get_component_ticks(e, a).unwrap().added;
    w.clear_trackers();
    let tick2 = w.read_change_tick();
    w.insert_component(e, a, 6).unwrap();
    let ticks = w.get_component_ticks(e, a).unwrap();
    assert_eq!(ticks.added, added);
    assert_eq!(ticks.changed, tick2);
    assert_eq!(w.get_component(e, a), Some(6));
}

#[test]
fn with_and_without_filters_restrict_matching() {
    let mut w = World::new();
    let a = w.init_component(KEY_A, StorageType::Table);
    let b = w.init_component(KEY_B, StorageType::Table);
    let e1 = w.spawn();
    let e2 = w.spawn();
    w.insert_component(e1, a, 1).unwrap();
    w.insert_component(e2, a, 2).unwrap();
    w.insert_component(e2, b, 3).unwrap();
    let q_with = QueryState::new(vec![QueryTerm::Read(a)], vec![QueryFilter::With(b)]).unwrap();
    assert_eq!(
        q_with.query_entities(&w, w.last_change_tick(), w.read_change_tick()),
        vec![e2]
    );
    let q_without =
        QueryState::new(vec![QueryTerm::Read(a)], vec![QueryFilter::Without(b)]).unwrap();
    assert_eq!(
        q_without.query_entities(&w, w.last_change_tick(), w.read_change_tick()),
        vec![e1]
    );
}

#[test]
fn despawn_retires_the_handle_and_records_removals() {
    let mut w = World::new();
    let a = w.init_component(KEY_A, StorageType::Table);
    let s = w.init_component(KEY_SPARSE, StorageType::SparseSet);
    let e = w.spawn();
    w.insert_component(e, a, 1).unwrap();
    w.insert_component(e, s, 2).unwrap();
    assert!(w.contains_entity(e));
    assert!(w.despawn(e));
    assert!(!w.contains_entity(e));
    assert!(!w.despawn(e));
    assert_eq!(w.get_component(e, a), None);
    assert_eq!(w.removed_with_id(a), vec![e]);
    assert_eq!(w.removed_with_id(s), vec![e]);
    // a stale handle never resolves to the reused slot
    let e2 = w.spawn();
    assert!(w.contains_entity(e2));
    assert!(!w.contains_entity(e));
    assert_ne!(e, e2);
    // clearing trackers forgets the removal lists
    w.clear_trackers();
    assert_eq!(w.removed_with_id(a).len(), 0);
}

#[test]
fn swap_removal_keeps_other_rows_intact() {
    let mut w = World::new();
    let a = w.init_component(KEY_A, StorageType::Table);
    let mut entities = Vec::new();
    for i in 0..5u64 {
        let e = w.spawn();
        w.insert_component(e, a, 100 + i).unwrap();
        entities.push(e);
    }
    // despawn a middle entity: the others keep their values
    assert!(w.despawn(entities[1]));
    for (i, e) in entities.iter().enumerate() {
        if i == 1 {
            assert_eq!(w.get_component(*e, a), None);
        } else {
            assert_eq!(w.get_component(*e, a), Some(100 + i as u64));
        }
    }
}

#[test]
fn resources_follow_tick_rules() {
    let mut w = World::new();
    let r = w.init_component(KEY_A, StorageType::Table);
    let tick = w.read_change_tick();
    assert_eq!(w.insert_resource(r, 7), Ok(()));
    assert_eq!(w.get_resource(r), Some(7));
    let t = w.get_resource_ticks(r).unwrap();
    assert_eq!(t.added, tick);
    assert_eq!(t.changed, tick);
    w.clear_trackers();
    let tick2 = w.read_change_tick();
    assert_eq!(w.insert_resource(r, 8), Ok(()));
    let t2 = w.get_resource_ticks(r).unwrap();
    assert_eq!(t2.added, tick);
    assert_eq!(t2.changed, tick2);
    assert_eq!(w.remove_resource(r), Some(8));
    assert_eq!(w.get_resource(r), None);
    assert_eq!(
        w.insert_resource(ComponentId(50), 1),
        Err(WorldError::UnregisteredComponent)
    );
}

#[test]
fn query_with_conflicting_terms_is_refused() {
    let mut w = World::new();
    let a = w.init_component(KEY_A, StorageType::Table);
    assert_eq!(
        QueryState::new(vec![QueryTerm::Write(a), QueryTerm::Read(a)], vec![]).err(),
        Some(a)
    );
    assert_eq!(
        QueryState::new(vec![QueryTerm::Read(a), QueryTerm::Write(a)], vec![]).err(),
        Some(a)
    );
    assert!(QueryState::new(vec![QueryTerm::Read(a), QueryTerm::Read(a)], vec![]).is_ok());
}

#[test]
fn component_ticks_window_is_exclusive_of_last() {
    let t = ComponentTicks {
        added: 5,
        changed: 7,
    };
    assert!(t.is_added(4, 8));
    assert!(!t.is_added(5, 8));
    assert!(t.is_changed(5, 8));
    assert!(!t.is_changed(7, 8));
    // wrapping comparison: a tick just past the wrap point is younger than
    // one just before it
    let t2 = ComponentTicks {
        added: 2,
        changed: 2,
    };
    assert!(t2.is_added(u32::MAX - 1, 4));
}
