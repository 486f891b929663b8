use ecs_core::access::{Access, FilteredAccess};
use ecs_core::component::{ComponentId, StorageType};
use ecs_core::label::{AmbiguitySetLabelId, DynEq, DynHash, RunCriteriaLabelId, SystemLabelId};
use ecs_core::query::{QueryState, QueryTerm};
use ecs_core::stage::{topological_order, SystemStage};
use ecs_core::system::{RunCriteriaRule, SystemModel, SystemWork};
use ecs_core::system_descriptor::{
    new_exclusive_descriptor, new_parallel_descriptor, ExclusiveSystemDescriptorCoercion,
    IntoSystemDescriptor, ParallelSystemDescriptorCoercion, RunCriteriaDescriptorOrLabel,
    SystemDescriptor,
};
use ecs_core::system_param::{
    assert_component_access_compatibility, ResMutState, ResState, SystemMeta,
};
use ecs_core::system_set::SystemSet;
use ecs_core::world::World;

fn label(n: u64) -> SystemLabelId {
    SystemLabelId {
        type_key: 1,
        name_key: n,
    }
}

fn system(name: u64, work: SystemWork) -> SystemModel {
    SystemModel {
        name_key: name,
        access: Access::new(),
        work,
    }
}

#[test]
fn access_conflicts_are_write_versus_any() {
    let mut a = Access::new();
    a.add_write(3);
    let mut b = Access::new();
    b.add_read(3);
    assert!(!a.is_compatible(&b));
    assert!(!b.is_compatible(&a));
    assert_eq!(a.get_conflicts(&b), vec![3]);
    let mut c = Access::new();
    c.add_read(4);
    assert!(a.is_compatible(&c));
    assert_eq!(a.get_conflicts(&c), Vec::<usize>::new());
    // two readers never conflict
    let mut d = Access::new();
    d.add_read(3);
    assert!(b.is_compatible(&d));
    // read_all conflicts with any write
    let mut e = Access::new();
    e.read_all();
    assert!(!e.is_compatible(&a));
    assert!(e.is_compatible(&b));
}

#[test]
fn filter_disjointness_excuses_conflicts() {
    let mut a = FilteredAccess::new();
    a.add_write(3);
    a.add_without(9);
    let mut b = FilteredAccess::new();
    b.add_write(3);
    b.add_with(9);
    // both write id 3, but one requires id 9 and the other excludes it
    assert!(a.is_compatible(&b));
    let mut c = FilteredAccess::new();
    c.add_write(3);
    assert!(!a.is_compatible(&c));
}

#[test]
fn same_type_write_read_in_one_system_is_refused() {
    // two queries over one component kind, one of them mutable, no
    // disjointness filter: initialization reports the kind
    let mut w = World::new();
    let position = w.init_component(100, StorageType::Table);
    let mut meta = SystemMeta::new(1);
    let q1 = match QueryState::new(vec![QueryTerm::Write(position)], vec![])
        .unwrap()
        .init_param(&mut meta)
    {
        Ok(q) => q,
        Err(_) => panic!("first query refused"),
    };
    let q2 = QueryState::new(vec![QueryTerm::Read(position)], vec![]).unwrap();
    let err = match q2.init_param(&mut meta) {
        Ok(_) => panic!("conflicting query accepted"),
        Err(e) => e,
    };
    assert!(err.contains(&position.0));
    let _ = q1;
}

#[test]
fn disjoint_write_sets_are_accepted() {
    // Query<&mut A> and Query<&mut B> with A != B initialize together
    let mut w = World::new();
    let a = w.init_component(100, StorageType::Table);
    let b = w.init_component(101, StorageType::Table);
    let mut meta = SystemMeta::new(1);
    assert!(QueryState::new(vec![QueryTerm::Write(a)], vec![])
        .unwrap()
        .init_param(&mut meta)
        .is_ok());
    assert!(QueryState::new(vec![QueryTerm::Write(b)], vec![])
        .unwrap()
        .init_param(&mut meta)
        .is_ok());
}

#[test]
fn resource_params_conflict_like_components() {
    let mut w = World::new();
    let mut meta = SystemMeta::new(1);
    let st = match ResMutState::init(&mut w, &mut meta, 200) {
        Ok(st) => st,
        Err(_) => panic!("first access refused"),
    };
    // a second mutable access to the same resource is refused, naming it
    match ResMutState::init(&mut w, &mut meta, 200) {
        Ok(_) => panic!("duplicate mutable access accepted"),
        Err(c) => assert_eq!(c, st.component_id),
    }
    // a shared access to the same resource is refused too
    match ResState::init(&mut w, &mut meta, 200) {
        Ok(_) => panic!("shared access beside mutable accepted"),
        Err(c) => assert_eq!(c, st.component_id),
    }
    // another resource is fine, and two readers of one resource are fine
    let mut meta2 = SystemMeta::new(2);
    assert!(ResState::init(&mut w, &mut meta2, 200).is_ok());
    assert!(ResState::init(&mut w, &mut meta2, 200).is_ok());
    assert!(ResMutState::init(&mut w, &mut meta2, 201).is_ok());
}

#[test]
fn compatibility_check_reports_all_conflicts() {
    let mut set = ecs_core::access::FilteredAccessSet::new();
    let mut f1 = FilteredAccess::new();
    f1.add_write(1);
    f1.add_write(2);
    set.add(f1);
    let mut f2 = FilteredAccess::new();
    f2.add_read(1);
    f2.add_read(2);
    let conflicts = assert_component_access_compatibility(&set, &f2).unwrap_err();
    assert!(conflicts.contains(&1));
    assert!(conflicts.contains(&2));
}

#[test]
fn topological_order_respects_edges_and_reports_cycles() {
    let order = topological_order(3, &vec![(2, 0), (0, 1)]).unwrap();
    assert_eq!(order, vec![2, 0, 1]);
    // ties break by insertion order
    let order2 = topological_order(3, &vec![]).unwrap();
    assert_eq!(order2, vec![0, 1, 2]);
    let stuck = topological_order(2, &vec![(0, 1), (1, 0)]).unwrap_err();
    assert_eq!(stuck.len(), 2);
}

#[test]
fn labelled_systems_run_in_declared_order() {
    // s1 is labelled; s2 runs after the label; s3 is unrelated. every valid
    // order has s1 before s2; the unrelated system stays in insertion order
    let mut w = World::new();
    let k = w.init_component(300, StorageType::Table);
    w.insert_resource(k, 0).unwrap();
    let mut stage = SystemStage::parallel_stage();
    // insert the dependent system first: without the edge it would run
    // first and the final value would differ
    stage.add_system(
        new_parallel_descriptor(system(2, SystemWork::AddToResource(k, 1)))
            .after(label(7))
            .into_descriptor(),
    );
    stage.add_system(
        new_parallel_descriptor(system(1, SystemWork::SetResource(k, 10)))
            .label(label(7))
            .into_descriptor(),
    );
    stage.add_system(
        new_parallel_descriptor(system(3, SystemWork::Nothing)).into_descriptor(),
    );
    stage.run(&mut w).unwrap();
    // the writer ran first, then the adder: 10 + 1
    assert_eq!(w.get_resource(k), Some(11));
}

#[test]
fn cyclic_order_is_a_configuration_error() {
    let mut w = World::new();
    let mut stage = SystemStage::parallel_stage();
    stage.add_system(
        new_parallel_descriptor(system(1, SystemWork::Nothing))
            .label(label(1))
            .after(label(2))
            .into_descriptor(),
    );
    stage.add_system(
        new_parallel_descriptor(system(2, SystemWork::Nothing))
            .label(label(2))
            .after(label(1))
            .into_descriptor(),
    );
    let stuck = stage.run(&mut w).unwrap_err();
    assert_eq!(stuck.len(), 2);
}

#[test]
fn gated_system_is_skipped_but_does_not_block_dependents() {
    // the gated system's body does not run this tick; a system ordered
    // after it still runs
    let mut w = World::new();
    let k = w.init_component(300, StorageType::Table);
    let gate = w.init_component(301, StorageType::Table);
    w.insert_resource(k, 0).unwrap();
    w.insert_resource(gate, 0).unwrap();
    let mut stage = SystemStage::parallel_stage();
    stage.add_system(SystemDescriptor::Parallel(
        new_parallel_descriptor(system(1, SystemWork::SetResource(k, 99)))
            .label(label(5))
            .with_run_criteria(RunCriteriaDescriptorOrLabel::Descriptor(
                RunCriteriaRule::ResourceEquals(gate, 1),
                None,
            )),
    ));
    stage.add_system(SystemDescriptor::Parallel(
        new_parallel_descriptor(system(2, SystemWork::AddToResource(k, 1))).after(label(5)),
    ));
    stage.run(&mut w).unwrap();
    // the criteria said no: the first body did not run, the dependent did
    assert_eq!(w.get_resource(k), Some(1));
    // let the criteria pass: both run, in order
    w.insert_resource(gate, 1).unwrap();
    w.insert_resource(k, 0).unwrap();
    stage.run(&mut w).unwrap();
    assert_eq!(w.get_resource(k), Some(100));
}

#[test]
fn system_sets_flatten_their_metadata() {
    let mut w = World::new();
    let k = w.init_component(300, StorageType::Table);
    w.insert_resource(k, 0).unwrap();
    let mut stage = SystemStage::parallel_stage();
    stage.add_system(
        new_parallel_descriptor(system(1, SystemWork::SetResource(k, 10)))
            .label(label(7))
            .into_descriptor(),
    );
    // the whole set runs after the labelled system
    let set = SystemSet::new()
        .with_model(system(2, SystemWork::AddToResource(k, 1)))
        .with_model(system(3, SystemWork::AddToResource(k, 2)))
        .after(label(7));
    stage.add_system_set(set);
    stage.run(&mut w).unwrap();
    assert_eq!(w.get_resource(k), Some(13));
}

#[test]
fn set_criteria_gate_all_members() {
    let mut w = World::new();
    let k = w.init_component(300, StorageType::Table);
    let gate = w.init_component(301, StorageType::Table);
    w.insert_resource(k, 0).unwrap();
    w.insert_resource(gate, 0).unwrap();
    let mut stage = SystemStage::parallel_stage();
    let set = SystemSet::new()
        .with_model(system(1, SystemWork::AddToResource(k, 1)))
        .with_model(system(2, SystemWork::AddToResource(k, 2)))
        .with_run_criteria(RunCriteriaDescriptorOrLabel::Descriptor(
            RunCriteriaRule::ResourceEquals(gate, 1),
            None,
        ));
    stage.add_system_set(set);
    stage.run(&mut w).unwrap();
    assert_eq!(w.get_resource(k), Some(0));
    w.insert_resource(gate, 1).unwrap();
    stage.run(&mut w).unwrap();
    assert_eq!(w.get_resource(k), Some(3));
}

#[test]
fn exclusive_systems_run_at_their_points() {
    let mut w = World::new();
    let k = w.init_component(300, StorageType::Table);
    w.insert_resource(k, 0).unwrap();
    let mut stage = SystemStage::parallel_stage();
    // at_end overwrites whatever the parallel systems computed
    stage.add_system(
        new_exclusive_descriptor(system(1, SystemWork::SetResource(k, 5)))
            .at_end()
            .into_descriptor(),
    );
    stage.add_system(
        new_parallel_descriptor(system(2, SystemWork::AddToResource(k, 1))).into_descriptor(),
    );
    stage.run(&mut w).unwrap();
    assert_eq!(w.get_resource(k), Some(5));
    // at_start runs before the parallel systems
    let mut w2 = World::new();
    let k2 = w2.init_component(300, StorageType::Table);
    w2.insert_resource(k2, 0).unwrap();
    let mut stage2 = SystemStage::parallel_stage();
    stage2.add_system(
        new_exclusive_descriptor(system(1, SystemWork::SetResource(k2, 5)))
            .at_start()
            .into_descriptor(),
    );
    stage2.add_system(
        new_parallel_descriptor(system(2, SystemWork::AddToResource(k2, 1))).into_descriptor(),
    );
    stage2.run(&mut w2).unwrap();
    assert_eq!(w2.get_resource(k2), Some(6));
}

#[test]
fn labels_compare_and_hash_by_identity() {
    let a = label(1);
    let b = label(1);
    let c = label(2);
    assert!(a.dyn_eq(&b));
    assert!(!a.dyn_eq(&c));
    assert_eq!(a.dyn_hash(), b.dyn_hash());
    let s1 = AmbiguitySetLabelId {
        type_key: 1,
        name_key: 9,
    };
    let s2 = AmbiguitySetLabelId {
        type_key: 1,
        name_key: 9,
    };
    assert!(s1.dyn_eq(&s2));
}

#[test]
fn ambiguity_detection_reports_unordered_conflicts() {
    // two systems write the same id with no order between them: reported.
    // ordering them, or putting them in one ambiguity set, silences it
    let mut access_w = Access::new();
    access_w.add_write(3);
    let mk = |name: u64| SystemModel {
        name_key: name,
        access: access_w.clone_access(),
        work: SystemWork::Nothing,
    };
    let mut stage = SystemStage::parallel_stage();
    stage.add_system(new_parallel_descriptor(mk(1)).into_descriptor());
    stage.add_system(new_parallel_descriptor(mk(2)).into_descriptor());
    assert_eq!(stage.find_ambiguities(), vec![(0, 1)]);

    let mut ordered = SystemStage::parallel_stage();
    ordered.add_system(
        new_parallel_descriptor(mk(1)).label(label(1)).into_descriptor(),
    );
    ordered.add_system(
        new_parallel_descriptor(mk(2)).after(label(1)).into_descriptor(),
    );
    assert_eq!(ordered.find_ambiguities(), Vec::<(usize, usize)>::new());

    let shared = AmbiguitySetLabelId {
        type_key: 2,
        name_key: 1,
    };
    let mut excused = SystemStage::parallel_stage();
    excused.add_system(
        new_parallel_descriptor(mk(1)).in_ambiguity_set(shared).into_descriptor(),
    );
    excused.add_system(
        new_parallel_descriptor(mk(2)).in_ambiguity_set(shared).into_descriptor(),
    );
    assert_eq!(excused.find_ambiguities(), Vec::<(usize, usize)>::new());
}

#[test]
fn unregistered_criteria_label_leaves_the_system_ungated() {
    let mut w = World::new();
    let k = w.init_component(300, StorageType::Table);
    w.insert_resource(k, 0).unwrap();
    let mut stage = SystemStage::parallel_stage();
    stage.add_system(SystemDescriptor::Parallel(
        new_parallel_descriptor(system(1, SystemWork::SetResource(k, 4))).with_run_criteria(
            RunCriteriaDescriptorOrLabel::Label(RunCriteriaLabelId {
                type_key: 9,
                name_key: 9,
            }),
        ),
    ));
    stage.run(&mut w).unwrap();
    assert_eq!(w.get_resource(k), Some(4));
}
