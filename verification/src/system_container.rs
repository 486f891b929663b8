//! System containers: what a stage keeps per registered system once its
//! descriptor is taken apart — the system itself, its resolved dependency
//! indices into the stage's flat system array, its run-criteria index, and
//! its labels. Containers are created when a stage bakes its descriptors
//! and mutated only when the stage rebuilds orders and dependencies.

use vstd::prelude::*;
use crate::access::Access;
use crate::label::{AmbiguitySetLabelId, RunCriteriaLabelId, SystemLabelId};
use crate::system::SystemModel;

verus! {

/// The label metadata carried by every system in a stage.
pub struct SystemContainerMeta {
    pub labels: Vec<SystemLabelId>,
    pub before: Vec<SystemLabelId>,
    pub after: Vec<SystemLabelId>,
    pub ambiguity_sets: Vec<AmbiguitySetLabelId>,
}

/// The run-criteria slot of a container: the resolved index into the
/// stage's criteria array, and the label the criteria was referred by.
pub struct RunCriteriaMeta {
    pub index: Option<usize>,
    pub label: Option<RunCriteriaLabelId>,
}

impl RunCriteriaMeta {
    /// The resolved criteria index, if resolution has happened.
    pub fn index(&self) -> (r: Option<usize>)
        ensures
            r == self.index,
    {
        self.index
    }

    /// Record the resolved criteria index.
    pub fn set_index(&mut self, index: usize)
        ensures
            final(self).index == Some(index),
            final(self).label == old(self).label,
    {
        self.index = Some(index);
    }

    /// The label the criteria goes by, if any.
    pub fn label(&self) -> (r: Option<&RunCriteriaLabelId>)
        ensures
            r is Some == self.label is Some,
            r is Some ==> *r.unwrap() == self.label.unwrap(),
    {
        self.label.as_ref()
    }
}

/// What every container answers to the stage: its dependencies, its
/// criteria slot, its ambiguity sets and its access.
pub trait SystemContainer: Sized {
    /// The resolved dependency indices.
    spec fn sp_dependencies(self) -> Seq<usize>;

    /// Everything except the dependency list.
    spec fn sp_same_but_dependencies(self, other: Self) -> bool;

    /// Everything except the criteria slot's index.
    spec fn sp_same_but_criteria_index(self, other: Self) -> bool;

    /// The criteria slot.
    spec fn sp_run_criteria_meta(self) -> RunCriteriaMeta;

    /// The declared ambiguity sets.
    spec fn sp_ambiguity_sets(self) -> Seq<AmbiguitySetLabelId>;

    /// The declared component access, for parallel systems.
    spec fn sp_component_access(self) -> Option<Access>;

    /// The resolved dependency indices.
    fn dependencies(&self) -> (r: &Vec<usize>)
        ensures
            r@ == self.sp_dependencies(),
    ;

    /// Replace the dependency list.
    fn set_dependencies(&mut self, dependencies: Vec<usize>)
        ensures
            final(self).sp_dependencies() == dependencies@,
            final(self).sp_same_but_dependencies(*old(self)),
    ;

    /// The resolved run-criteria index.
    fn run_criteria(&self) -> (r: Option<usize>)
        ensures
            r == self.sp_run_criteria_meta().index,
    ;

    /// Record the resolved run-criteria index.
    fn set_run_criteria(&mut self, index: usize)
        ensures
            final(self).sp_run_criteria_meta().index == Some(index),
            final(self).sp_run_criteria_meta().label == old(self).sp_run_criteria_meta().label,
            final(self).sp_same_but_criteria_index(*old(self)),
    ;

    /// The label the run criteria goes by.
    fn run_criteria_label(&self) -> (r: Option<&RunCriteriaLabelId>)
        ensures
            r is Some == self.sp_run_criteria_meta().label is Some,
            r is Some ==> *r.unwrap() == self.sp_run_criteria_meta().label.unwrap(),
    ;

    /// The declared ambiguity sets.
    fn ambiguity_sets(&self) -> (r: &Vec<AmbiguitySetLabelId>)
        ensures
            r@ == self.sp_ambiguity_sets(),
    ;

    /// The component access, for parallel systems; an exclusive system has
    /// none and conflicts with everything.
    fn component_access(&self) -> (r: Option<&Access>)
        ensures
            r is Some == self.sp_component_access() is Some,
            r is Some ==> *r.unwrap() == self.sp_component_access().unwrap(),
    ;
}

/// An exclusive system inside a stage.
pub struct ExclusiveSystemContainer {
    pub system: SystemModel,
    pub run_criteria_meta: RunCriteriaMeta,
    pub dependencies: Vec<usize>,
    pub meta: SystemContainerMeta,
}

impl ExclusiveSystemContainer {
    /// The system itself, mutably.
    pub fn system_mut(&mut self) -> (r: &mut SystemModel)
        ensures
            *r == old(self).system,
            final(self).system == *final(r),
            final(self).run_criteria_meta == old(self).run_criteria_meta,
            final(self).dependencies == old(self).dependencies,
            final(self).meta == old(self).meta,
    {
        &mut self.system
    }
}

impl SystemContainer for ExclusiveSystemContainer {
    open spec fn sp_dependencies(self) -> Seq<usize> {
        self.dependencies@
    }

    open spec fn sp_same_but_dependencies(self, other: Self) -> bool {
        self.system == other.system && self.run_criteria_meta == other.run_criteria_meta
            && self.meta == other.meta
    }

    open spec fn sp_same_but_criteria_index(self, other: Self) -> bool {
        self.system == other.system && self.dependencies == other.dependencies && self.meta
            == other.meta
    }

    open spec fn sp_run_criteria_meta(self) -> RunCriteriaMeta {
        self.run_criteria_meta
    }

    open spec fn sp_ambiguity_sets(self) -> Seq<AmbiguitySetLabelId> {
        self.meta.ambiguity_sets@
    }

    open spec fn sp_component_access(self) -> Option<Access> {
        None
    }

    fn dependencies(&self) -> (r: &Vec<usize>) {
        &self.dependencies
    }

    fn set_dependencies(&mut self, dependencies: Vec<usize>) {
        self.dependencies = dependencies;
    }

    fn run_criteria(&self) -> (r: Option<usize>) {
        self.run_criteria_meta.index
    }

    fn set_run_criteria(&mut self, index: usize) {
        self.run_criteria_meta.index = Some(index);
    }

    fn run_criteria_label(&self) -> (r: Option<&RunCriteriaLabelId>) {
        self.run_criteria_meta.label.as_ref()
    }

    fn ambiguity_sets(&self) -> (r: &Vec<AmbiguitySetLabelId>) {
        &self.meta.ambiguity_sets
    }

    fn component_access(&self) -> (r: Option<&Access>) {
        None
    }
}

/// A parallel system inside a stage, together with this tick's verdict of
/// its run criteria.
pub struct ParallelSystemContainer {
    pub system: SystemModel,
    pub run_criteria_meta: RunCriteriaMeta,
    pub should_run: bool,
    pub dependencies: Vec<usize>,
    pub meta: SystemContainerMeta,
}

impl ParallelSystemContainer {
    /// The system's diagnostic name key.
    pub fn name(&self) -> (r: u64)
        ensures
            r == self.system.name_key,
    {
        self.system.name_key
    }

    /// The system itself.
    pub fn system(&self) -> (r: &SystemModel)
        ensures
            *r == self.system,
    {
        &self.system
    }

    /// The system itself, mutably.
    pub fn system_mut(&mut self) -> (r: &mut SystemModel)
        ensures
            *r == old(self).system,
            final(self).system == *final(r),
            final(self).run_criteria_meta == old(self).run_criteria_meta,
            final(self).should_run == old(self).should_run,
            final(self).dependencies == old(self).dependencies,
            final(self).meta == old(self).meta,
    {
        &mut self.system
    }

    /// Did this tick's run criteria say yes?
    pub fn should_run(&self) -> (r: bool)
        ensures
            r == self.should_run,
    {
        self.should_run
    }

    /// Wrap a system into a container with no dependencies resolved yet.
    pub fn from_system(system: SystemModel, meta: SystemContainerMeta) -> (r:
        ParallelSystemContainer)
        ensures
            r.system == system,
            r.meta == meta,
            r.should_run == false,
            r.dependencies@.len() == 0,
            r.run_criteria_meta.index is None,
            r.run_criteria_meta.label is None,
    {
        ParallelSystemContainer {
            system,
            run_criteria_meta: RunCriteriaMeta { index: None, label: None },
            should_run: false,
            dependencies: Vec::new(),
            meta,
        }
    }
}

impl SystemContainer for ParallelSystemContainer {
    open spec fn sp_dependencies(self) -> Seq<usize> {
        self.dependencies@
    }

    open spec fn sp_same_but_dependencies(self, other: Self) -> bool {
        self.system == other.system && self.run_criteria_meta == other.run_criteria_meta
            && self.should_run == other.should_run && self.meta == other.meta
    }

    open spec fn sp_same_but_criteria_index(self, other: Self) -> bool {
        self.system == other.system && self.should_run == other.should_run && self.dependencies
            == other.dependencies && self.meta == other.meta
    }

    open spec fn sp_run_criteria_meta(self) -> RunCriteriaMeta {
        self.run_criteria_meta
    }

    open spec fn sp_ambiguity_sets(self) -> Seq<AmbiguitySetLabelId> {
        self.meta.ambiguity_sets@
    }

    open spec fn sp_component_access(self) -> Option<Access> {
        Some(self.system.access)
    }

    fn dependencies(&self) -> (r: &Vec<usize>) {
        &self.dependencies
    }

    fn set_dependencies(&mut self, dependencies: Vec<usize>) {
        self.dependencies = dependencies;
    }

    fn run_criteria(&self) -> (r: Option<usize>) {
        self.run_criteria_meta.index
    }

    fn set_run_criteria(&mut self, index: usize) {
        self.run_criteria_meta.index = Some(index);
    }

    fn run_criteria_label(&self) -> (r: Option<&RunCriteriaLabelId>) {
        self.run_criteria_meta.label.as_ref()
    }

    fn ambiguity_sets(&self) -> (r: &Vec<AmbiguitySetLabelId>) {
        &self.meta.ambiguity_sets
    }

    fn component_access(&self) -> (r: Option<&Access>) {
        Some(&self.system.access)
    }
}

} // verus!
