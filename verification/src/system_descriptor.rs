//! System descriptors: a system together with everything that says when it
//! runs inside a stage. A parallel descriptor may run interleaved with
//! others; an exclusive descriptor takes the whole world and is pinned to
//! one of three stage-relative points. Labels attach ordering constraints
//! without the systems knowing each other.

use vstd::prelude::*;
use crate::label::{AmbiguitySetLabelId, RunCriteriaLabelId, SystemLabelId};
use crate::system::{RunCriteriaRule, SystemModel};
use crate::system_container::SystemContainerMeta;

verus! {

/// A run criteria attached to a descriptor: a fresh rule (optionally
/// labelled so others can share it) or a reference to one defined
/// elsewhere.
#[derive(Clone, Copy, PartialEq, Eq, Structural, Debug)]
pub enum RunCriteriaDescriptorOrLabel {
    Descriptor(RunCriteriaRule, Option<RunCriteriaLabelId>),
    Label(RunCriteriaLabelId),
}

/// Where an exclusive system runs inside its stage.
#[derive(Clone, Copy, PartialEq, Eq, Structural, Debug)]
pub enum InsertionPoint {
    AtStart,
    BeforeCommands,
    AtEnd,
}

/// A parallel system and the metadata saying when it runs.
pub struct ParallelSystemDescriptor {
    pub system: SystemModel,
    pub run_criteria: Option<RunCriteriaDescriptorOrLabel>,
    pub meta: SystemContainerMeta,
}

/// An exclusive system, its metadata, and its stage-relative point.
pub struct ExclusiveSystemDescriptor {
    pub system: SystemModel,
    pub run_criteria: Option<RunCriteriaDescriptorOrLabel>,
    pub meta: SystemContainerMeta,
    pub insertion_point: InsertionPoint,
}

/// Either kind of system, as stages accept them.
pub enum SystemDescriptor {
    Parallel(ParallelSystemDescriptor),
    Exclusive(ExclusiveSystemDescriptor),
}

/// Anything that can stand where a system descriptor is expected.
pub trait IntoSystemDescriptor: Sized {
    /// Wrap `self` as a full descriptor.
    fn into_descriptor(self) -> SystemDescriptor;
}

/// Marker for label-flavoured blanket choices.
pub struct SystemLabelMarker;

/// A fresh parallel descriptor around a system: no criteria, no labels.
pub fn new_parallel_descriptor(system: SystemModel) -> (r: ParallelSystemDescriptor)
    ensures
        r.system == system,
        r.run_criteria is None,
        r.meta.labels@.len() == 0,
        r.meta.before@.len() == 0,
        r.meta.after@.len() == 0,
        r.meta.ambiguity_sets@.len() == 0,
{
    ParallelSystemDescriptor {
        system,
        run_criteria: None,
        meta: SystemContainerMeta {
            labels: Vec::new(),
            before: Vec::new(),
            after: Vec::new(),
            ambiguity_sets: Vec::new(),
        },
    }
}

/// A fresh exclusive descriptor around a system, placed at stage start.
pub fn new_exclusive_descriptor(system: SystemModel) -> (r: ExclusiveSystemDescriptor)
    ensures
        r.system == system,
        r.run_criteria is None,
        r.insertion_point == InsertionPoint::AtStart,
        r.meta.labels@.len() == 0,
        r.meta.before@.len() == 0,
        r.meta.after@.len() == 0,
        r.meta.ambiguity_sets@.len() == 0,
{
    ExclusiveSystemDescriptor {
        system,
        run_criteria: None,
        insertion_point: InsertionPoint::AtStart,
        meta: SystemContainerMeta {
            labels: Vec::new(),
            before: Vec::new(),
            after: Vec::new(),
            ambiguity_sets: Vec::new(),
        },
    }
}

/// The builder surface of parallel descriptors.
pub trait ParallelSystemDescriptorCoercion: Sized {
    /// Gate the system behind a run criteria.
    fn with_run_criteria(self, run_criteria: RunCriteriaDescriptorOrLabel)
        -> ParallelSystemDescriptor;

    /// Attach a label; a system may carry any number.
    fn label(self, label: SystemLabelId) -> ParallelSystemDescriptor;

    /// Run before every system labelled `label`.
    fn before(self, label: SystemLabelId) -> ParallelSystemDescriptor;

    /// Run after every system labelled `label`.
    fn after(self, label: SystemLabelId) -> ParallelSystemDescriptor;

    /// Exempt this system from ambiguity detection against the set.
    fn in_ambiguity_set(self, set: AmbiguitySetLabelId) -> ParallelSystemDescriptor;
}

impl ParallelSystemDescriptorCoercion for ParallelSystemDescriptor {
    fn with_run_criteria(self, run_criteria: RunCriteriaDescriptorOrLabel) -> (r:
        ParallelSystemDescriptor)
        ensures
            r.run_criteria == Some(run_criteria),
            r.system == self.system,
            r.meta == self.meta,
    {
        ParallelSystemDescriptor {
            system: self.system,
            run_criteria: Some(run_criteria),
            meta: self.meta,
        }
    }

    fn label(self, label: SystemLabelId) -> (r: ParallelSystemDescriptor)
        ensures
            r.meta.labels@ == self.meta.labels@.push(label),
            r.meta.before@ == self.meta.before@,
            r.meta.after@ == self.meta.after@,
            r.meta.ambiguity_sets@ == self.meta.ambiguity_sets@,
            r.system == self.system,
            r.run_criteria == self.run_criteria,
    {
        let mut meta = self.meta;
        meta.labels.push(label);
        ParallelSystemDescriptor { system: self.system, run_criteria: self.run_criteria, meta }
    }

    fn before(self, label: SystemLabelId) -> (r: ParallelSystemDescriptor)
        ensures
            r.meta.before@ == self.meta.before@.push(label),
            r.meta.labels@ == self.meta.labels@,
            r.meta.after@ == self.meta.after@,
            r.meta.ambiguity_sets@ == self.meta.ambiguity_sets@,
            r.system == self.system,
            r.run_criteria == self.run_criteria,
    {
        let mut meta = self.meta;
        meta.before.push(label);
        ParallelSystemDescriptor { system: self.system, run_criteria: self.run_criteria, meta }
    }

    fn after(self, label: SystemLabelId) -> (r: ParallelSystemDescriptor)
        ensures
            r.meta.after@ == self.meta.after@.push(label),
            r.meta.labels@ == self.meta.labels@,
            r.meta.before@ == self.meta.before@,
            r.meta.ambiguity_sets@ == self.meta.ambiguity_sets@,
            r.system == self.system,
            r.run_criteria == self.run_criteria,
    {
        let mut meta = self.meta;
        meta.after.push(label);
        ParallelSystemDescriptor { system: self.system, run_criteria: self.run_criteria, meta }
    }

    fn in_ambiguity_set(self, set: AmbiguitySetLabelId) -> (r: ParallelSystemDescriptor)
        ensures
            r.meta.ambiguity_sets@ == self.meta.ambiguity_sets@.push(set),
            r.meta.labels@ == self.meta.labels@,
            r.meta.before@ == self.meta.before@,
            r.meta.after@ == self.meta.after@,
            r.system == self.system,
            r.run_criteria == self.run_criteria,
    {
        let mut meta = self.meta;
        meta.ambiguity_sets.push(set);
        ParallelSystemDescriptor { system: self.system, run_criteria: self.run_criteria, meta }
    }
}

/// The builder surface of exclusive descriptors.
pub trait ExclusiveSystemDescriptorCoercion: Sized {
    /// Gate the system behind a run criteria.
    fn with_run_criteria(self, run_criteria: RunCriteriaDescriptorOrLabel)
        -> ExclusiveSystemDescriptor;

    /// Attach a label; a system may carry any number.
    fn label(self, label: SystemLabelId) -> ExclusiveSystemDescriptor;

    /// Run before every system labelled `label`.
    fn before(self, label: SystemLabelId) -> ExclusiveSystemDescriptor;

    /// Run after every system labelled `label`.
    fn after(self, label: SystemLabelId) -> ExclusiveSystemDescriptor;

    /// Exempt this system from ambiguity detection against the set.
    fn in_ambiguity_set(self, set: AmbiguitySetLabelId) -> ExclusiveSystemDescriptor;

    /// Run with the other start-of-stage exclusive systems.
    fn at_start(self) -> ExclusiveSystemDescriptor;

    /// Run after the parallel systems, before their command buffers apply.
    fn before_commands(self) -> ExclusiveSystemDescriptor;

    /// Run at the end of the stage.
    fn at_end(self) -> ExclusiveSystemDescriptor;
}

impl ExclusiveSystemDescriptorCoercion for ExclusiveSystemDescriptor {
    fn with_run_criteria(self, run_criteria: RunCriteriaDescriptorOrLabel) -> (r:
        ExclusiveSystemDescriptor)
        ensures
            r.run_criteria == Some(run_criteria),
            r.system == self.system,
            r.meta == self.meta,
            r.insertion_point == self.insertion_point,
    {
        ExclusiveSystemDescriptor {
            system: self.system,
            run_criteria: Some(run_criteria),
            meta: self.meta,
            insertion_point: self.insertion_point,
        }
    }

    fn label(self, label: SystemLabelId) -> (r: ExclusiveSystemDescriptor)
        ensures
            r.meta.labels@ == self.meta.labels@.push(label),
            r.meta.before@ == self.meta.before@,
            r.meta.after@ == self.meta.after@,
            r.meta.ambiguity_sets@ == self.meta.ambiguity_sets@,
            r.system == self.system,
            r.run_criteria == self.run_criteria,
            r.insertion_point == self.insertion_point,
    {
        let mut meta = self.meta;
        meta.labels.push(label);
        ExclusiveSystemDescriptor {
            system: self.system,
            run_criteria: self.run_criteria,
            meta,
            insertion_point: self.insertion_point,
        }
    }

    fn before(self, label: SystemLabelId) -> (r: ExclusiveSystemDescriptor)
        ensures
            r.meta.before@ == self.meta.before@.push(label),
            r.meta.labels@ == self.meta.labels@,
            r.meta.after@ == self.meta.after@,
            r.meta.ambiguity_sets@ == self.meta.ambiguity_sets@,
            r.system == self.system,
            r.run_criteria == self.run_criteria,
            r.insertion_point == self.insertion_point,
    {
        let mut meta = self.meta;
        meta.before.push(label);
        ExclusiveSystemDescriptor {
            system: self.system,
            run_criteria: self.run_criteria,
            meta,
            insertion_point: self.insertion_point,
        }
    }

    fn after(self, label: SystemLabelId) -> (r: ExclusiveSystemDescriptor)
        ensures
            r.meta.after@ == self.meta.after@.push(label),
            r.meta.labels@ == self.meta.labels@,
            r.meta.before@ == self.meta.before@,
            r.meta.ambiguity_sets@ == self.meta.ambiguity_sets@,
            r.system == self.system,
            r.run_criteria == self.run_criteria,
            r.insertion_point == self.insertion_point,
    {
        let mut meta = self.meta;
        meta.after.push(label);
        ExclusiveSystemDescriptor {
            system: self.system,
            run_criteria: self.run_criteria,
            meta,
            insertion_point: self.insertion_point,
        }
    }

    fn in_ambiguity_set(self, set: AmbiguitySetLabelId) -> (r: ExclusiveSystemDescriptor)
        ensures
            r.meta.ambiguity_sets@ == self.meta.ambiguity_sets@.push(set),
            r.meta.labels@ == self.meta.labels@,
            r.meta.before@ == self.meta.before@,
            r.meta.after@ == self.meta.after@,
            r.system == self.system,
            r.run_criteria == self.run_criteria,
            r.insertion_point == self.insertion_point,
    {
        let mut meta = self.meta;
        meta.ambiguity_sets.push(set);
        ExclusiveSystemDescriptor {
            system: self.system,
            run_criteria: self.run_criteria,
            meta,
            insertion_point: self.insertion_point,
        }
    }

    fn at_start(self) -> (r: ExclusiveSystemDescriptor)
        ensures
            r.insertion_point == InsertionPoint::AtStart,
            r.system == self.system,
            r.run_criteria == self.run_criteria,
            r.meta == self.meta,
    {
        ExclusiveSystemDescriptor {
            system: self.system,
            run_criteria: self.run_criteria,
            meta: self.meta,
            insertion_point: InsertionPoint::AtStart,
        }
    }

    fn before_commands(self) -> (r: ExclusiveSystemDescriptor)
        ensures
            r.insertion_point == InsertionPoint::BeforeCommands,
            r.system == self.system,
            r.run_criteria == self.run_criteria,
            r.meta == self.meta,
    {
        ExclusiveSystemDescriptor {
            system: self.system,
            run_criteria: self.run_criteria,
            meta: self.meta,
            insertion_point: InsertionPoint::BeforeCommands,
        }
    }

    fn at_end(self) -> (r: ExclusiveSystemDescriptor)
        ensures
            r.insertion_point == InsertionPoint::AtEnd,
            r.system == self.system,
            r.run_criteria == self.run_criteria,
            r.meta == self.meta,
    {
        ExclusiveSystemDescriptor {
            system: self.system,
            run_criteria: self.run_criteria,
            meta: self.meta,
            insertion_point: InsertionPoint::AtEnd,
        }
    }
}

impl IntoSystemDescriptor for ParallelSystemDescriptor {
    fn into_descriptor(self) -> SystemDescriptor {
        SystemDescriptor::Parallel(self)
    }
}

impl IntoSystemDescriptor for ExclusiveSystemDescriptor {
    fn into_descriptor(self) -> SystemDescriptor {
        SystemDescriptor::Exclusive(self)
    }
}

impl IntoSystemDescriptor for SystemDescriptor {
    fn into_descriptor(self) -> SystemDescriptor {
        self
    }
}

} // verus!
