//! System sets: a builder that describes several systems at once. Labels,
//! orderings and run criteria attached to the set apply to every system in
//! it; baking flattens the set's metadata onto each contained descriptor.

use vstd::prelude::*;
use crate::component::ComponentId;
use crate::label::{AmbiguitySetLabelId, RunCriteriaLabelId, SystemLabelId};
use crate::system::RunCriteriaRule;
use crate::system_container::SystemContainerMeta;
use crate::system_descriptor::{
    RunCriteriaDescriptorOrLabel, SystemDescriptor, new_parallel_descriptor,
};
use crate::system::SystemModel;

verus! {

/// A builder describing several systems at the same time.
pub struct SystemSet {
    pub systems: Vec<SystemDescriptor>,
    pub run_criteria: Option<RunCriteriaDescriptorOrLabel>,
    pub meta: SystemContainerMeta,
}

/// The set-level metadata as a plain value, for stating what `bake` does.
pub struct SetMetaView {
    pub labels: Seq<SystemLabelId>,
    pub before: Seq<SystemLabelId>,
    pub after: Seq<SystemLabelId>,
    pub ambiguity_sets: Seq<AmbiguitySetLabelId>,
}

impl SystemSet {
    /// The set's own metadata, viewed.
    pub open spec fn sp_meta(self) -> SetMetaView {
        SetMetaView {
            labels: self.meta.labels@,
            before: self.meta.before@,
            after: self.meta.after@,
            ambiguity_sets: self.meta.ambiguity_sets@,
        }
    }

    /// An empty set.
    pub fn new() -> (r: SystemSet)
        ensures
            r.systems@.len() == 0,
            r.run_criteria is None,
            r.sp_meta().labels.len() == 0,
            r.sp_meta().before.len() == 0,
            r.sp_meta().after.len() == 0,
            r.sp_meta().ambiguity_sets.len() == 0,
    {
        SystemSet {
            systems: Vec::new(),
            run_criteria: None,
            meta: SystemContainerMeta {
                labels: Vec::new(),
                before: Vec::new(),
                after: Vec::new(),
                ambiguity_sets: Vec::new(),
            },
        }
    }

    /// A set that runs while the state resource equals `state`.
    pub fn on_update(state_resource: ComponentId, state: u64) -> (r: SystemSet)
        ensures
            r.systems@.len() == 0,
            r.run_criteria == Some(
                RunCriteriaDescriptorOrLabel::Descriptor(
                    RunCriteriaRule::ResourceEquals(state_resource, state),
                    None::<RunCriteriaLabelId>,
                ),
            ),
    {
        SystemSet::new().with_run_criteria(
            RunCriteriaDescriptorOrLabel::Descriptor(
                RunCriteriaRule::ResourceEquals(state_resource, state),
                None,
            ),
        )
    }

    /// Attach a run criteria to every system of the set.
    pub fn with_run_criteria(self, run_criteria: RunCriteriaDescriptorOrLabel) -> (r: SystemSet)
        ensures
            r.run_criteria == Some(run_criteria),
            r.systems@ == self.systems@,
            r.sp_meta() == self.sp_meta(),
    {
        SystemSet { systems: self.systems, run_criteria: Some(run_criteria), meta: self.meta }
    }

    /// Add a system to the set.
    pub fn with_system(self, system: SystemDescriptor) -> (r: SystemSet)
        ensures
            r.systems@ == self.systems@.push(system),
            r.run_criteria == self.run_criteria,
            r.sp_meta() == self.sp_meta(),
    {
        let mut systems = self.systems;
        systems.push(system);
        SystemSet { systems, run_criteria: self.run_criteria, meta: self.meta }
    }

    /// Add a plain parallel system to the set.
    pub fn with_model(self, system: SystemModel) -> (r: SystemSet)
        ensures
            r.systems@.len() == self.systems@.len() + 1,
            r.run_criteria == self.run_criteria,
            r.sp_meta() == self.sp_meta(),
    {
        self.with_system(SystemDescriptor::Parallel(new_parallel_descriptor(system)))
    }

    /// Label every system of the set.
    pub fn label(self, label: SystemLabelId) -> (r: SystemSet)
        ensures
            r.sp_meta().labels == self.sp_meta().labels.push(label),
            r.sp_meta().before == self.sp_meta().before,
            r.sp_meta().after == self.sp_meta().after,
            r.sp_meta().ambiguity_sets == self.sp_meta().ambiguity_sets,
            r.systems@ == self.systems@,
            r.run_criteria == self.run_criteria,
    {
        let mut meta = self.meta;
        meta.labels.push(label);
        SystemSet { systems: self.systems, run_criteria: self.run_criteria, meta }
    }

    /// Run every system of the set before systems labelled `label`.
    pub fn before(self, label: SystemLabelId) -> (r: SystemSet)
        ensures
            r.sp_meta().before == self.sp_meta().before.push(label),
            r.sp_meta().labels == self.sp_meta().labels,
            r.sp_meta().after == self.sp_meta().after,
            r.sp_meta().ambiguity_sets == self.sp_meta().ambiguity_sets,
            r.systems@ == self.systems@,
            r.run_criteria == self.run_criteria,
    {
        let mut meta = self.meta;
        meta.before.push(label);
        SystemSet { systems: self.systems, run_criteria: self.run_criteria, meta }
    }

    /// Run every system of the set after systems labelled `label`.
    pub fn after(self, label: SystemLabelId) -> (r: SystemSet)
        ensures
            r.sp_meta().after == self.sp_meta().after.push(label),
            r.sp_meta().labels == self.sp_meta().labels,
            r.sp_meta().before == self.sp_meta().before,
            r.sp_meta().ambiguity_sets == self.sp_meta().ambiguity_sets,
            r.systems@ == self.systems@,
            r.run_criteria == self.run_criteria,
    {
        let mut meta = self.meta;
        meta.after.push(label);
        SystemSet { systems: self.systems, run_criteria: self.run_criteria, meta }
    }

    /// Exempt every system of the set from ambiguity detection against the
    /// set label.
    pub fn in_ambiguity_set(self, set: AmbiguitySetLabelId) -> (r: SystemSet)
        ensures
            r.sp_meta().ambiguity_sets == self.sp_meta().ambiguity_sets.push(set),
            r.sp_meta().labels == self.sp_meta().labels,
            r.sp_meta().before == self.sp_meta().before,
            r.sp_meta().after == self.sp_meta().after,
            r.systems@ == self.systems@,
            r.run_criteria == self.run_criteria,
    {
        let mut meta = self.meta;
        meta.ambiguity_sets.push(set);
        SystemSet { systems: self.systems, run_criteria: self.run_criteria, meta }
    }

    /// Flatten the set: every contained descriptor gains the set's labels,
    /// orderings and ambiguity sets, and the set's criteria comes back
    /// beside them.
    pub fn bake(self) -> (r: (Option<RunCriteriaDescriptorOrLabel>, Vec<SystemDescriptor>))
        ensures
            r.0 == self.run_criteria,
            r.1@.len() == self.systems@.len(),
            forall|k: int|
                0 <= k < r.1@.len() ==> sp_descriptor_baked(
                    self.systems@[k],
                    #[trigger] r.1@[k],
                    self.sp_meta(),
                ),
    {
        let SystemSet { mut systems, run_criteria, meta } = self;
        let ghost input = systems@;
        let ghost mview = SetMetaView {
            labels: meta.labels@,
            before: meta.before@,
            after: meta.after@,
            ambiguity_sets: meta.ambiguity_sets@,
        };
        let n = systems.len();
        let mut out: Vec<SystemDescriptor> = Vec::new();
        let mut k: usize = 0;
        while k < n
            invariant
                k <= n,
                n == input.len(),
                systems@ == input.skip(k as int),
                out@.len() == k,
                mview == (SetMetaView {
                    labels: meta.labels@,
                    before: meta.before@,
                    after: meta.after@,
                    ambiguity_sets: meta.ambiguity_sets@,
                }),
                forall|p: int|
                    0 <= p < k ==> sp_descriptor_baked(input[p], #[trigger] out@[p], mview),
            decreases n - k,
        {
            proof {
                assert(systems@[0] == input[k as int]);
            }
            let d = systems.remove(0);
            let baked = bake_descriptor(d, &meta);
            proof {
                assert(sp_descriptor_baked(input[k as int], baked, mview));
            }
            out.push(baked);
            k += 1;
        }
        (run_criteria, out)
    }
}

/// What baking does to one descriptor: the set's labels, orderings and
/// ambiguity sets are appended to the descriptor's own; everything else
/// stays.
pub open spec fn sp_descriptor_baked(
    before: SystemDescriptor,
    after: SystemDescriptor,
    set_meta: SetMetaView,
) -> bool {
    match (before, after) {
        (SystemDescriptor::Parallel(b), SystemDescriptor::Parallel(a)) => {
            &&& a.system == b.system
            &&& a.run_criteria == b.run_criteria
            &&& a.meta.labels@ == b.meta.labels@ + set_meta.labels
            &&& a.meta.before@ == b.meta.before@ + set_meta.before
            &&& a.meta.after@ == b.meta.after@ + set_meta.after
            &&& a.meta.ambiguity_sets@ == b.meta.ambiguity_sets@ + set_meta.ambiguity_sets
        },
        (SystemDescriptor::Exclusive(b), SystemDescriptor::Exclusive(a)) => {
            &&& a.system == b.system
            &&& a.run_criteria == b.run_criteria
            &&& a.insertion_point == b.insertion_point
            &&& a.meta.labels@ == b.meta.labels@ + set_meta.labels
            &&& a.meta.before@ == b.meta.before@ + set_meta.before
            &&& a.meta.after@ == b.meta.after@ + set_meta.after
            &&& a.meta.ambiguity_sets@ == b.meta.ambiguity_sets@ + set_meta.ambiguity_sets
        },
        _ => false,
    }
}

/// Append `src` to `dst`.
fn append_labels(dst: &mut Vec<SystemLabelId>, src: &Vec<SystemLabelId>)
    ensures
        final(dst)@ == old(dst)@ + src@,
{
    let ghost orig = dst@;
    let n = src.len();
    let mut k: usize = 0;
    while k < n
        invariant
            k <= n,
            n == src@.len(),
            dst@ == orig + src@.subrange(0, k as int),
        decreases n - k,
    {
        dst.push(src[k]);
        proof {
            assert(orig + src@.subrange(0, k + 1) == (orig + src@.subrange(0, k as int)).push(
                src@[k as int],
            ));
        }
        k += 1;
    }
    proof {
        assert(src@.subrange(0, n as int) == src@);
    }
}

/// Append `src` to `dst`.
fn append_ambiguity_sets(dst: &mut Vec<AmbiguitySetLabelId>, src: &Vec<AmbiguitySetLabelId>)
    ensures
        final(dst)@ == old(dst)@ + src@,
{
    let ghost orig = dst@;
    let n = src.len();
    let mut k: usize = 0;
    while k < n
        invariant
            k <= n,
            n == src@.len(),
            dst@ == orig + src@.subrange(0, k as int),
        decreases n - k,
    {
        dst.push(src[k]);
        proof {
            assert(orig + src@.subrange(0, k + 1) == (orig + src@.subrange(0, k as int)).push(
                src@[k as int],
            ));
        }
        k += 1;
    }
    proof {
        assert(src@.subrange(0, n as int) == src@);
    }
}

/// Flatten one descriptor: append the set metadata to its own.
fn bake_descriptor(d: SystemDescriptor, set_meta: &SystemContainerMeta) -> (r: SystemDescriptor)
    ensures
        sp_descriptor_baked(
            d,
            r,
            SetMetaView {
                labels: set_meta.labels@,
                before: set_meta.before@,
                after: set_meta.after@,
                ambiguity_sets: set_meta.ambiguity_sets@,
            },
        ),
{
    match d {
        SystemDescriptor::Parallel(mut p) => {
            append_labels(&mut p.meta.labels, &set_meta.labels);
            append_labels(&mut p.meta.before, &set_meta.before);
            append_labels(&mut p.meta.after, &set_meta.after);
            append_ambiguity_sets(&mut p.meta.ambiguity_sets, &set_meta.ambiguity_sets);
            SystemDescriptor::Parallel(p)
        },
        SystemDescriptor::Exclusive(mut x) => {
            append_labels(&mut x.meta.labels, &set_meta.labels);
            append_labels(&mut x.meta.before, &set_meta.before);
            append_labels(&mut x.meta.after, &set_meta.after);
            append_ambiguity_sets(&mut x.meta.ambiguity_sets, &set_meta.ambiguity_sets);
            SystemDescriptor::Exclusive(x)
        },
    }
}

} // verus!
