//! The closed system model. A registered system is data: a name key, the
//! access it declares, and what its body does when it runs. The scheduler
//! needs nothing more of a system than its name, its access and a way to
//! run it, so a closed set of body kinds stands in for arbitrary code.

use vstd::prelude::*;
use crate::access::Access;
use crate::entity::Entity;
use crate::component::ComponentId;
use crate::tick::ComponentTicks;
use crate::world::{World, WorldError};

verus! {

/// What a system's body does when it runs. Resources are the model's
/// observable effect: setting one, or adding to one with wrapping
/// arithmetic (an order-insensitive effect, safe for unordered systems).
#[derive(Clone, Copy, PartialEq, Eq, Structural, Debug)]
pub enum SystemWork {
    Nothing,
    SetResource(ComponentId, u64),
    AddToResource(ComponentId, u64),
}

/// One system: its diagnostic name key, its declared access, and its body.
pub struct SystemModel {
    pub name_key: u64,
    pub access: Access,
    pub work: SystemWork,
}

impl SystemModel {
    /// The declared component access.
    pub fn component_access(&self) -> (r: &Access)
        ensures
            *r == self.access,
    {
        &self.access
    }
}

/// The value resource `c` holds after one unit of work runs against `prev`.
pub open spec fn sp_work_result(
    work: SystemWork,
    c: ComponentId,
    prev: Option<(u64, ComponentTicks)>,
    tick: u32,
) -> Option<(u64, ComponentTicks)> {
    match work {
        SystemWork::Nothing => prev,
        SystemWork::SetResource(c2, v) => if c2 == c {
            Some(
                (
                    v,
                    ComponentTicks {
                        added: (if prev is Some {
                            prev.unwrap().1.added
                        } else {
                            tick
                        }),
                        changed: tick,
                    },
                ),
            )
        } else {
            prev
        },
        SystemWork::AddToResource(c2, d) => if c2 == c {
            if prev is Some {
                Some(
                    (
                        ((prev.unwrap().0 + d) % 0x1_0000_0000_0000_0000) as u64,
                        ComponentTicks { added: prev.unwrap().1.added, changed: tick },
                    ),
                )
            } else {
                prev
            }
        } else {
            prev
        },
    }
}

/// Run one unit of work against the world. A resource op on an id that was
/// never registered, or an addition to a resource never inserted, does
/// nothing; everything the work does not name stays exactly as it was.
pub fn run_system_work(w: &mut World, work: SystemWork) -> (r: Result<(), WorldError>)
    requires
        old(w).wf(),
    ensures
        final(w).wf(),
        forall|c: ComponentId|
            old(w).sp_registered(c) ==> final(w).sp_resource(c) == sp_work_result(
                work,
                c,
                old(w).sp_resource(c),
                old(w).sp_change_tick(),
            ),
        forall|e: Entity, c: ComponentId|
            final(w).sp_component(e, c) == old(w).sp_component(e, c),
        forall|e: Entity| final(w).sp_live(e) == old(w).sp_live(e),
        final(w).sp_change_tick() == old(w).sp_change_tick(),
        final(w).sp_last_change_tick() == old(w).sp_last_change_tick(),
        forall|c: ComponentId|
            old(w).sp_registered(c) ==> final(w).sp_removed(c) == old(w).sp_removed(c),
        forall|c: ComponentId|
            old(w).sp_registered(c) ==> final(w).sp_registered(c),
{
    match work {
        SystemWork::Nothing => Ok(()),
        SystemWork::SetResource(c, v) => {
            let r = w.insert_resource(c, v);
            proof {
                if old(w).sp_registered(c) {
                } else {
                    assert(forall|c2: ComponentId|
                        old(w).sp_registered(c2) ==> c2 != c);
                }
            }
            match r {
                Ok(()) => Ok(()),
                Err(e) => Err(e),
            }
        },
        SystemWork::AddToResource(c, d) => {
            match w.get_resource(c) {
                Some(v) => {
                    let sum = add_wrapping(v, d);
                    let r = w.insert_resource(c, sum);
                    proof {
                        assert(old(w).sp_resource(c) is Some);
                        assert(old(w).sp_registered(c)) by {
                            if !old(w).sp_registered(c) {
                                World::lemma_unregistered_resource_none(*old(w), c);
                            }
                        }
                    }
                    match r {
                        Ok(()) => Ok(()),
                        Err(e) => Err(e),
                    }
                },
                None => Ok(()),
            }
        },
    }
}

/// Wrapping 64-bit addition.
fn add_wrapping(a: u64, b: u64) -> (r: u64)
    ensures
        r == (a + b) % 0x1_0000_0000_0000_0000,
{
    if b <= u64::MAX - a {
        a + b
    } else {
        proof {
            assert(a + b - 0x1_0000_0000_0000_0000 < 0x1_0000_0000_0000_0000);
        }
        (b - (u64::MAX - a)) - 1
    }
}

/// Whether a gated system runs this tick.
#[derive(Clone, Copy, PartialEq, Eq, Structural, Debug)]
pub enum ShouldRun {
    Yes,
    No,
}

/// A run criteria as data: a predicate over one resource of the world,
/// evaluated once per stage run before the gated systems run.
#[derive(Clone, Copy, PartialEq, Eq, Structural, Debug)]
pub enum RunCriteriaRule {
    Always,
    Never,
    ResourceEquals(ComponentId, u64),
}

/// Does the rule say yes against world `w`?
pub open spec fn sp_rule_allows(rule: RunCriteriaRule, w: World) -> bool {
    match rule {
        RunCriteriaRule::Always => true,
        RunCriteriaRule::Never => false,
        RunCriteriaRule::ResourceEquals(c, v) => w.sp_resource(c) is Some && w.sp_resource(
            c,
        ).unwrap().0 == v,
    }
}

/// Evaluate a rule against the world.
pub fn evaluate_rule(rule: &RunCriteriaRule, w: &World) -> (r: ShouldRun)
    ensures
        (r == ShouldRun::Yes) == sp_rule_allows(*rule, *w),
{
    match rule {
        RunCriteriaRule::Always => ShouldRun::Yes,
        RunCriteriaRule::Never => ShouldRun::No,
        RunCriteriaRule::ResourceEquals(c, v) => {
            match w.get_resource(*c) {
                Some(x) => {
                    if x == *v {
                        ShouldRun::Yes
                    } else {
                        ShouldRun::No
                    }
                },
                None => ShouldRun::No,
            }
        },
    }
}

} // verus!
