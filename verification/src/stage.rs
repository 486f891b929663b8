//! Stages. A stage owns its systems, resolves their label-declared
//! orderings into a dependency edge list, orders them topologically
//! (insertion order breaking ties, a cycle being a configuration error),
//! and runs them: exclusive systems at their fixed stage-relative points,
//! parallel systems in the computed order, each gated by its run criteria.
//! A gated-off system contributes nothing to the tick but still occupies
//! its slot, so systems ordered after it are not blocked.

use vstd::prelude::*;
use crate::access::Access;
use crate::component::ComponentId;
use crate::label::{RunCriteriaLabelId, ambiguity_sets_intersect, labels_contain};
use crate::system::{
    RunCriteriaRule, ShouldRun, SystemWork, evaluate_rule, run_system_work, sp_work_result,
};
use crate::system_container::{
    ExclusiveSystemContainer, ParallelSystemContainer, RunCriteriaMeta,
};
use crate::system_descriptor::{
    InsertionPoint, RunCriteriaDescriptorOrLabel, SystemDescriptor,
};
use crate::system_set::SystemSet;
use crate::tick::ComponentTicks;
use crate::world::World;

verus! {

/// A run criteria registered with a stage, with this tick's verdict.
pub struct RunCriteriaContainer {
    pub rule: RunCriteriaRule,
    pub label: Option<RunCriteriaLabelId>,
    pub should_run: ShouldRun,
}

/// One dependency edge: the left system must run before the right one.
pub type DependencyEdge = (usize, usize);

/// The resource value under id `c` after running `works` in order against
/// `prev`, all stamped with `tick`.
pub open spec fn sp_run_works(
    works: Seq<SystemWork>,
    c: ComponentId,
    prev: Option<(u64, ComponentTicks)>,
    tick: u32,
) -> Option<(u64, ComponentTicks)>
    decreases works.len(),
{
    if works.len() == 0 {
        prev
    } else {
        sp_work_result(works.last(), c, sp_run_works(works.drop_last(), c, prev, tick), tick)
    }
}

/// The works selected for execution: the systems named by `order`, in that
/// order, keeping only those whose criteria said yes.
pub open spec fn sp_selected_works(
    systems: Seq<ParallelSystemContainer>,
    order: Seq<usize>,
) -> Seq<SystemWork>
    decreases order.len(),
{
    if order.len() == 0 {
        Seq::empty()
    } else {
        let rest = sp_selected_works(systems, order.drop_last());
        let i = order.last() as int;
        if systems[i].should_run {
            rest.push(systems[i].system.work)
        } else {
            rest
        }
    }
}

/// A unit of work that does nothing leaves every fold unchanged: a skipped
/// or empty system never shows in the outcome, wherever it stands.
pub proof fn lemma_nothing_transparent(
    works: Seq<SystemWork>,
    k: int,
    c: ComponentId,
    prev: Option<(u64, ComponentTicks)>,
    tick: u32,
)
    requires
        0 <= k <= works.len(),
    ensures
        sp_run_works(works.insert(k, SystemWork::Nothing), c, prev, tick) == sp_run_works(
            works,
            c,
            prev,
            tick,
        ),
    decreases works.len(),
{
    let w2 = works.insert(k, SystemWork::Nothing);
    if k == works.len() {
        assert(w2.last() == SystemWork::Nothing);
        assert(w2.drop_last() =~= works);
    } else {
        assert(w2.last() == works.last());
        assert(w2.drop_last() =~= works.drop_last().insert(k, SystemWork::Nothing));
        lemma_nothing_transparent(works.drop_last(), k, c, prev, tick);
    }
}

/// A deterministic topological order of `n` nodes under `edges`: the
/// order lists every node once, and the left node of every edge comes
/// before its right node. A graph with a cycle has no such order; the
/// nodes of the stuck part come back instead, each of them waiting on
/// another stuck node.
#[verifier::rlimit(100)]
#[verifier::spinoff_prover]
pub fn topological_order(n: usize, edges: &Vec<DependencyEdge>) -> (r: Result<
    Vec<usize>,
    Vec<usize>,
>)
    requires
        forall|k: int|
            0 <= k < edges@.len() ==> (#[trigger] edges@[k]).0 < n && edges@[k].1 < n,
    ensures
        match r {
            Ok(order) => {
                &&& order@.len() == n
                &&& forall|v: usize| v < n ==> order@.contains(v)
                &&& forall|p: int| 0 <= p < order@.len() ==> (#[trigger] order@[p]) < n
                &&& forall|p: int, q: int| 0 <= p < q < order@.len() ==> order@[p] != order@[q]
                &&& forall|p: int, q: int, k: int|
                    #![trigger edges@[k], order@[p], order@[q]]
                    0 <= p < order@.len() && 0 <= q < order@.len() && 0 <= k < edges@.len()
                        && edges@[k] == (order@[p], order@[q]) ==> p < q
            },
            Err(stuck) => {
                &&& stuck@.len() > 0
                &&& forall|s: int|
                    0 <= s < stuck@.len() ==> exists|k: int|
                        0 <= k < edges@.len() && (#[trigger] edges@[k]).1 == (
                        #[trigger] stuck@[s]) && stuck@.contains(edges@[k].0)
            },
        },
{
    let mut placed: Vec<bool> = Vec::new();
    let mut k0: usize = 0;
    while k0 < n
        invariant
            k0 <= n,
            placed@.len() == k0,
            forall|v: int| 0 <= v < k0 ==> !placed@[v],
        decreases n - k0,
    {
        placed.push(false);
        k0 += 1;
    }
    let mut out: Vec<usize> = Vec::new();
    let mut rounds: usize = 0;
    while rounds < n
        invariant
            rounds <= n,
            placed@.len() == n,
            out@.len() == rounds,
            forall|v: usize| #![trigger out@.contains(v)]
                out@.contains(v) == (v < n && placed@[v as int]),
            forall|p: int, q: int| 0 <= p < q < out@.len() ==> out@[p] != out@[q],
            forall|q: int, k: int|
                #![trigger edges@[k], out@[q]]
                0 <= q < out@.len() && 0 <= k < edges@.len() && edges@[k].1 == out@[q]
                    ==> exists|p: int| 0 <= p < q && out@[p] == edges@[k].0,
            forall|k: int|
                0 <= k < edges@.len() ==> (#[trigger] edges@[k]).0 < n && edges@[k].1 < n,
        decreases n - rounds,
    {
        // find the first node not yet placed whose predecessors are placed
        let mut pick: Option<usize> = None;
        let mut v: usize = 0;
        while v < n && pick.is_none()
            invariant
                v <= n,
                placed@.len() == n,
                pick is None ==> forall|u: int|
                    0 <= u < v ==> placed@[u] || exists|k: int|
                        0 <= k < edges@.len() && (#[trigger] edges@[k]).1 == u
                            && !placed@[edges@[k].0 as int],
                pick is Some ==> {
                    let w = pick.unwrap();
                    &&& w < n
                    &&& !placed@[w as int]
                    &&& forall|k: int|
                        0 <= k < edges@.len() && (#[trigger] edges@[k]).1 == w
                            ==> placed@[edges@[k].0 as int]
                },
                forall|k: int|
                    0 <= k < edges@.len() ==> (#[trigger] edges@[k]).0 < n && edges@[k].1 < n,
            decreases n - v, (if pick is Some {
                0int
            } else {
                1int
            }),
        {
            if !placed[v] {
                let mut ready = true;
                let mut k: usize = 0;
                while k < edges.len()
                    invariant
                        k <= edges@.len(),
                        v < n,
                        placed@.len() == n,
                        forall|k2: int|
                            0 <= k2 < edges@.len() ==> (#[trigger] edges@[k2]).0 < n
                                && edges@[k2].1 < n,
                        ready == forall|k2: int|
                            0 <= k2 < k && (#[trigger] edges@[k2]).1 == v
                                ==> placed@[edges@[k2].0 as int],
                    decreases edges@.len() - k,
                {
                    let (u, w) = edges[k];
                    if w == v && !placed[u] {
                        proof {
                            assert(edges@[k as int] == (u, w));
                        }
                        ready = false;
                    }
                    k += 1;
                }
                if ready {
                    pick = Some(v);
                } else {
                    proof {
                        assert(exists|k2: int|
                            0 <= k2 < edges@.len() && (#[trigger] edges@[k2]).1 == v
                                && !placed@[edges@[k2].0 as int]);
                    }
                    v += 1;
                }
            } else {
                v += 1;
            }
        }
        match pick {
            Some(w) => {
                let ghost prev = out@;
                let ghost placed0 = placed@;
                placed.set(w, true);
                out.push(w);
                proof {
                    assert(out@[out@.len() - 1] == w);
                    assert forall|v2: usize| #![trigger out@.contains(v2)]
                        out@.contains(v2) == (v2 < n && placed@[v2 as int]) by {
                        if out@.contains(v2) {
                            let p = choose|p: int| 0 <= p < out@.len() && out@[p] == v2;
                            if p < prev.len() {
                                assert(prev[p] == v2);
                                assert(prev.contains(v2));
                            }
                        }
                        if v2 < n && placed@[v2 as int] {
                            if v2 != w {
                                assert(prev.contains(v2));
                                let p = choose|p: int| 0 <= p < prev.len() && prev[p] == v2;
                                assert(out@[p] == v2);
                            }
                        }
                    }
                    assert forall|p: int, q: int|
                        0 <= p < q < out@.len() implies out@[p] != out@[q] by {
                        if q == out@.len() - 1 {
                            assert(prev[p] == out@[p]);
                            assert(prev.contains(out@[p]));
                        } else {
                            assert(prev[p] == out@[p] && prev[q] == out@[q]);
                        }
                    }
                    assert forall|q: int, k: int|
                        #![trigger edges@[k], out@[q]]
                        0 <= q < out@.len() && 0 <= k < edges@.len() && edges@[k].1 == out@[q]
                        implies exists|p: int| 0 <= p < q && out@[p] == edges@[k].0 by {
                        if q == out@.len() - 1 {
                            let u = edges@[k].0;
                            assert(placed0[u as int] || u == w);
                            assert(u != w) by {
                                if u == w {
                                    assert(edges@[k].1 == w);
                                }
                            }
                            assert(prev.contains(u));
                            let p = choose|p: int| 0 <= p < prev.len() && prev[p] == u;
                            assert(out@[p] == u);
                        } else {
                            let p = choose|p: int| 0 <= p < q && prev[p] == edges@[k].0;
                            assert(out@[p] == edges@[k].0);
                        }
                    }
                }
                rounds += 1;
            },
            None => {
                // every unplaced node waits on an unplaced predecessor:
                // the remaining nodes form the stuck part
                let mut stuck: Vec<usize> = Vec::new();
                let mut v2: usize = 0;
                while v2 < n
                    invariant
                        v2 <= n,
                        placed@.len() == n,
                        forall|x: usize| #![trigger stuck@.contains(x)]
                            stuck@.contains(x) == (x < v2 && !placed@[x as int]),
                    decreases n - v2,
                {
                    if !placed[v2] {
                        let ghost prevs = stuck@;
                        stuck.push(v2);
                        proof {
                            assert(stuck@[stuck@.len() - 1] == v2);
                            assert forall|x: usize| #![trigger stuck@.contains(x)]
                                stuck@.contains(x) == (x < v2 + 1 && !placed@[x as int]) by {
                                if stuck@.contains(x) {
                                    let p = choose|p: int|
                                        0 <= p < stuck@.len() && stuck@[p] == x;
                                    if p < prevs.len() {
                                        assert(prevs[p] == x);
                                        assert(prevs.contains(x));
                                    }
                                }
                                if x < v2 + 1 && !placed@[x as int] && x != v2 {
                                    assert(prevs.contains(x));
                                    let p = choose|p: int|
                                        0 <= p < prevs.len() && prevs[p] == x;
                                    assert(stuck@[p] == x);
                                }
                            }
                        }
                    }
                    v2 += 1;
                }
                proof {
                    assert(out@.len() < n);
                    assert(exists|x: int| 0 <= x < n && !placed@[x]) by {
                        if forall|x: int| 0 <= x < n ==> placed@[x] {
                            assert forall|x: usize| x < n implies out@.contains(x) by {}
                            lemma_distinct_contains_len(out@, n);
                        }
                    }
                    let x0 = choose|x: int| 0 <= x < n && !placed@[x];
                    assert(stuck@.contains(x0 as usize));
                    assert(stuck@.len() > 0);
                    assert forall|s: int|
                        0 <= s < stuck@.len() implies exists|k: int|
                        0 <= k < edges@.len() && (#[trigger] edges@[k]).1 == (
                        #[trigger] stuck@[s]) && stuck@.contains(edges@[k].0) by {
                        let sv = stuck@[s];
                        assert(stuck@.contains(sv));
                        assert(sv < n && !placed@[sv as int]);
                        assert(exists|k: int|
                            0 <= k < edges@.len() && (#[trigger] edges@[k]).1 == sv
                                && !placed@[edges@[k].0 as int]);
                        let k = choose|k: int|
                            0 <= k < edges@.len() && (#[trigger] edges@[k]).1 == sv
                                && !placed@[edges@[k].0 as int];
                        assert(stuck@.contains(edges@[k].0));
                    }
                }
                return Err(stuck);
            },
        }
    }
    proof {
        assert forall|v2: usize| v2 < n implies out@.contains(v2) by {
            if !out@.contains(v2) {
                assert forall|p: int| 0 <= p < out@.len() implies (#[trigger] out@[p]) < n
                    && out@[p] != v2 by {
                    assert(out@.contains(out@[p]));
                }
                lemma_distinct_missing_bound(out@, n, v2);
            }
        }
        assert forall|p: int| 0 <= p < out@.len() implies (#[trigger] out@[p]) < n by {
            assert(out@.contains(out@[p]));
        }
    }
    Ok(out)
}

/// A sequence of distinct values below `n` that contains every value below
/// `n` has length at least `n`.
proof fn lemma_distinct_contains_len(s: Seq<usize>, n: usize)
    requires
        forall|p: int, q: int| 0 <= p < q < s.len() ==> s[p] != s[q],
        forall|v: usize| v < n ==> s.contains(v),
    ensures
        s.len() >= n,
    decreases n,
{
    if n > 0 {
        let v = (n - 1) as usize;
        assert(s.contains(v));
        let p = choose|p: int| 0 <= p < s.len() && s[p] == v;
        let s2 = s.remove(p);
        assert forall|p2: int, q2: int| 0 <= p2 < q2 < s2.len() implies s2[p2] != s2[q2] by {
            if p2 < p && q2 < p {
            } else if p2 < p {
                assert(s2[q2] == s[q2 + 1]);
            } else {
                assert(s2[p2] == s[p2 + 1] && s2[q2] == s[q2 + 1]);
            }
        }
        assert forall|v2: usize| v2 < (n - 1) as usize implies s2.contains(v2) by {
            assert(s.contains(v2));
            let q = choose|q: int| 0 <= q < s.len() && s[q] == v2;
            assert(q != p);
            if q < p {
                assert(s2[q] == v2);
            } else {
                assert(s2[q - 1] == v2);
            }
        }
        lemma_distinct_contains_len(s2, (n - 1) as usize);
    }
}

/// A sequence of distinct values below `n` has at most `n` entries.
proof fn lemma_distinct_len_bound(s: Seq<usize>, n: usize)
    requires
        forall|p: int, q: int| 0 <= p < q < s.len() ==> s[p] != s[q],
        forall|p: int| 0 <= p < s.len() ==> (#[trigger] s[p]) < n,
    ensures
        s.len() <= n,
    decreases n,
{
    if n == 0 {
        if s.len() > 0 {
            assert(s[0] < 0);
        }
    } else {
        let v = (n - 1) as usize;
        if s.contains(v) {
            let p = choose|p: int| 0 <= p < s.len() && s[p] == v;
            let s2 = s.remove(p);
            assert forall|p2: int, q2: int| 0 <= p2 < q2 < s2.len() implies s2[p2] != s2[q2] by {
                if p2 < p && q2 < p {
                } else if p2 < p {
                    assert(s2[q2] == s[q2 + 1]);
                } else {
                    assert(s2[p2] == s[p2 + 1] && s2[q2] == s[q2 + 1]);
                }
            }
            assert forall|p2: int| 0 <= p2 < s2.len() implies (#[trigger] s2[p2]) < (
            n - 1) as usize by {
                if p2 < p {
                    assert(s2[p2] == s[p2]);
                    assert(s[p2] != s[p]);
                } else {
                    assert(s2[p2] == s[p2 + 1]);
                    assert(s[p2 + 1] != s[p]);
                }
            }
            lemma_distinct_len_bound(s2, (n - 1) as usize);
        } else {
            assert forall|p2: int| 0 <= p2 < s.len() implies (#[trigger] s[p2]) < (
            n - 1) as usize by {
                if s[p2] == v {
                    assert(s.contains(v));
                }
            }
            lemma_distinct_len_bound(s, (n - 1) as usize);
        }
    }
}

/// A sequence of distinct values below `n`, all different from one value
/// below `n`, has fewer than `n` entries.
proof fn lemma_distinct_missing_bound(s: Seq<usize>, n: usize, missing: usize)
    requires
        forall|p: int, q: int| 0 <= p < q < s.len() ==> s[p] != s[q],
        forall|p: int| 0 <= p < s.len() ==> (#[trigger] s[p]) < n,
        forall|p: int| 0 <= p < s.len() ==> (#[trigger] s[p]) != missing,
        missing < n,
    ensures
        s.len() < n,
    decreases n,
{
    let v = (n - 1) as usize;
    if missing == v {
        assert forall|p2: int| 0 <= p2 < s.len() implies (#[trigger] s[p2]) < (
        n - 1) as usize by {}
        lemma_distinct_len_bound(s, (n - 1) as usize);
    } else {
        if s.contains(v) {
            let p = choose|p: int| 0 <= p < s.len() && s[p] == v;
            let s2 = s.remove(p);
            assert forall|p2: int, q2: int| 0 <= p2 < q2 < s2.len() implies s2[p2] != s2[q2] by {
                if p2 < p && q2 < p {
                } else if p2 < p {
                    assert(s2[q2] == s[q2 + 1]);
                } else {
                    assert(s2[p2] == s[p2 + 1] && s2[q2] == s[q2 + 1]);
                }
            }
            assert forall|p2: int| 0 <= p2 < s2.len() implies (#[trigger] s2[p2]) < (
            n - 1) as usize && s2[p2] != missing by {
                if p2 < p {
                    assert(s2[p2] == s[p2]);
                    assert(s[p2] != s[p]);
                } else {
                    assert(s2[p2] == s[p2 + 1]);
                    assert(s[p2 + 1] != s[p]);
                }
            }
            lemma_distinct_missing_bound(s2, (n - 1) as usize, missing);
        } else {
            assert forall|p2: int| 0 <= p2 < s.len() implies (#[trigger] s[p2]) < (
            n - 1) as usize by {
                if s[p2] == v {
                    assert(s.contains(v));
                }
            }
            lemma_distinct_missing_bound(s, (n - 1) as usize, missing);
        }
    }
}

/// The works of the gated exclusive systems of one phase, in order.
pub open spec fn sp_exclusive_works(
    list: Seq<ExclusiveSystemContainer>,
    criteria: Seq<RunCriteriaContainer>,
) -> Seq<SystemWork>
    decreases list.len(),
{
    if list.len() == 0 {
        Seq::empty()
    } else {
        let rest = sp_exclusive_works(list.drop_last(), criteria);
        if sp_criteria_allows(list.last().run_criteria_meta.index, criteria) {
            rest.push(list.last().system.work)
        } else {
            rest
        }
    }
}

/// Does the criteria slot allow running, judged by the recorded verdicts?
/// A system without a resolved criteria always runs.
pub open spec fn sp_criteria_allows(
    index: Option<usize>,
    criteria: Seq<RunCriteriaContainer>,
) -> bool {
    match index {
        None => true,
        Some(i) => !(0 <= i < criteria.len()) || criteria[i as int].should_run == ShouldRun::Yes,
    }
}

/// Folding a concatenation folds the parts in order.
pub proof fn lemma_run_works_append(
    s1: Seq<SystemWork>,
    s2: Seq<SystemWork>,
    c: ComponentId,
    prev: Option<(u64, ComponentTicks)>,
    tick: u32,
)
    ensures
        sp_run_works(s1 + s2, c, prev, tick) == sp_run_works(
            s2,
            c,
            sp_run_works(s1, c, prev, tick),
            tick,
        ),
    decreases s2.len(),
{
    if s2.len() == 0 {
        assert(s1 + s2 =~= s1);
    } else {
        assert((s1 + s2).drop_last() =~= s1 + s2.drop_last());
        assert((s1 + s2).last() == s2.last());
        lemma_run_works_append(s1, s2.drop_last(), c, prev, tick);
    }
}

/// A stage: its systems in their four groups, its run criteria, and the
/// computed execution order of the parallel group.
pub struct SystemStage {
    pub parallel: Vec<ParallelSystemContainer>,
    pub exclusive_at_start: Vec<ExclusiveSystemContainer>,
    pub exclusive_before_commands: Vec<ExclusiveSystemContainer>,
    pub exclusive_at_end: Vec<ExclusiveSystemContainer>,
    pub run_criteria: Vec<RunCriteriaContainer>,
    pub order: Vec<usize>,
    pub systems_modified: bool,
}

impl SystemStage {
    /// An empty parallel stage.
    pub fn parallel_stage() -> (r: SystemStage)
        ensures
            r.parallel@.len() == 0,
            r.exclusive_at_start@.len() == 0,
            r.exclusive_before_commands@.len() == 0,
            r.exclusive_at_end@.len() == 0,
            r.run_criteria@.len() == 0,
            r.order@.len() == 0,
            r.systems_modified == false,
    {
        SystemStage {
            parallel: Vec::new(),
            exclusive_at_start: Vec::new(),
            exclusive_before_commands: Vec::new(),
            exclusive_at_end: Vec::new(),
            run_criteria: Vec::new(),
            order: Vec::new(),
            systems_modified: false,
        }
    }

    /// Register a run criteria reference: a fresh rule is added to the
    /// stage (optionally labelled), a label is resolved against the
    /// criteria already registered. An unknown label leaves the system
    /// ungated.
    fn resolve_criteria(&mut self, rc: Option<RunCriteriaDescriptorOrLabel>) -> (r:
        RunCriteriaMeta)
        ensures
            final(self).parallel == old(self).parallel,
            final(self).exclusive_at_start == old(self).exclusive_at_start,
            final(self).exclusive_before_commands == old(self).exclusive_before_commands,
            final(self).exclusive_at_end == old(self).exclusive_at_end,
            final(self).order == old(self).order,
            final(self).systems_modified == old(self).systems_modified,
            old(self).run_criteria@.len() <= final(self).run_criteria@.len(),
            forall|k: int|
                0 <= k < old(self).run_criteria@.len() ==> final(self).run_criteria@[k] == old(
                    self,
                ).run_criteria@[k],
            rc is None ==> r.index is None && *final(self) == *old(self),
            r.index is Some ==> (r.index.unwrap() as int) < final(self).run_criteria@.len(),
            rc is Some && rc.unwrap() is Descriptor ==> r.index == Some(
                old(self).run_criteria@.len() as usize,
            ) && final(self).run_criteria@.len() == old(self).run_criteria@.len() + 1
                && final(self).run_criteria@.last().rule == rc.unwrap()->Descriptor_0,
            rc is Some && rc.unwrap() is Label ==> *final(self) == *old(self),
    {
        match rc {
            None => RunCriteriaMeta { index: None, label: None },
            Some(RunCriteriaDescriptorOrLabel::Descriptor(rule, label)) => {
                let idx = self.run_criteria.len();
                self.run_criteria.push(
                    RunCriteriaContainer { rule, label, should_run: ShouldRun::Yes },
                );
                RunCriteriaMeta { index: Some(idx), label }
            },
            Some(RunCriteriaDescriptorOrLabel::Label(l)) => {
                let n = self.run_criteria.len();
                let mut k: usize = 0;
                let mut found: Option<usize> = None;
                while k < n
                    invariant
                        k <= n,
                        n == self.run_criteria@.len(),
                        *self == *old(self),
                        found is Some ==> (found.unwrap() as int) < n,
                    decreases n - k,
                {
                    match self.run_criteria[k].label {
                        Some(l2) => {
                            if l2.type_key == l.type_key && l2.name_key == l.name_key {
                                found = Some(k);
                            }
                        },
                        None => {
                        },
                    }
                    k += 1;
                }
                RunCriteriaMeta { index: found, label: Some(l) }
            },
        }
    }

    /// Add one system to the stage.
    pub fn add_system(&mut self, d: SystemDescriptor)
        ensures
            final(self).systems_modified,
            d is Parallel ==> final(self).parallel@.len() == old(self).parallel@.len() + 1
                && final(self).parallel@.last().system == d->Parallel_0.system
                && final(self).parallel@.last().meta == d->Parallel_0.meta
                && final(self).parallel@.last().dependencies@.len() == 0
                && final(self).parallel@.last().should_run == false,
            d is Parallel ==> forall|k: int|
                0 <= k < old(self).parallel@.len() ==> final(self).parallel@[k] == old(
                    self,
                ).parallel@[k],
            d is Parallel ==> final(self).exclusive_at_start == old(self).exclusive_at_start
                && final(self).exclusive_before_commands == old(self).exclusive_before_commands
                && final(self).exclusive_at_end == old(self).exclusive_at_end,
            d is Exclusive ==> final(self).parallel == old(self).parallel,
            // an exclusive system lands in the list matching its insertion
            // point, holding its system and meta; the other two lists stay
            d is Exclusive && d->Exclusive_0.insertion_point == InsertionPoint::AtStart ==> {
                &&& final(self).exclusive_at_start@.len()
                    == old(self).exclusive_at_start@.len() + 1
                &&& final(self).exclusive_at_start@.last().system == d->Exclusive_0.system
                &&& final(self).exclusive_at_start@.last().meta == d->Exclusive_0.meta
                &&& final(self).exclusive_at_start@.last().dependencies@.len() == 0
                &&& forall|k: int|
                    0 <= k < old(self).exclusive_at_start@.len()
                        ==> final(self).exclusive_at_start@[k]
                        == old(self).exclusive_at_start@[k]
                &&& final(self).exclusive_before_commands == old(self).exclusive_before_commands
                &&& final(self).exclusive_at_end == old(self).exclusive_at_end
            },
            d is Exclusive && d->Exclusive_0.insertion_point == InsertionPoint::BeforeCommands
                ==> {
                &&& final(self).exclusive_before_commands@.len()
                    == old(self).exclusive_before_commands@.len() + 1
                &&& final(self).exclusive_before_commands@.last().system == d->Exclusive_0.system
                &&& final(self).exclusive_before_commands@.last().meta == d->Exclusive_0.meta
                &&& final(self).exclusive_before_commands@.last().dependencies@.len() == 0
                &&& forall|k: int|
                    0 <= k < old(self).exclusive_before_commands@.len()
                        ==> final(self).exclusive_before_commands@[k]
                        == old(self).exclusive_before_commands@[k]
                &&& final(self).exclusive_at_start == old(self).exclusive_at_start
                &&& final(self).exclusive_at_end == old(self).exclusive_at_end
            },
            d is Exclusive && d->Exclusive_0.insertion_point == InsertionPoint::AtEnd ==> {
                &&& final(self).exclusive_at_end@.len() == old(self).exclusive_at_end@.len() + 1
                &&& final(self).exclusive_at_end@.last().system == d->Exclusive_0.system
                &&& final(self).exclusive_at_end@.last().meta == d->Exclusive_0.meta
                &&& final(self).exclusive_at_end@.last().dependencies@.len() == 0
                &&& forall|k: int|
                    0 <= k < old(self).exclusive_at_end@.len()
                        ==> final(self).exclusive_at_end@[k] == old(self).exclusive_at_end@[k]
                &&& final(self).exclusive_at_start == old(self).exclusive_at_start
                &&& final(self).exclusive_before_commands == old(self).exclusive_before_commands
            },
            // criteria bookkeeping: a fresh rule is appended, a label or
            // no criteria leaves the list as it was; the container's slot
            // points at the appended rule
            forall|k: int|
                0 <= k < old(self).run_criteria@.len() ==> final(self).run_criteria@[k] == old(
                    self,
                ).run_criteria@[k],
            sp_descriptor_criteria(d) is None
                ==> final(self).run_criteria == old(self).run_criteria,
            sp_descriptor_criteria(d) matches Some(RunCriteriaDescriptorOrLabel::Label(_))
                ==> final(self).run_criteria == old(self).run_criteria,
            sp_descriptor_criteria(d) matches Some(
                RunCriteriaDescriptorOrLabel::Descriptor(rule, _),
            ) ==> final(self).run_criteria@.len() == old(self).run_criteria@.len() + 1
                && final(self).run_criteria@.last().rule == rule
                && sp_added_container_criteria_index(
                *final(self),
                d,
            ) == Some(old(self).run_criteria@.len() as usize),
            sp_descriptor_criteria(d) is None ==> sp_added_container_criteria_index(
                *final(self),
                d,
            ) is None,
    {
        match d {
            SystemDescriptor::Parallel(pd) => {
                let meta = self.resolve_criteria(pd.run_criteria);
                self.parallel.push(
                    ParallelSystemContainer {
                        system: pd.system,
                        run_criteria_meta: meta,
                        should_run: false,
                        dependencies: Vec::new(),
                        meta: pd.meta,
                    },
                );
            },
            SystemDescriptor::Exclusive(xd) => {
                let meta = self.resolve_criteria(xd.run_criteria);
                let container = ExclusiveSystemContainer {
                    system: xd.system,
                    run_criteria_meta: meta,
                    dependencies: Vec::new(),
                    meta: xd.meta,
                };
                match xd.insertion_point {
                    InsertionPoint::AtStart => self.exclusive_at_start.push(container),
                    InsertionPoint::BeforeCommands => self.exclusive_before_commands.push(
                        container,
                    ),
                    InsertionPoint::AtEnd => self.exclusive_at_end.push(container),
                }
            },
        }
        self.systems_modified = true;
    }

    /// Add every system of a set, flattened, each gated by the set's
    /// criteria unless it brought its own.
    /// Add every system of a set, flattened: each member gains the set's
    /// labels, orderings and ambiguity sets, lands in the group matching
    /// its kind and insertion point, and is gated by the set's criteria
    /// unless it brought its own.
    #[verifier::rlimit(100)]
    #[verifier::spinoff_prover]
    pub fn add_system_set(&mut self, set: SystemSet)
        ensures
            set.systems@.len() > 0 ==> final(self).systems_modified,
            set.run_criteria matches Some(RunCriteriaDescriptorOrLabel::Descriptor(_, _))
                ==> final(self).systems_modified,
            // exactly the set's members arrive, group by group
            final(self).parallel@.len() == old(self).parallel@.len() + sp_count_parallel(
                set.systems@,
                set.systems@.len() as int,
            ),
            final(self).exclusive_at_start@.len() == old(self).exclusive_at_start@.len()
                + sp_count_exclusive_at(
                set.systems@,
                InsertionPoint::AtStart,
                set.systems@.len() as int,
            ),
            final(self).exclusive_before_commands@.len() == old(
                self,
            ).exclusive_before_commands@.len() + sp_count_exclusive_at(
                set.systems@,
                InsertionPoint::BeforeCommands,
                set.systems@.len() as int,
            ),
            final(self).exclusive_at_end@.len() == old(self).exclusive_at_end@.len()
                + sp_count_exclusive_at(
                set.systems@,
                InsertionPoint::AtEnd,
                set.systems@.len() as int,
            ),
            forall|k: int|
                0 <= k < old(self).parallel@.len() ==> final(self).parallel@[k] == old(
                    self,
                ).parallel@[k],
            forall|k: int|
                0 <= k < old(self).exclusive_at_start@.len()
                    ==> final(self).exclusive_at_start@[k] == old(self).exclusive_at_start@[k],
            forall|k: int|
                0 <= k < old(self).exclusive_before_commands@.len()
                    ==> final(self).exclusive_before_commands@[k]
                    == old(self).exclusive_before_commands@[k],
            forall|k: int|
                0 <= k < old(self).exclusive_at_end@.len() ==> final(self).exclusive_at_end@[k]
                    == old(self).exclusive_at_end@[k],
            // each parallel member sits at its position with the set's
            // metadata appended to its own
            forall|k: int|
                #![trigger set.systems@[k]]
                0 <= k < set.systems@.len() && set.systems@[k] is Parallel ==> {
                    let d = set.systems@[k]->Parallel_0;
                    let c = final(self).parallel@[old(self).parallel@.len()
                        + sp_count_parallel(set.systems@, k)];
                    &&& c.system == d.system
                    &&& c.meta.labels@ == d.meta.labels@ + set.sp_meta().labels
                    &&& c.meta.before@ == d.meta.before@ + set.sp_meta().before
                    &&& c.meta.after@ == d.meta.after@ + set.sp_meta().after
                    &&& c.meta.ambiguity_sets@ == d.meta.ambiguity_sets@
                        + set.sp_meta().ambiguity_sets
                    &&& c.dependencies@.len() == 0
                    &&& c.should_run == false
                    &&& d.run_criteria is None && set.run_criteria is None
                        ==> c.run_criteria_meta.index is None
                    &&& d.run_criteria is None && (set.run_criteria matches Some(
                        RunCriteriaDescriptorOrLabel::Descriptor(_, _),
                    )) ==> c.run_criteria_meta.index == Some(
                        old(self).run_criteria@.len() as usize,
                    )
                },
            // each exclusive member sits at its position in its point's
            // list with the set's metadata appended to its own
            forall|k: int|
                #![trigger set.systems@[k]]
                0 <= k < set.systems@.len() && set.systems@[k] is Exclusive ==> {
                    let d = set.systems@[k]->Exclusive_0;
                    let c = sp_exclusive_member(
                        *final(self),
                        *old(self),
                        set.systems@,
                        k,
                    );
                    &&& c.system == d.system
                    &&& c.meta.labels@ == d.meta.labels@ + set.sp_meta().labels
                    &&& c.meta.before@ == d.meta.before@ + set.sp_meta().before
                    &&& c.meta.after@ == d.meta.after@ + set.sp_meta().after
                    &&& c.meta.ambiguity_sets@ == d.meta.ambiguity_sets@
                        + set.sp_meta().ambiguity_sets
                    &&& c.dependencies@.len() == 0
                    &&& d.run_criteria is None && set.run_criteria is None
                        ==> c.run_criteria_meta.index is None
                    &&& d.run_criteria is None && (set.run_criteria matches Some(
                        RunCriteriaDescriptorOrLabel::Descriptor(_, _),
                    )) ==> c.run_criteria_meta.index == Some(
                        old(self).run_criteria@.len() as usize,
                    )
                },
            // the criteria already registered stay; a fresh set rule is
            // recorded and stays at its slot
            forall|k: int|
                0 <= k < old(self).run_criteria@.len() ==> final(self).run_criteria@[k] == old(
                    self,
                ).run_criteria@[k],
            set.run_criteria matches Some(RunCriteriaDescriptorOrLabel::Descriptor(rule, _))
                ==> (old(self).run_criteria@.len() as int) < final(self).run_criteria@.len()
                && final(self).run_criteria@[old(self).run_criteria@.len() as int].rule == rule,
            final(self).order == old(self).order,
    {
        let ghost sys = set.systems@;
        let ghost smeta = set.sp_meta();
        let ghost src = set.run_criteria;
        let (set_rc, mut descriptors) = set.bake();
        let ghost n0 = descriptors@.len();
        let ghost baked = descriptors@;
        let set_meta = self.resolve_criteria(set_rc);
        let ghost w0 = *self;
        let ghost crit0 = old(self).run_criteria@;
        let ghost mut j: int = 0;
        while descriptors.len() > 0
            invariant
                j + descriptors@.len() == n0,
                n0 == sys.len(),
                n0 == baked.len(),
                0 <= j <= baked.len(),
                descriptors@ == baked.skip(j),
                forall|k: int|
                    0 <= k < n0 ==> crate::system_set::sp_descriptor_baked(
                        sys[k],
                        #[trigger] baked[k],
                        smeta,
                    ),
                // the set criteria slot
                src is None ==> set_meta.index is None,
                src matches Some(RunCriteriaDescriptorOrLabel::Descriptor(rule, _)) ==> {
                    &&& set_meta.index == Some(crit0.len() as usize)
                    &&& (crit0.len() as int) < self.run_criteria@.len()
                    &&& self.run_criteria@[crit0.len() as int].rule == rule
                },
                forall|k: int|
                    0 <= k < crit0.len() ==> self.run_criteria@[k] == crit0[k],
                crit0.len() <= self.run_criteria@.len(),
                // groups grow positionally
                self.parallel@.len() == w0.parallel@.len() + sp_count_parallel(sys, j),
                self.exclusive_at_start@.len() == w0.exclusive_at_start@.len()
                    + sp_count_exclusive_at(sys, InsertionPoint::AtStart, j),
                self.exclusive_before_commands@.len() == w0.exclusive_before_commands@.len()
                    + sp_count_exclusive_at(sys, InsertionPoint::BeforeCommands, j),
                self.exclusive_at_end@.len() == w0.exclusive_at_end@.len()
                    + sp_count_exclusive_at(sys, InsertionPoint::AtEnd, j),
                forall|k: int|
                    0 <= k < w0.parallel@.len() ==> self.parallel@[k] == w0.parallel@[k],
                forall|k: int|
                    0 <= k < w0.exclusive_at_start@.len() ==> self.exclusive_at_start@[k]
                        == w0.exclusive_at_start@[k],
                forall|k: int|
                    0 <= k < w0.exclusive_before_commands@.len()
                        ==> self.exclusive_before_commands@[k]
                        == w0.exclusive_before_commands@[k],
                forall|k: int|
                    0 <= k < w0.exclusive_at_end@.len() ==> self.exclusive_at_end@[k]
                        == w0.exclusive_at_end@[k],
                forall|k: int|
                    #![trigger sys[k]]
                    0 <= k < j && sys[k] is Parallel ==> {
                        let d = sys[k]->Parallel_0;
                        let c = self.parallel@[w0.parallel@.len() + sp_count_parallel(sys, k)];
                        &&& c.system == d.system
                        &&& c.meta.labels@ == d.meta.labels@ + smeta.labels
                        &&& c.meta.before@ == d.meta.before@ + smeta.before
                        &&& c.meta.after@ == d.meta.after@ + smeta.after
                        &&& c.meta.ambiguity_sets@ == d.meta.ambiguity_sets@
                            + smeta.ambiguity_sets
                        &&& c.dependencies@.len() == 0
                        &&& c.should_run == false
                        &&& d.run_criteria is None && src is None
                            ==> c.run_criteria_meta.index is None
                        &&& d.run_criteria is None && (src matches Some(
                            RunCriteriaDescriptorOrLabel::Descriptor(_, _),
                        )) ==> c.run_criteria_meta.index == Some(crit0.len() as usize)
                    },
                forall|k: int|
                    #![trigger sys[k]]
                    0 <= k < j && sys[k] is Exclusive ==> {
                        let d = sys[k]->Exclusive_0;
                        let c = sp_exclusive_member(*self, w0, sys, k);
                        &&& c.system == d.system
                        &&& c.meta.labels@ == d.meta.labels@ + smeta.labels
                        &&& c.meta.before@ == d.meta.before@ + smeta.before
                        &&& c.meta.after@ == d.meta.after@ + smeta.after
                        &&& c.meta.ambiguity_sets@ == d.meta.ambiguity_sets@
                            + smeta.ambiguity_sets
                        &&& c.dependencies@.len() == 0
                        &&& d.run_criteria is None && src is None
                            ==> c.run_criteria_meta.index is None
                        &&& d.run_criteria is None && (src matches Some(
                            RunCriteriaDescriptorOrLabel::Descriptor(_, _),
                        )) ==> c.run_criteria_meta.index == Some(crit0.len() as usize)
                    },
                j > 0 ==> self.systems_modified,
                self.order == w0.order,
            decreases descriptors@.len(),
        {
            proof {
                assert(descriptors@ == baked.skip(j));
                assert(baked.skip(j).len() > 0);
                assert(baked.skip(j)[0] == baked[0 + j]);
                assert(descriptors@[0] == baked[j]);
                assert(crate::system_set::sp_descriptor_baked(sys[j], baked[j], smeta));
            }
            let d = descriptors.remove(0);
            let ghost selfpre = *self;
            proof {
                assert(d == baked[j]);
            }
            match d {
                SystemDescriptor::Parallel(pd) => {
                    let ghost pdg = pd;
                    let rcm = if pd.run_criteria.is_some() {
                        self.resolve_criteria(pd.run_criteria)
                    } else {
                        RunCriteriaMeta { index: set_meta.index, label: set_meta.label }
                    };
                    self.parallel.push(
                        ParallelSystemContainer {
                            system: pd.system,
                            run_criteria_meta: rcm,
                            should_run: false,
                            dependencies: Vec::new(),
                            meta: pd.meta,
                        },
                    );
                    self.systems_modified = true;
                    proof {
                        assert(pdg == baked[j]->Parallel_0);
                        assert(self.parallel@.last().system == pdg.system);
                        assert(self.parallel@.last().meta == pdg.meta);
                        assert(self.parallel@.last().run_criteria_meta == rcm);
                        assert(self.parallel@.last().should_run == false);
                        assert(self.parallel@.last().dependencies@.len() == 0);
                        assert(pdg.run_criteria is None ==> rcm.index == set_meta.index);
                    }
                },
                SystemDescriptor::Exclusive(xd) => {
                    let ghost xdg = xd;
                    let rcm = if xd.run_criteria.is_some() {
                        self.resolve_criteria(xd.run_criteria)
                    } else {
                        RunCriteriaMeta { index: set_meta.index, label: set_meta.label }
                    };
                    let container = ExclusiveSystemContainer {
                        system: xd.system,
                        run_criteria_meta: rcm,
                        dependencies: Vec::new(),
                        meta: xd.meta,
                    };
                    match xd.insertion_point {
                        InsertionPoint::AtStart => self.exclusive_at_start.push(container),
                        InsertionPoint::BeforeCommands => self.exclusive_before_commands.push(
                            container,
                        ),
                        InsertionPoint::AtEnd => self.exclusive_at_end.push(container),
                    }
                    self.systems_modified = true;
                    proof {
                        assert(xdg == baked[j]->Exclusive_0);
                        assert(xdg.run_criteria is None ==> rcm.index == set_meta.index);
                        match xdg.insertion_point {
                            InsertionPoint::AtStart => {
                                assert(self.exclusive_at_start@.last().system == xdg.system);
                                assert(self.exclusive_at_start@.last().meta == xdg.meta);
                                assert(self.exclusive_at_start@.last().run_criteria_meta == rcm);
                                assert(self.exclusive_at_start@.last().dependencies@.len() == 0);
                            },
                            InsertionPoint::BeforeCommands => {
                                assert(self.exclusive_before_commands@.last().system
                                    == xdg.system);
                                assert(self.exclusive_before_commands@.last().meta == xdg.meta);
                                assert(self.exclusive_before_commands@.last().run_criteria_meta
                                    == rcm);
                                assert(self.exclusive_before_commands@.last().dependencies@.len()
                                    == 0);
                            },
                            InsertionPoint::AtEnd => {
                                assert(self.exclusive_at_end@.last().system == xdg.system);
                                assert(self.exclusive_at_end@.last().meta == xdg.meta);
                                assert(self.exclusive_at_end@.last().run_criteria_meta == rcm);
                                assert(self.exclusive_at_end@.last().dependencies@.len() == 0);
                            },
                        }
                    }
                },
            }
            proof {
                assert(descriptors@ =~= baked.skip(j + 1));
                lemma_count_parallel_mono(sys, 0, j);
                lemma_count_exclusive_mono(sys, InsertionPoint::AtStart, 0, j);
                lemma_count_exclusive_mono(sys, InsertionPoint::BeforeCommands, 0, j);
                lemma_count_exclusive_mono(sys, InsertionPoint::AtEnd, 0, j);
                assert(forall|k: int|
                    0 <= k < w0.parallel@.len() ==> selfpre.parallel@[k] == w0.parallel@[k]);
                assert(baked[j] is Parallel == sys[j] is Parallel);
                assert(sp_count_parallel(sys, j + 1) == sp_count_parallel(sys, j) + (
                if sys[j] is Parallel {
                    1int
                } else {
                    0int
                }));
                assert(sp_count_exclusive_at(sys, InsertionPoint::AtStart, j + 1)
                    == sp_count_exclusive_at(sys, InsertionPoint::AtStart, j) + (
                if sys[j] is Exclusive && sys[j]->Exclusive_0.insertion_point
                    == InsertionPoint::AtStart {
                    1int
                } else {
                    0int
                }));
                assert(sp_count_exclusive_at(sys, InsertionPoint::BeforeCommands, j + 1)
                    == sp_count_exclusive_at(sys, InsertionPoint::BeforeCommands, j) + (
                if sys[j] is Exclusive && sys[j]->Exclusive_0.insertion_point
                    == InsertionPoint::BeforeCommands {
                    1int
                } else {
                    0int
                }));
                assert(sp_count_exclusive_at(sys, InsertionPoint::AtEnd, j + 1)
                    == sp_count_exclusive_at(sys, InsertionPoint::AtEnd, j) + (
                if sys[j] is Exclusive && sys[j]->Exclusive_0.insertion_point
                    == InsertionPoint::AtEnd {
                    1int
                } else {
                    0int
                }));
                // every earlier container stays where it was
                assert(forall|k: int|
                    0 <= k < selfpre.parallel@.len() ==> self.parallel@[k]
                        == selfpre.parallel@[k]);
                assert(forall|k: int|
                    0 <= k < selfpre.exclusive_at_start@.len() ==> self.exclusive_at_start@[k]
                        == selfpre.exclusive_at_start@[k]);
                assert(forall|k: int|
                    0 <= k < selfpre.exclusive_before_commands@.len()
                        ==> self.exclusive_before_commands@[k]
                        == selfpre.exclusive_before_commands@[k]);
                assert(forall|k: int|
                    0 <= k < selfpre.exclusive_at_end@.len() ==> self.exclusive_at_end@[k]
                        == selfpre.exclusive_at_end@[k]);
                assert forall|k: int|
                    #![trigger sys[k]]
                    0 <= k < j + 1 && sys[k] is Parallel implies {
                    let d = sys[k]->Parallel_0;
                    let c = self.parallel@[w0.parallel@.len() + sp_count_parallel(sys, k)];
                    &&& c.system == d.system
                    &&& c.meta.labels@ == d.meta.labels@ + smeta.labels
                    &&& c.meta.before@ == d.meta.before@ + smeta.before
                    &&& c.meta.after@ == d.meta.after@ + smeta.after
                    &&& c.meta.ambiguity_sets@ == d.meta.ambiguity_sets@ + smeta.ambiguity_sets
                    &&& c.dependencies@.len() == 0
                    &&& c.should_run == false
                    &&& d.run_criteria is None && src is None
                        ==> c.run_criteria_meta.index is None
                    &&& d.run_criteria is None && (src matches Some(
                        RunCriteriaDescriptorOrLabel::Descriptor(_, _),
                    )) ==> c.run_criteria_meta.index == Some(crit0.len() as usize)
                } by {
                    lemma_count_parallel_mono(sys, 0, k);
                    if k < j {
                        lemma_count_parallel_mono(sys, k + 1, j);
                        assert(sp_count_parallel(sys, k) + 1 == sp_count_parallel(sys, k + 1));
                        let pos = w0.parallel@.len() + sp_count_parallel(sys, k);
                        assert(pos < selfpre.parallel@.len());
                        assert(self.parallel@[pos] == selfpre.parallel@[pos]);
                    } else {
                        assert(sp_count_parallel(sys, k) == sp_count_parallel(sys, j));
                        let pos = w0.parallel@.len() + sp_count_parallel(sys, k);
                        assert(pos == selfpre.parallel@.len());
                        assert(self.parallel@[pos] == self.parallel@.last());
                        assert(crate::system_set::sp_descriptor_baked(sys[k], baked[k], smeta));
                    }
                }
                assert forall|k: int|
                    #![trigger sys[k]]
                    0 <= k < j + 1 && sys[k] is Exclusive implies {
                    let d = sys[k]->Exclusive_0;
                    let c = sp_exclusive_member(*self, w0, sys, k);
                    &&& c.system == d.system
                    &&& c.meta.labels@ == d.meta.labels@ + smeta.labels
                    &&& c.meta.before@ == d.meta.before@ + smeta.before
                    &&& c.meta.after@ == d.meta.after@ + smeta.after
                    &&& c.meta.ambiguity_sets@ == d.meta.ambiguity_sets@ + smeta.ambiguity_sets
                    &&& c.dependencies@.len() == 0
                    &&& d.run_criteria is None && src is None
                        ==> c.run_criteria_meta.index is None
                    &&& d.run_criteria is None && (src matches Some(
                        RunCriteriaDescriptorOrLabel::Descriptor(_, _),
                    )) ==> c.run_criteria_meta.index == Some(crit0.len() as usize)
                } by {
                    let point = sys[k]->Exclusive_0.insertion_point;
                    lemma_count_exclusive_mono(sys, point, 0, k);
                    if k < j {
                        lemma_count_exclusive_mono(sys, point, k + 1, j);
                        assert(sp_count_exclusive_at(sys, point, k) + 1 == sp_count_exclusive_at(
                            sys,
                            point,
                            k + 1,
                        ));
                        match point {
                            InsertionPoint::AtStart => {
                                let pos = w0.exclusive_at_start@.len() + sp_count_exclusive_at(
                                    sys,
                                    point,
                                    k,
                                );
                                assert(pos < selfpre.exclusive_at_start@.len());
                                assert(self.exclusive_at_start@[pos]
                                    == selfpre.exclusive_at_start@[pos]);
                            },
                            InsertionPoint::BeforeCommands => {
                                let pos = w0.exclusive_before_commands@.len()
                                    + sp_count_exclusive_at(sys, point, k);
                                assert(pos < selfpre.exclusive_before_commands@.len());
                                assert(self.exclusive_before_commands@[pos]
                                    == selfpre.exclusive_before_commands@[pos]);
                            },
                            InsertionPoint::AtEnd => {
                                let pos = w0.exclusive_at_end@.len() + sp_count_exclusive_at(
                                    sys,
                                    point,
                                    k,
                                );
                                assert(pos < selfpre.exclusive_at_end@.len());
                                assert(self.exclusive_at_end@[pos]
                                    == selfpre.exclusive_at_end@[pos]);
                            },
                        }
                    } else {
                        assert(sys[j] is Exclusive);
                        assert(baked[j] is Exclusive);
                        assert(baked[j]->Exclusive_0.insertion_point == point);
                        assert(sp_count_exclusive_at(sys, point, k) == sp_count_exclusive_at(
                            sys,
                            point,
                            j,
                        ));
                        assert(crate::system_set::sp_descriptor_baked(sys[k], baked[k], smeta));
                    }
                }
                j = j + 1;
            }
        }
        if set_meta.index.is_some() {
            self.systems_modified = true;
        }
        proof {
            assert(sys.len() == n0);
        }
    }

    /// The dependency edges the labels of the parallel systems declare:
    /// an edge `(u, v)` says `u` must run before `v`. Every `before` label
    /// of `u` carried as a label by `v` gives the edge `(u, v)`; every
    /// `after` label of `v` carried as a label by `u` gives it too.
    pub fn dependency_edges(&self) -> (r: Vec<DependencyEdge>)
        ensures
            forall|k: int|
                0 <= k < r@.len() ==> (#[trigger] r@[k]).0 < self.parallel@.len() && r@[k].1
                    < self.parallel@.len(),
            forall|u: int, v: int, li: int|
                #![trigger self.parallel@[u].meta.labels@.contains(self.parallel@[v].meta.after@[li])]
                0 <= u < self.parallel@.len() && 0 <= v < self.parallel@.len() && 0 <= li
                    < self.parallel@[v].meta.after@.len() && self.parallel@[u].meta.labels@.contains(
                    self.parallel@[v].meta.after@[li],
                ) ==> r@.contains((u as usize, v as usize)),
            forall|u: int, v: int, li: int|
                #![trigger self.parallel@[v].meta.labels@.contains(self.parallel@[u].meta.before@[li])]
                0 <= u < self.parallel@.len() && 0 <= v < self.parallel@.len() && 0 <= li
                    < self.parallel@[u].meta.before@.len()
                    && self.parallel@[v].meta.labels@.contains(
                    self.parallel@[u].meta.before@[li],
                ) ==> r@.contains((u as usize, v as usize)),
            forall|k: int|
                0 <= k < r@.len() ==> sp_label_edge(
                    *self,
                    (#[trigger] r@[k]).0 as int,
                    r@[k].1 as int,
                ),
    {
        let n = self.parallel.len();
        let mut edges: Vec<DependencyEdge> = Vec::new();
        let mut v: usize = 0;
        while v < n
            invariant
                v <= n,
                n == self.parallel@.len(),
                forall|k: int|
                    0 <= k < edges@.len() ==> (#[trigger] edges@[k]).0 < n && edges@[k].1 < n,
                forall|k: int|
                    0 <= k < edges@.len() ==> sp_label_edge(
                        *self,
                        (#[trigger] edges@[k]).0 as int,
                        edges@[k].1 as int,
                    ),
                forall|u2: int, v2: int, li: int|
                    #![trigger self.parallel@[u2].meta.labels@.contains(self.parallel@[v2].meta.after@[li])]
                    0 <= u2 < n && 0 <= v2 < v && 0 <= li < self.parallel@[v2].meta.after@.len()
                        && self.parallel@[u2].meta.labels@.contains(
                        self.parallel@[v2].meta.after@[li],
                    ) ==> edges@.contains((u2 as usize, v2 as usize)),
                forall|u2: int, v2: int, li: int|
                    #![trigger self.parallel@[v2].meta.labels@.contains(self.parallel@[u2].meta.before@[li])]
                    0 <= u2 < v && 0 <= v2 < n && 0 <= li < self.parallel@[u2].meta.before@.len()
                        && self.parallel@[v2].meta.labels@.contains(
                        self.parallel@[u2].meta.before@[li],
                    ) ==> edges@.contains((u2 as usize, v2 as usize)),
            decreases n - v,
        {
            // after: every labelled system runs before v
            let na = self.parallel[v].meta.after.len();
            let mut li: usize = 0;
            while li < na
                invariant
                    li <= na,
                    v < n,
                    n == self.parallel@.len(),
                    na == self.parallel@[v as int].meta.after@.len(),
                    forall|k: int|
                        0 <= k < edges@.len() ==> (#[trigger] edges@[k]).0 < n && edges@[k].1 < n,
                    forall|k: int|
                        0 <= k < edges@.len() ==> sp_label_edge(
                            *self,
                            (#[trigger] edges@[k]).0 as int,
                            edges@[k].1 as int,
                        ),
                    forall|u2: int, v2: int, li2: int|
                        #![trigger self.parallel@[u2].meta.labels@.contains(self.parallel@[v2].meta.after@[li2])]
                        0 <= u2 < n && 0 <= v2 < v && 0 <= li2 < self.parallel@[
                            v2].meta.after@.len() && self.parallel@[u2].meta.labels@.contains(
                            self.parallel@[v2].meta.after@[li2],
                        ) ==> edges@.contains((u2 as usize, v2 as usize)),
                    forall|u2: int, v2: int, li2: int|
                        #![trigger self.parallel@[v2].meta.labels@.contains(self.parallel@[u2].meta.before@[li2])]
                        0 <= u2 < v && 0 <= v2 < n && 0 <= li2 < self.parallel@[
                            u2].meta.before@.len() && self.parallel@[v2].meta.labels@.contains(
                            self.parallel@[u2].meta.before@[li2],
                        ) ==> edges@.contains((u2 as usize, v2 as usize)),
                    forall|u2: int, li2: int|
                        #![trigger self.parallel@[u2].meta.labels@.contains(self.parallel@[v as int].meta.after@[li2])]
                        0 <= u2 < n && 0 <= li2 < li && self.parallel@[u2].meta.labels@.contains(
                            self.parallel@[v as int].meta.after@[li2],
                        ) ==> edges@.contains((u2 as usize, v)),
                decreases na - li,
            {
                let l = self.parallel[v].meta.after[li];
                let ghost e0 = edges@;
                let mut u: usize = 0;
                while u < n
                    invariant
                        u <= n,
                        v < n,
                        li < na,
                        n == self.parallel@.len(),
                        na == self.parallel@[v as int].meta.after@.len(),
                        l == self.parallel@[v as int].meta.after@[li as int],
                        forall|k: int|
                            0 <= k < edges@.len() ==> (#[trigger] edges@[k]).0 < n && edges@[k].1
                                < n,
                        forall|k: int|
                            0 <= k < edges@.len() ==> sp_label_edge(
                                *self,
                                (#[trigger] edges@[k]).0 as int,
                                edges@[k].1 as int,
                            ),
                        forall|k: int| 0 <= k < e0.len() ==> edges@[k] == e0[k],
                        e0.len() <= edges@.len(),
                        forall|u2: int|
                            0 <= u2 < u && self.parallel@[u2].meta.labels@.contains(l)
                                ==> edges@.contains((u2 as usize, v)),
                    decreases n - u,
                {
                    if labels_contain(&self.parallel[u].meta.labels, l) {
                        let ghost prev = edges@;
                        edges.push((u, v));
                        proof {
                            assert(edges@[edges@.len() - 1] == (u, v));
                            assert(forall|x: DependencyEdge|
                                prev.contains(x) ==> edges@.contains(x)) by {
                                assert(forall|k: int|
                                    0 <= k < prev.len() ==> edges@[k] == prev[k]);
                            }
                            assert(edges@.contains((u, v)));
                            assert((li as int) < self.parallel@[v as int].meta.after@.len()
                                && self.parallel@[u as int].meta.labels@.contains(
                                self.parallel@[v as int].meta.after@[li as int],
                            ));
                            assert(sp_label_edge(*self, u as int, v as int));
                        }
                    }
                    u += 1;
                }
                proof {
                    assert(forall|x: DependencyEdge| e0.contains(x) ==> edges@.contains(x)) by {
                        assert(forall|k: int| 0 <= k < e0.len() ==> edges@[k] == e0[k]);
                    }
                }
                li += 1;
            }
            // before: v runs before every labelled system
            let nb = self.parallel[v].meta.before.len();
            let mut lj: usize = 0;
            while lj < nb
                invariant
                    lj <= nb,
                    v < n,
                    n == self.parallel@.len(),
                    nb == self.parallel@[v as int].meta.before@.len(),
                    forall|k: int|
                        0 <= k < edges@.len() ==> (#[trigger] edges@[k]).0 < n && edges@[k].1 < n,
                    forall|k: int|
                        0 <= k < edges@.len() ==> sp_label_edge(
                            *self,
                            (#[trigger] edges@[k]).0 as int,
                            edges@[k].1 as int,
                        ),
                    forall|u2: int, v2: int, li2: int|
                        #![trigger self.parallel@[u2].meta.labels@.contains(self.parallel@[v2].meta.after@[li2])]
                        0 <= u2 < n && 0 <= v2 < v + 1 && 0 <= li2 < self.parallel@[
                            v2].meta.after@.len() && self.parallel@[u2].meta.labels@.contains(
                            self.parallel@[v2].meta.after@[li2],
                        ) ==> edges@.contains((u2 as usize, v2 as usize)),
                    forall|u2: int, v2: int, li2: int|
                        #![trigger self.parallel@[v2].meta.labels@.contains(self.parallel@[u2].meta.before@[li2])]
                        0 <= u2 < v && 0 <= v2 < n && 0 <= li2 < self.parallel@[
                            u2].meta.before@.len() && self.parallel@[v2].meta.labels@.contains(
                            self.parallel@[u2].meta.before@[li2],
                        ) ==> edges@.contains((u2 as usize, v2 as usize)),
                    forall|v2: int, li2: int|
                        #![trigger self.parallel@[v2].meta.labels@.contains(self.parallel@[v as int].meta.before@[li2])]
                        0 <= v2 < n && 0 <= li2 < lj && self.parallel@[v2].meta.labels@.contains(
                            self.parallel@[v as int].meta.before@[li2],
                        ) ==> edges@.contains((v, v2 as usize)),
                decreases nb - lj,
            {
                let l = self.parallel[v].meta.before[lj];
                let ghost e0 = edges@;
                let mut u: usize = 0;
                while u < n
                    invariant
                        u <= n,
                        v < n,
                        lj < nb,
                        n == self.parallel@.len(),
                        nb == self.parallel@[v as int].meta.before@.len(),
                        l == self.parallel@[v as int].meta.before@[lj as int],
                        forall|k: int|
                            0 <= k < edges@.len() ==> (#[trigger] edges@[k]).0 < n && edges@[k].1
                                < n,
                        forall|k: int|
                            0 <= k < edges@.len() ==> sp_label_edge(
                                *self,
                                (#[trigger] edges@[k]).0 as int,
                                edges@[k].1 as int,
                            ),
                        forall|k: int| 0 <= k < e0.len() ==> edges@[k] == e0[k],
                        e0.len() <= edges@.len(),
                        forall|u2: int|
                            0 <= u2 < u && self.parallel@[u2].meta.labels@.contains(l)
                                ==> edges@.contains((v, u2 as usize)),
                    decreases n - u,
                {
                    if labels_contain(&self.parallel[u].meta.labels, l) {
                        let ghost prev = edges@;
                        edges.push((v, u));
                        proof {
                            assert(edges@[edges@.len() - 1] == (v, u));
                            assert(forall|x: DependencyEdge|
                                prev.contains(x) ==> edges@.contains(x)) by {
                                assert(forall|k: int|
                                    0 <= k < prev.len() ==> edges@[k] == prev[k]);
                            }
                            assert(edges@.contains((v, u)));
                            assert((lj as int) < self.parallel@[v as int].meta.before@.len()
                                && self.parallel@[u as int].meta.labels@.contains(
                                self.parallel@[v as int].meta.before@[lj as int],
                            ));
                            assert(sp_label_edge(*self, v as int, u as int));
                        }
                    }
                    u += 1;
                }
                proof {
                    assert(forall|x: DependencyEdge| e0.contains(x) ==> edges@.contains(x)) by {
                        assert(forall|k: int| 0 <= k < e0.len() ==> edges@[k] == e0[k]);
                    }
                }
                lj += 1;
            }
            v += 1;
        }
        edges
    }

    /// Resolve labels to edges and order the parallel systems. A cycle in
    /// the declared order is a configuration error: the stuck systems come
    /// back and the stage keeps its previous order.
    pub fn rebuild_orders_and_dependencies(&mut self) -> (r: Result<(), Vec<usize>>)
        ensures
            final(self).parallel == old(self).parallel,
            final(self).exclusive_at_start == old(self).exclusive_at_start,
            final(self).exclusive_before_commands == old(self).exclusive_before_commands,
            final(self).exclusive_at_end == old(self).exclusive_at_end,
            final(self).run_criteria == old(self).run_criteria,
            match r {
                Ok(()) => {
                    &&& !final(self).systems_modified
                    &&& final(self).order@.len() == final(self).parallel@.len()
                    &&& forall|v: usize|
                        (v as int) < final(self).parallel@.len()
                            ==> final(self).order@.contains(v)
                    &&& forall|p: int|
                        0 <= p < final(self).order@.len() ==> (#[trigger] final(self).order@[p])
                            < final(self).parallel@.len()
                    &&& forall|p: int, q: int|
                        0 <= p < q < final(self).order@.len()
                            ==> final(self).order@[p] != final(self).order@[q]
                    &&& sp_order_respects_labels(*final(self))
                },
                // a refusal is a genuine cycle: every reported system
                // waits, through a label-declared ordering, on another
                // reported one
                Err(stuck) => {
                    &&& *final(self) == *old(self)
                    &&& stuck@.len() > 0
                    &&& sp_stuck_set(*old(self), stuck@)
                },
            },
    {
        let edges = self.dependency_edges();
        let n = self.parallel.len();
        match topological_order(n, &edges) {
            Ok(order) => {
                self.order = order;
                self.systems_modified = false;
                proof {
                    assert forall|u: int, v: int, p: int, q: int|
                        sp_label_edge(*self, u, v) && 0 <= p < self.order@.len() && 0 <= q
                            < self.order@.len() && self.order@[p] == u as usize && self.order@[q]
                            == v as usize implies p < q by {
                        assert(edges@.contains((u as usize, v as usize)));
                        let k = choose|k: int|
                            0 <= k < edges@.len() && edges@[k] == (u as usize, v as usize);
                    }
                }
                Ok(())
            },
            Err(stuck) => {
                proof {
                    assert(*self == *old(self));
                    assert forall|s: int|
                        0 <= s < stuck@.len() implies #[trigger] sp_waits_on_stuck(
                        *old(self),
                        stuck@,
                        s,
                    ) by {
                        assert(*self == *old(self));
                        let k = choose|k: int|
                            0 <= k < edges@.len() && (#[trigger] edges@[k]).1 == stuck@[s]
                                && stuck@.contains(edges@[k].0);
                        assert(sp_label_edge(*self, edges@[k].0 as int, edges@[k].1 as int));
                        assert(sp_label_edge(*old(self), edges@[k].0 as int, edges@[k].1 as int));
                        let p = choose|p: int| 0 <= p < stuck@.len() && stuck@[p] == edges@[k].0;
                        assert(0 <= p < stuck@.len() && sp_label_edge(
                            *old(self),
                            stuck@[p] as int,
                            stuck@[s] as int,
                        ));
                    }
                    assert(sp_stuck_set(*old(self), stuck@));
                }
                Err(stuck)
            },
        }
    }

    /// Evaluate every run criteria against the world and record the
    /// verdicts, then mark each parallel system's flag from its slot.
    pub fn evaluate_criteria(&mut self, w: &World)
        ensures
            final(self).exclusive_at_start == old(self).exclusive_at_start,
            final(self).exclusive_before_commands == old(self).exclusive_before_commands,
            final(self).exclusive_at_end == old(self).exclusive_at_end,
            final(self).order == old(self).order,
            final(self).systems_modified == old(self).systems_modified,
            final(self).run_criteria@.len() == old(self).run_criteria@.len(),
            forall|k: int|
                0 <= k < final(self).run_criteria@.len() ==> {
                    &&& (#[trigger] final(self).run_criteria@[k]).rule == old(
                        self,
                    ).run_criteria@[k].rule
                    &&& final(self).run_criteria@[k].label == old(self).run_criteria@[k].label
                    &&& (final(self).run_criteria@[k].should_run == ShouldRun::Yes)
                        == crate::system::sp_rule_allows(old(self).run_criteria@[k].rule, *w)
                },
            final(self).parallel@.len() == old(self).parallel@.len(),
            forall|k: int|
                0 <= k < final(self).parallel@.len() ==> {
                    &&& (#[trigger] final(self).parallel@[k]).system == old(
                        self,
                    ).parallel@[k].system
                    &&& final(self).parallel@[k].meta == old(self).parallel@[k].meta
                    &&& final(self).parallel@[k].dependencies == old(self).parallel@[
                        k].dependencies
                    &&& final(self).parallel@[k].run_criteria_meta == old(self).parallel@[
                        k].run_criteria_meta
                    &&& final(self).parallel@[k].should_run == sp_criteria_allows(
                        final(self).parallel@[k].run_criteria_meta.index,
                        final(self).run_criteria@,
                    )
                },
    {
        let ghost crit0 = self.run_criteria@;
        let nc = self.run_criteria.len();
        let mut k: usize = 0;
        while k < nc
            invariant
                k <= nc,
                nc == self.run_criteria@.len(),
                crit0.len() == nc,
                self.parallel == old(self).parallel,
                self.exclusive_at_start == old(self).exclusive_at_start,
                self.exclusive_before_commands == old(self).exclusive_before_commands,
                self.exclusive_at_end == old(self).exclusive_at_end,
                self.order == old(self).order,
                self.systems_modified == old(self).systems_modified,
                crit0 == old(self).run_criteria@,
                forall|j: int| k <= j < nc ==> self.run_criteria@[j] == crit0[j],
                forall|j: int|
                    0 <= j < k ==> {
                        &&& (#[trigger] self.run_criteria@[j]).rule == crit0[j].rule
                        &&& self.run_criteria@[j].label == crit0[j].label
                        &&& (self.run_criteria@[j].should_run == ShouldRun::Yes)
                            == crate::system::sp_rule_allows(crit0[j].rule, *w)
                    },
            decreases nc - k,
        {
            let rule = self.run_criteria[k].rule;
            let label = self.run_criteria[k].label;
            let verdict = evaluate_rule(&rule, w);
            self.run_criteria.set(
                k,
                RunCriteriaContainer { rule, label, should_run: verdict },
            );
            k += 1;
        }
        let ghost crit1 = self.run_criteria@;
        let np = self.parallel.len();
        let mut i: usize = 0;
        while i < np
            invariant
                i <= np,
                np == self.parallel@.len(),
                old(self).parallel@.len() == np,
                self.run_criteria@ == crit1,
                self.exclusive_at_start == old(self).exclusive_at_start,
                self.exclusive_before_commands == old(self).exclusive_before_commands,
                self.exclusive_at_end == old(self).exclusive_at_end,
                self.order == old(self).order,
                self.systems_modified == old(self).systems_modified,
                forall|j: int| i <= j < np ==> self.parallel@[j] == old(self).parallel@[j],
                forall|j: int|
                    0 <= j < i ==> {
                        &&& (#[trigger] self.parallel@[j]).system == old(self).parallel@[j].system
                        &&& self.parallel@[j].meta == old(self).parallel@[j].meta
                        &&& self.parallel@[j].dependencies == old(self).parallel@[j].dependencies
                        &&& self.parallel@[j].run_criteria_meta == old(self).parallel@[
                            j].run_criteria_meta
                        &&& self.parallel@[j].should_run == sp_criteria_allows(
                            self.parallel@[j].run_criteria_meta.index,
                            crit1,
                        )
                    },
            decreases np - i,
        {
            let should = match self.parallel[i].run_criteria_meta.index {
                None => true,
                Some(ci) => {
                    if ci < self.run_criteria.len() {
                        match self.run_criteria[ci].should_run {
                            ShouldRun::Yes => true,
                            ShouldRun::No => false,
                        }
                    } else {
                        true
                    }
                },
            };
            let ghost before = self.parallel@[i as int];
            let c = &mut self.parallel[i];
            c.should_run = should;
            i += 1;
        }
    }

    /// Run the selected works of one exclusive phase, in list order.
    fn run_exclusive_phase(
        list: &Vec<ExclusiveSystemContainer>,
        criteria: &Vec<RunCriteriaContainer>,
        w: &mut World,
    )
        requires
            old(w).wf(),
        ensures
            final(w).wf(),
            forall|c: ComponentId|
                old(w).sp_registered(c) ==> final(w).sp_resource(c) == sp_run_works(
                    sp_exclusive_works(list@, criteria@),
                    c,
                    old(w).sp_resource(c),
                    old(w).sp_change_tick(),
                ),
            forall|e: crate::entity::Entity, c: ComponentId|
                final(w).sp_component(e, c) == old(w).sp_component(e, c),
            forall|e: crate::entity::Entity| final(w).sp_live(e) == old(w).sp_live(e),
            final(w).sp_change_tick() == old(w).sp_change_tick(),
            final(w).sp_last_change_tick() == old(w).sp_last_change_tick(),
            forall|c: ComponentId|
                old(w).sp_registered(c) ==> final(w).sp_registered(c) && final(w).sp_removed(c)
                    == old(w).sp_removed(c),
    {
        let n = list.len();
        let mut k: usize = 0;
        while k < n
            invariant
                k <= n,
                n == list@.len(),
                w.wf(),
                forall|c: ComponentId|
                    old(w).sp_registered(c) ==> w.sp_resource(c) == sp_run_works(
                        sp_exclusive_works(list@.subrange(0, k as int), criteria@),
                        c,
                        old(w).sp_resource(c),
                        old(w).sp_change_tick(),
                    ),
                forall|e: crate::entity::Entity, c: ComponentId|
                    w.sp_component(e, c) == old(w).sp_component(e, c),
                forall|e: crate::entity::Entity| w.sp_live(e) == old(w).sp_live(e),
                w.sp_change_tick() == old(w).sp_change_tick(),
                w.sp_last_change_tick() == old(w).sp_last_change_tick(),
                forall|c: ComponentId|
                    old(w).sp_registered(c) ==> w.sp_registered(c) && w.sp_removed(c) == old(
                        w,
                    ).sp_removed(c),
            decreases n - k,
        {
            let allowed = match list[k].run_criteria_meta.index {
                None => true,
                Some(ci) => {
                    if ci < criteria.len() {
                        match criteria[ci].should_run {
                            ShouldRun::Yes => true,
                            ShouldRun::No => false,
                        }
                    } else {
                        true
                    }
                },
            };
            proof {
                assert(allowed == sp_criteria_allows(
                    list@[k as int].run_criteria_meta.index,
                    criteria@,
                ));
                assert(list@.subrange(0, k + 1).drop_last() =~= list@.subrange(0, k as int));
                assert(list@.subrange(0, k + 1).last() == list@[k as int]);
            }
            if allowed {
                let work = list[k].system.work;
                let ghost wpre = *w;
                let _ = run_system_work(w, work);
                proof {
                    assert forall|c: ComponentId|
                        old(w).sp_registered(c) implies w.sp_resource(c) == sp_run_works(
                        sp_exclusive_works(list@.subrange(0, k + 1), criteria@),
                        c,
                        old(w).sp_resource(c),
                        old(w).sp_change_tick(),
                    ) by {
                        assert(wpre.sp_registered(c));
                        assert(w.sp_resource(c) == sp_work_result(
                            work,
                            c,
                            wpre.sp_resource(c),
                            wpre.sp_change_tick(),
                        ));
                        let wk = sp_exclusive_works(list@.subrange(0, k as int), criteria@);
                        let wk1 = sp_exclusive_works(list@.subrange(0, k + 1), criteria@);
                        assert(wk1 == wk.push(work));
                        assert(wk1.drop_last() =~= wk);
                        assert(wk1.last() == work);
                    }
                }
            } else {
                proof {
                    assert(sp_exclusive_works(list@.subrange(0, k + 1), criteria@)
                        == sp_exclusive_works(list@.subrange(0, k as int), criteria@));
                }
            }
            k += 1;
        }
        proof {
            assert(list@.subrange(0, n as int) =~= list@);
        }
    }

    /// Run the parallel systems in the computed order, each gated by its
    /// recorded flag.
    fn run_parallel_phase(&self, w: &mut World)
        requires
            old(w).wf(),
            forall|p: int|
                0 <= p < self.order@.len() ==> (#[trigger] self.order@[p]) < self.parallel@.len(),
        ensures
            final(w).wf(),
            forall|c: ComponentId|
                old(w).sp_registered(c) ==> final(w).sp_resource(c) == sp_run_works(
                    sp_selected_works(self.parallel@, self.order@),
                    c,
                    old(w).sp_resource(c),
                    old(w).sp_change_tick(),
                ),
            forall|e: crate::entity::Entity, c: ComponentId|
                final(w).sp_component(e, c) == old(w).sp_component(e, c),
            forall|e: crate::entity::Entity| final(w).sp_live(e) == old(w).sp_live(e),
            final(w).sp_change_tick() == old(w).sp_change_tick(),
            final(w).sp_last_change_tick() == old(w).sp_last_change_tick(),
            forall|c: ComponentId|
                old(w).sp_registered(c) ==> final(w).sp_registered(c) && final(w).sp_removed(c)
                    == old(w).sp_removed(c),
    {
        let n = self.order.len();
        let mut k: usize = 0;
        while k < n
            invariant
                k <= n,
                n == self.order@.len(),
                forall|p: int|
                    0 <= p < self.order@.len() ==> (#[trigger] self.order@[p])
                        < self.parallel@.len(),
                w.wf(),
                forall|c: ComponentId|
                    old(w).sp_registered(c) ==> w.sp_resource(c) == sp_run_works(
                        sp_selected_works(self.parallel@, self.order@.subrange(0, k as int)),
                        c,
                        old(w).sp_resource(c),
                        old(w).sp_change_tick(),
                    ),
                forall|e: crate::entity::Entity, c: ComponentId|
                    w.sp_component(e, c) == old(w).sp_component(e, c),
                forall|e: crate::entity::Entity| w.sp_live(e) == old(w).sp_live(e),
                w.sp_change_tick() == old(w).sp_change_tick(),
                w.sp_last_change_tick() == old(w).sp_last_change_tick(),
                forall|c: ComponentId|
                    old(w).sp_registered(c) ==> w.sp_registered(c) && w.sp_removed(c) == old(
                        w,
                    ).sp_removed(c),
            decreases n - k,
        {
            let i = self.order[k];
            proof {
                assert(self.order@.subrange(0, k + 1).drop_last() =~= self.order@.subrange(
                    0,
                    k as int,
                ));
                assert(self.order@.subrange(0, k + 1).last() == self.order@[k as int]);
            }
            if self.parallel[i].should_run {
                let work = self.parallel[i].system.work;
                let ghost wpre = *w;
                let _ = run_system_work(w, work);
                proof {
                    assert forall|c: ComponentId|
                        old(w).sp_registered(c) implies w.sp_resource(c) == sp_run_works(
                        sp_selected_works(self.parallel@, self.order@.subrange(0, k + 1)),
                        c,
                        old(w).sp_resource(c),
                        old(w).sp_change_tick(),
                    ) by {
                        assert(wpre.sp_registered(c));
                        assert(w.sp_resource(c) == sp_work_result(
                            work,
                            c,
                            wpre.sp_resource(c),
                            wpre.sp_change_tick(),
                        ));
                        let wk = sp_selected_works(
                            self.parallel@,
                            self.order@.subrange(0, k as int),
                        );
                        let wk1 = sp_selected_works(
                            self.parallel@,
                            self.order@.subrange(0, k + 1),
                        );
                        assert(wk1 == wk.push(work));
                        assert(wk1.drop_last() =~= wk);
                        assert(wk1.last() == work);
                    }
                }
            } else {
                proof {
                    assert(sp_selected_works(self.parallel@, self.order@.subrange(0, k + 1))
                        == sp_selected_works(self.parallel@, self.order@.subrange(0, k as int)));
                }
            }
            k += 1;
        }
        proof {
            assert(self.order@.subrange(0, n as int) =~= self.order@);
        }
    }

    /// Run the stage once: resolve orders if systems changed, evaluate the
    /// run criteria, then run the four phases in their fixed order. The
    /// observable outcome is the fold of the selected works; a skipped
    /// system contributes nothing, and systems ordered after it are not
    /// held up.
    pub fn run(&mut self, w: &mut World) -> (r: Result<(), Vec<usize>>)
        requires
            old(w).wf(),
        ensures
            final(w).wf(),
            // the systems, their labels and the criteria rules are exactly
            // the old ones: running never adds, drops or reorders systems
            sp_same_systems(*final(self), *old(self)),
            // every criteria verdict is its rule evaluated against the
            // world as it stood when the stage started
            forall|k: int|
                0 <= k < final(self).run_criteria@.len() ==> ((
                #[trigger] final(self).run_criteria@[k]).should_run == ShouldRun::Yes)
                    == crate::system::sp_rule_allows(old(self).run_criteria@[k].rule, *old(w)),
            // every parallel system's flag follows its criteria slot
            forall|k: int|
                0 <= k < final(self).parallel@.len()
                    ==> (#[trigger] final(self).parallel@[k]).should_run == sp_criteria_allows(
                    final(self).parallel@[k].run_criteria_meta.index,
                    final(self).run_criteria@,
                ),
            r is Ok ==> forall|c: ComponentId|
                old(w).sp_registered(c) ==> final(w).sp_resource(c) == sp_run_works(
                    sp_stage_works(*final(self)),
                    c,
                    old(w).sp_resource(c),
                    old(w).sp_change_tick(),
                ),
            r is Ok ==> sp_order_respects_labels(*final(self)),
            r is Ok ==> final(self).order@.len() == final(self).parallel@.len() && (forall|
                v: usize,
            |
                (v as int) < final(self).parallel@.len() ==> final(self).order@.contains(v)) && (
            forall|p: int, q: int|
                0 <= p < q < final(self).order@.len()
                    ==> final(self).order@[p] != final(self).order@[q]),
            // a refusal is a genuine cycle among the label-declared
            // orderings, and the world is untouched
            match r {
                Ok(()) => true,
                Err(stuck) => {
                    &&& *final(w) == *old(w)
                    &&& stuck@.len() > 0
                    &&& sp_stuck_set(*final(self), stuck@)
                },
            },
            forall|e: crate::entity::Entity, c: ComponentId|
                final(w).sp_component(e, c) == old(w).sp_component(e, c),
            forall|e: crate::entity::Entity| final(w).sp_live(e) == old(w).sp_live(e),
            final(w).sp_change_tick() == old(w).sp_change_tick(),
            final(w).sp_last_change_tick() == old(w).sp_last_change_tick(),
    {
        self.evaluate_criteria(w);
        match self.rebuild_orders_and_dependencies() {
            Ok(()) => {
            },
            Err(stuck) => {
                return Err(stuck);
            },
        }
        let ghost w0 = *w;
        SystemStage::run_exclusive_phase(&self.exclusive_at_start, &self.run_criteria, w);
        let ghost w1 = *w;
        self.run_parallel_phase(w);
        let ghost w2 = *w;
        SystemStage::run_exclusive_phase(&self.exclusive_before_commands, &self.run_criteria, w);
        let ghost w3 = *w;
        SystemStage::run_exclusive_phase(&self.exclusive_at_end, &self.run_criteria, w);
        proof {
            let plan1 = sp_exclusive_works(self.exclusive_at_start@, self.run_criteria@);
            let plan2 = sp_selected_works(self.parallel@, self.order@);
            let plan3 = sp_exclusive_works(self.exclusive_before_commands@, self.run_criteria@);
            let plan4 = sp_exclusive_works(self.exclusive_at_end@, self.run_criteria@);
            assert forall|c: ComponentId|
                w0.sp_registered(c) implies w.sp_resource(c) == sp_run_works(
                plan1 + plan2 + plan3 + plan4,
                c,
                w0.sp_resource(c),
                w0.sp_change_tick(),
            ) by {
                lemma_run_works_append(
                    plan1,
                    plan2,
                    c,
                    w0.sp_resource(c),
                    w0.sp_change_tick(),
                );
                lemma_run_works_append(
                    plan1 + plan2,
                    plan3,
                    c,
                    w0.sp_resource(c),
                    w0.sp_change_tick(),
                );
                lemma_run_works_append(
                    plan1 + plan2 + plan3,
                    plan4,
                    c,
                    w0.sp_resource(c),
                    w0.sp_change_tick(),
                );
            }
        }
        Ok(())
    }
}

/// The container that member `k` of a set became: it sits in the final
/// stage's list matching its insertion point, just past the old stage's
/// entries, offset by how many earlier members went to the same list.
pub open spec fn sp_exclusive_member(
    stage: SystemStage,
    before: SystemStage,
    s: Seq<SystemDescriptor>,
    k: int,
) -> ExclusiveSystemContainer {
    match s[k]->Exclusive_0.insertion_point {
        InsertionPoint::AtStart => stage.exclusive_at_start@[before.exclusive_at_start@.len()
            + sp_count_exclusive_at(s, InsertionPoint::AtStart, k)],
        InsertionPoint::BeforeCommands => stage.exclusive_before_commands@[
            before.exclusive_before_commands@.len() + sp_count_exclusive_at(
                s,
                InsertionPoint::BeforeCommands,
                k,
            )],
        InsertionPoint::AtEnd => stage.exclusive_at_end@[before.exclusive_at_end@.len()
            + sp_count_exclusive_at(s, InsertionPoint::AtEnd, k)],
    }
}

/// How many of the first `k` descriptors are parallel.
pub open spec fn sp_count_parallel(s: Seq<SystemDescriptor>, k: int) -> int
    decreases k,
{
    if k <= 0 {
        0
    } else {
        sp_count_parallel(s, k - 1) + if s[k - 1] is Parallel {
            1int
        } else {
            0int
        }
    }
}

/// How many of the first `k` descriptors are exclusive at `point`.
pub open spec fn sp_count_exclusive_at(
    s: Seq<SystemDescriptor>,
    point: InsertionPoint,
    k: int,
) -> int
    decreases k,
{
    if k <= 0 {
        0
    } else {
        sp_count_exclusive_at(s, point, k - 1) + if s[k - 1] is Exclusive && s[k
            - 1]->Exclusive_0.insertion_point == point {
            1int
        } else {
            0int
        }
    }
}

/// Prefix counts only grow.
proof fn lemma_count_parallel_mono(s: Seq<SystemDescriptor>, a: int, b: int)
    requires
        a <= b,
    ensures
        sp_count_parallel(s, a) <= sp_count_parallel(s, b),
    decreases b - a,
{
    if a < b {
        lemma_count_parallel_mono(s, a, b - 1);
    }
}

/// Prefix counts only grow.
proof fn lemma_count_exclusive_mono(
    s: Seq<SystemDescriptor>,
    point: InsertionPoint,
    a: int,
    b: int,
)
    requires
        a <= b,
    ensures
        sp_count_exclusive_at(s, point, a) <= sp_count_exclusive_at(s, point, b),
    decreases b - a,
{
    if a < b {
        lemma_count_exclusive_mono(s, point, a, b - 1);
    }
}

/// The criteria reference a descriptor carries.
pub open spec fn sp_descriptor_criteria(d: SystemDescriptor) -> Option<
    RunCriteriaDescriptorOrLabel,
> {
    match d {
        SystemDescriptor::Parallel(pd) => pd.run_criteria,
        SystemDescriptor::Exclusive(xd) => xd.run_criteria,
    }
}

/// The criteria slot of the container `d` landed in, inside `stage`.
pub open spec fn sp_added_container_criteria_index(
    stage: SystemStage,
    d: SystemDescriptor,
) -> Option<usize> {
    match d {
        SystemDescriptor::Parallel(pd) => stage.parallel@.last().run_criteria_meta.index,
        SystemDescriptor::Exclusive(xd) => match xd.insertion_point {
            InsertionPoint::AtStart => stage.exclusive_at_start@.last().run_criteria_meta.index,
            InsertionPoint::BeforeCommands => stage.exclusive_before_commands@.last().run_criteria_meta.index,
            InsertionPoint::AtEnd => stage.exclusive_at_end@.last().run_criteria_meta.index,
        },
    }
}

/// There is a label-declared constraint that `u` must run before `v`.
pub open spec fn sp_label_edge(stage: SystemStage, u: int, v: int) -> bool {
    &&& 0 <= u < stage.parallel@.len()
    &&& 0 <= v < stage.parallel@.len()
    &&& {
        ||| exists|li: int|
            0 <= li < stage.parallel@[v].meta.after@.len() && stage.parallel@[
                u].meta.labels@.contains(#[trigger] stage.parallel@[v].meta.after@[li])
        ||| exists|li: int|
            0 <= li < stage.parallel@[u].meta.before@.len() && stage.parallel@[
                v].meta.labels@.contains(#[trigger] stage.parallel@[u].meta.before@[li])
    }
}

/// Member `s` of `stuck` waits, through a label-declared ordering, on some
/// member of `stuck`.
pub open spec fn sp_waits_on_stuck(stage: SystemStage, stuck: Seq<usize>, s: int) -> bool {
    exists|p: int|
        0 <= p < stuck.len() && sp_label_edge(
            stage,
            #[trigger] stuck[p] as int,
            stuck[s] as int,
        )
}

/// Every member of `stuck` waits, through a label-declared ordering, on
/// another member of `stuck`: the witness of a genuine ordering cycle.
pub open spec fn sp_stuck_set(stage: SystemStage, stuck: Seq<usize>) -> bool {
    forall|s: int|
        0 <= s < stuck.len() ==> #[trigger] sp_waits_on_stuck(stage, stuck, s)
}

/// The computed order puts `u` before `v` whenever a label of `v` says it
/// runs after `u`, or a label of `u` says it runs before `v`.
pub open spec fn sp_order_respects_labels(stage: SystemStage) -> bool {
    forall|u: int, v: int, p: int, q: int|
        sp_label_edge(stage, u, v) && 0 <= p < stage.order@.len() && 0 <= q < stage.order@.len()
            && stage.order@[p] == u as usize && stage.order@[q] == v as usize ==> p < q
}

/// The two stages hold the same systems: same parallel systems (work,
/// access, name, labels, criteria slots), same exclusive systems in the
/// same groups, and the same criteria rules and labels; only the recorded
/// verdicts, the per-system run flags and the computed order may differ.
pub open spec fn sp_same_systems(a: SystemStage, b: SystemStage) -> bool {
    &&& a.parallel@.len() == b.parallel@.len()
    &&& forall|k: int|
        0 <= k < a.parallel@.len() ==> (#[trigger] a.parallel@[k]).system == b.parallel@[k].system
            && a.parallel@[k].meta == b.parallel@[k].meta && a.parallel@[k].run_criteria_meta
            == b.parallel@[k].run_criteria_meta
    &&& a.exclusive_at_start == b.exclusive_at_start
    &&& a.exclusive_before_commands == b.exclusive_before_commands
    &&& a.exclusive_at_end == b.exclusive_at_end
    &&& a.run_criteria@.len() == b.run_criteria@.len()
    &&& forall|k: int|
        0 <= k < a.run_criteria@.len() ==> (#[trigger] a.run_criteria@[k]).rule
            == b.run_criteria@[k].rule && a.run_criteria@[k].label == b.run_criteria@[k].label
}

/// Everything the stage will run this tick, in execution order.
pub open spec fn sp_stage_works(stage: SystemStage) -> Seq<SystemWork> {
    sp_exclusive_works(stage.exclusive_at_start@, stage.run_criteria@) + sp_selected_works(
        stage.parallel@,
        stage.order@,
    ) + sp_exclusive_works(stage.exclusive_before_commands@, stage.run_criteria@)
        + sp_exclusive_works(stage.exclusive_at_end@, stage.run_criteria@)
}


/// A chain of label-declared orderings from `path[0]` to the last element.
pub open spec fn sp_label_path(stage: SystemStage, path: Seq<int>) -> bool {
    &&& path.len() >= 2
    &&& forall|k: int|
        0 <= k < path.len() - 1 ==> sp_label_edge(stage, #[trigger] path[k], path[k + 1])
}

/// The computed order respects orderings declared directly or transitively
/// through labels: along any chain of label-declared constraints, the first
/// system runs before the last.
pub proof fn lemma_order_respects_label_chains(
    stage: SystemStage,
    path: Seq<int>,
    p: int,
    q: int,
)
    requires
        sp_order_respects_labels(stage),
        forall|x: usize|
            (x as int) < stage.parallel@.len() ==> stage.order@.contains(x),
        sp_label_path(stage, path),
        0 <= p < stage.order@.len(),
        0 <= q < stage.order@.len(),
        stage.order@[p] == path[0] as usize,
        stage.order@[q] == path.last() as usize,
        forall|k: int| 0 <= k < path.len() ==> 0 <= #[trigger] path[k],
    ensures
        p < q,
    decreases path.len(),
{
    if path.len() == 2 {
        assert(sp_label_edge(stage, path[0], path[1]));
    } else {
        let mid = path[1];
        assert(sp_label_edge(stage, path[0], path[1]));
        assert(mid < stage.parallel@.len());
        assert(stage.order@.contains(mid as usize));
        let m = choose|m: int| 0 <= m < stage.order@.len() && stage.order@[m] == mid as usize;
        assert(p < m);
        let rest = path.drop_first();
        assert(rest.len() >= 2);
        assert forall|k: int|
            0 <= k < rest.len() - 1 implies sp_label_edge(stage, #[trigger] rest[k], rest[k + 1]) by {
            assert(rest[k] == path[k + 1]);
            assert(rest[k + 1] == path[k + 2]);
            assert(sp_label_edge(stage, path[k + 1], path[k + 2]));
        }
        assert(rest[0] == mid);
        assert(rest.last() == path.last());
        lemma_order_respects_label_chains(stage, rest, m, q);
    }
}

impl SystemStage {
    /// Is there a label-declared constraint that `u` runs before `v`?
    pub fn has_label_edge(&self, u: usize, v: usize) -> (r: bool)
        requires
            (u as int) < self.parallel@.len(),
            (v as int) < self.parallel@.len(),
        ensures
            r == sp_label_edge(*self, u as int, v as int),
    {
        let na = self.parallel[v].meta.after.len();
        let mut li: usize = 0;
        while li < na
            invariant
                li <= na,
                (u as int) < self.parallel@.len(),
                (v as int) < self.parallel@.len(),
                na == self.parallel@[v as int].meta.after@.len(),
                forall|k: int|
                    0 <= k < li ==> !self.parallel@[u as int].meta.labels@.contains(
                        #[trigger] self.parallel@[v as int].meta.after@[k],
                    ),
            decreases na - li,
        {
            if labels_contain(&self.parallel[u].meta.labels, self.parallel[v].meta.after[li]) {
                proof {
                    assert((li as int) < self.parallel@[v as int].meta.after@.len());
                    assert(self.parallel@[u as int].meta.labels@.contains(
                        self.parallel@[v as int].meta.after@[li as int],
                    ));
                }
                return true;
            }
            li += 1;
        }
        let nb = self.parallel[u].meta.before.len();
        let mut lj: usize = 0;
        while lj < nb
            invariant
                lj <= nb,
                (u as int) < self.parallel@.len(),
                (v as int) < self.parallel@.len(),
                nb == self.parallel@[u as int].meta.before@.len(),
                forall|k: int|
                    0 <= k < self.parallel@[v as int].meta.after@.len()
                        ==> !self.parallel@[u as int].meta.labels@.contains(
                        #[trigger] self.parallel@[v as int].meta.after@[k],
                    ),
                forall|k: int|
                    0 <= k < lj ==> !self.parallel@[v as int].meta.labels@.contains(
                        #[trigger] self.parallel@[u as int].meta.before@[k],
                    ),
            decreases nb - lj,
        {
            if labels_contain(&self.parallel[v].meta.labels, self.parallel[u].meta.before[lj]) {
                proof {
                    assert((lj as int) < self.parallel@[u as int].meta.before@.len());
                    assert(self.parallel@[v as int].meta.labels@.contains(
                        self.parallel@[u as int].meta.before@[lj as int],
                    ));
                }
                return true;
            }
            lj += 1;
        }
        false
    }

    /// The pairs of parallel systems that are ambiguous: no label-declared
    /// order between them in either direction, their accesses collide, and
    /// they share no ambiguity set. A developer diagnostic: execution still
    /// proceeds in the computed order.
    pub fn find_ambiguities(&self) -> (r: Vec<(usize, usize)>)
        ensures
            forall|i: usize, j: usize|
                r@.contains((i, j)) == sp_ambiguous_pair(*self, i as int, j as int),
    {
        let n = self.parallel.len();
        let mut out: Vec<(usize, usize)> = Vec::new();
        let mut i: usize = 0;
        while i < n
            invariant
                i <= n,
                n == self.parallel@.len(),
                forall|i2: usize, j2: usize| #![trigger out@.contains((i2, j2))]
                    out@.contains((i2, j2)) == (sp_ambiguous_pair(*self, i2 as int, j2 as int)
                        && i2 < i),
            decreases n - i,
        {
            let mut j: usize = i + 1;
            while j < n
                invariant
                    i < j,
                    j <= n,
                    i < n,
                    n == self.parallel@.len(),
                    forall|i2: usize, j2: usize| #![trigger out@.contains((i2, j2))]
                        out@.contains((i2, j2)) == (sp_ambiguous_pair(*self, i2 as int, j2 as int)
                            && (i2 < i || (i2 == i && j2 < j))),
                decreases n - j,
            {
                let ambiguous = !self.has_label_edge(i, j) && !self.has_label_edge(j, i)
                    && !self.parallel[i].system.access.is_compatible(&self.parallel[j].system.access)
                    && !ambiguity_sets_intersect(
                    &self.parallel[i].meta.ambiguity_sets,
                    &self.parallel[j].meta.ambiguity_sets,
                );
                proof {
                    assert(ambiguous == sp_ambiguous_pair(*self, i as int, j as int));
                }
                let ghost prev = out@;
                if ambiguous {
                    out.push((i, j));
                    proof {
                        assert(out@[out@.len() - 1] == (i, j));
                        assert forall|i2: usize, j2: usize| #![trigger out@.contains((i2, j2))]
                            out@.contains((i2, j2)) == (prev.contains((i2, j2)) || (i2 == i && j2
                                == j)) by {
                            if out@.contains((i2, j2)) {
                                let k = choose|k: int|
                                    0 <= k < out@.len() && out@[k] == (i2, j2);
                                if k < prev.len() {
                                    assert(prev[k] == (i2, j2));
                                    assert(prev.contains((i2, j2)));
                                }
                            }
                            if prev.contains((i2, j2)) {
                                let k = choose|k: int|
                                    0 <= k < prev.len() && prev[k] == (i2, j2);
                                assert(out@[k] == (i2, j2));
                            }
                            if i2 == i && j2 == j {
                                assert(out@.contains((i2, j2)));
                            }
                        }
                    }
                }
                j += 1;
            }
            i += 1;
        }
        out
    }
}

/// Two parallel systems are ambiguous when no label orders them either way,
/// their accesses collide, and no shared ambiguity set excuses them.
pub open spec fn sp_ambiguous_pair(stage: SystemStage, i: int, j: int) -> bool {
    &&& 0 <= i < j < stage.parallel@.len()
    &&& !sp_label_edge(stage, i, j)
    &&& !sp_label_edge(stage, j, i)
    &&& !Access::sp_compatible(
        stage.parallel@[i].system.access,
        stage.parallel@[j].system.access,
    )
    &&& !(exists|x: crate::label::AmbiguitySetLabelId|
        stage.parallel@[i].meta.ambiguity_sets@.contains(x)
            && stage.parallel@[j].meta.ambiguity_sets@.contains(x))
}

} // verus!
