//! Type-erased labels. A label is the identity token systems, stages, run
//! criteria and ambiguity sets use to refer to each other without knowing
//! each other. Each label is a pair of small integers: a key standing for
//! the label's type and a key standing for its value; equality and hashing
//! use both jointly, and stay stable for the life of the process.

use vstd::prelude::*;

verus! {

/// Identifier of a system label.
#[derive(Clone, Copy, PartialEq, Eq, Structural, Hash, Debug)]
pub struct SystemLabelId {
    pub type_key: u64,
    pub name_key: u64,
}

/// Identifier of a stage label.
#[derive(Clone, Copy, PartialEq, Eq, Structural, Hash, Debug)]
pub struct StageLabelId {
    pub type_key: u64,
    pub name_key: u64,
}

/// Identifier of a run-criteria label.
#[derive(Clone, Copy, PartialEq, Eq, Structural, Hash, Debug)]
pub struct RunCriteriaLabelId {
    pub type_key: u64,
    pub name_key: u64,
}

/// Identifier of an ambiguity-set label.
#[derive(Clone, Copy, PartialEq, Eq, Structural, Hash, Debug)]
pub struct AmbiguitySetLabelId {
    pub type_key: u64,
    pub name_key: u64,
}

/// Equality usable across label kinds: what a label type must answer so
/// that two labels can be compared without knowing their concrete type.
pub trait DynEq: Sized {
    /// The identity this label compares by.
    spec fn sp_eq_key(self) -> (u64, u64);

    /// Are the two labels the same?
    fn dyn_eq(&self, other: &Self) -> (r: bool)
        ensures
            r == (self.sp_eq_key() == other.sp_eq_key()),
    ;
}

/// Hashing usable across label kinds: equal labels hash equally, because
/// the hash is a function of the same identity equality compares by.
pub trait DynHash: DynEq {
    /// A stable hash of the label's identity.
    fn dyn_hash(&self) -> (r: u64)
        ensures
            r == Self::sp_hash_of(self.sp_eq_key()),
    ;

    /// The hash as a function of the identity alone.
    spec fn sp_hash_of(key: (u64, u64)) -> u64;
}

impl DynEq for SystemLabelId {
    open spec fn sp_eq_key(self) -> (u64, u64) {
        (self.type_key, self.name_key)
    }

    fn dyn_eq(&self, other: &Self) -> (r: bool) {
        self.type_key == other.type_key && self.name_key == other.name_key
    }
}

impl DynHash for SystemLabelId {
    open spec fn sp_hash_of(key: (u64, u64)) -> u64 {
        (key.0 ^ key.1) as u64
    }

    fn dyn_hash(&self) -> (r: u64) {
        self.type_key ^ self.name_key
    }
}

impl DynEq for AmbiguitySetLabelId {
    open spec fn sp_eq_key(self) -> (u64, u64) {
        (self.type_key, self.name_key)
    }

    fn dyn_eq(&self, other: &Self) -> (r: bool) {
        self.type_key == other.type_key && self.name_key == other.name_key
    }
}

/// Equal labels hash equally.
pub proof fn lemma_dyn_hash_respects_eq(a: SystemLabelId, b: SystemLabelId)
    ensures
        a.sp_eq_key() == b.sp_eq_key() ==> SystemLabelId::sp_hash_of(a.sp_eq_key())
            == SystemLabelId::sp_hash_of(b.sp_eq_key()),
{
}

/// Does the list contain the label?
pub fn labels_contain(v: &Vec<SystemLabelId>, l: SystemLabelId) -> (r: bool)
    ensures
        r == v@.contains(l),
{
    let mut k: usize = 0;
    while k < v.len()
        invariant
            k <= v@.len(),
            forall|j: int| 0 <= j < k ==> v@[j] != l,
        decreases v@.len() - k,
    {
        if v[k].type_key == l.type_key && v[k].name_key == l.name_key {
            proof {
                assert(v@[k as int] == l);
            }
            return true;
        }
        k += 1;
    }
    false
}

/// Do the two lists share a label?
pub fn ambiguity_sets_intersect(a: &Vec<AmbiguitySetLabelId>, b: &Vec<AmbiguitySetLabelId>) -> (r:
    bool)
    ensures
        r == exists|x: AmbiguitySetLabelId| a@.contains(x) && b@.contains(x),
{
    let mut k: usize = 0;
    while k < a.len()
        invariant
            k <= a@.len(),
            forall|j: int| 0 <= j < k ==> !b@.contains(#[trigger] a@[j]),
        decreases a@.len() - k,
    {
        let x = a[k];
        let mut j: usize = 0;
        let mut found = false;
        while j < b.len()
            invariant
                j <= b@.len(),
                found == exists|p: int| 0 <= p < j && b@[p] == x,
            decreases b@.len() - j,
        {
            if b[j].type_key == x.type_key && b[j].name_key == x.name_key {
                proof {
                    assert(b@[j as int] == x);
                }
                found = true;
            }
            j += 1;
        }
        if found {
            proof {
                assert(a@[k as int] == x);
                assert(a@.contains(x));
                let p = choose|p: int| 0 <= p < b@.len() && b@[p] == x;
                assert(b@.contains(x));
            }
            return true;
        }
        proof {
            if b@.contains(x) {
                let p = choose|p: int| 0 <= p < b@.len() && b@[p] == x;
            }
        }
        k += 1;
    }
    proof {
        if exists|x: AmbiguitySetLabelId| a@.contains(x) && b@.contains(x) {
            let x = choose|x: AmbiguitySetLabelId| a@.contains(x) && b@.contains(x);
            let j = choose|j: int| 0 <= j < a@.len() && a@[j] == x;
        }
    }
    false
}

} // verus!
