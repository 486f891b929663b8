//! Read/write access descriptors. Each system and each query declares the
//! component and resource ids it reads and writes; two descriptors conflict
//! on an id when one side writes it and the other side reads or writes it.
//! Conflict detection over these sets is the engine's whole locking
//! discipline: write access is exclusive, and the scheduler never lets two
//! conflicting descriptors run at the same time.
//!
//! Ids are handed in as plain indices (`ComponentId::index` or
//! `ArchetypeComponentId::index`), so the same descriptor type serves both
//! the coarse per-component check and the finer per-archetype check.

use vstd::prelude::*;

verus! {

/// Membership of index `i` in a growable bit vector.
pub open spec fn bit_at(s: Seq<bool>, i: int) -> bool {
    0 <= i < s.len() && s[i]
}

/// Is `i` set in the bit vector?
fn bitset_contains(v: &Vec<bool>, i: usize) -> (r: bool)
    ensures
        r == bit_at(v@, i as int),
{
    i < v.len() && v[i]
}

/// Set bit `i`, growing the vector as needed.
fn bitset_insert(v: &mut Vec<bool>, i: usize)
    ensures
        forall|j: int| bit_at(final(v)@, j) == (bit_at(old(v)@, j) || j == i as int),
{
    while v.len() <= i
        invariant
            forall|j: int| bit_at(v@, j) == bit_at(old(v)@, j),
        decreases i + 1 - v.len(),
    {
        v.push(false);
    }
    v.set(i, true);
}

/// Do two bit vectors share no set bit?
fn bitset_disjoint(a: &Vec<bool>, b: &Vec<bool>) -> (r: bool)
    ensures
        r == forall|j: int| !(bit_at(a@, j) && bit_at(b@, j)),
{
    let mut i: usize = 0;
    while i < a.len()
        invariant
            i <= a.len(),
            forall|j: int| j < i ==> !(bit_at(a@, j) && bit_at(b@, j)),
        decreases a.len() - i,
    {
        if a[i] && bitset_contains(b, i) {
            return false;
        }
        i += 1;
    }
    true
}

/// The union of two bit vectors, as a fresh bit vector.
fn bitset_union(a: &Vec<bool>, b: &Vec<bool>) -> (r: Vec<bool>)
    ensures
        forall|j: int| bit_at(r@, j) == (bit_at(a@, j) || bit_at(b@, j)),
{
    let n = if a.len() >= b.len() {
        a.len()
    } else {
        b.len()
    };
    let mut r: Vec<bool> = Vec::new();
    let mut i: usize = 0;
    while i < n
        invariant
            i <= n,
            n >= a.len(),
            n >= b.len(),
            r@.len() == i,
            forall|j: int| bit_at(r@, j) == (j < i && (bit_at(a@, j) || bit_at(b@, j))),
        decreases n - i,
    {
        r.push(bitset_contains(a, i) || bitset_contains(b, i));
        i += 1;
    }
    proof {
        assert(forall|j: int| j >= n ==> !bit_at(a@, j) && !bit_at(b@, j));
    }
    r
}

/// The declared read/write set of one system, query or parameter list.
/// `reads_and_writes` holds every id touched at all, `writes` the ids
/// touched exclusively; `reads_all` marks a descriptor that reads the whole
/// world (it still conflicts with any write).
#[derive(Clone, Debug)]
pub struct Access {
    reads_all: bool,
    reads_and_writes: Vec<bool>,
    writes: Vec<bool>,
}

impl Access {
    /// Does the descriptor write id `i`?
    pub closed spec fn sp_has_write(self, i: int) -> bool {
        bit_at(self.writes@, i)
    }

    /// Does the descriptor read id `i` (a write counts as a read)?
    pub closed spec fn sp_has_read(self, i: int) -> bool {
        self.reads_all || bit_at(self.reads_and_writes@, i)
    }

    /// Is id `i` among the ids the descriptor names at all?
    pub closed spec fn sp_declares(self, i: int) -> bool {
        bit_at(self.reads_and_writes@, i)
    }

    /// Does the descriptor read everything?
    pub closed spec fn sp_reads_all(self) -> bool {
        self.reads_all
    }

    /// Ids `i` on which the two descriptors collide: one side writes `i`
    /// while the other reads or writes it, or one side reads the whole
    /// world while the other writes anything.
    pub open spec fn sp_conflicts_at(a: Access, b: Access, i: int) -> bool {
        ||| (a.sp_reads_all() && b.sp_has_write(i))
        ||| (b.sp_reads_all() && a.sp_has_write(i))
        ||| (a.sp_has_write(i) && b.sp_declares(i))
        ||| (a.sp_declares(i) && b.sp_has_write(i))
    }

    /// Two descriptors may be held at the same time exactly when they
    /// collide on no id.
    pub open spec fn sp_compatible(a: Access, b: Access) -> bool {
        forall|i: int| !Access::sp_conflicts_at(a, b, i)
    }

    /// An empty descriptor: reads nothing, writes nothing.
    pub fn new() -> (r: Access)
        ensures
            !r.sp_reads_all(),
            forall|i: int| !r.sp_declares(i) && !r.sp_has_write(i),
    {
        Access { reads_all: false, reads_and_writes: Vec::new(), writes: Vec::new() }
    }

    /// Declare shared access to id `i`.
    pub fn add_read(&mut self, i: usize)
        ensures
            forall|j: int| final(self).sp_declares(j) == (old(self).sp_declares(j) || j == i as int),
            forall|j: int| final(self).sp_has_write(j) == old(self).sp_has_write(j),
            final(self).sp_reads_all() == old(self).sp_reads_all(),
    {
        bitset_insert(&mut self.reads_and_writes, i);
    }

    /// Declare exclusive access to id `i`.
    pub fn add_write(&mut self, i: usize)
        ensures
            forall|j: int| final(self).sp_declares(j) == (old(self).sp_declares(j) || j == i as int),
            forall|j: int| final(self).sp_has_write(j) == (old(self).sp_has_write(j) || j == i as int),
            final(self).sp_reads_all() == old(self).sp_reads_all(),
    {
        bitset_insert(&mut self.reads_and_writes, i);
        bitset_insert(&mut self.writes, i);
    }

    /// Does the descriptor read id `i`? A write and `read_all` both count.
    pub fn has_read(&self, i: usize) -> (r: bool)
        ensures
            r == self.sp_has_read(i as int),
            r == (self.sp_reads_all() || self.sp_declares(i as int)),
    {
        self.reads_all || bitset_contains(&self.reads_and_writes, i)
    }

    /// Does the descriptor write id `i`?
    pub fn has_write(&self, i: usize) -> (r: bool)
        ensures
            r == self.sp_has_write(i as int),
    {
        bitset_contains(&self.writes, i)
    }

    /// Declare shared access to everything.
    pub fn read_all(&mut self)
        ensures
            final(self).sp_reads_all(),
            forall|j: int| final(self).sp_declares(j) == old(self).sp_declares(j),
            forall|j: int| final(self).sp_has_write(j) == old(self).sp_has_write(j),
    {
        self.reads_all = true;
    }

    /// A fresh copy of this descriptor.
    pub fn clone_access(&self) -> (r: Access)
        ensures
            r.sp_reads_all() == self.sp_reads_all(),
            forall|j: int| r.sp_declares(j) == self.sp_declares(j),
            forall|j: int| r.sp_has_write(j) == self.sp_has_write(j),
    {
        Access {
            reads_all: self.reads_all,
            reads_and_writes: copy_bits(&self.reads_and_writes),
            writes: copy_bits(&self.writes),
        }
    }

    /// This descriptor with shared access to id `i` added, as a fresh
    /// descriptor.
    pub fn with_read(&self, i: usize) -> (r: Access)
        ensures
            r.sp_reads_all() == self.sp_reads_all(),
            forall|j: int| r.sp_declares(j) == (self.sp_declares(j) || j == i as int),
            forall|j: int| r.sp_has_write(j) == self.sp_has_write(j),
    {
        let mut a = self.clone_access();
        a.add_read(i);
        a
    }

    /// This descriptor with exclusive access to id `i` added, as a fresh
    /// descriptor.
    pub fn with_write(&self, i: usize) -> (r: Access)
        ensures
            r.sp_reads_all() == self.sp_reads_all(),
            forall|j: int| r.sp_declares(j) == (self.sp_declares(j) || j == i as int),
            forall|j: int| r.sp_has_write(j) == (self.sp_has_write(j) || j == i as int),
    {
        let mut a = self.clone_access();
        a.add_write(i);
        a
    }

    /// Forget every declared access.
    pub fn clear(&mut self)
        ensures
            !final(self).sp_reads_all(),
            forall|i: int| !final(self).sp_declares(i) && !final(self).sp_has_write(i),
    {
        self.reads_all = false;
        self.reads_and_writes = Vec::new();
        self.writes = Vec::new();
    }

    /// The union of this descriptor and `other`, as a fresh descriptor.
    pub fn union_with(&self, other: &Access) -> (r: Access)
        ensures
            r.sp_reads_all() == (self.sp_reads_all() || other.sp_reads_all()),
            forall|j: int| r.sp_declares(j) == (self.sp_declares(j) || other.sp_declares(j)),
            forall|j: int| r.sp_has_write(j) == (self.sp_has_write(j) || other.sp_has_write(j)),
    {
        Access {
            reads_all: self.reads_all || other.reads_all,
            reads_and_writes: bitset_union(&self.reads_and_writes, &other.reads_and_writes),
            writes: bitset_union(&self.writes, &other.writes),
        }
    }

    /// Fold every access declared by `other` into `self`.
    pub fn extend(&mut self, other: &Access)
        ensures
            final(self).sp_reads_all() == (old(self).sp_reads_all() || other.sp_reads_all()),
            forall|j: int|
                final(self).sp_declares(j) == (old(self).sp_declares(j) || other.sp_declares(j)),
            forall|j: int|
                final(self).sp_has_write(j) == (old(self).sp_has_write(j) || other.sp_has_write(j)),
    {
        self.reads_and_writes = bitset_union(&self.reads_and_writes, &other.reads_and_writes);
        self.writes = bitset_union(&self.writes, &other.writes);
        self.reads_all = self.reads_all || other.reads_all;
    }

    /// May the two descriptors be held at the same time?
    pub fn is_compatible(&self, other: &Access) -> (r: bool)
        ensures
            r == Access::sp_compatible(*self, *other),
    {
        let c1 = !self.reads_all || bitset_is_empty(&other.writes);
        let c2 = !other.reads_all || bitset_is_empty(&self.writes);
        let c3 = bitset_disjoint(&self.writes, &other.reads_and_writes);
        let c4 = bitset_disjoint(&self.reads_and_writes, &other.writes);
        let r = c1 && c2 && c3 && c4;
        proof {
            if r {
                assert forall|i: int| !Access::sp_conflicts_at(*self, *other, i) by {}
            } else {
                if !c1 {
                    let j = choose|j: int| bit_at(other.writes@, j);
                    assert(Access::sp_conflicts_at(*self, *other, j));
                } else if !c2 {
                    let j = choose|j: int| bit_at(self.writes@, j);
                    assert(Access::sp_conflicts_at(*self, *other, j));
                } else if !c3 {
                    let j = choose|j: int| bit_at(self.writes@, j) && bit_at(
                        other.reads_and_writes@,
                        j,
                    );
                    assert(Access::sp_conflicts_at(*self, *other, j));
                } else {
                    let j = choose|j: int| bit_at(self.reads_and_writes@, j) && bit_at(
                        other.writes@,
                        j,
                    );
                    assert(Access::sp_conflicts_at(*self, *other, j));
                }
            }
        }
        r
    }

    /// The ids on which the two descriptors collide, each listed once in
    /// increasing order.
    pub fn get_conflicts(&self, other: &Access) -> (r: Vec<usize>)
        ensures
            forall|id: usize| r@.contains(id) == Access::sp_conflicts_at(*self, *other, id as int),
            forall|p: int, q: int| 0 <= p < q < r@.len() ==> r@[p] < r@[q],
    {
        let mut out: Vec<usize> = Vec::new();
        let mut i: usize = 0;
        let n1 = if self.reads_and_writes.len() >= other.reads_and_writes.len() {
            self.reads_and_writes.len()
        } else {
            other.reads_and_writes.len()
        };
        let n2 = if self.writes.len() >= other.writes.len() {
            self.writes.len()
        } else {
            other.writes.len()
        };
        let n = if n1 >= n2 {
            n1
        } else {
            n2
        };
        while i < n
            invariant
                i <= n,
                n >= self.reads_and_writes.len(),
                n >= other.reads_and_writes.len(),
                n >= self.writes.len(),
                n >= other.writes.len(),
                forall|k: int|
                    0 <= k < out@.len() ==> Access::sp_conflicts_at(
                        *self,
                        *other,
                        #[trigger] out@[k] as int,
                    ) && out@[k] < i,
                forall|id: usize|
                    id < i && Access::sp_conflicts_at(*self, *other, id as int)
                        ==> out@.contains(id),
                forall|p: int, q: int| 0 <= p < q < out@.len() ==> out@[p] < out@[q],
            decreases n - i,
        {
            let here = (self.reads_all && bitset_contains(&other.writes, i)) || (other.reads_all
                && bitset_contains(&self.writes, i)) || (bitset_contains(&self.writes, i)
                && bitset_contains(&other.reads_and_writes, i)) || (bitset_contains(
                &self.reads_and_writes,
                i,
            ) && bitset_contains(&other.writes, i));
            proof {
                assert(here == Access::sp_conflicts_at(*self, *other, i as int));
            }
            if here {
                let ghost prev = out@;
                out.push(i);
                proof {
                    assert(out@ == prev.push(i));
                    assert(forall|id: usize| prev.contains(id) ==> out@.contains(id)) by {
                        assert(forall|k: int| 0 <= k < prev.len() ==> out@[k] == prev[k]);
                    }
                    assert(out@[out@.len() - 1] == i);
                    assert(out@.contains(i));
                }
            }
            i += 1;
        }
        proof {
            assert(forall|id: usize|
                id >= n ==> !Access::sp_conflicts_at(*self, *other, id as int));
            assert forall|id: usize|
                out@.contains(id) implies Access::sp_conflicts_at(*self, *other, id as int) by {
                let k = choose|k: int| 0 <= k < out@.len() && out@[k] == id;
            }
        }
        out
    }
}

/// Is no bit set at all?
fn bitset_is_empty(v: &Vec<bool>) -> (r: bool)
    ensures
        r == forall|j: int| !bit_at(v@, j),
{
    let mut i: usize = 0;
    while i < v.len()
        invariant
            i <= v.len(),
            forall|j: int| j < i ==> !bit_at(v@, j),
        decreases v.len() - i,
    {
        if v[i] {
            proof {
                assert(bit_at(v@, i as int));
            }
            return false;
        }
        i += 1;
    }
    true
}

/// An access set refined by query filters: besides the ids read and
/// written, it records the ids required present (`with`) and required
/// absent (`without`). Two filtered accesses whose filters prove them
/// disjoint may conflict on paper yet never touch the same archetype, so
/// they count as compatible.
#[derive(Clone, Debug)]
pub struct FilteredAccess {
    access: Access,
    with_ids: Vec<bool>,
    without_ids: Vec<bool>,
}

impl FilteredAccess {
    /// The plain access part.
    pub closed spec fn sp_access(self) -> Access {
        self.access
    }

    /// Must id `i` be present for the query to match?
    pub closed spec fn sp_with(self, i: int) -> bool {
        bit_at(self.with_ids@, i)
    }

    /// Must id `i` be absent for the query to match?
    pub closed spec fn sp_without(self, i: int) -> bool {
        bit_at(self.without_ids@, i)
    }

    /// Do the filters alone prove the two queries disjoint: one requires an
    /// id the other excludes?
    pub open spec fn sp_filters_disjoint(a: FilteredAccess, b: FilteredAccess) -> bool {
        exists|i: int| (a.sp_with(i) && b.sp_without(i)) || (b.sp_with(i) && a.sp_without(i))
    }

    /// Compatible: the accesses do not collide, or the filters prove the
    /// queries disjoint.
    pub open spec fn sp_compatible(a: FilteredAccess, b: FilteredAccess) -> bool {
        Access::sp_compatible(a.sp_access(), b.sp_access()) || FilteredAccess::sp_filters_disjoint(
            a,
            b,
        )
    }

    /// An empty filtered access.
    pub fn new() -> (r: FilteredAccess)
        ensures
            !r.sp_access().sp_reads_all(),
            forall|i: int| !r.sp_access().sp_declares(i),
            forall|i: int| !r.sp_access().sp_has_write(i),
            forall|i: int| !r.sp_with(i),
            forall|i: int| !r.sp_without(i),
    {
        FilteredAccess { access: Access::new(), with_ids: Vec::new(), without_ids: Vec::new() }
    }

    /// A borrow of the plain access part.
    pub fn access(&self) -> (r: &Access)
        ensures
            *r == self.sp_access(),
    {
        &self.access
    }

    /// Declare shared access to id `i`; the id is also required present.
    pub fn add_read(&mut self, i: usize)
        ensures
            final(self).sp_access().sp_reads_all() == old(self).sp_access().sp_reads_all(),
            forall|j: int|
                final(self).sp_access().sp_declares(j) == (old(self).sp_access().sp_declares(j)
                    || j == i as int),
            forall|j: int|
                final(self).sp_access().sp_has_write(j) == old(self).sp_access().sp_has_write(j),
            forall|j: int| final(self).sp_with(j) == (old(self).sp_with(j) || j == i as int),
            forall|j: int| final(self).sp_without(j) == old(self).sp_without(j),
    {
        self.access.add_read(i);
        bitset_insert(&mut self.with_ids, i);
    }

    /// Declare exclusive access to id `i`; the id is also required present.
    pub fn add_write(&mut self, i: usize)
        ensures
            final(self).sp_access().sp_reads_all() == old(self).sp_access().sp_reads_all(),
            forall|j: int|
                final(self).sp_access().sp_declares(j) == (old(self).sp_access().sp_declares(j)
                    || j == i as int),
            forall|j: int|
                final(self).sp_access().sp_has_write(j) == (old(self).sp_access().sp_has_write(j)
                    || j == i as int),
            forall|j: int| final(self).sp_with(j) == (old(self).sp_with(j) || j == i as int),
            forall|j: int| final(self).sp_without(j) == old(self).sp_without(j),
    {
        self.access.add_write(i);
        bitset_insert(&mut self.with_ids, i);
    }

    /// Require id `i` present without reading it.
    pub fn add_with(&mut self, i: usize)
        ensures
            final(self).sp_access() == old(self).sp_access(),
            forall|j: int| final(self).sp_with(j) == (old(self).sp_with(j) || j == i as int),
            forall|j: int| final(self).sp_without(j) == old(self).sp_without(j),
    {
        bitset_insert(&mut self.with_ids, i);
    }

    /// Require id `i` absent.
    pub fn add_without(&mut self, i: usize)
        ensures
            final(self).sp_access() == old(self).sp_access(),
            forall|j: int| final(self).sp_with(j) == old(self).sp_with(j),
            forall|j: int| final(self).sp_without(j) == (old(self).sp_without(j) || j == i as int),
    {
        bitset_insert(&mut self.without_ids, i);
    }

    /// Declare shared access to everything.
    pub fn read_all(&mut self)
        ensures
            final(self).sp_access().sp_reads_all(),
            forall|j: int|
                final(self).sp_access().sp_declares(j) == old(self).sp_access().sp_declares(j),
            forall|j: int|
                final(self).sp_access().sp_has_write(j) == old(self).sp_access().sp_has_write(j),
            forall|j: int| final(self).sp_with(j) == old(self).sp_with(j),
            forall|j: int| final(self).sp_without(j) == old(self).sp_without(j),
    {
        self.access.read_all();
    }

    /// May the two queries be alive at the same time?
    pub fn is_compatible(&self, other: &FilteredAccess) -> (r: bool)
        ensures
            r == FilteredAccess::sp_compatible(*self, *other),
    {
        if self.access.is_compatible(&other.access) {
            return true;
        }
        let w1 = bitset_meet(&self.with_ids, &other.without_ids);
        if w1 {
            proof {
                let j = choose|j: int| bit_at(self.with_ids@, j) && bit_at(other.without_ids@, j);
                assert(self.sp_with(j) && other.sp_without(j));
            }
            return true;
        }
        let w2 = bitset_meet(&other.with_ids, &self.without_ids);
        proof {
            if w2 {
                let j = choose|j: int| bit_at(other.with_ids@, j) && bit_at(self.without_ids@, j);
                assert(other.sp_with(j) && self.sp_without(j));
            } else {
                assert forall|i: int|
                    !((self.sp_with(i) && other.sp_without(i)) || (other.sp_with(i)
                        && self.sp_without(i))) by {}
            }
        }
        w2
    }

    /// A fresh copy of this filtered access, equivalent bit for bit.
    pub fn duplicate(&self) -> (r: FilteredAccess)
        ensures
            sp_filtered_equiv(*self, r),
    {
        FilteredAccess {
            access: self.access.clone_access(),
            with_ids: copy_bits(&self.with_ids),
            without_ids: copy_bits(&self.without_ids),
        }
    }

    /// The ids on which the two queries collide: empty when compatible,
    /// else the ids where one writes and the other reads or writes.
    pub fn get_conflicts(&self, other: &FilteredAccess) -> (r: Vec<usize>)
        ensures
            forall|id: usize|
                r@.contains(id) == (!FilteredAccess::sp_compatible(*self, *other)
                    && Access::sp_conflicts_at(self.sp_access(), other.sp_access(), id as int)),
    {
        if self.is_compatible(other) {
            Vec::new()
        } else {
            self.access.get_conflicts(&other.access)
        }
    }
}

/// Do the two descriptors agree on every declared bit, filter bit and the
/// read-everything flag?
pub open spec fn sp_filtered_equiv(a: FilteredAccess, b: FilteredAccess) -> bool {
    &&& a.sp_access().sp_reads_all() == b.sp_access().sp_reads_all()
    &&& forall|i: int| a.sp_access().sp_declares(i) == b.sp_access().sp_declares(i)
    &&& forall|i: int| a.sp_access().sp_has_write(i) == b.sp_access().sp_has_write(i)
    &&& forall|i: int| a.sp_with(i) == b.sp_with(i)
    &&& forall|i: int| a.sp_without(i) == b.sp_without(i)
}

/// Equivalent descriptors are compatible with exactly the same things.
pub proof fn lemma_equiv_compatible(a: FilteredAccess, a2: FilteredAccess, b: FilteredAccess)
    requires
        sp_filtered_equiv(a, a2),
    ensures
        FilteredAccess::sp_compatible(a2, b) == FilteredAccess::sp_compatible(a, b),
        FilteredAccess::sp_compatible(b, a2) == FilteredAccess::sp_compatible(b, a),
{
    assert(forall|i: int|
        Access::sp_conflicts_at(a2.sp_access(), b.sp_access(), i) == Access::sp_conflicts_at(
            a.sp_access(),
            b.sp_access(),
            i,
        ));
    assert(forall|i: int|
        Access::sp_conflicts_at(b.sp_access(), a2.sp_access(), i) == Access::sp_conflicts_at(
            b.sp_access(),
            a.sp_access(),
            i,
        ));
}

/// Do the two bit vectors share a set bit?
fn bitset_meet(a: &Vec<bool>, b: &Vec<bool>) -> (r: bool)
    ensures
        r == exists|j: int| bit_at(a@, j) && bit_at(b@, j),
{
    let mut i: usize = 0;
    while i < a.len()
        invariant
            i <= a.len(),
            forall|j: int| j < i ==> !(bit_at(a@, j) && bit_at(b@, j)),
        decreases a.len() - i,
    {
        if a[i] && bitset_contains(b, i) {
            proof {
                assert(bit_at(a@, i as int) && bit_at(b@, i as int));
            }
            return true;
        }
        i += 1;
    }
    proof {
        assert(forall|j: int| j >= a@.len() ==> !bit_at(a@, j));
    }
    false
}

/// A system's collection of filtered accesses, one per query or parameter,
/// with their combined plain access kept alongside.
#[derive(Clone, Debug)]
pub struct FilteredAccessSet {
    combined_access: Access,
    filtered_accesses: Vec<FilteredAccess>,
}

impl FilteredAccessSet {
    /// The combined plain access of all members.
    pub closed spec fn sp_combined(self) -> Access {
        self.combined_access
    }

    /// The members.
    pub closed spec fn sp_members(self) -> Seq<FilteredAccess> {
        self.filtered_accesses@
    }

    /// Does the new filtered access conflict with some member?
    pub open spec fn sp_conflicts_with(self, other: FilteredAccess) -> bool {
        exists|k: int|
            0 <= k < self.sp_members().len() && !FilteredAccess::sp_compatible(
                #[trigger] self.sp_members()[k],
                other,
            )
    }

    /// An empty set.
    pub fn new() -> (r: FilteredAccessSet)
        ensures
            r.sp_members().len() == 0,
            !r.sp_combined().sp_reads_all(),
            forall|i: int| !r.sp_combined().sp_declares(i) && !r.sp_combined().sp_has_write(i),
    {
        FilteredAccessSet { combined_access: Access::new(), filtered_accesses: Vec::new() }
    }

    /// A borrow of the combined access.
    pub fn combined_access(&self) -> (r: &Access)
        ensures
            *r == self.sp_combined(),
    {
        &self.combined_access
    }

    /// The ids on which `other` collides with members of this set, union
    /// over the members.
    pub fn get_conflicts_single(&self, other: &FilteredAccess) -> (r: Vec<usize>)
        ensures
            forall|id: usize|
                r@.contains(id) == exists|k: int|
                    0 <= k < self.sp_members().len() && !FilteredAccess::sp_compatible(
                        #[trigger] self.sp_members()[k],
                        *other,
                    ) && Access::sp_conflicts_at(
                        self.sp_members()[k].sp_access(),
                        other.sp_access(),
                        id as int,
                    ),
            (r@.len() == 0) == !self.sp_conflicts_with(*other),
    {
        let mut out: Vec<usize> = Vec::new();
        let n = self.filtered_accesses.len();
        let mut k: usize = 0;
        while k < n
            invariant
                k <= n,
                n == self.sp_members().len(),
                forall|id: usize|
                    out@.contains(id) == exists|k2: int|
                        0 <= k2 < k && !FilteredAccess::sp_compatible(
                            #[trigger] self.sp_members()[k2],
                            *other,
                        ) && Access::sp_conflicts_at(
                            self.sp_members()[k2].sp_access(),
                            other.sp_access(),
                            id as int,
                        ),
            decreases n - k,
        {
            let conflicts = self.filtered_accesses[k].get_conflicts(other);
            let ghost out0 = out@;
            let mut j: usize = 0;
            while j < conflicts.len()
                invariant
                    j <= conflicts@.len(),
                    forall|x: usize| #![trigger out@.contains(x)]
                        out@.contains(x) == (out0.contains(x) || exists|j2: int|
                            0 <= j2 < j && (#[trigger] conflicts@[j2]) == x),
                decreases conflicts@.len() - j,
            {
                let id = conflicts[j];
                let ghost prev = out@;
                out.push(id);
                proof {
                    assert(conflicts@[j as int] == id);
                    assert(out@[out@.len() - 1] == id);
                    assert forall|x: usize|
                        out@.contains(x) == (prev.contains(x) || x == id) by {
                        if out@.contains(x) {
                            let w = choose|w: int| 0 <= w < out@.len() && out@[w] == x;
                            if w < prev.len() {
                                assert(prev[w] == x);
                                assert(prev.contains(x));
                            }
                        }
                        if prev.contains(x) {
                            let w = choose|w: int| 0 <= w < prev.len() && prev[w] == x;
                            assert(out@[w] == x);
                            assert(out@.contains(x));
                        }
                        if x == id {
                            assert(out@.contains(x));
                        }
                    }
                    assert forall|x: usize| #![trigger out@.contains(x)]
                        out@.contains(x) == (out0.contains(x) || exists|j2: int|
                            0 <= j2 < j + 1 && (#[trigger] conflicts@[j2]) == x) by {
                        assert(prev.contains(x) == (out0.contains(x) || exists|j2: int|
                            0 <= j2 < j && (#[trigger] conflicts@[j2]) == x));
                        assert(out@.contains(x) == (prev.contains(x) || x == id));
                        if x == id {
                            assert(conflicts@[j as int] == x);
                            assert(exists|j2: int| 0 <= j2 < j + 1 && conflicts@[j2] == x);
                        } else {
                            if exists|j2: int| 0 <= j2 < j + 1 && conflicts@[j2] == x {
                                let j2 = choose|j2: int|
                                    0 <= j2 < j + 1 && conflicts@[j2] == x;
                                assert(j2 != j as int);
                                assert(exists|j3: int| 0 <= j3 < j && conflicts@[j3] == x);
                            }
                        }
                    }
                }
                j += 1;
            }
            proof {
                assert forall|id: usize|
                    out@.contains(id) == exists|k2: int|
                        0 <= k2 < k + 1 && !FilteredAccess::sp_compatible(
                            #[trigger] self.sp_members()[k2],
                            *other,
                        ) && Access::sp_conflicts_at(
                            self.sp_members()[k2].sp_access(),
                            other.sp_access(),
                            id as int,
                        ) by {
                    assert(out@.contains(id) == (out0.contains(id) || exists|j2: int|
                        0 <= j2 < conflicts@.len() && conflicts@[j2] == id));
                    assert((exists|j2: int| 0 <= j2 < conflicts@.len() && conflicts@[j2] == id)
                        == conflicts@.contains(id));
                    if out@.contains(id) {
                        if out0.contains(id) {
                        } else {
                            assert(conflicts@.contains(id));
                        }
                    }
                    if exists|k2: int|
                        0 <= k2 < k + 1 && !FilteredAccess::sp_compatible(
                            #[trigger] self.sp_members()[k2],
                            *other,
                        ) && Access::sp_conflicts_at(
                            self.sp_members()[k2].sp_access(),
                            other.sp_access(),
                            id as int,
                        ) {
                        let k2 = choose|k2: int|
                            0 <= k2 < k + 1 && !FilteredAccess::sp_compatible(
                                #[trigger] self.sp_members()[k2],
                                *other,
                            ) && Access::sp_conflicts_at(
                                self.sp_members()[k2].sp_access(),
                                other.sp_access(),
                                id as int,
                            );
                        if k2 == k as int {
                            assert(conflicts@.contains(id));
                            assert(out@.contains(id));
                        } else {
                            assert(out0.contains(id));
                        }
                    }
                }
            }
            k += 1;
        }
        proof {
            if self.sp_conflicts_with(*other) {
                let k2 = choose|k2: int|
                    0 <= k2 < self.sp_members().len() && !FilteredAccess::sp_compatible(
                        #[trigger] self.sp_members()[k2],
                        *other,
                    );
                assert(!Access::sp_compatible(
                    self.sp_members()[k2].sp_access(),
                    other.sp_access(),
                ));
                let id = choose|id: int|
                    Access::sp_conflicts_at(
                        self.sp_members()[k2].sp_access(),
                        other.sp_access(),
                        id,
                    );
                assert(id >= 0) by {
                    assert(!Access::sp_conflicts_at(
                        self.sp_members()[k2].sp_access(),
                        other.sp_access(),
                        -1,
                    ));
                }
                assert(id <= usize::MAX) by {
                    lemma_conflict_id_bound(
                        self.sp_members()[k2].sp_access(),
                        other.sp_access(),
                        id,
                    );
                }
                assert(out@.contains(id as usize));
                assert(out@.len() > 0);
            } else {
                if out@.len() > 0 {
                    assert(out@.contains(out@[0]));
                }
            }
        }
        out
    }

    /// Add a filtered access together with the already-computed union of
    /// the old combined access and the new one.
    pub fn add_with_combined(&mut self, filtered: FilteredAccess, combined: Access)
        requires
            combined.sp_reads_all() == (old(self).sp_combined().sp_reads_all()
                || filtered.sp_access().sp_reads_all()),
            forall|j: int|
                combined.sp_declares(j) == (old(self).sp_combined().sp_declares(j)
                    || filtered.sp_access().sp_declares(j)),
            forall|j: int|
                combined.sp_has_write(j) == (old(self).sp_combined().sp_has_write(j)
                    || filtered.sp_access().sp_has_write(j)),
        ensures
            final(self).sp_members() == old(self).sp_members().push(filtered),
            final(self).sp_combined() == combined,
    {
        self.combined_access = combined;
        self.filtered_accesses.push(filtered);
    }

    /// Add a filtered access, folding its plain access into the combined
    /// one.
    pub fn add(&mut self, filtered: FilteredAccess)
        ensures
            final(self).sp_members() == old(self).sp_members().push(filtered),
            final(self).sp_combined().sp_reads_all() == (old(self).sp_combined().sp_reads_all()
                || filtered.sp_access().sp_reads_all()),
            forall|j: int|
                final(self).sp_combined().sp_declares(j) == (old(self).sp_combined().sp_declares(
                    j,
                ) || filtered.sp_access().sp_declares(j)),
            forall|j: int|
                final(self).sp_combined().sp_has_write(j) == (old(
                    self,
                ).sp_combined().sp_has_write(j) || filtered.sp_access().sp_has_write(j)),
    {
        let combined = self.combined_access.union_with(filtered.access());
        self.combined_access = combined;
        self.filtered_accesses.push(filtered);
    }
}

/// A conflicting id is always a real index of some bit vector, so it fits
/// in `usize`.
proof fn lemma_conflict_id_bound(a: Access, b: Access, i: int)
    requires
        Access::sp_conflicts_at(a, b, i),
    ensures
        0 <= i <= usize::MAX,
{
    broadcast use vstd::std_specs::vec::axiom_spec_len;

    assert(vstd::std_specs::vec::spec_vec_len(&a.writes) == a.writes@.len());
    assert(vstd::std_specs::vec::spec_vec_len(&b.writes) == b.writes@.len());
    assert(vstd::std_specs::vec::spec_vec_len(&a.reads_and_writes) == a.reads_and_writes@.len());
    assert(vstd::std_specs::vec::spec_vec_len(&b.reads_and_writes) == b.reads_and_writes@.len());
}

/// A fresh copy of a bit vector.
fn copy_bits(v: &Vec<bool>) -> (r: Vec<bool>)
    ensures
        r@ == v@,
{
    let n = v.len();
    let mut out: Vec<bool> = Vec::new();
    let mut k: usize = 0;
    while k < n
        invariant
            k <= n,
            n == v@.len(),
            out@ == v@.subrange(0, k as int),
        decreases n - k,
    {
        out.push(v[k]);
        k += 1;
    }
    proof {
        assert(out@ == v@);
    }
    out
}

/// Is `x` among the elements of `v`?
fn vec_contains(v: &Vec<usize>, x: usize) -> (r: bool)
    ensures
        r == v@.contains(x),
{
    let mut i: usize = 0;
    while i < v.len()
        invariant
            i <= v@.len(),
            forall|j: int| 0 <= j < i ==> v@[j] != x,
        decreases v@.len() - i,
    {
        if v[i] == x {
            proof {
                assert(v@[i as int] == x);
            }
            return true;
        }
        i += 1;
    }
    false
}

/// Conflict is symmetric: the ids on which `a` collides with `b` are the
/// ids on which `b` collides with `a`, so compatibility is symmetric too.
pub proof fn lemma_compatible_symmetric(a: Access, b: Access)
    ensures
        Access::sp_compatible(a, b) == Access::sp_compatible(b, a),
{
    assert(forall|i: int|
        Access::sp_conflicts_at(a, b, i) == Access::sp_conflicts_at(b, a, i));
}

/// Descriptors with disjoint write sets, neither of which writes what the
/// other reads and neither of which reads everything, are compatible.
/// In particular two queries that each write one component are compatible
/// whenever the written components differ.
pub proof fn lemma_disjoint_writes_compatible(a: Access, b: Access)
    requires
        !a.sp_reads_all(),
        !b.sp_reads_all(),
        forall|i: int| !(a.sp_has_write(i) && b.sp_declares(i)),
        forall|i: int| !(a.sp_declares(i) && b.sp_has_write(i)),
    ensures
        Access::sp_compatible(a, b),
{
}

} // verus!
