//! Columnar storage. A [`Table`] holds one column per table-stored component
//! kind of an archetype, rows ordered by insertion; a [`ComponentSparseSet`]
//! holds the values of one sparse-stored kind, keyed by entity index. Both
//! give constant-time append, swap-remove and lookup, and both pair every
//! value with its [`ComponentTicks`]. Looking up a component a store does
//! not hold answers "absent": absence is a normal query-matching outcome,
//! not an error.

use vstd::prelude::*;
use crate::component::ComponentId;
use crate::entity::Entity;
use crate::tick::ComponentTicks;

verus! {

/// One dense column: the values of one component kind for every row of a
/// table, with the ticks of each value alongside.
pub struct Column {
    pub(crate) data: Vec<u64>,
    pub(crate) ticks: Vec<ComponentTicks>,
}

impl Column {
    /// The values, by row.
    pub closed spec fn sp_data(self) -> Seq<u64> {
        self.data@
    }

    /// The ticks, by row.
    pub closed spec fn sp_ticks(self) -> Seq<ComponentTicks> {
        self.ticks@
    }

    /// Every value has its ticks.
    pub open spec fn wf(self) -> bool {
        self.sp_data().len() == self.sp_ticks().len()
    }

    /// An empty column.
    pub fn new() -> (r: Column)
        ensures
            r.wf(),
            r.sp_data().len() == 0,
    {
        Column { data: Vec::new(), ticks: Vec::new() }
    }

    /// Number of rows.
    pub fn len(&self) -> (r: usize)
        ensures
            r == self.sp_data().len(),
    {
        self.data.len()
    }

    /// The value at `row`.
    pub fn get_data(&self, row: usize) -> (r: u64)
        requires
            row < self.sp_data().len(),
        ensures
            r == self.sp_data()[row as int],
    {
        self.data[row]
    }

    /// The ticks at `row`.
    pub fn get_ticks(&self, row: usize) -> (r: ComponentTicks)
        requires
            self.wf(),
            row < self.sp_data().len(),
        ensures
            r == self.sp_ticks()[row as int],
    {
        self.ticks[row]
    }
}

/// The dense store of one archetype: the entities of its rows and one
/// column for each of its table-stored component kinds, all of equal
/// length.
pub struct Table {
    pub(crate) component_ids: Vec<ComponentId>,
    pub(crate) columns: Vec<Column>,
    pub(crate) entities: Vec<Entity>,
}

impl Table {
    /// The component kinds with a column here, in strictly increasing order.
    pub closed spec fn sp_ids(self) -> Seq<ComponentId> {
        self.component_ids@
    }

    /// The entity of each row.
    pub closed spec fn sp_entities(self) -> Seq<Entity> {
        self.entities@
    }

    /// Column `k` itself.
    pub closed spec fn sp_column(self, k: int) -> Column {
        self.columns@[k]
    }

    /// The values of column `k`, by row.
    pub closed spec fn sp_data(self, k: int) -> Seq<u64> {
        self.columns@[k].sp_data()
    }

    /// The ticks of column `k`, by row.
    pub closed spec fn sp_ticks(self, k: int) -> Seq<ComponentTicks> {
        self.columns@[k].sp_ticks()
    }

    /// Does some column hold component kind `c`?
    pub open spec fn sp_has_column(self, c: ComponentId) -> bool {
        exists|k: int| 0 <= k < self.sp_ids().len() && self.sp_ids()[k] == c
    }

    /// The position of component kind `c` among the columns.
    pub open spec fn sp_column_of(self, c: ComponentId) -> int {
        choose|k: int| 0 <= k < self.sp_ids().len() && self.sp_ids()[k] == c
    }

    /// Columns and ids are aligned, every column is as long as the entity
    /// list, and the ids are strictly increasing (hence unique).
    pub closed spec fn wf(self) -> bool {
        &&& self.columns@.len() == self.component_ids@.len()
        &&& forall|k: int|
            0 <= k < self.columns@.len() ==> (#[trigger] self.columns@[k]).wf()
                && self.columns@[k].sp_data().len() == self.entities@.len()
        &&& forall|p: int, q: int|
            0 <= p < q < self.component_ids@.len() ==> self.component_ids@[p].0
                < self.component_ids@[q].0
    }

    /// An empty table for the given column ids.
    pub fn new(component_ids: Vec<ComponentId>) -> (r: Table)
        requires
            forall|p: int, q: int|
                0 <= p < q < component_ids@.len() ==> component_ids@[p].0 < component_ids@[q].0,
        ensures
            r.wf(),
            r.sp_ids() == component_ids@,
            r.sp_entities().len() == 0,
    {
        let mut columns: Vec<Column> = Vec::new();
        let n = component_ids.len();
        let mut k: usize = 0;
        while k < n
            invariant
                k <= n,
                columns@.len() == k,
                forall|j: int|
                    0 <= j < k ==> (#[trigger] columns@[j]).wf() && columns@[j].sp_data().len()
                        == 0,
            decreases n - k,
        {
            columns.push(Column::new());
            k += 1;
        }
        Table { component_ids, columns, entities: Vec::new() }
    }

    /// Number of rows.
    pub fn len(&self) -> (r: usize)
        ensures
            r == self.sp_entities().len(),
    {
        self.entities.len()
    }

    /// The entity of row `row`.
    pub fn entity_at(&self, row: usize) -> (r: Entity)
        requires
            row < self.sp_entities().len(),
        ensures
            r == self.sp_entities()[row as int],
    {
        self.entities[row]
    }

    /// The column position of component kind `c`, if any column holds it.
    pub fn column_index_of(&self, c: ComponentId) -> (r: Option<usize>)
        requires
            self.wf(),
        ensures
            match r {
                Some(k) => k < self.sp_ids().len() && self.sp_ids()[k as int] == c
                    && self.sp_has_column(c) && self.sp_column_of(c) == k as int,
                None => !self.sp_has_column(c),
            },
    {
        let n = self.component_ids.len();
        let mut k: usize = 0;
        while k < n
            invariant
                self.wf(),
                k <= n,
                n == self.sp_ids().len(),
                forall|j: int| 0 <= j < k ==> self.sp_ids()[j] != c,
            decreases n - k,
        {
            if self.component_ids[k].0 == c.0 {
                proof {
                    assert(self.sp_ids()[k as int] == c);
                    assert forall|j: int|
                        0 <= j < self.sp_ids().len() && self.sp_ids()[j] == c implies j
                        == k as int by {
                        if j < k as int {
                            assert(self.sp_ids()[j] != c);
                        } else if j > k as int {
                            assert(self.sp_ids()[k as int].0 < self.sp_ids()[j].0);
                        }
                    }
                }
                return Some(k);
            }
            k += 1;
        }
        None
    }

    /// A borrow of the column holding component kind `c`; a kind without a
    /// column here yields nothing.
    pub fn get_column(&self, c: ComponentId) -> (r: Option<&Column>)
        requires
            self.wf(),
        ensures
            match r {
                Some(col) => self.sp_has_column(c) && *col == self.sp_column(self.sp_column_of(c)),
                None => !self.sp_has_column(c),
            },
    {
        match self.column_index_of(c) {
            Some(k) => Some(&self.columns[k]),
            None => None,
        }
    }

    /// Append a row: `values[k]` becomes the value of column `k`, with
    /// `tks[k]` as its ticks.
    pub fn push_row(&mut self, e: Entity, values: &Vec<u64>, tks: &Vec<ComponentTicks>)
        requires
            old(self).wf(),
            values@.len() == old(self).sp_ids().len(),
            tks@.len() == old(self).sp_ids().len(),
        ensures
            final(self).wf(),
            final(self).sp_ids() == old(self).sp_ids(),
            final(self).sp_entities() == old(self).sp_entities().push(e),
            forall|k: int|
                0 <= k < old(self).sp_ids().len() ==> #[trigger] final(self).sp_data(k) == old(
                    self,
                ).sp_data(k).push(values@[k]),
            forall|k: int|
                0 <= k < old(self).sp_ids().len() ==> #[trigger] final(self).sp_ticks(k) == old(
                    self,
                ).sp_ticks(k).push(tks@[k]),
    {
        let n = self.columns.len();
        let ghost before = self.columns@;
        let ghost ents0 = self.entities@;
        let ghost ids0 = self.component_ids@;
        let mut k: usize = 0;
        while k < n
            invariant
                k <= n,
                n == self.columns@.len(),
                self.component_ids@ == ids0,
                ids0.len() == n,
                values@.len() == n,
                tks@.len() == n,
                self.entities@ == ents0,
                forall|j: int| k <= j < n ==> self.columns@[j] == before[j],
                forall|j: int|
                    0 <= j < n ==> (#[trigger] before[j]).wf() && before[j].sp_data().len()
                        == ents0.len(),
                forall|j: int|
                    0 <= j < k ==> (#[trigger] self.columns@[j]).sp_data() == before[j].sp_data().push(
                        values@[j],
                    ) && self.columns@[j].sp_ticks() == before[j].sp_ticks().push(tks@[j]),
            decreases n - k,
        {
            let v = values[k];
            let t = tks[k];
            let col = &mut self.columns[k];
            col.data.push(v);
            col.ticks.push(t);
            k += 1;
        }
        self.entities.push(e);
        proof {
            assert forall|j: int| 0 <= j < n implies (#[trigger] self.columns@[j]).wf()
                && self.columns@[j].sp_data().len() == self.entities@.len() by {
                assert(self.columns@[j].sp_data() == before[j].sp_data().push(values@[j]));
                assert(self.columns@[j].sp_ticks() == before[j].sp_ticks().push(tks@[j]));
                assert(before[j].wf());
            }
        }
    }

    /// Column `k` itself.
    pub fn column_at(&self, k: usize) -> (r: &Column)
        requires
            self.wf(),
            k < self.sp_ids().len(),
        ensures
            *r == self.sp_column(k as int),
    {
        &self.columns[k]
    }

    /// Overwrite the value of column `k` at `row`, marking the cell changed
    /// on `change_tick`; its added tick and every other cell stay.
    pub fn set_value(&mut self, k: usize, row: usize, value: u64, change_tick: u32)
        requires
            old(self).wf(),
            k < old(self).sp_ids().len(),
            row < old(self).sp_entities().len(),
        ensures
            final(self).wf(),
            final(self).sp_ids() == old(self).sp_ids(),
            final(self).sp_entities() == old(self).sp_entities(),
            final(self).sp_data(k as int) == old(self).sp_data(k as int).update(
                row as int,
                value,
            ),
            final(self).sp_ticks(k as int) == old(self).sp_ticks(k as int).update(
                row as int,
                ComponentTicks {
                    added: old(self).sp_ticks(k as int)[row as int].added,
                    changed: change_tick,
                },
            ),
            forall|j: int|
                0 <= j < old(self).sp_ids().len() && j != k as int
                    ==> #[trigger] final(self).sp_column(j) == old(self).sp_column(j),
    {
        let col = &mut self.columns[k];
        let added = col.ticks[row].added;
        col.data.set(row, value);
        col.ticks.set(row, ComponentTicks { added, changed: change_tick });
    }

    /// Remove row `row`, moving the last row into its place, and hand back
    /// the removed row's values and ticks, column by column.
    pub fn swap_remove_row(&mut self, row: usize) -> (r: (Vec<u64>, Vec<ComponentTicks>))
        requires
            old(self).wf(),
            row < old(self).sp_entities().len(),
        ensures
            final(self).wf(),
            final(self).sp_ids() == old(self).sp_ids(),
            final(self).sp_entities() == old(self).sp_entities().update(
                row as int,
                old(self).sp_entities().last(),
            ).drop_last(),
            forall|k: int|
                0 <= k < old(self).sp_ids().len() ==> #[trigger] final(self).sp_data(k) == old(
                    self,
                ).sp_data(k).update(row as int, old(self).sp_data(k).last()).drop_last(),
            forall|k: int|
                0 <= k < old(self).sp_ids().len() ==> #[trigger] final(self).sp_ticks(k) == old(
                    self,
                ).sp_ticks(k).update(row as int, old(self).sp_ticks(k).last()).drop_last(),
            r.0@.len() == old(self).sp_ids().len(),
            r.1@.len() == old(self).sp_ids().len(),
            forall|k: int| 0 <= k < r.0@.len() ==> r.0@[k] == old(self).sp_data(k)[row as int],
            forall|k: int| 0 <= k < r.1@.len() ==> r.1@[k] == old(self).sp_ticks(k)[row as int],
    {
        let n = self.columns.len();
        let ghost before = self.columns@;
        let ghost ents0 = self.entities@;
        let ghost ids0 = self.component_ids@;
        let mut values: Vec<u64> = Vec::new();
        let mut tks: Vec<ComponentTicks> = Vec::new();
        let mut k: usize = 0;
        while k < n
            invariant
                k <= n,
                n == self.columns@.len(),
                self.component_ids@ == ids0,
                ids0.len() == n,
                values@.len() == k,
                tks@.len() == k,
                self.entities@ == ents0,
                row < ents0.len(),
                forall|j: int| k <= j < n ==> self.columns@[j] == before[j],
                forall|j: int|
                    0 <= j < n ==> (#[trigger] before[j]).wf() && before[j].sp_data().len()
                        == ents0.len(),
                forall|j: int|
                    0 <= j < k ==> (#[trigger] self.columns@[j]).sp_data() == before[j].sp_data().update(
                        row as int,
                        before[j].sp_data().last(),
                    ).drop_last() && self.columns@[j].sp_ticks() == before[j].sp_ticks().update(
                        row as int,
                        before[j].sp_ticks().last(),
                    ).drop_last(),
                forall|j: int| 0 <= j < k ==> values@[j] == (#[trigger] before[j]).sp_data()[row as int],
                forall|j: int| 0 <= j < k ==> tks@[j] == (#[trigger] before[j]).sp_ticks()[row as int],
            decreases n - k,
        {
            let col = &mut self.columns[k];
            proof {
                assert(*col == before[k as int]);
                assert(col.sp_ticks().len() == ents0.len());
            }
            let v = col.data.swap_remove(row);
            let t = col.ticks.swap_remove(row);
            values.push(v);
            tks.push(t);
            k += 1;
        }
        self.entities.swap_remove(row);
        proof {
            assert forall|j: int| 0 <= j < n implies (#[trigger] self.columns@[j]).wf()
                && self.columns@[j].sp_data().len() == self.entities@.len() by {
                assert(self.columns@[j].sp_data() == before[j].sp_data().update(
                    row as int,
                    before[j].sp_data().last(),
                ).drop_last());
                assert(self.columns@[j].sp_ticks() == before[j].sp_ticks().update(
                    row as int,
                    before[j].sp_ticks().last(),
                ).drop_last());
                assert(before[j].wf());
            }
        }
        (values, tks)
    }
}

/// The store of one sparse component kind: a value and its ticks per entity
/// index, looked up indirectly.
pub struct ComponentSparseSet {
    pub(crate) slots: Vec<Option<(u64, ComponentTicks)>>,
}

impl ComponentSparseSet {
    /// The stored value and ticks for entity index `i`, if any.
    pub closed spec fn sp_get(self, i: int) -> Option<(u64, ComponentTicks)> {
        if 0 <= i < self.slots@.len() {
            self.slots@[i]
        } else {
            None
        }
    }

    /// An empty store.
    pub fn new() -> (r: ComponentSparseSet)
        ensures
            forall|i: int| r.sp_get(i) is None,
    {
        ComponentSparseSet { slots: Vec::new() }
    }

    /// Is a value stored for entity index `i`?
    pub fn contains(&self, i: u32) -> (r: bool)
        ensures
            r == (self.sp_get(i as int) is Some),
    {
        let k = i as usize;
        k < self.slots.len() && self.slots[k].is_some()
    }

    /// Store (or overwrite) the value for entity index `i`.
    pub fn insert(&mut self, i: u32, value: u64, ticks: ComponentTicks)
        ensures
            final(self).sp_get(i as int) == Some((value, ticks)),
            forall|j: int| j != i as int ==> final(self).sp_get(j) == old(self).sp_get(j),
    {
        let k = i as usize;
        let ghost orig = self.slots@;
        while self.slots.len() <= k
            invariant
                orig.len() <= self.slots@.len(),
                forall|j: int| 0 <= j < orig.len() ==> self.slots@[j] == orig[j],
                forall|j: int|
                    orig.len() <= j < self.slots@.len() ==> self.slots@[j] is None,
            decreases k + 1 - self.slots.len(),
        {
            self.slots.push(None);
        }
        self.slots.set(k, Some((value, ticks)));
        proof {
            assert forall|j: int|
                j != i as int implies self.sp_get(j) == old(self).sp_get(j) by {
            }
        }
    }

    /// Drop and hand back the value for entity index `i`, if any.
    pub fn remove(&mut self, i: u32) -> (r: Option<(u64, ComponentTicks)>)
        ensures
            r == old(self).sp_get(i as int),
            final(self).sp_get(i as int) is None,
            forall|j: int| j != i as int ==> final(self).sp_get(j) == old(self).sp_get(j),
    {
        let k = i as usize;
        if k < self.slots.len() {
            let r = self.slots[k];
            self.slots.set(k, None);
            r
        } else {
            None
        }
    }

    /// The value stored for entity index `i`, if any.
    pub fn get(&self, i: u32) -> (r: Option<u64>)
        ensures
            match r {
                Some(v) => self.sp_get(i as int) is Some && v == self.sp_get(i as int).unwrap().0,
                None => self.sp_get(i as int) is None,
            },
    {
        let k = i as usize;
        if k < self.slots.len() {
            match self.slots[k] {
                Some(p) => Some(p.0),
                None => None,
            }
        } else {
            None
        }
    }

    /// The ticks stored for entity index `i`, if any.
    pub fn get_ticks(&self, i: u32) -> (r: Option<ComponentTicks>)
        ensures
            match r {
                Some(t) => self.sp_get(i as int) is Some && t == self.sp_get(i as int).unwrap().1,
                None => self.sp_get(i as int) is None,
            },
    {
        let k = i as usize;
        if k < self.slots.len() {
            match self.slots[k] {
                Some(p) => Some(p.1),
                None => None,
            }
        } else {
            None
        }
    }

    /// Overwrite the value for entity index `i`, marking it changed on
    /// `change_tick`; the added tick stays.
    pub fn set_value(&mut self, i: u32, value: u64, change_tick: u32)
        requires
            old(self).sp_get(i as int) is Some,
        ensures
            final(self).sp_get(i as int) == Some(
                (
                    value,
                    ComponentTicks {
                        added: old(self).sp_get(i as int).unwrap().1.added,
                        changed: change_tick,
                    },
                ),
            ),
            forall|j: int| j != i as int ==> final(self).sp_get(j) == old(self).sp_get(j),
    {
        let k = i as usize;
        match self.slots[k] {
            Some(p) => {
                self.slots.set(
                    k,
                    Some((value, ComponentTicks { added: p.1.added, changed: change_tick })),
                );
            },
            None => {
            },
        }
    }
}

/// In a well-formed table every column is as long as the entity list and
/// carries ticks for every value.
pub broadcast proof fn lemma_table_column_lens(t: Table, k: int)
    ensures
        t.wf() && 0 <= k < t.sp_ids().len() ==> (#[trigger] t.sp_data(k)).len()
            == t.sp_entities().len() && t.sp_ticks(k).len() == t.sp_entities().len(),
{
}

/// In a well-formed table every column is well formed and its views agree
/// with the table's per-column views.
pub broadcast proof fn lemma_table_column_views(t: Table, k: int)
    ensures
        t.wf() && 0 <= k < t.sp_ids().len() ==> (#[trigger] t.sp_column(k)).wf()
            && t.sp_column(k).sp_data() == t.sp_data(k) && t.sp_column(k).sp_ticks() == t.sp_ticks(
            k,
        ) && t.sp_data(k).len() == t.sp_entities().len(),
{
}

/// A table never holds more rows or ids than `usize` can index.
pub broadcast proof fn lemma_table_lens_bound(t: Table)
    ensures
        (#[trigger] t.sp_entities()).len() <= usize::MAX,
        t.sp_ids().len() <= usize::MAX,
{
    broadcast use vstd::std_specs::vec::axiom_spec_len;

    assert(vstd::std_specs::vec::spec_vec_len(&t.entities) == t.entities@.len());
    assert(vstd::std_specs::vec::spec_vec_len(&t.component_ids) == t.component_ids@.len());
}

/// In a well-formed table the column ids are strictly increasing.
pub broadcast proof fn lemma_table_ids_sorted(t: Table, p: int, q: int)
    ensures
        t.wf() && 0 <= p < q < t.sp_ids().len() ==> (#[trigger] t.sp_ids()[p]).0 < (
        #[trigger] t.sp_ids()[q]).0,
{
}

} // verus!
