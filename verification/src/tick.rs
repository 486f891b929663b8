//! Change-detection ticks. Every component and resource value carries a pair
//! of frame counters saying when it was added and when it was last written.
//! A system compares them against its own `(last_change_tick, change_tick)`
//! window to answer "was this added or changed since I last ran". Ticks wrap
//! around, so all comparisons are made on distances modulo 2^32.

use vstd::prelude::*;

verus! {

/// One full revolution of the 32-bit tick counter.
pub const TICK_MODULUS: u64 = 0x1_0000_0000;

/// Distance from tick `from` forward to tick `to`, modulo 2^32.
pub open spec fn tick_delta(from: u32, to: u32) -> int {
    if to >= from {
        to - from
    } else {
        to + TICK_MODULUS - from
    }
}

/// A tick `t` counts as inside the window of a system that last ran at
/// `last` and now runs at `now` when `t` is strictly more recent than
/// `last`, both measured backwards from `now`.
pub open spec fn tick_in_window(t: u32, last: u32, now: u32) -> bool {
    tick_delta(t, now) < tick_delta(last, now)
}

/// The pair of frame counters stored per component value: the tick on which
/// the value was inserted and the tick on which it was last written.
#[derive(Clone, Copy, PartialEq, Eq, Structural, Debug)]
pub struct ComponentTicks {
    pub added: u32,
    pub changed: u32,
}

/// `to.wrapping_sub(from)` on ticks, as an exec computation.
fn tick_delta_exec(from: u32, to: u32) -> (r: u64)
    ensures
        r == tick_delta(from, to),
{
    if to >= from {
        (to as u64) - (from as u64)
    } else {
        (to as u64) + TICK_MODULUS - (from as u64)
    }
}

impl ComponentTicks {
    /// Ticks of a value inserted on tick `change_tick`: it counts as both
    /// added and changed on that tick.
    pub fn new(change_tick: u32) -> (r: Self)
        ensures
            r.added == change_tick,
            r.changed == change_tick,
    {
        ComponentTicks { added: change_tick, changed: change_tick }
    }

    /// Was the value added since the observing system last ran?
    pub fn is_added(&self, last_change_tick: u32, change_tick: u32) -> (r: bool)
        ensures
            r == tick_in_window(self.added, last_change_tick, change_tick),
    {
        tick_delta_exec(self.added, change_tick) < tick_delta_exec(last_change_tick, change_tick)
    }

    /// Was the value written (or added) since the observing system last ran?
    pub fn is_changed(&self, last_change_tick: u32, change_tick: u32) -> (r: bool)
        ensures
            r == tick_in_window(self.changed, last_change_tick, change_tick),
    {
        tick_delta_exec(self.changed, change_tick) < tick_delta_exec(last_change_tick, change_tick)
    }

    /// Record a write on tick `change_tick`. Mutable access marks the value
    /// changed exactly when it is dereferenced, through this method; the
    /// added tick is never touched again.
    pub fn set_changed(&mut self, change_tick: u32)
        ensures
            final(self).changed == change_tick,
            final(self).added == old(self).added,
    {
        self.changed = change_tick;
    }
}

/// A tick equal to the window's upper bound is never inside the window:
/// a system never sees its own `last_change_tick` as fresh.
pub proof fn lemma_window_excludes_last(last: u32, now: u32)
    ensures
        !tick_in_window(last, last, now),
{
}

/// A value written on the current tick is always seen as changed, unless the
/// window is empty (`last == now`).
pub proof fn lemma_current_tick_in_window(last: u32, now: u32)
    requires
        last != now,
    ensures
        tick_in_window(now, last, now),
{
}

} // verus!
