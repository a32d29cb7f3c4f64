//! Ordering coordinates for slots, connection handles, and shared blocks.
//!
//! A slot's place in the execution order is a key `(group, position)`.
//! Groups partition the slots into an unnamed front bucket, named buckets
//! ordered by their names, and an unnamed back bucket. Within a bucket the
//! position — a signed value drawn from the registry's monotonic counter,
//! negated for front insertions — decides the order.

use vstd::prelude::*;

use crate::combiner::Combiner;
use crate::signal_core::{CoreView, SignalCore, SlotFn, SlotView};

verus! {

/// Where a newly connected slot is placed within its group.
#[derive(Clone, Copy)]
pub enum Position {
    /// Before every slot already in the group.
    Front,
    /// After every slot already in the group.
    Back,
}

/// The group a slot is connected to.
#[derive(Clone, Copy, PartialEq, Eq, Structural)]
pub enum Group {
    /// The unnamed group that runs before every named group.
    Front,
    /// A named group; named groups run in ascending order of their names.
    Named(i64),
    /// The unnamed group that runs after every named group.
    Back,
}

/// The position value minted for a connection: the counter value `n` for a
/// back insertion, its negation for a front insertion.
pub open spec fn position_value(pos: Position, n: int) -> int {
    match pos {
        Position::Front => -n,
        Position::Back => n,
    }
}

/// Rank of a group: the front bucket, then every named bucket, then the
/// back bucket.
pub open spec fn group_rank(g: Group) -> int {
    match g {
        Group::Front => 0,
        Group::Named(_) => 1,
        Group::Back => 2,
    }
}

/// Strict order on groups: `Front` first, named groups by ascending name,
/// `Back` last.
pub open spec fn group_lt(a: Group, b: Group) -> bool {
    group_rank(a) < group_rank(b) || (a matches Group::Named(x) && b matches Group::Named(y) && x
        < y)
}

/// Strict order on slot keys: by group first, then by position.
pub open spec fn key_lt(ga: Group, pa: int, gb: Group, pb: int) -> bool {
    group_lt(ga, gb) || (ga == gb && pa < pb)
}

/// Decides `group_lt`.
pub fn group_before(a: &Group, b: &Group) -> (r: bool)
    ensures
        r == group_lt(*a, *b),
{
    match (a, b) {
        (Group::Front, Group::Front) => false,
        (Group::Front, _) => true,
        (Group::Named(_), Group::Front) => false,
        (Group::Named(x), Group::Named(y)) => *x < *y,
        (Group::Named(_), Group::Back) => true,
        (Group::Back, _) => false,
    }
}

/// Decides `key_lt`.
pub fn key_before(ga: &Group, pa: i64, gb: &Group, pb: i64) -> (r: bool)
    ensures
        r == key_lt(*ga, pa as int, *gb, pb as int),
{
    if group_before(ga, gb) {
        true
    } else if ga == gb {
        pa < pb
    } else {
        false
    }
}

/// A handle to one slot of one signal, carrying the slot's identity. The
/// `SCOPED` parameter distinguishes plain connections from scoped ones; the
/// handle itself holds no registry state, so every operation takes the
/// registry core as an argument and degrades to a safe default once the
/// signal is dead or the slot is gone.
#[derive(Clone, Copy)]
pub struct ConnectionImpl<const SCOPED: bool> {
    pub(crate) slot_id: i64,
}

/// A plain connection: dropping it leaves its slot connected.
pub type Connection = ConnectionImpl<false>;

/// A scoped connection: its owner is expected to disconnect it at the end
/// of its scope.
pub type ScopedConnection = ConnectionImpl<true>;

impl<const SCOPED: bool> View for ConnectionImpl<SCOPED> {
    type V = int;

    open(crate) spec fn view(&self) -> int {
        self.slot_id as int
    }
}

impl<const SCOPED: bool> ConnectionImpl<SCOPED> {
    /// True while the slot is still connected: false once the slot has been
    /// disconnected or the signal is dead.
    pub fn connected<A, R, C, F>(&self, core: &SignalCore<A, R, C, F>) -> (r: bool) where
        C: Combiner<R>,
        F: SlotFn<A, R, C>,

        requires
            core.inv(),
        ensures
            r == core@.spec_connected(self@),
    {
        if core.strong == 0 {
            return false;
        }
        match core.find_index(self.slot_id) {
            Some(k) => {
                proof {
                    core.lemma_found_index(k as int, self@);
                }
                core.slots[k].connected
            },
            None => false,
        }
    }

    /// Structurally removes the slot, permanently: afterwards the slot
    /// reports as disconnected and no emission runs it. Disconnecting an
    /// already-gone slot, or through a dead signal, is a no-op.
    pub fn disconnect<A, R, C, F>(&self, core: &mut SignalCore<A, R, C, F>) where
        C: Combiner<R>,
        F: SlotFn<A, R, C>,

        requires
            old(core).inv(),
        ensures
            final(core).inv(),
            old(core)@.has_slot(self@) ==> final(core)@ == (CoreView {
                slots: old(core)@.slots.remove(old(core)@.slot_index(self@)),
                ..old(core)@
            }),
            !old(core)@.has_slot(self@) ==> *final(core) == *old(core),
            !final(core)@.spec_connected(self@),
    {
        let ghost pre = core@;
        core.remove_slot(self.slot_id);
        proof {
            if pre.has_slot(self@) {
                let k = pre.slot_index(self@);
                if core@.has_slot(self@) {
                    let m = core@.slot_index(self@);
                    assert(0 <= m < core@.slots.len() && core@.slots[m].id == self@);
                    let m0 = if m < k {
                        m
                    } else {
                        m + 1
                    };
                    assert(core@.slots[m] == pre.slots[m0]);
                    assert(pre.slots[m0].id != pre.slots[k].id);
                }
            }
        }
    }

    /// True while the slot cannot run: its blocker count is positive, or it
    /// is gone, or the signal is dead.
    pub fn blocked<A, R, C, F>(&self, core: &SignalCore<A, R, C, F>) -> (r: bool) where
        C: Combiner<R>,
        F: SlotFn<A, R, C>,

        requires
            core.inv(),
        ensures
            r == core@.spec_blocked(self@),
    {
        if core.strong == 0 {
            return true;
        }
        match core.find_index(self.slot_id) {
            Some(k) => {
                proof {
                    core.lemma_found_index(k as int, self@);
                }
                core.slots[k].blockers > 0
            },
            None => true,
        }
    }

    /// The number of shared blocks currently blocking the slot, or the
    /// largest count once the slot is gone or the signal is dead.
    pub fn blocker_count<A, R, C, F>(&self, core: &SignalCore<A, R, C, F>) -> (n: usize) where
        C: Combiner<R>,
        F: SlotFn<A, R, C>,

        requires
            core.inv(),
        ensures
            n == core@.spec_blocker_count(self@),
    {
        if core.strong == 0 {
            return usize::MAX;
        }
        match core.find_index(self.slot_id) {
            Some(k) => {
                proof {
                    core.lemma_found_index(k as int, self@);
                }
                core.slots[k].blockers
            },
            None => usize::MAX,
        }
    }

    /// A shared block over this connection's slot, blocking from the start
    /// when asked to: then the slot's blocker count rises by one (when the
    /// slot is still there), and the block's own state starts as blocking
    /// either way.
    #[must_use]
    pub fn shared_block<A, R, C, F>(
        &self,
        core: &mut SignalCore<A, R, C, F>,
        initially_blocking: bool,
    ) -> (sb: SharedConnectionBlock) where C: Combiner<R>, F: SlotFn<A, R, C>
        requires
            old(core).inv(),
        ensures
            final(core).inv(),
            sb@ == (self@, initially_blocking),
            (initially_blocking && old(core)@.has_slot(self@)) ==> final(core)@ == (CoreView {
                slots: old(core)@.slots.update(
                    old(core)@.slot_index(self@),
                    (SlotView {
                        blockers: crate::signal_core::wrap_inc(
                            old(core)@.slots[old(core)@.slot_index(self@)].blockers,
                        ),
                        ..old(core)@.slots[old(core)@.slot_index(self@)]
                    }),
                ),
                ..old(core)@
            }),
            !(initially_blocking && old(core)@.has_slot(self@)) ==> *final(core) == *old(core),
    {
        if initially_blocking {
            core.block_slot(self.slot_id, true);
        }
        SharedConnectionBlock { slot_id: self.slot_id, blocking: initially_blocking }
    }
}

impl ConnectionImpl<false> {
    /// Consumes the connection and returns it as a scoped connection over
    /// the same slot.
    #[must_use]
    pub fn scoped(self) -> (r: ScopedConnection)
        ensures
            r@ == self@,
    {
        ConnectionImpl { slot_id: self.slot_id }
    }
}

/// A reference-counted temporary block over one slot. Any number of shared
/// blocks may exist for a slot; the slot's blocker count equals the number
/// of them currently in the blocking state, and the slot runs only while
/// that count is zero. Toggling is idempotent: each block contributes
/// exactly one unit while blocking, however often `block` or `unblock` is
/// repeated.
pub struct SharedConnectionBlock {
    pub(crate) slot_id: i64,
    pub(crate) blocking: bool,
}

impl View for SharedConnectionBlock {
    type V = (int, bool);

    open(crate) spec fn view(&self) -> (int, bool) {
        (self.slot_id as int, self.blocking)
    }
}

impl SharedConnectionBlock {
    /// Starts blocking, if not blocking already: the slot's blocker count
    /// rises by exactly one (when the slot is still there); a repeated
    /// `block` is a no-op.
    pub fn block<A, R, C, F>(&mut self, core: &mut SignalCore<A, R, C, F>) where
        C: Combiner<R>,
        F: SlotFn<A, R, C>,

        requires
            old(core).inv(),
        ensures
            final(core).inv(),
            final(self)@ == (old(self)@.0, true),
            old(self)@.1 ==> *final(core) == *old(core),
            (!old(self)@.1 && old(core)@.has_slot(old(self)@.0)) ==> final(core)@ == (CoreView {
                slots: old(core)@.slots.update(
                    old(core)@.slot_index(old(self)@.0),
                    (SlotView {
                        blockers: crate::signal_core::wrap_inc(
                            old(core)@.slots[old(core)@.slot_index(old(self)@.0)].blockers,
                        ),
                        ..old(core)@.slots[old(core)@.slot_index(old(self)@.0)]
                    }),
                ),
                ..old(core)@
            }),
            (!old(self)@.1 && !old(core)@.has_slot(old(self)@.0)) ==> *final(core) == *old(core),
    {
        if !self.blocking {
            core.block_slot(self.slot_id, true);
            self.blocking = true;
        }
    }

    /// Stops blocking, if blocking: the slot's blocker count falls by
    /// exactly one (when the slot is still there); a repeated `unblock` is
    /// a no-op.
    pub fn unblock<A, R, C, F>(&mut self, core: &mut SignalCore<A, R, C, F>) where
        C: Combiner<R>,
        F: SlotFn<A, R, C>,

        requires
            old(core).inv(),
        ensures
            final(core).inv(),
            final(self)@ == (old(self)@.0, false),
            !old(self)@.1 ==> *final(core) == *old(core),
            (old(self)@.1 && old(core)@.has_slot(old(self)@.0)) ==> final(core)@ == (CoreView {
                slots: old(core)@.slots.update(
                    old(core)@.slot_index(old(self)@.0),
                    (SlotView {
                        blockers: crate::signal_core::wrap_dec(
                            old(core)@.slots[old(core)@.slot_index(old(self)@.0)].blockers,
                        ),
                        ..old(core)@.slots[old(core)@.slot_index(old(self)@.0)]
                    }),
                ),
                ..old(core)@
            }),
            (old(self)@.1 && !old(core)@.has_slot(old(self)@.0)) ==> *final(core) == *old(core),
    {
        if self.blocking {
            core.block_slot(self.slot_id, false);
            self.blocking = false;
        }
    }

    /// Whether this block is currently in the blocking state. While true,
    /// the slot certainly does not run; while false, other blocks may still
    /// block it.
    pub fn blocking(&self) -> (r: bool)
        ensures
            r == self@.1,
    {
        self.blocking
    }

    /// A new, independent block over the same slot, starting in this
    /// block's state and contributing its own unit when that state is
    /// blocking.
    pub fn clone_block<A, R, C, F>(&self, core: &mut SignalCore<A, R, C, F>) -> (sb:
        SharedConnectionBlock) where C: Combiner<R>, F: SlotFn<A, R, C>
        requires
            old(core).inv(),
        ensures
            final(core).inv(),
            sb@ == self@,
            (self@.1 && old(core)@.has_slot(self@.0)) ==> final(core)@ == (CoreView {
                slots: old(core)@.slots.update(
                    old(core)@.slot_index(self@.0),
                    (SlotView {
                        blockers: crate::signal_core::wrap_inc(
                            old(core)@.slots[old(core)@.slot_index(self@.0)].blockers,
                        ),
                        ..old(core)@.slots[old(core)@.slot_index(self@.0)]
                    }),
                ),
                ..old(core)@
            }),
            !(self@.1 && old(core)@.has_slot(self@.0)) ==> *final(core) == *old(core),
    {
        if self.blocking {
            core.block_slot(self.slot_id, true);
        }
        SharedConnectionBlock { slot_id: self.slot_id, blocking: self.blocking }
    }
}

/// The key order is total: two keys with neither before the other are equal.
pub proof fn lemma_key_order_total(ga: Group, pa: int, gb: Group, pb: int)
    ensures
        key_lt(ga, pa, gb, pb) || key_lt(gb, pb, ga, pa) || (ga == gb && pa == pb),
{
}

/// The key order is transitive.
pub proof fn lemma_key_order_trans(
    ga: Group,
    pa: int,
    gb: Group,
    pb: int,
    gc: Group,
    pc: int,
)
    requires
        key_lt(ga, pa, gb, pb),
        key_lt(gb, pb, gc, pc),
    ensures
        key_lt(ga, pa, gc, pc),
{
}

} // verus!
