//! Emission: the read path that walks the slots in key order and drives the
//! combiner lazily.
//!
//! An emission snapshots the identities of the slots present when it
//! starts, and the combiner in force then: slots connected during the
//! emission never run in it, and a combiner installed during it is not
//! consulted by it. Connectivity and blocking are read live, at the moment
//! each slot is about to run, so a disconnect or block landing between two
//! invocations takes effect within the same emission.

use vstd::prelude::*;

use crate::combiner::{Combiner, emitted_to, lemma_runs_to_push, lemma_runs_to_stuck, runs_to};
use crate::connect::Connection;
use crate::signal_core::{clone_arc, SignalCore, SlotFn, SlotView};

verus! {

/// Whether every slot of `slots` carries a pure callback. Only then can the
/// registry pin the outcome of an emission: an impure callback may change
/// the registry mid-emission in ways only it knows.
pub open spec fn pure_slots<A, R, C: Combiner<R>, F: SlotFn<A, R, C>>(
    slots: Seq<SlotView<F>>,
) -> bool {
    forall|i: int| 0 <= i < slots.len() ==> (#[trigger] slots[i]).func.is_pure()
}

/// The values an emission over `slots` feeds to its combiner while every
/// callback is pure: the pure value of each slot that is connected and
/// unblocked, in slot order.
pub open spec fn ready_vals<A, R, C: Combiner<R>, F: SlotFn<A, R, C>>(
    slots: Seq<SlotView<F>>,
    args: A,
) -> Seq<R>
    decreases slots.len(),
{
    if slots.len() == 0 {
        Seq::empty()
    } else {
        let rest = ready_vals::<A, R, C, F>(slots.drop_last(), args);
        if slots.last().connected && slots.last().blockers == 0 {
            rest.push(slots.last().func.pure_val(args))
        } else {
            rest
        }
    }
}

impl<A, R, C, F> SignalCore<A, R, C, F> where A: Copy, C: Combiner<R>, F: SlotFn<A, R, C> {
    /// Emits the signal: snapshots the slots present now and the current
    /// combiner, then walks the snapshot in key order, invoking each slot
    /// that is still present, connected and unblocked at its turn — while
    /// the combiner keeps asking — and returns the combiner's output.
    ///
    /// When every registered callback is pure, the registry is unchanged
    /// and the output is pinned: the combiner's gated fold over the ready
    /// slots' values in key order. With an impure callback in place, the
    /// callback may rewrite the registry mid-emission, and only the core
    /// invariant is promised.
    pub fn emit(&mut self, args: A) -> (out: C::Output)
        requires
            old(self).inv(),
        ensures
            final(self).inv(),
            pure_slots::<A, R, C, F>(old(self)@.slots) ==> (*final(self) == *old(self)
                && emitted_to(
                old(self)@.combiner,
                ready_vals::<A, R, C, F>(old(self)@.slots, args),
                out,
            )),
    {
        let ghost pre = *old(self);
        let ghost pure = pure_slots::<A, R, C, F>(pre@.slots);
        // snapshot the identities and extended flags of this moment
        let mut snap: Vec<(i64, bool)> = Vec::new();
        let mut i: usize = 0;
        while i < self.slots.len()
            invariant
                *self == pre,
                0 <= i <= self@.slots.len(),
                snap@.len() == i,
                forall|k: int|
                    0 <= k < i ==> #[trigger] snap@[k] == (
                    self@.slots[k].id as i64,
                    self@.slots[k].extended,
                ),
            decreases self.slots.len() - i,
        {
            snap.push((self.slots[i].id, self.slots[i].extended));
            i = i + 1;
        }
        // snapshot the combiner of this moment
        let comb = clone_arc(&self.combiner);
        let ghost c = pre@.combiner;
        let mut acc = comb.init();
        let ghost acc0 = acc;
        let mut more = comb.wants(&acc);
        let mut j: usize = 0;
        while j < snap.len() && more
            invariant
                self.inv(),
                0 <= j <= snap@.len(),
                snap@.len() == pre@.slots.len(),
                forall|k: int|
                    0 <= k < snap@.len() ==> #[trigger] snap@[k] == (
                    pre@.slots[k].id as i64,
                    pre@.slots[k].extended,
                ),
                *comb == c,
                more == c.wants_spec(acc),
                c.init_ok(acc0),
                pure == pure_slots::<A, R, C, F>(pre@.slots),
                pure ==> (*self == pre && runs_to(
                    c,
                    acc0,
                    ready_vals::<A, R, C, F>(pre@.slots.take(j as int), args),
                    acc,
                )),
            decreases snap@.len() - j,
        {
            let (id, ext) = snap[j];
            let ghost taken = ready_vals::<A, R, C, F>(pre@.slots.take(j as int), args);
            proof {
                assert(pre@.slots.take(j + 1).drop_last() =~= pre@.slots.take(j as int));
                assert(pre@.slots.take(j + 1).last() == pre@.slots[j as int]);
            }
            match self.find_index(id) {
                Some(k) => {
                    proof {
                        if pure {
                            // the identities are unique, so the search found
                            // exactly the snapshot's slot
                            if k as int != j as int {
                                assert(self@.slots[k as int].id != self@.slots[j as int].id);
                                assert(false);
                            }
                        }
                    }
                    if self.slots[k].connected && self.slots[k].blockers == 0 {
                        let f = clone_arc(&self.slots[k].func);
                        proof {
                            assert(*f == self@.slots[k as int].func);
                            if pure {
                                assert(self@.slots[k as int] == pre@.slots[j as int]);
                                assert(pure_slots::<A, R, C, F>(pre@.slots));
                                assert(0 <= (j as int) && (j as int) < pre@.slots.len());
                                assert((pre@.slots[j as int]).func.is_pure());
                            }
                        }
                        let conn = if ext {
                            Some(Connection { slot_id: id })
                        } else {
                            None
                        };
                        let r = f.call(self, conn, args);
                        let ghost acc_before = acc;
                        acc = comb.feed(acc, r);
                        more = comb.wants(&acc);
                        proof {
                            if pure {
                                assert(r == pre@.slots[j as int].func.pure_val(args));
                                assert(c.wants_spec(acc_before));
                                assert(c.feed_ok(acc_before, r, acc));
                                lemma_runs_to_push(c, acc0, taken, acc_before, r, acc);
                                assert(ready_vals::<A, R, C, F>(pre@.slots.take(j + 1), args)
                                    == taken.push(r));
                            }
                        }
                    } else {
                        proof {
                            if pure {
                                // a slot that is not ready contributes no value
                                assert(!(pre@.slots[j as int].connected && pre@.slots[j
                                    as int].blockers == 0));
                            }
                        }
                    }
                },
                None => {
                    proof {
                        if pure {
                            assert(self@.slots[j as int].id == id as int);
                            assert(self@.has_slot(id as int));
                            assert(false);
                        }
                    }
                },
            }
            j = j + 1;
        }
        proof {
            if pure {
                let full = ready_vals::<A, R, C, F>(pre@.slots, args);
                assert(pre@.slots.take(pre@.slots.len() as int) =~= pre@.slots);
                if j < snap@.len() {
                    lemma_ready_vals_prefix::<A, R, C, F>(pre@.slots, j as int, args);
                    lemma_runs_to_stuck(
                        c,
                        acc0,
                        ready_vals::<A, R, C, F>(pre@.slots.take(j as int), args),
                        acc,
                        full,
                    );
                }
                assert(runs_to(c, acc0, full, acc));
            }
        }
        let out = comb.finish(acc);
        proof {
            if pure {
                let full = ready_vals::<A, R, C, F>(pre@.slots, args);
                assert(c.init_ok(acc0) && runs_to(c, acc0, full, acc) && c.out_ok(acc, out));
                assert(emitted_to(c, full, out));
            }
        }
        out
    }
}

/// Liveness law of emission: every value a pure emission feeds to its
/// combiner is the value of a slot that is connected and unblocked — a
/// disconnected slot, and a slot whose blocker count is positive, is never
/// invoked.
pub proof fn lemma_ready_vals_sources<A, R, C: Combiner<R>, F: SlotFn<A, R, C>>(
    slots: Seq<SlotView<F>>,
    args: A,
)
    ensures
        forall|i: int|
            #![trigger ready_vals::<A, R, C, F>(slots, args)[i]]
            0 <= i < ready_vals::<A, R, C, F>(slots, args).len() ==> exists|k: int|
                0 <= k < slots.len() && (#[trigger] slots[k]).connected && slots[k].blockers == 0
                    && ready_vals::<A, R, C, F>(slots, args)[i] == slots[k].func.pure_val(args),
    decreases slots.len(),
{
    if slots.len() > 0 {
        let prev = slots.drop_last();
        lemma_ready_vals_sources::<A, R, C, F>(prev, args);
        let rv = ready_vals::<A, R, C, F>(slots, args);
        let rp = ready_vals::<A, R, C, F>(prev, args);
        assert forall|i: int| #![trigger rv[i]] 0 <= i < rv.len() implies exists|k: int|
            0 <= k < slots.len() && (#[trigger] slots[k]).connected && slots[k].blockers == 0
                && rv[i] == slots[k].func.pure_val(args) by {
            if i < rp.len() {
                let k = choose|k: int|
                    0 <= k < prev.len() && (#[trigger] prev[k]).connected && prev[k].blockers == 0
                        && rp[i] == prev[k].func.pure_val(args);
                assert(slots[k] == prev[k]);
                assert(rv[i] == slots[k].func.pure_val(args));
            } else {
                assert(slots[slots.len() - 1].connected && slots[slots.len() - 1].blockers == 0);
                assert(rv[i] == slots[slots.len() - 1].func.pure_val(args));
            }
        }
    }
}

/// Absent-output law: a pure emission over a registry with no connected
/// slot feeds its combiner nothing — under the default combiner its output
/// is therefore the absent value.
pub proof fn lemma_no_connected_no_values<A, R, C: Combiner<R>, F: SlotFn<A, R, C>>(
    slots: Seq<SlotView<F>>,
    args: A,
)
    requires
        crate::signal_core::count_connected(slots) == 0,
    ensures
        ready_vals::<A, R, C, F>(slots, args) == Seq::<R>::empty(),
    decreases slots.len(),
{
    if slots.len() > 0 {
        SignalCore::<A, R, C, F>::lemma_count_connected_bounds(slots.drop_last());
        lemma_no_connected_no_values::<A, R, C, F>(slots.drop_last(), args);
        assert(ready_vals::<A, R, C, F>(slots, args) =~= Seq::<R>::empty());
    } else {
        assert(ready_vals::<A, R, C, F>(slots, args) =~= Seq::<R>::empty());
    }
}

/// The ready values of a prefix of `slots` are a prefix of the ready values
/// of `slots`.
proof fn lemma_ready_vals_prefix<A, R, C: Combiner<R>, F: SlotFn<A, R, C>>(
    slots: Seq<SlotView<F>>,
    j: int,
    args: A,
)
    requires
        0 <= j <= slots.len(),
    ensures
        ready_vals::<A, R, C, F>(slots.take(j), args).is_prefix_of(
            ready_vals::<A, R, C, F>(slots, args),
        ),
    decreases slots.len() - j,
{
    if j < slots.len() {
        assert(slots.take(j + 1).drop_last() =~= slots.take(j));
        assert(slots.take(j + 1).last() == slots[j]);
        lemma_ready_vals_prefix::<A, R, C, F>(slots, j + 1, args);
    } else {
        assert(slots.take(j) =~= slots);
    }
}

} // verus!
