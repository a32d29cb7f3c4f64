//! The registry core: the ordered slot store of one signal, its combiner,
//! its monotonic counter, and its strong-handle count.
//!
//! The core is the single owner of all of a signal's state. Handles
//! (`Signal`, `WeakSignal`, connection and block handles) are small tokens
//! whose operations take the core as an explicit argument; a slot callback
//! receives the core mutably while it runs, so a running slot may connect,
//! disconnect, block or emit on the very registry it belongs to.

use vstd::prelude::*;

use core::marker::PhantomData;
use std::sync::Arc;
use crate::combiner::Combiner;
use crate::connect::{Connection, Group, Position, group_lt, key_before, key_lt, position_value};

verus! {

/// Relies on std's `Arc::clone`: the clone refers to the same allocation,
/// so it carries the same value as the original.
#[verifier::external_body]
pub(crate) fn clone_arc<T>(a: &Arc<T>) -> (r: Arc<T>)
    ensures
        r == *a,
{
    Arc::clone(a)
}

/// A callback registered with a signal, with the signature
/// `(args of type A) -> R`, running under a registry whose combiner is `C`.
///
/// The callback receives the registry core mutably, so it may re-enter it:
/// connect new slots, disconnect (itself included), block, or emit again.
/// An extended slot also receives its own connection handle. A callback
/// describes itself through `is_pure`: a pure callback promises to leave
/// the registry untouched and to return `pure_val` of the arguments, which
/// lets the registry pin the outcome of a whole emission; the default
/// promises nothing.
pub trait SlotFn<A, R, C>: Sized where C: Combiner<R> {
    /// True for a callback that never changes the registry and returns a
    /// value determined by the arguments alone.
    open spec fn is_pure(&self) -> bool {
        false
    }

    /// The value a pure callback returns for `args`. Meaningful only for a
    /// callback that declares itself pure; the default names no value.
    open spec fn pure_val(&self, args: A) -> R {
        vstd::pervasive::arbitrary()
    }

    /// Runs the callback. `conn` is the slot's own connection handle for an
    /// extended slot and `None` for a plain one.
    fn call(
        &self,
        core: &mut SignalCore<A, R, C, Self>,
        conn: Option<crate::connect::Connection>,
        args: A,
    ) -> (r: R)
        requires
            old(core).inv(),
        ensures
            final(core).inv(),
            self.is_pure() ==> (*final(core) == *old(core) && r == self.pure_val(args)),
    ;
}

/// One registered slot: its identity, its sort key, its live connectivity
/// and blocking state, and its callback.
pub(crate) struct Slot<F> {
    pub(crate) id: i64,
    pub(crate) group: Group,
    pub(crate) pos: i64,
    pub(crate) connected: bool,
    pub(crate) blockers: usize,
    pub(crate) extended: bool,
    pub(crate) func: Arc<F>,
}

/// The mathematical face of one slot.
pub struct SlotView<F> {
    /// The process-unique identity the slot was created with.
    pub id: int,
    /// The group the slot was connected to.
    pub group: Group,
    /// The position value drawn at connection time; negative for front
    /// insertions.
    pub pos: int,
    /// Whether the slot is still connected.
    pub connected: bool,
    /// How many shared blocks currently block the slot.
    pub blockers: nat,
    /// Whether the slot receives its own connection handle when invoked.
    pub extended: bool,
    /// The callback.
    pub func: F,
}

impl<F> View for Slot<F> {
    type V = SlotView<F>;

    open(crate) spec fn view(&self) -> SlotView<F> {
        SlotView {
            id: self.id as int,
            group: self.group,
            pos: self.pos as int,
            connected: self.connected,
            blockers: self.blockers as nat,
            extended: self.extended,
            func: *self.func,
        }
    }
}

/// The mathematical face of a registry core.
pub struct CoreView<C, F> {
    /// The slots in execution order.
    pub slots: Seq<SlotView<F>>,
    /// The combiner an emission started now would use.
    pub combiner: C,
    /// The monotonic counter that mints slot identities and positions.
    pub counter: int,
    /// How many strong handles refer to the signal.
    pub strong: nat,
}

impl<C, F> CoreView<C, F> {
    /// A signal is alive while at least one strong handle refers to it.
    pub open spec fn alive(self) -> bool {
        self.strong > 0
    }

    /// Whether a slot with identity `id` is structurally present.
    pub open spec fn has_slot(self, id: int) -> bool {
        exists|i: int| 0 <= i < self.slots.len() && #[trigger] self.slots[i].id == id
    }

    /// The index of the slot with identity `id`.
    pub open spec fn slot_index(self, id: int) -> int {
        choose|i: int| 0 <= i < self.slots.len() && #[trigger] self.slots[i].id == id
    }

    /// What a connection handle for `id` reports as connected: false once
    /// the slot is gone or the signal is dead.
    pub open spec fn spec_connected(self, id: int) -> bool {
        self.alive() && self.has_slot(id) && self.slots[self.slot_index(id)].connected
    }

    /// What a connection handle for `id` reports as blocked: true once the
    /// slot is gone or the signal is dead.
    pub open spec fn spec_blocked(self, id: int) -> bool {
        !self.alive() || !self.has_slot(id) || self.slots[self.slot_index(id)].blockers > 0
    }

    /// What a connection handle for `id` reports as the blocker count: the
    /// largest value once the slot is gone or the signal is dead.
    pub open spec fn spec_blocker_count(self, id: int) -> int {
        if self.alive() && self.has_slot(id) {
            self.slots[self.slot_index(id)].blockers as int
        } else {
            usize::MAX as int
        }
    }
}

/// How many slots of `slots` are connected.
pub open spec fn count_connected<F>(slots: Seq<SlotView<F>>) -> int
    decreases slots.len(),
{
    if slots.len() == 0 {
        0
    } else {
        count_connected(slots.drop_last()) + if slots.last().connected {
            1int
        } else {
            0int
        }
    }
}

/// The index at which a slot with key `(g, p)` belongs in `slots`: past
/// every slot whose key is strictly smaller.
pub open spec fn insert_index_of<F>(slots: Seq<SlotView<F>>, g: Group, p: int) -> int
    decreases slots.len(),
{
    if slots.len() == 0 {
        0
    } else if key_lt(slots[0].group, slots[0].pos, g, p) {
        1 + insert_index_of(slots.subrange(1, slots.len() as int), g, p)
    } else {
        0
    }
}

/// The subsequence of `slots` that is still connected, in order.
pub open spec fn connected_only<F>(slots: Seq<SlotView<F>>) -> Seq<SlotView<F>>
    decreases slots.len(),
{
    if slots.len() == 0 {
        Seq::empty()
    } else {
        let rest = connected_only(slots.drop_last());
        if slots.last().connected {
            rest.push(slots.last())
        } else {
            rest
        }
    }
}

/// Every slot of `connected_only(slots)` is one of `slots`.
proof fn lemma_connected_only_elems<F>(slots: Seq<SlotView<F>>)
    ensures
        connected_only(slots).len() <= slots.len(),
        forall|i: int|
            #![trigger connected_only(slots)[i]]
            0 <= i < connected_only(slots).len() ==> exists|k: int|
                0 <= k < slots.len() && connected_only(slots)[i] == #[trigger] slots[k],
    decreases slots.len(),
{
    if slots.len() > 0 {
        let prev = slots.drop_last();
        lemma_connected_only_elems(prev);
        let co = connected_only(slots);
        assert forall|i: int| #![trigger co[i]] 0 <= i < co.len() implies exists|k: int|
            0 <= k < slots.len() && co[i] == #[trigger] slots[k] by {
            if i < connected_only(prev).len() {
                let k = choose|k: int|
                    0 <= k < prev.len() && connected_only(prev)[i] == #[trigger] prev[k];
                assert(prev[k] == slots[k]);
                assert(co[i] == slots[k]);
            } else {
                assert(co[i] == slots[slots.len() - 1]);
            }
        }
    }
}

/// Dropping the disconnected slots keeps a slot sequence well formed.
proof fn lemma_connected_only_wf<F>(slots: Seq<SlotView<F>>, counter: int)
    requires
        slots_wf(slots, counter),
    ensures
        slots_wf(connected_only(slots), counter),
        connected_only(slots).len() <= slots.len(),
    decreases slots.len(),
{
    lemma_connected_only_elems(slots);
    if slots.len() > 0 {
        let prev = slots.drop_last();
        assert(slots_wf(prev, counter)) by {
            assert(forall|i: int| 0 <= i < prev.len() ==> #[trigger] prev[i] == slots[i]);
        }
        lemma_connected_only_wf(prev, counter);
        lemma_connected_only_elems(prev);
        let co = connected_only(slots);
        let cp = connected_only(prev);
        if slots.last().connected {
            let last = slots.last();
            assert forall|i: int| 0 <= i < cp.len() implies key_lt(
                (#[trigger] cp[i]).group,
                cp[i].pos,
                last.group,
                last.pos,
            ) && cp[i].id != last.id by {
                let k = choose|k: int| 0 <= k < prev.len() && cp[i] == #[trigger] prev[k];
                assert(cp[i] == prev[k]);
                assert(prev[k] == slots[k]);
            }
        }
    }
}

/// The wrapped successor of a blocker count.
pub open spec fn wrap_inc(n: nat) -> nat {
    if n == usize::MAX {
        0
    } else {
        n + 1
    }
}

/// The wrapped predecessor of a blocker count.
pub open spec fn wrap_dec(n: nat) -> nat {
    if n == 0 {
        usize::MAX as nat
    } else {
        (n - 1) as nat
    }
}

/// A fresh slot record equal to the given one; the callback is shared, as
/// every copy of a slot record shares the original's callback.
pub(crate) fn clone_slot<F>(s: &Slot<F>) -> (r: Slot<F>)
    ensures
        r@ == s@,
{
    Slot {
        id: s.id,
        group: s.group,
        pos: s.pos,
        connected: s.connected,
        blockers: s.blockers,
        extended: s.extended,
        func: clone_arc(&s.func),
    }
}

/// The slot record a fresh connection creates: connected, unblocked, with
/// the identity and position minted for it.
pub open spec fn connected_slot_view<F>(
    id: int,
    g: Group,
    p: int,
    extended: bool,
    f: F,
) -> SlotView<F> {
    SlotView { id, group: g, pos: p, connected: true, blockers: 0, extended, func: f }
}

/// `insert_index_of` names the end of the longest prefix of slots whose
/// keys are strictly below `(g, p)`, and the slot at that index (if any) is
/// not below `(g, p)`.
pub proof fn lemma_insert_index_char<F>(slots: Seq<SlotView<F>>, g: Group, p: int)
    ensures
        0 <= insert_index_of(slots, g, p) <= slots.len(),
        forall|j: int|
            0 <= j < insert_index_of(slots, g, p) ==> key_lt(
                #[trigger] slots[j].group,
                slots[j].pos,
                g,
                p,
            ),
        insert_index_of(slots, g, p) < slots.len() ==> !key_lt(
            slots[insert_index_of(slots, g, p)].group,
            slots[insert_index_of(slots, g, p)].pos,
            g,
            p,
        ),
    decreases slots.len(),
{
    if slots.len() > 0 && key_lt(slots[0].group, slots[0].pos, g, p) {
        let tail = slots.subrange(1, slots.len() as int);
        lemma_insert_index_char(tail, g, p);
        let k = insert_index_of(slots, g, p);
        assert forall|j: int| 0 <= j < k implies key_lt(slots[j].group, slots[j].pos, g, p) by {
            if j > 0 {
                assert(slots[j] == tail[j - 1]);
                assert(key_lt(tail[j - 1].group, tail[j - 1].pos, g, p));
            }
        }
        if k < slots.len() {
            assert(slots[k] == tail[k - 1]);
        }
    }
}

/// The registry core of one signal: its slots in execution order, its
/// combiner, the counter that mints identities and positions, and the
/// number of strong handles.
pub struct SignalCore<A, R, C, F> {
    pub(crate) slots: Vec<Slot<F>>,
    pub(crate) combiner: Arc<C>,
    pub(crate) counter: i64,
    pub(crate) strong: usize,
    pub(crate) args_marker: PhantomData<A>,
    pub(crate) ret_marker: PhantomData<R>,
}

impl<A, R, C, F> View for SignalCore<A, R, C, F> {
    type V = CoreView<C, F>;

    open(crate) spec fn view(&self) -> CoreView<C, F> {
        CoreView {
            slots: self.slots@.map_values(|s: Slot<F>| s@),
            combiner: *self.combiner,
            counter: self.counter as int,
            strong: self.strong as nat,
        }
    }
}

/// Well-formedness of a slot sequence under a counter value: the slots are
/// strictly sorted by key, identities are unique and minted below the
/// counter, and position magnitudes stay below the counter.
pub open(crate) spec fn slots_wf<F>(slots: Seq<SlotView<F>>, counter: int) -> bool {
    &&& forall|i: int, j: int|
        #![trigger slots[i], slots[j]]
        0 <= i < j < slots.len() ==> key_lt(
            slots[i].group,
            slots[i].pos,
            slots[j].group,
            slots[j].pos,
        )
    &&& forall|i: int| 0 <= i < slots.len() ==> 0 <= #[trigger] slots[i].id < counter
    &&& forall|i: int| 0 <= i < slots.len() ==> -counter < #[trigger] slots[i].pos < counter
    &&& forall|i: int, j: int|
        0 <= i < j < slots.len() ==> #[trigger] slots[i].id != #[trigger] slots[j].id
}

impl<A, R, C, F> SignalCore<A, R, C, F> {
    /// Well-formedness of the core: the counter never runs backwards, the
    /// slots are strictly sorted by key, identities are unique and minted
    /// below the counter, position magnitudes stay below the counter, and a
    /// dead signal holds no slots.
    pub open(crate) spec fn inv(self) -> bool {
        let v = self@;
        &&& 0 <= v.counter
        &&& slots_wf(v.slots, v.counter)
        &&& (v.strong == 0 ==> v.slots.len() == 0)
    }
}

impl<A, R, C, F> SignalCore<A, R, C, F> where C: Combiner<R>, F: SlotFn<A, R, C> {
    /// A fresh registry with the given combiner, no slots, a counter at
    /// zero, and one strong handle: the creator's.
    pub fn new(combiner: C) -> (core: Self)
        ensures
            core.inv(),
            core@.slots == Seq::<SlotView<F>>::empty(),
            core@.combiner == combiner,
            core@.counter == 0,
            core@.strong == 1,
    {
        let core = SignalCore {
            slots: Vec::new(),
            combiner: Arc::new(combiner),
            counter: 0,
            strong: 1,
            args_marker: PhantomData,
            ret_marker: PhantomData,
        };
        proof {
            assert(core@.slots =~= Seq::<SlotView<F>>::empty());
        }
        core
    }

    /// Whether at least one strong handle still refers to the signal.
    pub fn is_alive(&self) -> (r: bool)
        ensures
            r == self@.alive(),
    {
        self.strong > 0
    }

    /// How many slots are currently connected.
    pub fn count(&self) -> (n: usize)
        ensures
            n == count_connected(self@.slots),
    {
        let mut n: usize = 0;
        let mut i: usize = 0;
        while i < self.slots.len()
            invariant
                0 <= i <= self.slots.len(),
                n == count_connected(self@.slots.take(i as int)),
                n <= i,
            decreases self.slots.len() - i,
        {
            proof {
                assert(self@.slots.take(i + 1).drop_last() =~= self@.slots.take(i as int));
                assert(self@.slots.take(i + 1).last() == self@.slots[i as int]);
            }
            if self.slots[i].connected {
                n = n + 1;
            }
            i = i + 1;
        }
        proof {
            assert(self@.slots.take(self.slots@.len() as int) =~= self@.slots);
        }
        n
    }

    /// The index of the slot with identity `id`, if it is present.
    pub(crate) fn find_index(&self, id: i64) -> (r: Option<usize>)
        ensures
            match r {
                Some(i) => 0 <= i < self@.slots.len() && self@.slots[i as int].id == id as int,
                None => !self@.has_slot(id as int),
            },
    {
        let mut i: usize = 0;
        while i < self.slots.len()
            invariant
                0 <= i <= self.slots.len(),
                forall|j: int| 0 <= j < i ==> #[trigger] self@.slots[j].id != id as int,
            decreases self.slots.len() - i,
        {
            if self.slots[i].id == id {
                return Some(i);
            }
            i = i + 1;
        }
        None
    }

    /// The index at which a slot with key `(*g, p)` belongs: the end of the
    /// longest prefix of slots with strictly smaller keys.
    fn insert_position(&self, g: &Group, p: i64) -> (idx: usize)
        ensures
            idx == insert_index_of(self@.slots, *g, p as int),
            0 <= idx <= self@.slots.len(),
    {
        let ghost slots = self@.slots;
        let mut i: usize = 0;
        while i < self.slots.len()
            invariant
                0 <= i <= slots.len(),
                slots == self@.slots,
                forall|j: int|
                    0 <= j < i ==> key_lt(#[trigger] slots[j].group, slots[j].pos, *g, p as int),
            decreases self.slots.len() - i,
        {
            if !key_before(&self.slots[i].group, self.slots[i].pos, g, p) {
                proof {
                    lemma_insert_index_char(slots, *g, p as int);
                    let k = insert_index_of(slots, *g, p as int);
                    if k < i {
                        assert(key_lt(slots[k].group, slots[k].pos, *g, p as int));
                    }
                    if k > i {
                        assert(key_lt(slots[i as int].group, slots[i as int].pos, *g, p as int));
                    }
                }
                return i;
            }
            i = i + 1;
        }
        proof {
            lemma_insert_index_char(slots, *g, p as int);
            let k = insert_index_of(slots, *g, p as int);
            if k < slots.len() {
                assert(key_lt(slots[k].group, slots[k].pos, *g, p as int));
            }
        }
        i
    }

    /// Registers a callback: mints a fresh identity and position from the
    /// counter, inserts the slot at its place in the key order (when the
    /// signal is alive; a dead registry accepts no slot), and returns the
    /// slot's connection handle.
    pub fn connect(&mut self, f: F, group: Group, pos: Position) -> (conn: Connection)
        requires
            old(self).inv(),
            old(self)@.counter < i64::MAX as int,
        ensures
            final(self).inv(),
            conn@ == old(self)@.counter,
            final(self)@.counter == old(self)@.counter + 1,
            final(self)@.combiner == old(self)@.combiner,
            final(self)@.strong == old(self)@.strong,
            final(self)@.slots == if old(self)@.alive() {
                old(self)@.slots.insert(
                    insert_index_of(
                        old(self)@.slots,
                        group,
                        position_value(pos, old(self)@.counter),
                    ),
                    connected_slot_view(
                        old(self)@.counter,
                        group,
                        position_value(pos, old(self)@.counter),
                        false,
                        f,
                    ),
                )
            } else {
                old(self)@.slots
            },
    {
        self.connect_impl(f, group, pos, false)
    }

    /// Registers an extended callback: as `connect`, but the slot will
    /// receive its own connection handle whenever it is invoked.
    pub fn connect_extended(&mut self, f: F, group: Group, pos: Position) -> (conn: Connection)
        requires
            old(self).inv(),
            old(self)@.counter < i64::MAX as int,
        ensures
            final(self).inv(),
            conn@ == old(self)@.counter,
            final(self)@.counter == old(self)@.counter + 1,
            final(self)@.combiner == old(self)@.combiner,
            final(self)@.strong == old(self)@.strong,
            final(self)@.slots == if old(self)@.alive() {
                old(self)@.slots.insert(
                    insert_index_of(
                        old(self)@.slots,
                        group,
                        position_value(pos, old(self)@.counter),
                    ),
                    connected_slot_view(
                        old(self)@.counter,
                        group,
                        position_value(pos, old(self)@.counter),
                        true,
                        f,
                    ),
                )
            } else {
                old(self)@.slots
            },
    {
        self.connect_impl(f, group, pos, true)
    }

    /// Shared body of `connect` and `connect_extended`.
    fn connect_impl(&mut self, f: F, group: Group, pos: Position, extended: bool) -> (conn:
        Connection)
        requires
            old(self).inv(),
            old(self)@.counter < i64::MAX as int,
        ensures
            final(self).inv(),
            conn@ == old(self)@.counter,
            final(self)@.counter == old(self)@.counter + 1,
            final(self)@.combiner == old(self)@.combiner,
            final(self)@.strong == old(self)@.strong,
            final(self)@.slots == if old(self)@.alive() {
                old(self)@.slots.insert(
                    insert_index_of(
                        old(self)@.slots,
                        group,
                        position_value(pos, old(self)@.counter),
                    ),
                    connected_slot_view(
                        old(self)@.counter,
                        group,
                        position_value(pos, old(self)@.counter),
                        extended,
                        f,
                    ),
                )
            } else {
                old(self)@.slots
            },
    {
        let ghost pre = self@;
        let n = self.counter;
        self.counter = n + 1;
        let p: i64 = match pos {
            Position::Back => n,
            Position::Front => -n,
        };
        if self.strong > 0 {
            let idx = self.insert_position(&group, p);
            let slot = Slot {
                id: n,
                group,
                pos: p,
                connected: true,
                blockers: 0,
                extended,
                func: Arc::new(f),
            };
            let ghost sv = slot@;
            self.slots.insert(idx, slot);
            proof {
                lemma_insert_index_char(pre.slots, group, p as int);
                assert(self@.slots =~= pre.slots.insert(idx as int, sv));
                assert(sv == connected_slot_view(
                    pre.counter,
                    group,
                    position_value(pos, pre.counter),
                    extended,
                    f,
                ));
                self.lemma_connect_inv(pre, idx as int, sv);
            }
        } else {
            proof {
                assert(self@.slots =~= pre.slots);
            }
        }
        Connection { slot_id: n }
    }

    /// Replaces the combiner. Emissions started afterwards use the new one.
    pub fn set_combiner(&mut self, combiner: C)
        requires
            old(self).inv(),
        ensures
            final(self).inv(),
            final(self)@ == (CoreView { combiner, ..old(self)@ }),
    {
        self.combiner = Arc::new(combiner);
    }

    /// Structurally removes every slot. Emissions started afterwards see no
    /// slot; connection handles to the removed slots degrade.
    pub fn clear(&mut self)
        requires
            old(self).inv(),
        ensures
            final(self).inv(),
            final(self)@ == (CoreView { slots: Seq::<SlotView<F>>::empty(), ..old(self)@ }),
    {
        self.slots.clear();
        proof {
            assert(self@.slots =~= Seq::<SlotView<F>>::empty());
        }
    }

    /// Marks every slot as disconnected, without removing any: connection
    /// handles report them as disconnected, and emissions skip them, but
    /// their records (and blocker counts) stay until `clear` or `cleanup`.
    pub fn disconnect_all(&mut self)
        requires
            old(self).inv(),
        ensures
            final(self).inv(),
            final(self)@.slots.len() == old(self)@.slots.len(),
            forall|i: int|
                0 <= i < old(self)@.slots.len() ==> final(self)@.slots[i] == (SlotView {
                    connected: false,
                    ..old(self)@.slots[i]
                }),
            final(self)@.combiner == old(self)@.combiner,
            final(self)@.counter == old(self)@.counter,
            final(self)@.strong == old(self)@.strong,
    {
        let ghost pre = self@;
        let mut i: usize = 0;
        while i < self.slots.len()
            invariant
                0 <= i <= self@.slots.len(),
                self@.slots.len() == pre.slots.len(),
                forall|j: int|
                    0 <= j < i ==> self@.slots[j] == (SlotView {
                        connected: false,
                        ..pre.slots[j]
                    }),
                forall|j: int| i <= j < pre.slots.len() ==> self@.slots[j] == pre.slots[j],
                self@.combiner == pre.combiner,
                self@.counter == pre.counter,
                self@.strong == pre.strong,
            decreases self.slots.len() - i,
        {
            let ghost before = self@.slots;
            let mut s = self.slots.remove(i);
            s.connected = false;
            let ghost sv = s@;
            self.slots.insert(i, s);
            proof {
                assert(self@.slots =~= before.remove(i as int).insert(i as int, sv));
                assert(self@.slots[i as int] == sv);
                assert(before[i as int] == pre.slots[i as int]);
                assert(sv == (SlotView { connected: false, ..pre.slots[i as int] }));
            }
            i = i + 1;
        }
        proof {
            assert(slots_wf(self@.slots, self@.counter)) by {
                assert(forall|j: int|
                    0 <= j < self@.slots.len() ==> (#[trigger] self@.slots[j]).group
                        == pre.slots[j].group && self@.slots[j].pos == pre.slots[j].pos
                        && self@.slots[j].id == pre.slots[j].id);
            }
        }
    }

    /// Structurally removes every slot that is no longer connected, keeping
    /// the connected ones in order.
    pub fn cleanup(&mut self)
        requires
            old(self).inv(),
        ensures
            final(self).inv(),
            final(self)@ == (CoreView {
                slots: connected_only(old(self)@.slots),
                ..old(self)@
            }),
    {
        let ghost pre = self@;
        let mut rest: Vec<Slot<F>> = Vec::new();
        core::mem::swap(&mut rest, &mut self.slots);
        let ghost all = rest@.map_values(|s: Slot<F>| s@);
        let mut i: usize = 0;
        while i < rest.len()
            invariant
                0 <= i <= rest@.len(),
                all == rest@.map_values(|s: Slot<F>| s@),
                self@.slots == connected_only(all.take(i as int)),
                self@.combiner == pre.combiner,
                self@.counter == pre.counter,
                self@.strong == pre.strong,
            decreases rest.len() - i,
        {
            proof {
                assert(all.take(i + 1).drop_last() =~= all.take(i as int));
                assert(all.take(i + 1).last() == all[i as int]);
            }
            if rest[i].connected {
                let s = clone_slot(&rest[i]);
                self.slots.push(s);
            }
            i = i + 1;
        }
        proof {
            assert(all.take(all.len() as int) =~= all);
            assert(all == pre.slots);
            assert(self@ == (CoreView { slots: connected_only(pre.slots), ..pre }));
            lemma_connected_only_wf(pre.slots, pre.counter);
            if pre.strong == 0 {
                assert(connected_only(pre.slots).len() == 0);
            }
        }
    }

    /// Records one more strong handle.
    pub(crate) fn add_strong(&mut self)
        requires
            old(self).inv(),
            old(self)@.strong < usize::MAX,
        ensures
            final(self).inv(),
            final(self)@ == (CoreView { strong: (old(self)@.strong + 1) as nat, ..old(self)@ }),
    {
        self.strong = self.strong + 1;
    }

    /// Records that one strong handle is gone. When the last one goes, the
    /// signal dies: its slots are dropped and every dependent handle
    /// degrades.
    pub(crate) fn drop_strong(&mut self)
        requires
            old(self).inv(),
        ensures
            final(self).inv(),
            old(self)@.strong > 1 ==> final(self)@ == (CoreView {
                strong: (old(self)@.strong - 1) as nat,
                ..old(self)@
            }),
            old(self)@.strong <= 1 ==> final(self)@ == (CoreView {
                strong: 0,
                slots: Seq::<SlotView<F>>::empty(),
                ..old(self)@
            }),
    {
        if self.strong > 1 {
            self.strong = self.strong - 1;
        } else {
            self.strong = 0;
            self.slots.clear();
            proof {
                assert(self@.slots =~= Seq::<SlotView<F>>::empty());
            }
        }
    }

    /// Structurally removes the slot with identity `id`, if present; a
    /// second removal of the same identity is a no-op.
    pub(crate) fn remove_slot(&mut self, id: i64)
        requires
            old(self).inv(),
        ensures
            final(self).inv(),
            old(self)@.has_slot(id as int) ==> final(self)@ == (CoreView {
                slots: old(self)@.slots.remove(old(self)@.slot_index(id as int)),
                ..old(self)@
            }),
            !old(self)@.has_slot(id as int) ==> *final(self) == *old(self),
    {
        let ghost pre = self@;
        match self.find_index(id) {
            Some(i) => {
                self.slots.remove(i);
                proof {
                    let k = pre.slot_index(id as int);
                    assert(0 <= k < pre.slots.len() && pre.slots[k].id == id as int);
                    assert(k == i as int);
                    let s2 = self@.slots;
                    assert(s2 =~= pre.slots.remove(i as int));
                    assert forall|a: int, b: int|
                        #![trigger s2[a], s2[b]]
                        0 <= a < b < s2.len() implies key_lt(
                        s2[a].group,
                        s2[a].pos,
                        s2[b].group,
                        s2[b].pos,
                    ) && s2[a].id != s2[b].id by {
                        let a0 = if a < i as int { a } else { a + 1 };
                        let b0 = if b < i as int { b } else { b + 1 };
                        assert(s2[a] == pre.slots[a0] && s2[b] == pre.slots[b0]);
                    }
                    assert forall|a: int| 0 <= a < s2.len() implies 0 <= (#[trigger] s2[a]).id
                        < self@.counter && -self@.counter < s2[a].pos < self@.counter by {
                        let a0 = if a < i as int { a } else { a + 1 };
                        assert(s2[a] == pre.slots[a0]);
                    }
                }
            },
            None => {},
        }
    }

    /// Adds or removes one blocker on the slot with identity `id`, if it is
    /// present; the count wraps at the ends of its range.
    pub(crate) fn block_slot(&mut self, id: i64, on: bool)
        requires
            old(self).inv(),
        ensures
            final(self).inv(),
            old(self)@.has_slot(id as int) ==> final(self)@ == (CoreView {
                slots: old(self)@.slots.update(
                    old(self)@.slot_index(id as int),
                    (SlotView {
                        blockers: if on {
                            wrap_inc(old(self)@.slots[old(self)@.slot_index(id as int)].blockers)
                        } else {
                            wrap_dec(old(self)@.slots[old(self)@.slot_index(id as int)].blockers)
                        },
                        ..old(self)@.slots[old(self)@.slot_index(id as int)]
                    }),
                ),
                ..old(self)@
            }),
            !old(self)@.has_slot(id as int) ==> *final(self) == *old(self),
    {
        let ghost pre = self@;
        match self.find_index(id) {
            Some(i) => {
                let mut s = self.slots.remove(i);
                if on {
                    s.blockers = if s.blockers == usize::MAX {
                        0
                    } else {
                        s.blockers + 1
                    };
                } else {
                    s.blockers = if s.blockers == 0 {
                        usize::MAX
                    } else {
                        s.blockers - 1
                    };
                }
                let ghost sv = s@;
                self.slots.insert(i, s);
                proof {
                    let k = pre.slot_index(id as int);
                    assert(0 <= k < pre.slots.len() && pre.slots[k].id == id as int);
                    assert(k == i as int);
                    let s2 = self@.slots;
                    assert(s2 =~= pre.slots.update(i as int, sv));
                    assert forall|j: int| 0 <= j < pre.slots.len() && j != i implies s2[j]
                        == pre.slots[j] by {}
                    assert(slots_wf(s2, self@.counter)) by {
                        assert(forall|j: int|
                            0 <= j < s2.len() ==> (#[trigger] s2[j]).group == pre.slots[j].group
                                && s2[j].pos == pre.slots[j].pos && s2[j].id == pre.slots[j].id);
                    }
                }
            },
            None => {},
        }
    }

    /// With unique identities, an index holding `id` is the index that
    /// `slot_index` names.
    pub(crate) proof fn lemma_found_index(self, k: int, id: int)
        requires
            self.inv(),
            0 <= k < self@.slots.len(),
            self@.slots[k].id == id,
        ensures
            self@.has_slot(id),
            self@.slot_index(id) == k,
    {
        assert(self@.has_slot(id));
        let m = self@.slot_index(id);
        assert(0 <= m < self@.slots.len() && self@.slots[m].id == id);
        if m != k {
            assert(self@.slots[m].id != self@.slots[k].id);
        }
    }

    /// Ordering law, across groups: within one registry the slots of the
    /// unnamed front group stand before every named group's slots, named
    /// groups stand in ascending order of their names, and the unnamed back
    /// group's slots stand last — whatever order they were connected in.
    pub proof fn lemma_groups_in_order(self, i: int, j: int)
        requires
            self.inv(),
            0 <= i < j < self@.slots.len(),
        ensures
            !group_lt(self@.slots[j].group, self@.slots[i].group),
    {
        assert(key_lt(
            self@.slots[i].group,
            self@.slots[i].pos,
            self@.slots[j].group,
            self@.slots[j].pos,
        ));
    }

    /// Ordering law, within a group, for back insertions: a slot connected
    /// at the back carries its identity as its position, and among such
    /// slots of one group the execution order is the connection order —
    /// identities rise along the registry.
    pub proof fn lemma_back_connection_order(self, i: int, j: int)
        requires
            self.inv(),
            0 <= i < j < self@.slots.len(),
            self@.slots[i].group == self@.slots[j].group,
            self@.slots[i].pos == self@.slots[i].id,
            self@.slots[j].pos == self@.slots[j].id,
        ensures
            self@.slots[i].id < self@.slots[j].id,
    {
        assert(key_lt(
            self@.slots[i].group,
            self@.slots[i].pos,
            self@.slots[j].group,
            self@.slots[j].pos,
        ));
    }

    /// Ordering law, within a group, for front insertions: a slot connected
    /// at the front carries the negation of its identity as its position,
    /// and among such slots of one group the execution order is the reverse
    /// of the connection order — the most recently connected runs first.
    pub proof fn lemma_front_connection_order(self, i: int, j: int)
        requires
            self.inv(),
            0 <= i < j < self@.slots.len(),
            self@.slots[i].group == self@.slots[j].group,
            self@.slots[i].pos == -self@.slots[i].id,
            self@.slots[j].pos == -self@.slots[j].id,
        ensures
            self@.slots[i].id > self@.slots[j].id,
    {
        assert(key_lt(
            self@.slots[i].group,
            self@.slots[i].pos,
            self@.slots[j].group,
            self@.slots[j].pos,
        ));
    }

    /// Count law for disconnection: removing a slot lowers the connected
    /// count by one exactly when the removed slot was connected.
    pub proof fn lemma_count_connected_remove(slots: Seq<SlotView<F>>, k: int)
        requires
            0 <= k < slots.len(),
        ensures
            count_connected(slots.remove(k)) == count_connected(slots) - if slots[k].connected {
                1int
            } else {
                0int
            },
        decreases slots.len(),
    {
        if k == slots.len() - 1 {
            assert(slots.remove(k) =~= slots.drop_last());
        } else {
            assert(slots.remove(k).drop_last() =~= slots.drop_last().remove(k));
            assert(slots.remove(k).last() == slots.last());
            Self::lemma_count_connected_remove(slots.drop_last(), k);
        }
    }

    /// Disconnect visibility law, for the count: removing a still-connected
    /// slot — what a disconnect does — lowers the connected count by
    /// exactly one.
    pub proof fn lemma_disconnect_lowers_count(pre: CoreView<C, F>, post: CoreView<C, F>, id: int)
        requires
            pre.has_slot(id),
            pre.slots[pre.slot_index(id)].connected,
            post.slots == pre.slots.remove(pre.slot_index(id)),
        ensures
            count_connected(post.slots) == count_connected(pre.slots) - 1,
    {
        let k = pre.slot_index(id);
        assert(0 <= k < pre.slots.len() && pre.slots[k].id == id);
        Self::lemma_count_connected_remove(pre.slots, k);
    }

    /// The connected count never drops below zero and never exceeds the
    /// number of slots; at zero, every slot is disconnected.
    pub proof fn lemma_count_connected_bounds(slots: Seq<SlotView<F>>)
        ensures
            0 <= count_connected(slots) <= slots.len(),
            count_connected(slots) == 0 ==> forall|i: int|
                0 <= i < slots.len() ==> !(#[trigger] slots[i]).connected,
        decreases slots.len(),
    {
        if slots.len() > 0 {
            Self::lemma_count_connected_bounds(slots.drop_last());
            if count_connected(slots) == 0 {
                assert forall|i: int| 0 <= i < slots.len() implies !(#[trigger] slots[i]).connected by {
                    if i < slots.len() - 1 {
                        assert(slots.drop_last()[i] == slots[i]);
                    }
                }
            }
        }
    }

    /// Expiry law: once every strong handle is gone, every connection
    /// handle reports its slot as not connected and blocked, with the
    /// largest blocker count, whatever slot it names.
    pub proof fn lemma_dead_defaults(self, id: int)
        requires
            !self@.alive(),
        ensures
            !self@.spec_connected(id),
            self@.spec_blocked(id),
            self@.spec_blocker_count(id) == usize::MAX as int,
    {
    }

    /// Inserting a freshly minted slot at its computed index preserves the
    /// core invariant.
    proof fn lemma_connect_inv(self, pre: CoreView<C, F>, idx: int, sv: SlotView<F>)
        requires
            0 <= pre.counter,
            forall|i: int, j: int|
                #![trigger pre.slots[i], pre.slots[j]]
                0 <= i < j < pre.slots.len() ==> key_lt(
                    pre.slots[i].group,
                    pre.slots[i].pos,
                    pre.slots[j].group,
                    pre.slots[j].pos,
                ),
            forall|i: int| 0 <= i < pre.slots.len() ==> 0 <= #[trigger] pre.slots[i].id < pre.counter,
            forall|i: int|
                0 <= i < pre.slots.len() ==> -pre.counter < #[trigger] pre.slots[i].pos
                    < pre.counter,
            forall|i: int, j: int|
                0 <= i < j < pre.slots.len() ==> #[trigger] pre.slots[i].id
                    != #[trigger] pre.slots[j].id,
            pre.strong > 0,
            sv.id == pre.counter,
            sv.pos == pre.counter || sv.pos == -pre.counter,
            idx == insert_index_of(pre.slots, sv.group, sv.pos),
            self@.slots == pre.slots.insert(idx, sv),
            self@.counter == pre.counter + 1,
            self@.strong == pre.strong,
        ensures
            self.inv(),
    {
        lemma_insert_index_char(pre.slots, sv.group, sv.pos);
        let s2 = self@.slots;
        // every old slot differs from the new one and sits on the proper side
        assert forall|j: int| 0 <= j < pre.slots.len() && !key_lt(
            pre.slots[j].group,
            pre.slots[j].pos,
            sv.group,
            sv.pos,
        ) implies key_lt(sv.group, sv.pos, pre.slots[j].group, pre.slots[j].pos) by {
            if pre.slots[j].group == sv.group && pre.slots[j].pos == sv.pos {
                assert(-pre.counter < pre.slots[j].pos < pre.counter);
                assert(false);
            }
            crate::connect::lemma_key_order_total(
                sv.group,
                sv.pos,
                pre.slots[j].group,
                pre.slots[j].pos,
            );
        }
        assert forall|i: int, j: int|
            #![trigger s2[i], s2[j]]
            0 <= i < j < s2.len() implies key_lt(
            s2[i].group,
            s2[i].pos,
            s2[j].group,
            s2[j].pos,
        ) by {
            if i < idx && j < idx {
            } else if i < idx && j == idx {
            } else if i == idx && j > idx {
                assert(s2[j] == pre.slots[j - 1]);
                assert(!key_lt(pre.slots[j - 1].group, pre.slots[j - 1].pos, sv.group, sv.pos));
            } else if i < idx && j > idx {
            } else {
                assert(s2[i] == pre.slots[i - 1] && s2[j] == pre.slots[j - 1]);
            }
        }
        assert forall|i: int, j: int| 0 <= i < j < s2.len() implies #[trigger] s2[i].id
            != #[trigger] s2[j].id by {
            if j == idx {
                assert(s2[i] == pre.slots[i]);
            } else if i == idx {
                assert(s2[j] == pre.slots[j - 1]);
            } else {
                let i0 = if i < idx { i } else { i - 1 };
                let j0 = if j < idx { j } else { j - 1 };
                assert(s2[i] == pre.slots[i0] && s2[j] == pre.slots[j0]);
            }
        }
        assert forall|i: int| 0 <= i < s2.len() implies 0 <= #[trigger] s2[i].id < self@.counter
            && -self@.counter < #[trigger] s2[i].pos < self@.counter by {
            if i != idx {
                let i0 = if i < idx { i } else { i - 1 };
                assert(s2[i] == pre.slots[i0]);
            }
        }
    }
}

} // verus!
