//! A sequential signal/slot dispatcher: an ordered registry of callbacks
//! ("slots") that can be invoked together ("emitted"), with connection
//! handles for querying and revoking individual slots, reference-counted
//! temporary blocking, and a pluggable strategy ("combiner") that decides
//! how many slot results are consumed and how they merge into one output.
//!
//! All of a signal's state lives in one owned value, its core (see
//! [`signal_core`]). The handle types here — [`Signal`], [`WeakSignal`],
//! [`ConnectHandle`], [`EmitHandle`] — and the connection types in
//! [`connect`] are small tokens: each of their operations takes the core as
//! an explicit argument, and each degrades to a safe default once the
//! signal is dead. Strong handles are counted inside the core; dropping a
//! strong handle is the explicit [`Signal::drop_handle`], and when the last
//! one goes the signal dies: weak upgrades fail and connections report
//! their slots as gone. A handle speaks for the core it was created with;
//! its contracts describe the core value passed to it.

use vstd::prelude::*;

pub mod combiner;
pub mod connect;
pub mod emit;
pub mod signal_core;

use crate::combiner::Combiner;
use crate::connect::{Connection, Group, Position};
use crate::signal_core::{
    connected_slot_view, count_connected, insert_index_of, CoreView, SignalCore, SlotFn, SlotView,
};

verus! {

/// A strong handle to a signal. The signal stays alive while at least one
/// strong handle exists; handles are duplicated with [`Signal::clone_handle`]
/// and released with [`Signal::drop_handle`], both of which keep the core's
/// strong count equal to the number of outstanding strong handles.
pub struct Signal {
    pub(crate) token: (),
}

/// A non-owning reference to a signal: it can be upgraded to a strong
/// handle while the signal is alive, and reports the signal as gone
/// afterwards.
#[derive(Clone, Copy)]
pub struct WeakSignal {
    pub(crate) token: (),
}

/// A handle that allows new slots to be connected, and nothing else. It
/// does not keep the signal alive: connecting through it after the signal
/// died yields a connection that reports as disconnected.
#[derive(Clone, Copy)]
pub struct ConnectHandle {
    pub(crate) token: (),
}

/// A handle that allows the signal to be emitted, and nothing else. It does
/// not keep the signal alive: emitting through it after the signal died
/// returns an absent value.
#[derive(Clone, Copy)]
pub struct EmitHandle {
    pub(crate) token: (),
}

impl Signal {
    /// A fresh signal with the given combiner: its strong handle and its
    /// core, which starts empty, with the counter at zero and one strong
    /// handle recorded — this one.
    pub fn new_with_combiner<A, R, C, F>(combiner: C) -> (r: (Signal, SignalCore<A, R, C, F>)) where
        C: Combiner<R>,
        F: SlotFn<A, R, C>,

        ensures
            r.1.inv(),
            r.1@.slots == Seq::<SlotView<F>>::empty(),
            r.1@.combiner == combiner,
            r.1@.counter == 0,
            r.1@.strong == 1,
    {
        (Signal { token: () }, SignalCore::new(combiner))
    }

    /// A fresh signal whose combiner is the combiner type's default value.
    pub fn new<A, R, C, F>() -> (r: (Signal, SignalCore<A, R, C, F>)) where
        C: Combiner<R> + Default,
        F: SlotFn<A, R, C>,

        ensures
            r.1.inv(),
            r.1@.slots == Seq::<SlotView<F>>::empty(),
            call_ensures(C::default, (), r.1@.combiner),
            r.1@.counter == 0,
            r.1@.strong == 1,
    {
        Self::new_with_combiner(C::default())
    }

    /// A weak reference to the signal.
    pub fn weak(&self) -> WeakSignal {
        WeakSignal { token: () }
    }

    /// A connect-only handle to the signal.
    pub fn get_connect_handle(&self) -> ConnectHandle {
        ConnectHandle { token: () }
    }

    /// An emit-only handle to the signal.
    pub fn get_emit_handle(&self) -> EmitHandle {
        EmitHandle { token: () }
    }

    /// Installs a new combiner: emissions started afterwards use it.
    pub fn set_combiner<A, R, C, F>(&self, core: &mut SignalCore<A, R, C, F>, combiner: C) where
        C: Combiner<R>,
        F: SlotFn<A, R, C>,

        requires
            old(core).inv(),
        ensures
            final(core).inv(),
            final(core)@ == (CoreView { combiner, ..old(core)@ }),
    {
        core.set_combiner(combiner);
    }

    /// Disconnects every slot: each is first marked disconnected, then the
    /// registry is structurally emptied. Every existing connection to them
    /// reports as disconnected afterwards.
    pub fn clear<A, R, C, F>(&self, core: &mut SignalCore<A, R, C, F>) where
        C: Combiner<R>,
        F: SlotFn<A, R, C>,

        requires
            old(core).inv(),
        ensures
            final(core).inv(),
            final(core)@ == (CoreView { slots: Seq::<SlotView<F>>::empty(), ..old(core)@ }),
    {
        core.disconnect_all();
        core.clear();
    }

    /// How many slots are currently connected.
    pub fn count<A, R, C, F>(&self, core: &SignalCore<A, R, C, F>) -> (n: usize) where
        C: Combiner<R>,
        F: SlotFn<A, R, C>,

        ensures
            n == count_connected(core@.slots),
    {
        core.count()
    }

    /// One more strong handle to the same signal.
    pub fn clone_handle<A, R, C, F>(&self, core: &mut SignalCore<A, R, C, F>) -> (r: Signal) where
        C: Combiner<R>,
        F: SlotFn<A, R, C>,

        requires
            old(core).inv(),
            old(core)@.strong < usize::MAX,
        ensures
            final(core).inv(),
            final(core)@ == (CoreView { strong: (old(core)@.strong + 1) as nat, ..old(core)@ }),
    {
        core.add_strong();
        Signal { token: () }
    }

    /// Releases this strong handle. When it was the last one, the signal
    /// dies: its slots are dropped, weak upgrades fail from now on, and
    /// every connection and block handle degrades.
    pub fn drop_handle<A, R, C, F>(self, core: &mut SignalCore<A, R, C, F>) where
        C: Combiner<R>,
        F: SlotFn<A, R, C>,

        requires
            old(core).inv(),
        ensures
            final(core).inv(),
            old(core)@.strong > 1 ==> final(core)@ == (CoreView {
                strong: (old(core)@.strong - 1) as nat,
                ..old(core)@
            }),
            old(core)@.strong <= 1 ==> final(core)@ == (CoreView {
                strong: 0,
                slots: Seq::<SlotView<F>>::empty(),
                ..old(core)@
            }),
    {
        core.drop_strong();
    }
}

impl WeakSignal {
    /// A strong handle to the signal, while it is alive; absent once every
    /// strong handle has been dropped.
    pub fn upgrade<A, R, C, F>(&self, core: &mut SignalCore<A, R, C, F>) -> (r: Option<
        Signal,
    >) where C: Combiner<R>, F: SlotFn<A, R, C>
        requires
            old(core).inv(),
            old(core)@.strong < usize::MAX,
        ensures
            final(core).inv(),
            r is Some <==> old(core)@.alive(),
            old(core)@.alive() ==> final(core)@ == (CoreView {
                strong: (old(core)@.strong + 1) as nat,
                ..old(core)@
            }),
            !old(core)@.alive() ==> *final(core) == *old(core),
    {
        if core.is_alive() {
            core.add_strong();
            Some(Signal { token: () })
        } else {
            None
        }
    }
}

impl ConnectHandle {
    /// Connects a callback, exactly as the core's `connect` does: after the
    /// signal died, the identity is still minted but no slot is stored, so
    /// the returned connection reports as disconnected.
    pub fn connect<A, R, C, F>(
        &self,
        core: &mut SignalCore<A, R, C, F>,
        f: F,
        group: Group,
        pos: Position,
    ) -> (conn: Connection) where C: Combiner<R>, F: SlotFn<A, R, C>
        requires
            old(core).inv(),
            old(core)@.counter < i64::MAX as int,
        ensures
            final(core).inv(),
            conn@ == old(core)@.counter,
            final(core)@.counter == old(core)@.counter + 1,
            final(core)@.combiner == old(core)@.combiner,
            final(core)@.strong == old(core)@.strong,
            final(core)@.slots == if old(core)@.alive() {
                old(core)@.slots.insert(
                    insert_index_of(
                        old(core)@.slots,
                        group,
                        crate::connect::position_value(pos, old(core)@.counter),
                    ),
                    connected_slot_view(
                        old(core)@.counter,
                        group,
                        crate::connect::position_value(pos, old(core)@.counter),
                        false,
                        f,
                    ),
                )
            } else {
                old(core)@.slots
            },
    {
        core.connect(f, group, pos)
    }

    /// Connects an extended callback, exactly as `SignalCore::connect_extended`
    /// does, with the same degradation after the signal died.
    pub fn connect_extended<A, R, C, F>(
        &self,
        core: &mut SignalCore<A, R, C, F>,
        f: F,
        group: Group,
        pos: Position,
    ) -> (conn: Connection) where C: Combiner<R>, F: SlotFn<A, R, C>
        requires
            old(core).inv(),
            old(core)@.counter < i64::MAX as int,
        ensures
            final(core).inv(),
            conn@ == old(core)@.counter,
            final(core)@.counter == old(core)@.counter + 1,
            final(core)@.combiner == old(core)@.combiner,
            final(core)@.strong == old(core)@.strong,
            final(core)@.slots == if old(core)@.alive() {
                old(core)@.slots.insert(
                    insert_index_of(
                        old(core)@.slots,
                        group,
                        crate::connect::position_value(pos, old(core)@.counter),
                    ),
                    connected_slot_view(
                        old(core)@.counter,
                        group,
                        crate::connect::position_value(pos, old(core)@.counter),
                        true,
                        f,
                    ),
                )
            } else {
                old(core)@.slots
            },
    {
        core.connect_extended(f, group, pos)
    }
}

impl EmitHandle {
    /// Emits the signal while it is alive, handing back its combiner's
    /// output; absent once every strong handle has been dropped.
    pub fn emit<A, R, C, F>(&self, core: &mut SignalCore<A, R, C, F>, args: A) -> (out: Option<
        C::Output,
    >) where A: Copy, C: Combiner<R>, F: SlotFn<A, R, C>
        requires
            old(core).inv(),
        ensures
            final(core).inv(),
            out is Some <==> old(core)@.alive(),
            !old(core)@.alive() ==> *final(core) == *old(core),
            (old(core)@.alive() && crate::emit::pure_slots::<A, R, C, F>(old(core)@.slots)) ==> (
            *final(core) == *old(core) && crate::combiner::emitted_to(
                old(core)@.combiner,
                crate::emit::ready_vals::<A, R, C, F>(old(core)@.slots, args),
                out->Some_0,
            )),
    {
        if core.is_alive() {
            Some(core.emit(args))
        } else {
            None
        }
    }
}

} // verus!

