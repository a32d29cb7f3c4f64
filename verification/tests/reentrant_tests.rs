use signals2::combiner::{DefaultCombiner, SumCombiner};
use signals2::connect::{Connection, Group, Position};
use signals2::signal_core::{SignalCore, SlotFn};
use signals2::Signal;

/// A slot that connects another slot to its own signal while running.
#[derive(Clone)]
enum GrowSlot {
    Grower,
    One,
}

impl SlotFn<(), i64, SumCombiner> for GrowSlot {
    fn call(
        &self,
        core: &mut SignalCore<(), i64, SumCombiner, GrowSlot>,
        _conn: Option<Connection>,
        _args: (),
    ) -> i64 {
        match self {
            GrowSlot::Grower => {
                core.connect(GrowSlot::One, Group::Back, Position::Back);
                1
            },
            GrowSlot::One => 1,
        }
    }
}

#[test]
fn connect_while_emitting() {
    let (_sig, mut core) = Signal::new::<(), i64, SumCombiner, GrowSlot>();

    core.connect(GrowSlot::Grower, Group::Back, Position::Back);

    assert_eq!(core.emit(()), 1);
    assert_eq!(core.emit(()), 2);
    assert_eq!(core.emit(()), 3);
    assert_eq!(core.emit(()), 4);
}

/// A slot that disconnects itself mid-emission and re-emits recursively.
#[derive(Clone)]
struct SelfStopSlot;

impl SlotFn<i64, i64, DefaultCombiner> for SelfStopSlot {
    fn call(
        &self,
        core: &mut SignalCore<i64, i64, DefaultCombiner, SelfStopSlot>,
        conn: Option<Connection>,
        count: i64,
    ) -> i64 {
        if count == 100 {
            assert_eq!(core.count(), 1);
            conn.unwrap().disconnect(core);
            assert_eq!(core.count(), 0);
        }

        1 + core.emit(count + 1).unwrap_or(0)
    }
}

#[test]
fn disconnect_while_emitting() {
    let (sig, mut core) = Signal::new::<i64, i64, DefaultCombiner, SelfStopSlot>();

    core.connect_extended(SelfStopSlot, Group::Back, Position::Back);

    assert_eq!(sig.count(&core), 1);
    assert_eq!(core.emit(0), Some(101));
    assert_eq!(sig.count(&core), 0);
}

/// A slot that blocks itself mid-emission through a shared block.
#[derive(Clone)]
struct SelfBlockSlot;

impl SlotFn<i64, i64, DefaultCombiner> for SelfBlockSlot {
    fn call(
        &self,
        core: &mut SignalCore<i64, i64, DefaultCombiner, SelfBlockSlot>,
        conn: Option<Connection>,
        count: i64,
    ) -> i64 {
        let conn = conn.unwrap();
        let mut blocker = conn.shared_block(core, false);

        if count == 100 {
            blocker.block(core);
        }

        let r = 1 + core.emit(count + 1).unwrap_or(0);
        // the block leaves its scope here
        blocker.unblock(core);
        r
    }
}

#[test]
fn block_while_emitting() {
    let (_sig, mut core) = Signal::new::<i64, i64, DefaultCombiner, SelfBlockSlot>();

    core.connect_extended(SelfBlockSlot, Group::Back, Position::Back);

    assert_eq!(core.emit(0), Some(101));
}

/// A slot that, while its argument is positive, connects one more constant
/// slot and recurses with a smaller argument; at zero it disconnects
/// itself.
#[derive(Clone)]
enum RecSlot {
    Recur,
    One,
}

impl SlotFn<i64, i64, SumCombiner> for RecSlot {
    fn call(
        &self,
        core: &mut SignalCore<i64, i64, SumCombiner, RecSlot>,
        conn: Option<Connection>,
        n: i64,
    ) -> i64 {
        match self {
            RecSlot::One => 1,
            RecSlot::Recur => {
                if n > 0 {
                    core.connect(RecSlot::One, Group::Back, Position::Back);
                } else {
                    conn.unwrap().disconnect(core);
                }

                core.emit(n - 1)
            },
        }
    }
}

#[test]
fn recursive_connect_test() {
    let (sig, mut core) = Signal::new::<i64, i64, SumCombiner, RecSlot>();

    core.connect_extended(RecSlot::Recur, Group::Back, Position::Back);

    assert_eq!(core.emit(100), 5150);

    // the recursive slot disconnected itself during the first emission;
    // every emission now just counts the accumulated constant slots
    assert_eq!(core.emit(0), 100);
    assert_eq!(core.emit(-10), 100);
    assert_eq!(core.emit(12000), 100);
    assert_eq!(sig.count(&core), 100);
}
