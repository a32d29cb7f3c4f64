use std::cell::Cell;
use std::rc::Rc;

use signals2::combiner::DefaultCombiner;
use signals2::connect::{Connection, Group, Position};
use signals2::signal_core::{SignalCore, SlotFn};
use signals2::Signal;

/// A slot that counts its invocations.
#[derive(Clone)]
struct TickSlot(Rc<Cell<usize>>);

impl SlotFn<(), (), DefaultCombiner> for TickSlot {
    fn call(
        &self,
        _core: &mut SignalCore<(), (), DefaultCombiner, TickSlot>,
        _conn: Option<Connection>,
        _args: (),
    ) {
        self.0.set(self.0.get() + 1);
    }
}

#[test]
fn disconnect_all_test() {
    let counter = Rc::new(Cell::new(0usize));
    let (sig, mut core) = Signal::new::<(), (), DefaultCombiner, TickSlot>();

    let conn1 = core.connect(TickSlot(counter.clone()), Group::Back, Position::Back);
    let conn2 = core.connect(TickSlot(counter.clone()), Group::Front, Position::Back);
    assert_eq!(sig.count(&core), 2);

    core.disconnect_all();

    // the records are still there, but every slot reports as disconnected
    // and none runs
    assert!(!conn1.connected(&core));
    assert!(!conn2.connected(&core));
    assert_eq!(sig.count(&core), 0);
    assert_eq!(core.emit(()), None);
    assert_eq!(counter.get(), 0);

    // cleanup drops the disconnected records for good
    core.cleanup();
    assert_eq!(sig.count(&core), 0);
    assert!(!conn1.connected(&core));

    // the registry still accepts new slots
    let conn3 = core.connect(TickSlot(counter.clone()), Group::Back, Position::Back);
    assert!(conn3.connected(&core));
    assert_eq!(sig.count(&core), 1);
    core.emit(());
    assert_eq!(counter.get(), 1);
}

#[test]
fn clear_test() {
    let counter = Rc::new(Cell::new(0usize));
    let (sig, mut core) = Signal::new::<(), (), DefaultCombiner, TickSlot>();

    let conn = core.connect(TickSlot(counter.clone()), Group::Back, Position::Back);
    assert_eq!(sig.count(&core), 1);

    sig.clear(&mut core);
    assert!(!conn.connected(&core));
    assert_eq!(sig.count(&core), 0);
    core.emit(());
    assert_eq!(counter.get(), 0);
}

#[test]
fn blocked_slot_does_not_run_test() {
    let counter = Rc::new(Cell::new(0usize));
    let (_sig, mut core) = Signal::new::<(), (), DefaultCombiner, TickSlot>();

    let conn = core.connect(TickSlot(counter.clone()), Group::Back, Position::Back);
    let mut block = conn.shared_block(&mut core, true);

    core.emit(());
    assert_eq!(counter.get(), 0);

    block.unblock(&mut core);
    core.emit(());
    assert_eq!(counter.get(), 1);
}
