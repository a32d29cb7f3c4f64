use std::cell::Cell;
use std::rc::Rc;

use signals2::combiner::DefaultCombiner;
use signals2::connect::{Connection, Group, Position};
use signals2::signal_core::{SignalCore, SlotFn};
use signals2::Signal;

/// A slot that counts its invocations.
#[derive(Clone)]
struct CountSlot(Rc<Cell<usize>>);

impl SlotFn<(), (), DefaultCombiner> for CountSlot {
    fn call(
        &self,
        _core: &mut SignalCore<(), (), DefaultCombiner, CountSlot>,
        _conn: Option<Connection>,
        _args: (),
    ) {
        self.0.set(self.0.get() + 1);
    }
}

#[test]
fn disconnect_test() {
    let counter = Rc::new(Cell::new(0usize));
    let (sig, mut core) = Signal::new::<(), (), DefaultCombiner, CountSlot>();

    let conn1 = core.connect(CountSlot(counter.clone()), Group::Back, Position::Back);
    let conn2 = core.connect(CountSlot(counter.clone()), Group::Back, Position::Back);
    let conn2_copy = conn2.clone();
    let conn3 = core.connect(CountSlot(counter.clone()), Group::Back, Position::Back).scoped();

    assert!(conn1.connected(&core));
    assert!(conn2.connected(&core));
    assert!(conn2_copy.connected(&core));
    assert!(conn3.connected(&core));
    assert_eq!(sig.count(&core), 3usize);

    core.emit(());
    assert_eq!(counter.get(), 3usize);
    counter.set(0);

    conn1.disconnect(&mut core);
    assert!(!conn1.connected(&core));
    assert!(conn2.connected(&core));
    assert!(conn2_copy.connected(&core));
    assert!(conn3.connected(&core));
    assert_eq!(sig.count(&core), 2usize);

    core.emit(());
    assert_eq!(counter.get(), 2usize);
    counter.set(0);

    conn2.disconnect(&mut core);
    assert!(!conn1.connected(&core));
    assert!(!conn2.connected(&core));
    assert!(!conn2_copy.connected(&core));
    assert!(conn3.connected(&core));
    assert_eq!(sig.count(&core), 1usize);

    core.emit(());
    assert_eq!(counter.get(), 1usize);
    counter.set(0);

    // the scoped connection leaves its scope here
    conn3.disconnect(&mut core);

    assert_eq!(sig.count(&core), 0usize);

    core.emit(());
    assert_eq!(counter.get(), 0usize);
}

/// A slot that returns a constant.
#[derive(Clone)]
struct ConstSlot(i64);

impl SlotFn<(), i64, DefaultCombiner> for ConstSlot {
    fn call(
        &self,
        _core: &mut SignalCore<(), i64, DefaultCombiner, ConstSlot>,
        _conn: Option<Connection>,
        _args: (),
    ) -> i64 {
        self.0
    }
}

#[test]
fn weak_signal_test() {
    let (sig, mut core) = Signal::new::<(), (), DefaultCombiner, CountSlot>();
    let weak_sig = sig.weak();

    let upgraded = weak_sig.upgrade(&mut core);
    assert!(upgraded.is_some());
    upgraded.unwrap().drop_handle(&mut core);

    sig.drop_handle(&mut core);
    assert!(weak_sig.upgrade(&mut core).is_none());
}

#[test]
fn connect_handle_test() {
    let (sig, mut core) = Signal::new::<(), i64, DefaultCombiner, ConstSlot>();
    let connect_handle = sig.get_connect_handle();
    let conn = connect_handle.connect(&mut core, ConstSlot(1), Group::Back, Position::Back);
    assert!(conn.connected(&core));
    assert_eq!(sig.count(&core), 1);
    assert_eq!(core.emit(()), Some(1));

    sig.drop_handle(&mut core);
    let conn = connect_handle.connect(&mut core, ConstSlot(2), Group::Back, Position::Back);
    assert!(!conn.connected(&core));
}

/// A slot over a pair of floating-point arguments.
#[derive(Clone)]
struct SubSlot;

impl SlotFn<(f64, f64), f64, DefaultCombiner> for SubSlot {
    fn call(
        &self,
        _core: &mut SignalCore<(f64, f64), f64, DefaultCombiner, SubSlot>,
        _conn: Option<Connection>,
        args: (f64, f64),
    ) -> f64 {
        args.0 - args.1
    }
}

#[test]
fn emit_handle_test() {
    let (sig, mut core) = Signal::new::<(f64, f64), f64, DefaultCombiner, SubSlot>();
    let emit_handle = sig.get_emit_handle();
    assert_eq!(emit_handle.emit(&mut core, (1.0, 2.5)), Some(None));

    core.connect(SubSlot, Group::Back, Position::Back);

    assert_eq!(emit_handle.emit(&mut core, (1.0, 2.5)), Some(Some(-1.5)));

    sig.drop_handle(&mut core);
    assert_eq!(emit_handle.emit(&mut core, (1.0, 2.5)), None);
}

#[test]
fn default_test() {
    let (_sig, mut core) = Signal::new::<(), i64, DefaultCombiner, ConstSlot>();
    assert_eq!(core.emit(()), None);
    core.connect(ConstSlot(5), Group::Back, Position::Back);
    assert_eq!(core.emit(()), Some(5));
}

#[test]
fn clone_handle_test() {
    let (sig, mut core) = Signal::new::<(), i64, DefaultCombiner, ConstSlot>();
    let sig2 = sig.clone_handle(&mut core);
    let conn = core.connect(ConstSlot(7), Group::Back, Position::Back);

    sig.drop_handle(&mut core);
    // one strong handle is still alive
    assert!(conn.connected(&core));
    assert_eq!(core.emit(()), Some(7));

    sig2.drop_handle(&mut core);
    // now the signal is dead
    assert!(!conn.connected(&core));
    assert_eq!(core.emit(()), None);
}
