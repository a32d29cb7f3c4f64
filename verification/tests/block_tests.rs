use signals2::combiner::DefaultCombiner;
use signals2::connect::{Connection, Group, Position};
use signals2::signal_core::{SignalCore, SlotFn};
use signals2::Signal;

/// A slot that does nothing.
#[derive(Clone)]
struct UnitSlot;

impl SlotFn<(), (), DefaultCombiner> for UnitSlot {
    fn call(
        &self,
        _core: &mut SignalCore<(), (), DefaultCombiner, UnitSlot>,
        _conn: Option<Connection>,
        _args: (),
    ) {
    }
}

#[test]
fn connection_block_test() {
    let (sig, mut core) = Signal::new::<(), (), DefaultCombiner, UnitSlot>();
    let conn = core.connect(UnitSlot, Group::Back, Position::Back);

    assert!(core.emit(()).is_some());

    let mut block1 = conn.shared_block(&mut core, true);
    assert!(conn.blocked(&core));
    assert_eq!(conn.blocker_count(&core), 1usize);
    assert!(block1.blocking());
    assert!(core.emit(()).is_none());

    let mut block2 = conn.shared_block(&mut core, false);
    assert!(conn.blocked(&core));
    assert_eq!(conn.blocker_count(&core), 1usize);
    assert!(!block2.blocking());
    assert!(core.emit(()).is_none());

    let mut block3 = block1.clone_block(&mut core);
    assert!(conn.blocked(&core));
    assert_eq!(conn.blocker_count(&core), 2usize);
    assert!(block3.blocking());
    assert!(core.emit(()).is_none());

    let mut block4 = block2.clone_block(&mut core);
    assert!(conn.blocked(&core));
    assert_eq!(conn.blocker_count(&core), 2usize);
    assert!(!block4.blocking());
    assert!(core.emit(()).is_none());

    block1.block(&mut core);
    block2.block(&mut core);
    block3.block(&mut core);
    block4.block(&mut core);

    assert!(conn.blocked(&core));
    assert_eq!(conn.blocker_count(&core), 4usize);
    assert!(block1.blocking());
    assert!(block2.blocking());
    assert!(block3.blocking());
    assert!(block4.blocking());
    assert!(core.emit(()).is_none());

    block1.unblock(&mut core);
    block3.unblock(&mut core);
    assert!(conn.blocked(&core));
    assert_eq!(conn.blocker_count(&core), 2usize);
    assert!(!block1.blocking());
    assert!(block2.blocking());
    assert!(!block3.blocking());
    assert!(block4.blocking());
    assert!(core.emit(()).is_none());

    block2.unblock(&mut core);
    block4.unblock(&mut core);
    assert!(!conn.blocked(&core));
    assert_eq!(conn.blocker_count(&core), 0usize);
    assert!(!block1.blocking());
    assert!(!block2.blocking());
    assert!(!block3.blocking());
    assert!(!block4.blocking());
    assert!(core.emit(()).is_some());

    block1.block(&mut core);
    block2.block(&mut core);
    block3.block(&mut core);
    block4.block(&mut core);
    assert!(conn.blocked(&core));
    assert_eq!(conn.blocker_count(&core), 4usize);
    assert!(block1.blocking());
    assert!(block2.blocking());
    assert!(block3.blocking());
    assert!(block4.blocking());
    assert!(core.emit(()).is_none());

    // the four blocks leave their scope here
    block1.unblock(&mut core);
    block2.unblock(&mut core);
    block3.unblock(&mut core);
    block4.unblock(&mut core);

    let block = conn.shared_block(&mut core, false);
    assert!(!conn.blocked(&core));
    assert_eq!(conn.blocker_count(&core), 0usize);
    assert!(!block.blocking());
    assert!(core.emit(()).is_some());

    sig.drop_handle(&mut core);
    assert!(conn.blocked(&core));
    assert_eq!(conn.blocker_count(&core), usize::MAX);
    assert!(!block.blocking());
}

#[test]
fn repeated_block_is_idempotent_test() {
    let (_sig, mut core) = Signal::new::<(), (), DefaultCombiner, UnitSlot>();
    let conn = core.connect(UnitSlot, Group::Back, Position::Back);

    let mut block = conn.shared_block(&mut core, true);
    assert_eq!(conn.blocker_count(&core), 1usize);
    block.block(&mut core);
    block.block(&mut core);
    assert_eq!(conn.blocker_count(&core), 1usize);
    block.unblock(&mut core);
    assert_eq!(conn.blocker_count(&core), 0usize);
    block.unblock(&mut core);
    assert_eq!(conn.blocker_count(&core), 0usize);
}

#[test]
fn double_disconnect_test() {
    let (sig, mut core) = Signal::new::<(), (), DefaultCombiner, UnitSlot>();
    let conn = core.connect(UnitSlot, Group::Back, Position::Back);
    assert_eq!(sig.count(&core), 1);

    conn.disconnect(&mut core);
    assert!(!conn.connected(&core));
    assert_eq!(sig.count(&core), 0);

    conn.disconnect(&mut core);
    assert!(!conn.connected(&core));
    assert_eq!(sig.count(&core), 0);
}
