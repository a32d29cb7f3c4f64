use signals2::combiner::DefaultCombiner;
use signals2::connect::{Connection, Group, Position};
use signals2::signal_core::{SignalCore, SlotFn};
use signals2::Signal;

#[derive(Clone)]
enum ArithSlot {
    AddConst(i64),
}

impl SlotFn<i64, i64, DefaultCombiner> for ArithSlot {
    fn call(
        &self,
        _core: &mut SignalCore<i64, i64, DefaultCombiner, ArithSlot>,
        _conn: Option<Connection>,
        x: i64,
    ) -> i64 {
        match self {
            ArithSlot::AddConst(k) => x + k,
        }
    }
}

#[test]
fn basic_signal_test() {
    let (sig, mut core) = Signal::new::<i64, i64, DefaultCombiner, ArithSlot>();
    assert_eq!(sig.count(&core), 0);
    assert_eq!(core.emit(0), None);

    core.connect(ArithSlot::AddConst(1), Group::Back, Position::Back);
    assert_eq!(sig.count(&core), 1);
    assert_eq!(core.emit(0), Some(1));

    core.connect(ArithSlot::AddConst(2), Group::Back, Position::Back);
    assert_eq!(sig.count(&core), 2);
    assert_eq!(core.emit(0), Some(2));

    sig.clear(&mut core);
    assert_eq!(sig.count(&core), 0);
    assert_eq!(core.emit(0), None);
}
