use std::cell::Cell;
use std::rc::Rc;

use signals2::combiner::{Combiner, FirstNCombiner};
use signals2::connect::{Connection, Group, Position};
use signals2::signal_core::{SignalCore, SlotFn};
use signals2::Signal;

/// A combiner defined outside the library: it pulls at most `n` results.
struct FirstNSlots {
    n: usize,
}

impl Combiner<i64> for FirstNSlots {
    type Acc = Vec<i64>;

    type Output = Vec<i64>;

    fn init(&self) -> Vec<i64> {
        Vec::new()
    }

    fn wants(&self, acc: &Vec<i64>) -> bool {
        acc.len() < self.n
    }

    fn feed(&self, mut acc: Vec<i64>, v: i64) -> Vec<i64> {
        acc.push(v);
        acc
    }

    fn finish(&self, acc: Vec<i64>) -> Vec<i64> {
        acc
    }
}

/// A slot that counts its invocations and returns a constant.
#[derive(Clone)]
struct TallySlot(Rc<Cell<usize>>, i64);

impl SlotFn<(), i64, FirstNSlots> for TallySlot {
    fn call(
        &self,
        _core: &mut SignalCore<(), i64, FirstNSlots, TallySlot>,
        _conn: Option<Connection>,
        _args: (),
    ) -> i64 {
        self.0.set(self.0.get() + 1);
        self.1
    }
}

#[test]
fn lazy_slots_test() {
    let counter = Rc::new(Cell::new(0usize));

    let (sig, mut core) =
        Signal::new_with_combiner::<(), i64, FirstNSlots, TallySlot>(FirstNSlots { n: 0 });
    core.connect(TallySlot(counter.clone(), 0), Group::Back, Position::Back);
    core.connect(TallySlot(counter.clone(), 1), Group::Back, Position::Back);
    core.connect(TallySlot(counter.clone(), 2), Group::Back, Position::Back);
    core.connect(TallySlot(counter.clone(), 3), Group::Back, Position::Back);
    core.connect(TallySlot(counter.clone(), 4), Group::Back, Position::Back);

    assert_eq!(core.emit(()), Vec::<i64>::new());
    assert_eq!(counter.get(), 0);

    sig.set_combiner(&mut core, FirstNSlots { n: 1 });
    assert_eq!(core.emit(()), vec![0]);
    assert_eq!(counter.get(), 1);
    counter.set(0);

    sig.set_combiner(&mut core, FirstNSlots { n: 2 });
    assert_eq!(core.emit(()), vec![0, 1]);
    assert_eq!(counter.get(), 2);
    counter.set(0);

    sig.set_combiner(&mut core, FirstNSlots { n: 3 });
    assert_eq!(core.emit(()), vec![0, 1, 2]);
    assert_eq!(counter.get(), 3);
    counter.set(0);

    sig.set_combiner(&mut core, FirstNSlots { n: 4 });
    assert_eq!(core.emit(()), vec![0, 1, 2, 3]);
    assert_eq!(counter.get(), 4);
    counter.set(0);

    sig.set_combiner(&mut core, FirstNSlots { n: 5 });
    assert_eq!(core.emit(()), vec![0, 1, 2, 3, 4]);
    assert_eq!(counter.get(), 5);
    counter.set(0);

    sig.set_combiner(&mut core, FirstNSlots { n: 6 });
    assert_eq!(core.emit(()), vec![0, 1, 2, 3, 4]);
    assert_eq!(counter.get(), 5);
}

/// A slot that counts its invocations and returns a constant, under the
/// library's bounded combiner.
#[derive(Clone)]
struct BoundedTallySlot(Rc<Cell<usize>>, i64);

impl SlotFn<(), i64, FirstNCombiner> for BoundedTallySlot {
    fn call(
        &self,
        _core: &mut SignalCore<(), i64, FirstNCombiner, BoundedTallySlot>,
        _conn: Option<Connection>,
        _args: (),
    ) -> i64 {
        self.0.set(self.0.get() + 1);
        self.1
    }
}

#[test]
fn first_n_combiner_test() {
    let counter = Rc::new(Cell::new(0usize));

    let (_sig, mut core) = Signal::new_with_combiner::<(), i64, FirstNCombiner, BoundedTallySlot>(
        FirstNCombiner { n: 2 },
    );
    for v in 0..5 {
        core.connect(BoundedTallySlot(counter.clone(), v), Group::Back, Position::Back);
    }

    // exactly two slots run per emission: the first two, in order
    assert_eq!(core.emit(()), vec![0, 1]);
    assert_eq!(counter.get(), 2);
}
