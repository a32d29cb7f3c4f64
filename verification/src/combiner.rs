//! The combiner trait and the simple combiners shipped with the library.
//!
//! A combiner consumes the results of the executed slots one by one and
//! merges them into the final output of an emission. It is driven
//! incrementally: the emission asks `wants` before every pull, so a combiner
//! that stops asking leaves the remaining slots unexecuted.

use vstd::prelude::*;

verus! {

/// A strategy that merges the results of the executed slots into one value.
///
/// The emission starts from `init()`, asks `wants` before invoking each
/// slot, folds every pulled result in with `feed`, and hands the final
/// accumulator to `finish`. Each executable method is bound to a
/// specification relation (`init_ok`, `wants_spec`, `feed_ok`, `out_ok`),
/// so the outcome of a whole emission can be stated as a gated fold
/// (`runs_to`). A combiner implemented outside this crate describes itself
/// by overriding the relations; the defaults promise nothing.
pub trait Combiner<R>: Sized {
    /// Intermediate state carried between pulls.
    type Acc;

    /// Final output of an emission.
    type Output;

    /// Relates the combiner to the accumulators `init` may return.
    open spec fn init_ok(&self, acc: Self::Acc) -> bool {
        true
    }

    /// What `wants` returns.
    open spec fn wants_spec(&self, acc: Self::Acc) -> bool {
        true
    }

    /// Relates an accumulator and a pulled value to the accumulators `feed`
    /// may return for them.
    open spec fn feed_ok(&self, acc: Self::Acc, v: R, acc2: Self::Acc) -> bool {
        true
    }

    /// Relates a final accumulator to the outputs `finish` may return for it.
    open spec fn out_ok(&self, acc: Self::Acc, out: Self::Output) -> bool {
        true
    }

    /// The accumulator before any slot result has been consumed.
    fn init(&self) -> (acc: Self::Acc)
        ensures
            self.init_ok(acc),
    ;

    /// True while the combiner is willing to consume one more slot result.
    fn wants(&self, acc: &Self::Acc) -> (b: bool)
        ensures
            b == self.wants_spec(*acc),
    ;

    /// Consumes one slot result.
    fn feed(&self, acc: Self::Acc, v: R) -> (acc2: Self::Acc)
        ensures
            self.feed_ok(acc, v, acc2),
    ;

    /// Turns the final accumulator into the emission's output.
    fn finish(&self, acc: Self::Acc) -> (out: Self::Output)
        ensures
            self.out_ok(acc, out),
    ;
}

/// The gated fold that one emission performs: starting from `acc`, the
/// combiner consumes the values of `vals` in order, but only while it still
/// wants one more, and ends in the accumulator `accn`. Consumption stops at
/// the first refusal; the values behind it are never fed.
pub open spec fn runs_to<R, C: Combiner<R>>(c: C, acc: C::Acc, vals: Seq<R>, accn: C::Acc) -> bool
    decreases vals.len(),
{
    if vals.len() == 0 || !c.wants_spec(acc) {
        accn == acc
    } else {
        exists|mid: C::Acc|
            #[trigger] c.feed_ok(acc, vals[0], mid) && runs_to(
                c,
                mid,
                vals.subrange(1, vals.len() as int),
                accn,
            )
    }
}

/// One whole emission: some valid initial accumulator is folded through
/// `vals` and finished into `out`.
pub open spec fn emitted_to<R, C: Combiner<R>>(c: C, vals: Seq<R>, out: C::Output) -> bool {
    exists|acc0: C::Acc, accn: C::Acc|
        #![trigger runs_to(c, acc0, vals, accn)]
        c.init_ok(acc0) && runs_to(c, acc0, vals, accn) && c.out_ok(accn, out)
}

/// Feeding one more value extends a gated fold whose combiner still wants it.
pub proof fn lemma_runs_to_push<R, C: Combiner<R>>(
    c: C,
    acc0: C::Acc,
    vals: Seq<R>,
    accp: C::Acc,
    v: R,
    accn: C::Acc,
)
    requires
        runs_to(c, acc0, vals, accp),
        c.wants_spec(accp),
        c.feed_ok(accp, v, accn),
    ensures
        runs_to(c, acc0, vals.push(v), accn),
    decreases vals.len(),
{
    if vals.len() == 0 {
        assert(accp == acc0);
        assert(vals.push(v)[0] == v);
        assert(vals.push(v).subrange(1, vals.push(v).len() as int) =~= Seq::<R>::empty());
        assert(runs_to(c, accn, Seq::<R>::empty(), accn));
    } else {
        assert(c.wants_spec(acc0));
        let tail = vals.subrange(1, vals.len() as int);
        let mid = choose|mid: C::Acc|
            #[trigger] c.feed_ok(acc0, vals[0], mid) && runs_to(c, mid, tail, accp);
        lemma_runs_to_push(c, mid, tail, accp, v, accn);
        assert(vals.push(v)[0] == vals[0]);
        assert(vals.push(v).subrange(1, vals.push(v).len() as int) =~= tail.push(v));
    }
}

/// Once the combiner refuses, any further values leave the fold unchanged.
pub proof fn lemma_runs_to_stuck<R, C: Combiner<R>>(
    c: C,
    acc0: C::Acc,
    vals: Seq<R>,
    accp: C::Acc,
    ext: Seq<R>,
)
    requires
        runs_to(c, acc0, vals, accp),
        !c.wants_spec(accp),
        vals.is_prefix_of(ext),
    ensures
        runs_to(c, acc0, ext, accp),
    decreases ext.len(),
{
    if ext.len() == vals.len() {
        assert(ext =~= vals);
    } else {
        let shorter = ext.take(ext.len() - 1);
        assert(vals.is_prefix_of(shorter));
        lemma_runs_to_stuck(c, acc0, vals, accp, shorter);
        lemma_runs_to_stuck_push(c, acc0, shorter, accp, ext.last());
        assert(shorter.push(ext.last()) =~= ext);
    }
}

/// The default combiner: the output of an emission is `Some(r)` where `r`
/// is the result of the last slot that executed, or `None` when no slot
/// executed.
pub struct DefaultCombiner {}

impl<R> Combiner<R> for DefaultCombiner {
    type Acc = Option<R>;

    type Output = Option<R>;

    open spec fn init_ok(&self, acc: Option<R>) -> bool {
        acc is None
    }

    open spec fn wants_spec(&self, acc: Option<R>) -> bool {
        true
    }

    open spec fn feed_ok(&self, acc: Option<R>, v: R, acc2: Option<R>) -> bool {
        acc2 == Some(v)
    }

    open spec fn out_ok(&self, acc: Option<R>, out: Option<R>) -> bool {
        out == acc
    }

    fn init(&self) -> (acc: Option<R>) {
        None
    }

    fn wants(&self, acc: &Option<R>) -> (b: bool) {
        true
    }

    fn feed(&self, acc: Option<R>, v: R) -> (acc2: Option<R>) {
        Some(v)
    }

    fn finish(&self, acc: Option<R>) -> (out: Option<R>) {
        acc
    }
}

impl Default for DefaultCombiner {
    /// A fresh default combiner.
    fn default() -> (c: DefaultCombiner)
        ensures
            c == (DefaultCombiner {  }),
    {
        DefaultCombiner {  }
    }
}

/// Law of the default combiner: an emission over no values returns `None`,
/// and an emission over some values returns the last one, whatever prefix
/// of pulls led there.
pub proof fn lemma_default_combiner<R>(vals: Seq<R>, out: Option<R>)
    requires
        emitted_to(DefaultCombiner {  }, vals, out),
    ensures
        out == if vals.len() == 0 {
            None::<R>
        } else {
            Some(vals.last())
        },
{
    let c = DefaultCombiner {  };
    let (acc0, accn) = choose|acc0: Option<R>, accn: Option<R>|
        #![trigger runs_to(c, acc0, vals, accn)]
        c.init_ok(acc0) && runs_to(c, acc0, vals, accn) && c.out_ok(accn, out);
    lemma_default_combiner_runs(acc0, vals, accn);
}

/// A gated fold of the default combiner ends in the last value fed.
proof fn lemma_default_combiner_runs<R>(acc0: Option<R>, vals: Seq<R>, accn: Option<R>)
    requires
        runs_to(DefaultCombiner {  }, acc0, vals, accn),
    ensures
        accn == if vals.len() == 0 {
            acc0
        } else {
            Some(vals.last())
        },
    decreases vals.len(),
{
    let c = DefaultCombiner {  };
    if vals.len() > 0 {
        let tail = vals.subrange(1, vals.len() as int);
        let mid = choose|mid: Option<R>|
            #[trigger] c.feed_ok(acc0, vals[0], mid) && runs_to(c, mid, tail, accn);
        lemma_default_combiner_runs(mid, tail, accn);
        if tail.len() > 0 {
            assert(tail.last() == vals.last());
        }
    }
}

/// A combiner that gathers the result of every executed slot, in execution
/// order, into one vector.
pub struct VecCombiner {}

impl<R> Combiner<R> for VecCombiner {
    type Acc = Vec<R>;

    type Output = Vec<R>;

    open spec fn init_ok(&self, acc: Vec<R>) -> bool {
        acc@ == Seq::<R>::empty()
    }

    open spec fn wants_spec(&self, acc: Vec<R>) -> bool {
        true
    }

    open spec fn feed_ok(&self, acc: Vec<R>, v: R, acc2: Vec<R>) -> bool {
        acc2@ == acc@.push(v)
    }

    open spec fn out_ok(&self, acc: Vec<R>, out: Vec<R>) -> bool {
        out@ == acc@
    }

    fn init(&self) -> (acc: Vec<R>) {
        Vec::new()
    }

    fn wants(&self, acc: &Vec<R>) -> (b: bool) {
        true
    }

    fn feed(&self, acc: Vec<R>, v: R) -> (acc2: Vec<R>) {
        let mut acc2 = acc;
        acc2.push(v);
        acc2
    }

    fn finish(&self, acc: Vec<R>) -> (out: Vec<R>) {
        acc
    }
}

impl Default for VecCombiner {
    /// A fresh vector combiner.
    fn default() -> (c: VecCombiner)
        ensures
            c == (VecCombiner {  }),
    {
        VecCombiner {  }
    }
}

/// Law of the vector combiner: an emission collects exactly the results of
/// the executed slots, in execution order.
pub proof fn lemma_vec_combiner<R>(vals: Seq<R>, out: Vec<R>)
    requires
        emitted_to(VecCombiner {  }, vals, out),
    ensures
        out@ == vals,
{
    let c = VecCombiner {  };
    let (acc0, accn) = choose|acc0: Vec<R>, accn: Vec<R>|
        #![trigger runs_to(c, acc0, vals, accn)]
        c.init_ok(acc0) && runs_to(c, acc0, vals, accn) && c.out_ok(accn, out);
    lemma_vec_combiner_runs(acc0, vals, accn);
    assert(out@ =~= vals);
}

/// A gated fold of the vector combiner appends every value fed.
proof fn lemma_vec_combiner_runs<R>(acc0: Vec<R>, vals: Seq<R>, accn: Vec<R>)
    requires
        runs_to(VecCombiner {  }, acc0, vals, accn),
    ensures
        accn@ == acc0@ + vals,
    decreases vals.len(),
{
    let c = VecCombiner {  };
    if vals.len() == 0 {
        assert(accn@ =~= acc0@ + vals);
    } else {
        let tail = vals.subrange(1, vals.len() as int);
        let mid = choose|mid: Vec<R>|
            #[trigger] c.feed_ok(acc0, vals[0], mid) && runs_to(c, mid, tail, accn);
        lemma_vec_combiner_runs(mid, tail, accn);
        assert(acc0@.push(vals[0]) + tail =~= acc0@ + vals);
    }
}

/// A combiner that sums the results of the executed slots with wrapping
/// 64-bit addition, starting from zero.
pub struct SumCombiner {}

/// The wrapping sum that a gated fold of the sum combiner computes,
/// consuming `vals` front to back starting from `acc`.
pub open spec fn wrap_sum_from(acc: i64, vals: Seq<i64>) -> i64
    decreases vals.len(),
{
    if vals.len() == 0 {
        acc
    } else {
        wrap_sum_from(acc.wrapping_add(vals[0]), vals.subrange(1, vals.len() as int))
    }
}

impl Combiner<i64> for SumCombiner {
    type Acc = i64;

    type Output = i64;

    open spec fn init_ok(&self, acc: i64) -> bool {
        acc == 0i64
    }

    open spec fn wants_spec(&self, acc: i64) -> bool {
        true
    }

    open spec fn feed_ok(&self, acc: i64, v: i64, acc2: i64) -> bool {
        acc2 == acc.wrapping_add(v)
    }

    open spec fn out_ok(&self, acc: i64, out: i64) -> bool {
        out == acc
    }

    fn init(&self) -> (acc: i64) {
        0
    }

    fn wants(&self, acc: &i64) -> (b: bool) {
        true
    }

    fn feed(&self, acc: i64, v: i64) -> (acc2: i64) {
        acc.wrapping_add(v)
    }

    fn finish(&self, acc: i64) -> (out: i64) {
        acc
    }
}

impl Default for SumCombiner {
    /// A fresh sum combiner.
    fn default() -> (c: SumCombiner)
        ensures
            c == (SumCombiner {  }),
    {
        SumCombiner {  }
    }
}

/// Law of the sum combiner: an emission returns exactly the wrapping sum of
/// the results of the executed slots.
pub proof fn lemma_sum_combiner(vals: Seq<i64>, out: i64)
    requires
        emitted_to(SumCombiner {  }, vals, out),
    ensures
        out == wrap_sum_from(0i64, vals),
{
    let c = SumCombiner {  };
    let (acc0, accn) = choose|acc0: i64, accn: i64|
        #![trigger runs_to(c, acc0, vals, accn)]
        c.init_ok(acc0) && runs_to(c, acc0, vals, accn) && c.out_ok(accn, out);
    lemma_sum_combiner_runs(acc0, vals, accn);
}

/// A gated fold of the sum combiner computes the wrapping sum.
proof fn lemma_sum_combiner_runs(acc0: i64, vals: Seq<i64>, accn: i64)
    requires
        runs_to(SumCombiner {  }, acc0, vals, accn),
    ensures
        accn == wrap_sum_from(acc0, vals),
    decreases vals.len(),
{
    let c = SumCombiner {  };
    if vals.len() > 0 {
        let tail = vals.subrange(1, vals.len() as int);
        let mid = choose|mid: i64|
            #[trigger] c.feed_ok(acc0, vals[0], mid) && runs_to(c, mid, tail, accn);
        lemma_sum_combiner_runs(mid, tail, accn);
    }
}

/// A combiner that pulls only the first `n` slot results and gathers them
/// into a vector; the slots behind the `n`-th are never executed.
pub struct FirstNCombiner {
    /// How many slot results one emission may consume.
    pub n: usize,
}

impl<R> Combiner<R> for FirstNCombiner {
    type Acc = Vec<R>;

    type Output = Vec<R>;

    open spec fn init_ok(&self, acc: Vec<R>) -> bool {
        acc@ == Seq::<R>::empty()
    }

    open spec fn wants_spec(&self, acc: Vec<R>) -> bool {
        acc@.len() < self.n
    }

    open spec fn feed_ok(&self, acc: Vec<R>, v: R, acc2: Vec<R>) -> bool {
        acc2@ == acc@.push(v)
    }

    open spec fn out_ok(&self, acc: Vec<R>, out: Vec<R>) -> bool {
        out@ == acc@
    }

    fn init(&self) -> (acc: Vec<R>) {
        Vec::new()
    }

    fn wants(&self, acc: &Vec<R>) -> (b: bool) {
        acc.len() < self.n
    }

    fn feed(&self, acc: Vec<R>, v: R) -> (acc2: Vec<R>) {
        let mut acc2 = acc;
        acc2.push(v);
        acc2
    }

    fn finish(&self, acc: Vec<R>) -> (out: Vec<R>) {
        acc
    }
}

/// The smaller of two naturals.
pub open spec fn min_nat(a: nat, b: nat) -> nat {
    if a <= b {
        a
    } else {
        b
    }
}

/// Law of the bounded combiner: with a bound of `n`, an emission consumes
/// exactly the first `min(n, len)` slot results and returns exactly them,
/// in order; the rest are never pulled.
pub proof fn lemma_first_n_combiner<R>(n: usize, vals: Seq<R>, out: Vec<R>)
    requires
        emitted_to(FirstNCombiner { n }, vals, out),
    ensures
        out@ == vals.take(min_nat(n as nat, vals.len()) as int),
{
    let c = FirstNCombiner { n };
    let (acc0, accn) = choose|acc0: Vec<R>, accn: Vec<R>|
        #![trigger runs_to(c, acc0, vals, accn)]
        c.init_ok(acc0) && runs_to(c, acc0, vals, accn) && c.out_ok(accn, out);
    lemma_first_n_combiner_runs(n, acc0, vals, accn);
    assert(out@ =~= vals.take(min_nat(n as nat, vals.len()) as int));
}

/// A gated fold of the bounded combiner appends values until the bound.
proof fn lemma_first_n_combiner_runs<R>(n: usize, acc0: Vec<R>, vals: Seq<R>, accn: Vec<R>)
    requires
        runs_to(FirstNCombiner { n }, acc0, vals, accn),
        acc0@.len() <= n,
    ensures
        accn@ == acc0@ + vals.take(min_nat((n - acc0@.len()) as nat, vals.len()) as int),
    decreases vals.len(),
{
    let c = FirstNCombiner { n };
    let room = (n - acc0@.len()) as nat;
    if vals.len() == 0 || room == 0 {
        assert(accn == acc0);
        assert(accn@ =~= acc0@ + vals.take(min_nat(room, vals.len()) as int));
    } else {
        let tail = vals.subrange(1, vals.len() as int);
        let mid = choose|mid: Vec<R>|
            #[trigger] c.feed_ok(acc0, vals[0], mid) && runs_to(c, mid, tail, accn);
        lemma_first_n_combiner_runs(n, mid, tail, accn);
        let k = min_nat(room, vals.len()) as int;
        assert(mid@ + tail.take(min_nat((n - mid@.len()) as nat, tail.len()) as int) =~= acc0@
            + vals.take(k));
    }
}

/// Appending one value to the input of a stuck fold changes nothing.
proof fn lemma_runs_to_stuck_push<R, C: Combiner<R>>(
    c: C,
    acc0: C::Acc,
    vals: Seq<R>,
    accp: C::Acc,
    v: R,
)
    requires
        runs_to(c, acc0, vals, accp),
        !c.wants_spec(accp),
    ensures
        runs_to(c, acc0, vals.push(v), accp),
    decreases vals.len(),
{
    if vals.len() == 0 || !c.wants_spec(acc0) {
        assert(accp == acc0);
        assert(vals.push(v).len() > 0);
    } else {
        let tail = vals.subrange(1, vals.len() as int);
        let mid = choose|mid: C::Acc|
            #[trigger] c.feed_ok(acc0, vals[0], mid) && runs_to(c, mid, tail, accp);
        lemma_runs_to_stuck_push(c, mid, tail, accp, v);
        assert(vals.push(v)[0] == vals[0]);
        assert(vals.push(v).subrange(1, vals.push(v).len() as int) =~= tail.push(v));
    }
}

} // verus!
