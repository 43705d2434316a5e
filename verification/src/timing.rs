//! The slowest, fastest and total time of repeated benchmark runs.

use vstd::prelude::*;

verus! {

/// What `fastest` starts at before any run is recorded.
pub const FASTEST_START: u128 = 100000000000;

/// The slowest, the fastest and the total time, in milliseconds, of the runs so far.
pub struct Timings {
    pub slowest: u128,
    pub fastest: u128,
    pub total: u128,
}

/// The timings after the runs `runs`, in order: the largest, the smallest (no more than
/// the start value) and the sum.
pub open spec fn timings_after(runs: Seq<u128>) -> (int, int, int)
    decreases runs.len(),
{
    if runs.len() == 0 {
        (0, FASTEST_START as int, 0)
    } else {
        let (s, f, t) = timings_after(runs.drop_last());
        let e = runs.last() as int;
        (if e > s { e } else { s }, if e < f { e } else { f }, t + e)
    }
}

impl Timings {
    /// The timings before any run.
    pub fn new() -> (t: Timings)
        ensures
            (t.slowest as int, t.fastest as int, t.total as int) == timings_after(Seq::empty()),
    {
        Timings { slowest: 0, fastest: FASTEST_START, total: 0 }
    }

    /// Records a run that took `elapsed` milliseconds.
    pub fn record(&mut self, elapsed: u128)
        requires
            old(self).total + elapsed <= u128::MAX,
        ensures
            final(self).slowest == if elapsed > old(self).slowest { elapsed } else { old(self).slowest },
            final(self).fastest == if elapsed < old(self).fastest { elapsed } else { old(self).fastest },
            final(self).total == old(self).total + elapsed,
    {
        if elapsed > self.slowest {
            self.slowest = elapsed;
        }
        if elapsed < self.fastest {
            self.fastest = elapsed;
        }
        self.total = self.total + elapsed;
    }
}

/// After the runs `runs`, the slowest time is one of them and no run was slower, the
/// fastest is no slower than any run, and the total is no less than any run.
pub proof fn lemma_timings_bound_runs(runs: Seq<u128>)
    requires
        runs.len() > 0,
    ensures
        exists|k: int| 0 <= k < runs.len() && timings_after(runs).0 == runs[k] as int,
        forall|k: int| 0 <= k < runs.len() ==> timings_after(runs).1 <= #[trigger] runs[k] as int,
        forall|k: int| 0 <= k < runs.len() ==> runs[k] as int <= timings_after(runs).0,
        forall|k: int| 0 <= k < runs.len() ==> #[trigger] runs[k] as int <= timings_after(runs).2,
    decreases runs.len(),
{
    let init = runs.drop_last();
    let n = runs.len() - 1;
    if init.len() == 0 {
        assert(timings_after(init) == (0int, FASTEST_START as int, 0int));
        assert(runs[0] == runs.last());
    } else {
        lemma_timings_bound_runs(init);
        lemma_timings_nonnegative(init);
        assert forall|k: int| 0 <= k < n implies runs[k] == init[k] by {}
        let k0 = choose|k: int| 0 <= k < init.len() && timings_after(init).0 == init[k] as int;
        if runs.last() as int <= timings_after(init).0 {
            assert(timings_after(runs).0 == runs[k0] as int);
        } else {
            assert(timings_after(runs).0 == runs[n] as int);
        }
    }
}

/// The times after any runs are not negative.
pub proof fn lemma_timings_nonnegative(runs: Seq<u128>)
    ensures
        timings_after(runs).0 >= 0,
        timings_after(runs).1 >= 0,
        timings_after(runs).2 >= 0,
    decreases runs.len(),
{
    if runs.len() > 0 {
        lemma_timings_nonnegative(runs.drop_last());
    }
}

} // verus!
