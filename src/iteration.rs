//! The control of the Euler iteration: records are numbered 1..=N and the
//! run is done after the N-th.
use vstd::prelude::*;

verus! {

/// How far the iteration has come: `emitted` records out of `steps`.
#[derive(Clone, Copy, Debug, PartialEq, Eq, Structural)]
pub struct Iteration {
    pub emitted: u64,
    pub steps: u64,
}

impl Iteration {
    pub open spec fn wf(self) -> bool {
        self.emitted <= self.steps
    }

    pub open spec fn spec_is_done(self) -> bool {
        self.emitted == self.steps
    }

    /// The state after one more record.
    pub open spec fn spec_advanced(self) -> Iteration {
        Iteration { emitted: (self.emitted + 1) as u64, steps: self.steps }
    }

    /// An iteration over `steps` records that has emitted none.
    pub fn new(steps: u64) -> (r: Iteration)
        ensures
            r == (Iteration { emitted: 0, steps }),
            r.wf(),
    {
        Iteration { emitted: 0, steps }
    }

    /// Whether all records have been emitted.
    pub fn is_done(&self) -> (r: bool)
        ensures
            r == self.spec_is_done(),
    {
        self.emitted == self.steps
    }

    /// Starts the next record and returns its index, counted from one.
    pub fn advance(&mut self) -> (r: u64)
        requires
            old(self).wf(),
            !old(self).spec_is_done(),
        ensures
            r == old(self).emitted + 1,
            *final(self) == old(self).spec_advanced(),
            final(self).wf(),
    {
        self.emitted = self.emitted + 1;
        self.emitted
    }
}

/// The state after `k` records have been started from `it`.
pub open spec fn advanced_by(it: Iteration, k: nat) -> Iteration
    decreases k,
{
    if k == 0 {
        it
    } else {
        advanced_by(it, (k - 1) as nat).spec_advanced()
    }
}

/// From a fresh iteration over `n` records, the k-th record started carries
/// index k, the run is not done before the n-th, and it is done after it: exactly
/// n records, indexed 1..=n.
pub proof fn lemma_emits_n_records(n: u64, k: nat)
    requires
        k <= n,
    ensures
        advanced_by(Iteration { emitted: 0, steps: n }, k) == (Iteration { emitted: k as u64, steps: n }),
        advanced_by(Iteration { emitted: 0, steps: n }, k).wf(),
        advanced_by(Iteration { emitted: 0, steps: n }, k).spec_is_done() <==> k == n,
    decreases k,
{
    if k > 0 {
        lemma_emits_n_records(n, (k - 1) as nat);
    }
}

} // verus!
