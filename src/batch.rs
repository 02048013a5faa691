//! Accounting of a batch run: how many images were exported and how many failed.

use vstd::prelude::*;

verus! {

/// The number of failures among `outcomes` (`true` is an image exported in full).
pub open spec fn count_failed(outcomes: Seq<bool>) -> nat
    decreases outcomes.len(),
{
    if outcomes.len() == 0 {
        0
    } else {
        count_failed(outcomes.drop_last()) + if outcomes.last() {
            0nat
        } else {
            1nat
        }
    }
}

/// The counts `(processed, failed)` after recording `outcomes` one by one.
pub open spec fn tally(outcomes: Seq<bool>) -> (nat, nat)
    decreases outcomes.len(),
{
    if outcomes.len() == 0 {
        (0, 0)
    } else {
        let (p, f) = tally(outcomes.drop_last());
        if outcomes.last() {
            (p + 1, f)
        } else {
            (p, f + 1)
        }
    }
}

/// Counts of a batch run: images whose cells were all written, and images
/// that failed at some stage.
#[derive(Clone, Copy, Debug, PartialEq, Eq, Structural)]
pub struct BatchResult {
    pub processed: usize,
    pub failed: usize,
}

impl BatchResult {
    /// Images recorded so far.
    pub open spec fn completed(self) -> nat {
        (self.processed + self.failed) as nat
    }

    /// No image recorded yet.
    pub fn new() -> (r: BatchResult)
        ensures
            r.processed == 0,
            r.failed == 0,
    {
        BatchResult { processed: 0, failed: 0 }
    }

    /// Records the outcome of one image and returns the number of images
    /// completed so far, the figure that progress reports.
    pub fn record(&mut self, success: bool) -> (completed: usize)
        requires
            old(self).processed + old(self).failed < usize::MAX,
        ensures
            final(self).processed == old(self).processed + if success {
                1int
            } else {
                0int
            },
            final(self).failed == old(self).failed + if success {
                0int
            } else {
                1int
            },
            completed == final(self).completed(),
            completed == old(self).completed() + 1,
    {
        if success {
            self.processed = self.processed + 1;
        } else {
            self.failed = self.failed + 1;
        }
        self.processed + self.failed
    }

    /// The counts of a batch whose images ended with `outcomes`, in any order.
    pub fn from_outcomes(outcomes: &Vec<bool>) -> (r: BatchResult)
        ensures
            (r.processed as nat, r.failed as nat) == tally(outcomes@),
            r.processed == outcomes@.len() - count_failed(outcomes@),
            r.failed == count_failed(outcomes@),
    {
        let mut result = BatchResult::new();
        let mut i: usize = 0;
        while i < outcomes.len()
            invariant
                i <= outcomes@.len(),
                (result.processed as nat, result.failed as nat) == tally(outcomes@.take(i as int)),
                result.completed() == i,
            decreases outcomes@.len() - i,
        {
            proof {
                assert(outcomes@.take(i + 1).drop_last() == outcomes@.take(i as int));
            }
            result.record(outcomes[i]);
            i = i + 1;
        }
        proof {
            assert(outcomes@.take(outcomes@.len() as int) == outcomes@);
            lemma_batch_accounting(outcomes@);
        }
        result
    }
}

/// Of `n` images of which exactly `k` fail, the counts are `processed = n - k`
/// and `failed = k`, whatever the order in which they complete; and the figure
/// reported after each image counts 1, 2, ... up to `n`, one step per image.
pub proof fn lemma_batch_accounting(outcomes: Seq<bool>)
    ensures
        tally(outcomes).0 == outcomes.len() - count_failed(outcomes),
        tally(outcomes).1 == count_failed(outcomes),
        count_failed(outcomes) <= outcomes.len(),
        forall|i: int|
            0 <= i <= outcomes.len() ==> #[trigger] tally(outcomes.take(i)).0 + tally(
                outcomes.take(i),
            ).1 == i,
    decreases outcomes.len(),
{
    if outcomes.len() > 0 {
        lemma_batch_accounting(outcomes.drop_last());
    }
    assert forall|i: int| 0 <= i <= outcomes.len() implies #[trigger] tally(outcomes.take(i)).0
        + tally(outcomes.take(i)).1 == i by {
        lemma_tally_total(outcomes.take(i));
    }
}

proof fn lemma_tally_total(outcomes: Seq<bool>)
    ensures
        tally(outcomes).0 + tally(outcomes).1 == outcomes.len(),
    decreases outcomes.len(),
{
    if outcomes.len() > 0 {
        lemma_tally_total(outcomes.drop_last());
    }
}

} // verus!
