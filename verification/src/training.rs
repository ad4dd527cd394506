//! The decisions of the training loop: when to go on to the next epoch and
//! when to stop, how the examples are ordered and batched, and how often
//! the learning rate has decayed.

use crate::decimal::{decimal, decimal_of};
use crate::text::{chars_of, extend_chars, string_of};
use rand::rngs::StdRng;
use rand::seq::SliceRandom;
use rand::SeedableRng;
use vstd::prelude::*;

verus! {

/// The standard generator of rand, of which nothing is known here but that
/// it can be handed on.
#[verifier::external_type_specification]
#[verifier::external_body]
pub struct ExStdRng(StdRng);

/// `SeedableRng::seed_from_u64` of rand for its standard generator: a
/// generator made from the seed, of which nothing else is known here.
#[verifier::external_body]
fn seeded(seed: u64) -> StdRng {
    StdRng::seed_from_u64(seed)
}

/// `SliceRandom::shuffle` of rand on the slice of `order`: it swaps
/// elements of the slice, so that afterwards the slice holds what it held
/// before, each value as often as before, in an order that depends on the
/// generator.
#[verifier::external_body]
fn shuffle(order: &mut Vec<usize>, rng: &mut StdRng)
    ensures
        final(order)@.to_multiset() == old(order)@.to_multiset(),
{
    order.shuffle(rng);
}

/// Where a training run stands: the epoch that comes next, or at which the
/// run stopped, and the number of epochs in a row that did not improve on
/// the best validation loss.
#[derive(Clone, Copy, Debug, PartialEq, Eq, Structural)]
pub struct EpochLoop {
    /// The number of epochs after which the run ends at the latest.
    pub epochs: usize,
    /// The number of epochs in a row without improvement at which the run
    /// stops early.
    pub patience_limit: usize,
    /// The epoch to run next; for a run that stopped, the epoch at which
    /// it did.
    pub epoch: usize,
    /// The number of epochs in a row without improvement.
    pub patience: usize,
    /// Whether the run stopped before its last epoch.
    pub stopped: bool,
}

impl EpochLoop {
    /// Whether the fields fit together: the epoch is within the run, and a
    /// run that goes on has not used up its patience.
    pub open spec fn well_formed(self) -> bool {
        &&& self.epoch <= self.epochs
        &&& !self.stopped ==> self.patience == 0 || self.patience < self.patience_limit
    }

    /// Whether no epoch remains to be run.
    pub open spec fn finished(self) -> bool {
        self.stopped || self.epoch >= self.epochs
    }

    /// The run after the epoch `self.epoch` was validated: an epoch that
    /// improved on the best validation loss restores the patience; one
    /// that did not uses one epoch of it up, and stops the run where none
    /// is left. A finished run stays as it is.
    pub open spec fn after(self, improved: bool) -> EpochLoop {
        if self.finished() {
            self
        } else if improved {
            EpochLoop { epoch: (self.epoch + 1) as usize, patience: 0, ..self }
        } else if self.patience + 1 >= self.patience_limit {
            EpochLoop { patience: (self.patience + 1) as usize, stopped: true, ..self }
        } else {
            EpochLoop {
                epoch: (self.epoch + 1) as usize,
                patience: (self.patience + 1) as usize,
                ..self
            }
        }
    }

    /// The run after one epoch for each flag of `improved`, in order.
    pub open spec fn after_all(self, improved: Seq<bool>) -> EpochLoop
        decreases improved.len(),
    {
        if improved.len() == 0 {
            self
        } else {
            self.after_all(improved.drop_last()).after(improved.last())
        }
    }

    /// A run of at most `epochs` epochs that stops after `patience_limit`
    /// epochs in a row without improvement.
    pub fn new(epochs: usize, patience_limit: usize) -> (run: EpochLoop)
        ensures
            run == (EpochLoop { epochs, patience_limit, epoch: 0, patience: 0, stopped: false }),
            run.well_formed(),
    {
        EpochLoop { epochs, patience_limit, epoch: 0, patience: 0, stopped: false }
    }

    /// The epoch to run next, if one remains.
    pub fn current(&self) -> (epoch: Option<usize>)
        ensures
            epoch == if self.finished() {
                None
            } else {
                Some(self.epoch)
            },
    {
        if self.stopped || self.epoch >= self.epochs {
            None
        } else {
            Some(self.epoch)
        }
    }

    /// Records that the current epoch was validated, and whether it
    /// improved on the best validation loss. Returns whether the run stops
    /// early at this epoch.
    pub fn validated(&mut self, improved: bool) -> (stop: bool)
        requires
            old(self).well_formed(),
        ensures
            *final(self) == old(self).after(improved),
            final(self).well_formed(),
            stop == (!old(self).finished() && final(self).stopped),
    {
        if self.stopped || self.epoch >= self.epochs {
            return false;
        }
        if improved {
            self.patience = 0;
            self.epoch = self.epoch + 1;
            false
        } else {
            self.patience = self.patience + 1;
            if self.patience >= self.patience_limit {
                self.stopped = true;
                true
            } else {
                self.epoch = self.epoch + 1;
                false
            }
        }
    }

    /// Records that the weights diverged in the current epoch, which stops
    /// the run, and returns the text that reports it with its cause.
    pub fn diverged(&mut self, cause: &str) -> (report: String)
        ensures
            *final(self) == (EpochLoop { stopped: true, ..*old(self) }),
            report@ == divergence_report(old(self).epoch as nat, cause@),
    {
        self.stopped = true;
        let mut report = chars_of("Training diverged at epoch ");
        let epoch = decimal_of(self.epoch);
        extend_chars(&mut report, &epoch);
        let colon = chars_of(": ");
        extend_chars(&mut report, &colon);
        let cause_chars = chars_of(cause);
        extend_chars(&mut report, &cause_chars);
        string_of(&report)
    }
}

/// The text that reports that the weights diverged at `epoch`.
pub open spec fn divergence_report(epoch: nat, cause: Seq<char>) -> Seq<char> {
    "Training diverged at epoch "@ + decimal(epoch) + ": "@ + cause
}

/// One more epoch is one more step.
pub proof fn lemma_after_one_more(run: EpochLoop, improved: Seq<bool>, m: int)
    requires
        0 <= m < improved.len(),
    ensures
        run.after_all(improved.take(m + 1)) == run.after_all(improved.take(m)).after(improved[m]),
{
    assert(improved.take(m + 1).drop_last() =~= improved.take(m));
}

/// A run that has not stopped after `m` epochs had not stopped before, and
/// has run one epoch for each of them.
pub proof fn lemma_running(run: EpochLoop, improved: Seq<bool>, m: int)
    requires
        run.epoch == 0,
        !run.stopped,
        0 <= m <= improved.len(),
        m <= run.epochs,
        !run.after_all(improved.take(m)).stopped,
    ensures
        run.after_all(improved.take(m)).epoch == m,
        run.after_all(improved.take(m)).epochs == run.epochs,
        run.after_all(improved.take(m)).patience_limit == run.patience_limit,
        forall|n: int| 0 <= n <= m ==> !(#[trigger] run.after_all(improved.take(n))).stopped,
    decreases m,
{
    if m == 0 {
        assert(improved.take(0) =~= Seq::<bool>::empty());
    } else {
        lemma_after_one_more(run, improved, m - 1);
        lemma_running(run, improved, m - 1);
    }
}

/// After an epoch that improved, `waited` epochs in a row that did not
/// leave the run going as long as `waited` is below the limit.
pub proof fn lemma_waiting(run: EpochLoop, improved: Seq<bool>, k: int, waited: int)
    requires
        run.epoch == 0,
        !run.stopped,
        0 <= k,
        0 <= waited < run.patience_limit,
        k + waited < run.epochs,
        k + waited < improved.len(),
        improved[k],
        forall|j: int| k < j <= k + waited ==> !improved[j],
        !run.after_all(improved.take(k)).stopped,
    ensures
        run.after_all(improved.take(k + waited + 1)) == (EpochLoop {
            epoch: (k + waited + 1) as usize,
            patience: waited as usize,
            stopped: false,
            ..run
        }),
    decreases waited,
{
    lemma_after_one_more(run, improved, k + waited);
    if waited == 0 {
        lemma_running(run, improved, k);
    } else {
        lemma_waiting(run, improved, k, waited - 1);
    }
}

/// Early stopping. A run of enough epochs whose validation loss improves
/// at epoch `k` and at none of the `patience_limit` epochs after it, and
/// which has not stopped before epoch `k`, stops at epoch
/// `k + patience_limit`: not earlier, and not later.
pub proof fn lemma_early_stopping(run: EpochLoop, improved: Seq<bool>, k: int)
    requires
        run.epoch == 0,
        run.patience == 0,
        !run.stopped,
        run.patience_limit >= 1,
        0 <= k,
        k + run.patience_limit < run.epochs,
        k + run.patience_limit < improved.len(),
        improved[k],
        forall|j: int| k < j <= k + run.patience_limit ==> !improved[j],
        !run.after_all(improved.take(k)).stopped,
    ensures
        forall|n: int|
            0 <= n <= k + run.patience_limit ==> !(#[trigger] run.after_all(
                improved.take(n),
            )).stopped,
        run.after_all(improved.take(k + run.patience_limit + 1)).stopped,
        run.after_all(improved.take(k + run.patience_limit + 1)).epoch == k + run.patience_limit,
        forall|n: int|
            k + run.patience_limit < n <= improved.len() ==> #[trigger] run.after_all(
                improved.take(n),
            ) == run.after_all(improved.take(k + run.patience_limit + 1)),
{
    let limit = run.patience_limit as int;
    lemma_waiting(run, improved, k, limit - 1);
    lemma_running(run, improved, k + limit);
    lemma_after_one_more(run, improved, k + limit);
    let halted = run.after_all(improved.take(k + limit + 1));
    assert forall|n: int| k + limit < n <= improved.len() implies #[trigger] run.after_all(
        improved.take(n),
    ) == halted by {
        lemma_halted_stays(run, improved, k + limit + 1, n);
    }
}

/// A run that has stopped stays as it is.
pub proof fn lemma_halted_stays(run: EpochLoop, improved: Seq<bool>, m: int, n: int)
    requires
        0 <= m <= n <= improved.len(),
        run.after_all(improved.take(m)).finished(),
    ensures
        run.after_all(improved.take(n)) == run.after_all(improved.take(m)),
    decreases n - m,
{
    if m < n {
        lemma_halted_stays(run, improved, m, n - 1);
        lemma_after_one_more(run, improved, n - 1);
    }
}

/// The indices below `n`, in rising order.
pub open spec fn identity(n: nat) -> Seq<usize> {
    Seq::new(n, |i: int| i as usize)
}

/// An order in which to visit `n` examples: the indices below `n`, each
/// once, in an order drawn from `rng`.
pub fn shuffled_order(n: usize, rng: &mut StdRng) -> (order: Vec<usize>)
    ensures
        order@.to_multiset() == identity(n as nat).to_multiset(),
        order.len() == n,
        forall|i: int| 0 <= i < n ==> #[trigger] order@[i] < n,
{
    let mut order: Vec<usize> = Vec::new();
    let mut i: usize = 0;
    while i < n
        invariant
            i <= n,
            order@ == identity(i as nat),
        decreases n - i,
    {
        order.push(i);
        i += 1;
        assert(order@ =~= identity(i as nat));
    }
    let ghost before = order@;
    shuffle(&mut order, rng);
    proof {
        order@.to_multiset_ensures();
        before.to_multiset_ensures();
        assert forall|k: int| 0 <= k < n implies #[trigger] order@[k] < n by {
            let value = order@[k];
            assert(order@.contains(value));
            assert(before.to_multiset().count(value) > 0);
            assert(before.contains(value));
        }
    }
    order
}

/// The seed of the order in which the examples are put before they are
/// split into those to train on and those to validate on.
pub const SPLIT_SEED: u64 = 42;

/// An order in which to visit `n` examples, drawn from a generator that is
/// made from `seed`.
pub fn seeded_order(n: usize, seed: u64) -> (order: Vec<usize>)
    ensures
        order@.to_multiset() == identity(n as nat).to_multiset(),
        order.len() == n,
        forall|i: int| 0 <= i < n ==> #[trigger] order@[i] < n,
{
    let mut rng = seeded(seed);
    shuffled_order(n, &mut rng)
}

/// The number of batches into which `len` examples fall, `size` to a
/// batch but for a last one that may hold fewer.
pub open spec fn batch_count(len: nat, size: nat) -> nat {
    if size == 0 {
        0
    } else {
        ((len + size - 1) / size as int) as nat
    }
}

/// The batch of index `index`: the index of its first example, and the
/// index after its last.
pub open spec fn batch(len: nat, size: nat, index: int) -> (usize, usize) {
    (
        (index * size) as usize,
        if (index + 1) * size < len {
            ((index + 1) * size) as usize
        } else {
            len as usize
        },
    )
}

/// The batches into which `len` examples fall: one after the other, each
/// of `size` examples, but for a last one that holds what is left.
pub fn batch_ranges(len: usize, size: usize) -> (ranges: Vec<(usize, usize)>)
    requires
        size > 0,
    ensures
        ranges@ == Seq::new(batch_count(len as nat, size as nat), |i: int| batch(len as nat, size as nat, i)),
{
    let mut ranges: Vec<(usize, usize)> = Vec::new();
    let mut start: usize = 0;
    assert(0 * size == 0) by (nonlinear_arith);
    while start < len
        invariant
            size > 0,
            start <= len,
            start < len ==> start == ranges.len() * size,
            start == len ==> (ranges.len() - 1) * size < len <= ranges.len() * size || (len == 0
                && ranges.len() == 0),
            forall|i: int|
                0 <= i < ranges.len() ==> #[trigger] ranges@[i] == batch(len as nat, size as nat, i),
        decreases len - start,
    {
        let end: usize = if len - start <= size {
            len
        } else {
            start + size
        };
        proof {
            let k = ranges.len() as int;
            assert((k + 1) * size == k * size + size) by (nonlinear_arith);
            assert((k + 1 - 1) * size == k * size);
        }
        ranges.push((start, end));
        start = end;
    }
    proof {
        let k = ranges.len() as int;
        if len > 0 {
            assert(k == (len + size - 1) / size as int) by (nonlinear_arith)
                requires
                    (k - 1) * size < len <= k * size,
                    size > 0,
            {
            }
        } else {
            assert((len + size - 1) / size as int == 0) by (nonlinear_arith)
                requires
                    len == 0,
                    size > 0,
            {
            }
        }
        assert(ranges@ =~= Seq::new(
            batch_count(len as nat, size as nat),
            |i: int| batch(len as nat, size as nat, i),
        ));
    }
    ranges
}

} // verus!
