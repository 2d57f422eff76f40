//! Training-loop control: partitioning a dataset into mini-batches and
//! deciding when training terminates.

use vstd::prelude::*;

verus! {

/// How the training loop decides to terminate: either after a fixed number of
/// epochs, or by early stopping once the validation loss settles.
#[derive(Clone, Copy, Debug, PartialEq, Eq, Structural)]
pub enum TerminationPolicy {
    FixedEpochs(usize),
    EarlyStopping,
}

/// What the controller decides after `completed` epochs have run.
///
/// `converged` reports whether the two most recent validation losses differ by
/// less than the configured tolerance; it is only meaningful once two losses
/// exist, so the controller ignores it before two epochs have completed.
pub open spec fn stop_decision(policy: TerminationPolicy, completed: nat, converged: bool) -> bool {
    match policy {
        TerminationPolicy::FixedEpochs(n) => completed >= n,
        TerminationPolicy::EarlyStopping => completed >= 2 && converged,
    }
}

/// Decide whether training halts after `completed` epochs.
///
/// Under a fixed-epoch policy the answer depends on the epoch count alone;
/// under early stopping the loop halts exactly when a previous loss exists
/// (two or more completed epochs) and the loss change fell below tolerance.
pub fn should_stop(policy: &TerminationPolicy, completed: usize, converged: bool) -> (stop: bool)
    ensures
        stop == stop_decision(*policy, completed as nat, converged),
{
    match policy {
        TerminationPolicy::FixedEpochs(n) => completed >= *n,
        TerminationPolicy::EarlyStopping => completed >= 2 && converged,
    }
}

/// The first completed epoch can never trigger early stopping: no previous
/// loss exists to compare against.
pub proof fn early_stopping_waits_for_two(completed: nat, converged: bool)
    requires
        completed < 2,
    ensures
        !stop_decision(TerminationPolicy::EarlyStopping, completed, converged),
{
}

/// The loop driven by the controller halts with exactly `e` completed
/// epochs: asked after `e` epochs it decides to stop, and at no earlier
/// point did it. `conv[k]` is the convergence event reported when `k`
/// epochs have completed.
pub open spec fn halts_after(policy: TerminationPolicy, conv: Seq<bool>, e: int) -> bool {
    &&& 0 <= e < conv.len()
    &&& stop_decision(policy, e as nat, conv[e])
    &&& forall|k: int| 0 <= k < e ==> !stop_decision(policy, k as nat, conv[k])
}

/// A fixed-epoch policy runs for exactly its configured count of epochs,
/// whatever the convergence events report.
pub proof fn fixed_epochs_halt_at_count(n: usize, conv: Seq<bool>)
    requires
        conv.len() > n,
    ensures
        halts_after(TerminationPolicy::FixedEpochs(n), conv, n as int),
{
}

/// Early stopping with a convergence event that holds once two losses exist
/// halts with exactly two completed epochs: on a run whose validation loss
/// is constant, the loop stops right after the second epoch.
pub proof fn early_stopping_halts_after_second_epoch(conv: Seq<bool>)
    requires
        conv.len() > 2,
        conv[2],
    ensures
        halts_after(TerminationPolicy::EarlyStopping, conv, 2),
{
}

/// The half-open row ranges of the mini-batches of an `n`-row dataset under
/// batch size `b`: contiguous, in order, each of size `b` except that the last
/// may be smaller, together covering exactly the rows `0..n`.
pub fn batch_bounds(n: usize, b: usize) -> (r: Vec<(usize, usize)>)
    requires
        b >= 1,
    ensures
        n == 0 ==> r@.len() == 0,
        n > 0 ==> r@.len() >= 1 && r@[0].0 == 0 && r@[r@.len() - 1].1 == n,
        forall|i: int|
            0 <= i < r@.len() ==> (#[trigger] r@[i]).0 < r@[i].1 <= r@[i].0 + (b as int),
        forall|i: int| 0 <= i < r@.len() - 1 ==> (#[trigger] r@[i]).1 == r@[i].0 + (b as int),
        forall|i: int| 0 <= i < r@.len() - 1 ==> (#[trigger] r@[i]).1 == r@[i + 1].0,
{
    let mut r: Vec<(usize, usize)> = Vec::new();
    let mut start: usize = 0;
    while start < n
        invariant
            b >= 1,
            start <= n,
            r@.len() == 0 ==> start == 0,
            r@.len() >= 1 ==> r@[0].0 == 0 && r@[r@.len() - 1].1 == start,
            start < n ==> forall|i: int|
                0 <= i < r@.len() ==> (#[trigger] r@[i]).1 == r@[i].0 + (b as int),
            forall|i: int|
                0 <= i < r@.len() ==> (#[trigger] r@[i]).0 < r@[i].1 <= r@[i].0 + (b as int),
            forall|i: int| 0 <= i < r@.len() - 1 ==> (#[trigger] r@[i]).1 == r@[i].0 + (b as int),
            forall|i: int| 0 <= i < r@.len() - 1 ==> (#[trigger] r@[i]).1 == r@[i + 1].0,
        decreases n - start,
    {
        let end: usize = if n - start >= b {
            start + b
        } else {
            n
        };
        r.push((start, end));
        start = end;
    }
    r
}

} // verus!
