//! Evaluation helpers: picking the predicted class of a score row and
//! counting classification mistakes against ground truth.

use vstd::prelude::*;
use crate::mnist::one_hot_row;

verus! {

/// How many positions of two equally long class-index sequences disagree.
pub open spec fn num_mismatches(x: Seq<usize>, y: Seq<usize>) -> nat
    decreases x.len(),
{
    if x.len() == 0 {
        0
    } else {
        num_mismatches(x.drop_last(), y.drop_last()) + if x.last() != y.last() {
            1nat
        } else {
            0nat
        }
    }
}

/// The index of the largest entry of a row, ties resolved to the latest
/// position; on a one-hot row this is the position of the 1.
pub fn argmax(row: &Vec<u64>) -> (m: usize)
    requires
        row@.len() >= 1,
    ensures
        m < row@.len(),
        forall|i: int| 0 <= i < row@.len() ==> #[trigger] row@[i] <= row@[m as int],
        forall|i: int| m < i < row@.len() ==> #[trigger] row@[i] < row@[m as int],
{
    let mut m: usize = 0;
    let mut i: usize = 1;
    while i < row.len()
        invariant
            1 <= i <= row@.len(),
            m < i,
            forall|j: int| 0 <= j < i ==> #[trigger] row@[j] <= row@[m as int],
            forall|j: int| m < j < i ==> #[trigger] row@[j] < row@[m as int],
        decreases row@.len() - i,
    {
        if row[i] >= row[m] {
            m = i;
        }
        i = i + 1;
    }
    m
}

/// On a one-hot row whose label is in range, any position satisfying what
/// `argmax` guarantees is the label itself: comparing a prediction against
/// the column-argmax of a one-hot target is comparing it against the label.
pub proof fn one_hot_argmax_is_label(label: nat, width: nat, m: int)
    requires
        label < width,
        0 <= m < width,
        forall|i: int|
            0 <= i < width ==> #[trigger] one_hot_row(label, width)[i] <= one_hot_row(
                label,
                width,
            )[m],
    ensures
        m == label,
{
    assert(one_hot_row(label, width)[label as int] == 1u64);
}

/// Count the rows where the predicted class differs from the true class.
pub fn count_mismatches(predicted: &Vec<usize>, actual: &Vec<usize>) -> (mistakes: usize)
    requires
        predicted@.len() == actual@.len(),
    ensures
        mistakes == num_mismatches(predicted@, actual@),
        mistakes <= predicted@.len(),
{
    let mut mistakes: usize = 0;
    let mut i: usize = 0;
    while i < predicted.len()
        invariant
            i <= predicted@.len(),
            predicted@.len() == actual@.len(),
            mistakes == num_mismatches(predicted@.take(i as int), actual@.take(i as int)),
            mistakes <= i,
        decreases predicted@.len() - i,
    {
        proof {
            assert(predicted@.take(i + 1).drop_last() =~= predicted@.take(i as int));
            assert(actual@.take(i + 1).drop_last() =~= actual@.take(i as int));
            assert(predicted@.take(i + 1).last() == predicted@[i as int]);
            assert(actual@.take(i + 1).last() == actual@[i as int]);
        }
        if predicted[i] != actual[i] {
            mistakes = mistakes + 1;
        }
        i = i + 1;
    }
    proof {
        assert(predicted@.take(predicted@.len() as int) =~= predicted@);
        assert(actual@.take(actual@.len() as int) =~= actual@);
    }
    mistakes
}

} // verus!
