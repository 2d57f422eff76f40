use mlp_trainer::eval::{argmax, count_mismatches};
use mlp_trainer::mnist::one_hot;

#[test]
fn argmax_picks_largest() {
    assert_eq!(argmax(&vec![1, 5, 3]), 1);
    assert_eq!(argmax(&vec![9, 5, 3]), 0);
    assert_eq!(argmax(&vec![1, 5, 30]), 2);
}

#[test]
fn argmax_single_entry() {
    assert_eq!(argmax(&vec![4]), 0);
}

#[test]
fn argmax_ties_resolve_to_last() {
    assert_eq!(argmax(&vec![2, 7, 7]), 2);
    assert_eq!(argmax(&vec![0, 0, 0]), 2);
}

#[test]
fn argmax_of_one_hot_is_label() {
    for label in 0..10u64 {
        assert_eq!(argmax(&one_hot(label, 10)), label as usize);
    }
}

#[test]
fn mismatches_counted_exactly() {
    assert_eq!(count_mismatches(&vec![0, 1, 2], &vec![0, 2, 2]), 1);
    assert_eq!(count_mismatches(&vec![3, 1], &vec![0, 2]), 2);
    assert_eq!(count_mismatches(&vec![5, 5, 5], &vec![5, 5, 5]), 0);
}

#[test]
fn mismatches_of_empty_is_zero() {
    assert_eq!(count_mismatches(&Vec::new(), &Vec::new()), 0);
}
