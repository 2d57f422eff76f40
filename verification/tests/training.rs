use mlp_trainer::training::{batch_bounds, should_stop, TerminationPolicy};

#[test]
fn batches_with_partial_tail() {
    assert_eq!(batch_bounds(10, 3), vec![(0, 3), (3, 6), (6, 9), (9, 10)]);
}

#[test]
fn batches_exact_fit() {
    assert_eq!(batch_bounds(4, 4), vec![(0, 4)]);
    assert_eq!(batch_bounds(6, 3), vec![(0, 3), (3, 6)]);
}

#[test]
fn batches_empty_dataset() {
    assert_eq!(batch_bounds(0, 5), Vec::<(usize, usize)>::new());
}

#[test]
fn batches_oversized_batch() {
    assert_eq!(batch_bounds(3, 50), vec![(0, 3)]);
}

#[test]
fn batches_size_one() {
    assert_eq!(batch_bounds(3, 1), vec![(0, 1), (1, 2), (2, 3)]);
}

#[test]
fn fixed_epochs_stops_exactly_at_count() {
    let p = TerminationPolicy::FixedEpochs(5);
    assert!(!should_stop(&p, 0, false));
    assert!(!should_stop(&p, 4, true));
    assert!(should_stop(&p, 5, false));
    assert!(should_stop(&p, 6, true));
}

#[test]
fn early_stopping_ignores_first_epoch() {
    let p = TerminationPolicy::EarlyStopping;
    assert!(!should_stop(&p, 0, true));
    assert!(!should_stop(&p, 1, true));
}

#[test]
fn early_stopping_needs_convergence() {
    let p = TerminationPolicy::EarlyStopping;
    assert!(!should_stop(&p, 2, false));
    assert!(!should_stop(&p, 7, false));
    assert!(should_stop(&p, 2, true));
    assert!(should_stop(&p, 3, true));
}

#[test]
fn constant_loss_stops_after_second_epoch() {
    // A dataset on which the loss never moves: every epoch reports the same
    // validation loss, so the difference is 0.0 < 0.0001 once two losses
    // exist, and the loop must halt right after the second epoch.
    let policy = TerminationPolicy::EarlyStopping;
    let epsilon = 0.0001f64;
    let mut losses: Vec<f64> = Vec::new();
    let mut completed: usize = 0;
    loop {
        // the loss of this epoch is constant on such a dataset
        losses.push(2.5);
        completed += 1;
        let converged = losses.len() >= 2
            && (losses[losses.len() - 1] - losses[losses.len() - 2]).abs() < epsilon;
        if should_stop(&policy, completed, converged) {
            break;
        }
        assert!(completed < 100, "the loop must have stopped long before");
    }
    assert_eq!(completed, 2);
}
