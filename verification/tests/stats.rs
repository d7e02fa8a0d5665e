use runbench::stats::{vec_average, Results};

#[test]
fn three_recorded_runs_aggregate_to_their_sum_and_floor_average() {
    let mut results = Results::new();
    results.record(0, 5);
    results.record(1, 9);
    results.record(2, 7);
    assert_eq!(results.times.len(), 3);
    let agg = results.aggregate().unwrap();
    assert_eq!(agg.total, 21);
    assert_eq!(agg.average, 7);
    assert_eq!(agg.highest.value, 9);
    assert_eq!(agg.highest.index, 1);
    assert_eq!(agg.lowest.value, 5);
    assert_eq!(agg.lowest.index, 0);
}

#[test]
fn zero_runs_skip_aggregation() {
    let results = Results::new();
    assert!(results.aggregate().is_none());
}

#[test]
fn extremes_keep_the_earliest_run_on_ties() {
    let mut results = Results::new();
    results.record(0, 4);
    results.record(1, 2);
    results.record(2, 2);
    results.record(3, 4);
    assert_eq!(results.highest.value, 4);
    assert_eq!(results.highest.index, 0);
    assert_eq!(results.lowest.value, 2);
    assert_eq!(results.lowest.index, 1);
}

#[test]
fn extremes_bound_every_sample() {
    let mut results = Results::new();
    for (i, d) in [13u128, 2, 8, 40, 40, 1, 1, 25].iter().enumerate() {
        results.record(i as u32, *d);
    }
    for d in results.times.iter() {
        assert!(*d <= results.highest.value);
        assert!(*d >= results.lowest.value);
    }
    assert_eq!(results.highest.index, 3);
    assert_eq!(results.lowest.index, 5);
}

#[test]
fn average_is_floor_division() {
    assert_eq!(vec_average(vec![1, 2, 4]), 2);
    assert_eq!(vec_average(vec![7]), 7);
    assert_eq!(vec_average(vec![3, 3, 4]), 3);
}

#[test]
fn a_single_zero_duration_run_is_both_extremes() {
    let mut results = Results::new();
    results.record(0, 0);
    assert_eq!(results.highest.value, 0);
    assert_eq!(results.highest.index, 0);
    assert_eq!(results.lowest.value, 0);
    assert_eq!(results.lowest.index, 0);
}

#[test]
fn the_largest_possible_duration_is_recorded_exactly() {
    let mut results = Results::new();
    results.record(0, u128::MAX);
    assert_eq!(results.highest.value, u128::MAX);
    assert_eq!(results.lowest.value, u128::MAX);
    let agg = results.aggregate().unwrap();
    assert_eq!(agg.total, u128::MAX);
    assert_eq!(agg.average, u128::MAX);
}
