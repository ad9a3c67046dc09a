use tce::aggregate::{aggregate, AggregateResult};

#[test]
fn empty_sample_set_is_no_data() {
    let samples: Vec<i64> = Vec::new();
    assert_eq!(aggregate(&samples), AggregateResult::NoData);
}

#[test]
fn single_sample_is_itself() {
    assert_eq!(aggregate(&vec![21_500]), AggregateResult::Value(21_500));
}

#[test]
fn two_overlapping_samples_average_exactly() {
    // 10.0 and 20.0 degrees, in millidegrees: the mean is exactly 15.0.
    assert_eq!(aggregate(&vec![10_000, 20_000]), AggregateResult::Value(15_000));
}

#[test]
fn mean_rounds_toward_negative_infinity() {
    assert_eq!(aggregate(&vec![1, 2]), AggregateResult::Value(1));
    assert_eq!(aggregate(&vec![-1, -2]), AggregateResult::Value(-2));
}

#[test]
fn aggregation_is_order_independent() {
    let a = vec![5_000, -3_000, 12_000, 12_000];
    let perms = [
        vec![5_000, -3_000, 12_000, 12_000],
        vec![12_000, 5_000, 12_000, -3_000],
        vec![-3_000, 12_000, 12_000, 5_000],
        vec![12_000, 12_000, -3_000, 5_000],
    ];
    let expected = aggregate(&a);
    for p in perms {
        assert_eq!(aggregate(&p), expected);
    }
}

#[test]
fn negative_and_positive_samples() {
    assert_eq!(aggregate(&vec![-10_000, 10_000]), AggregateResult::Value(0));
}
