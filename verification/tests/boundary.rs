use bencher_core::arith::{div_ceil, div_floor, sqrt_floor};
use bencher_core::boundary::{
    check_limits, enough_samples, evaluate, evaluate_with, samples_in_window, BoundaryOutcome,
    BoundaryVerdict, ConfigurationFailure, Critical, MAX_CONFIDENCE, MAX_FACTOR, MAX_PERCENTAGE,
    MAX_SAMPLES, MAX_SPREAD,
};
use bencher_core::model::{Boundary, Model, ModelTest};
use bencher_core::results::JsonMetric;

fn model(test: ModelTest, lower: Option<i64>, upper: Option<i64>) -> Model {
    Model {
        test,
        min_sample_size: None,
        max_sample_size: None,
        window: None,
        lower_boundary: lower.map(Boundary),
        upper_boundary: upper.map(Boundary),
    }
}

fn metric(value: f64) -> JsonMetric {
    JsonMetric { value: thousandths(value), lower_value: None, upper_value: None }
}

fn thousandths(value: f64) -> i64 {
    (value * 1000.0).round() as i64
}

fn history(values: &[f64]) -> Vec<i64> {
    values.iter().map(|v| thousandths(*v)).collect()
}

#[test]
fn z_score_alerts_on_the_upper_side() {
    let past = history(&[100.0, 102.0, 98.0, 101.0, 99.0]);
    let z2 = model(ModelTest::ZScore, None, Some(2000));
    let verdict = evaluate(&z2, &past, &metric(130.0)).unwrap();
    assert_eq!(verdict.outcome, BoundaryOutcome::Upper);
    assert!(verdict.is_alert());
    assert_eq!(verdict.lower_limit, None);
    // mean 100, standard deviation sqrt(2.5) = 1.5811..., limit 103.1622...
    assert_eq!(verdict.upper_limit, Some(103_162));
    let upper = verdict.upper_limit.unwrap() as f64 / 1000.0;
    assert!((upper - 103.2).abs() < 0.05);
    let mean: f64 = 100.0;
    let deviation = (10.0f64 / 4.0).sqrt();
    assert_eq!(verdict.upper_limit, Some(((mean + 2.0 * deviation) * 1000.0).floor() as i64));
}

#[test]
fn z_score_limits_on_both_sides() {
    let past = history(&[100.0, 102.0, 98.0, 101.0, 99.0]);
    let both = model(ModelTest::ZScore, Some(2000), Some(3000));
    let inside = evaluate(&both, &past, &metric(101.0)).unwrap();
    assert_eq!(inside.outcome, BoundaryOutcome::InBounds);
    assert!(!inside.is_alert());
    // 100 - 2 * 1.58113883 = 96.8377..., rounded up; 100 + 3 * 1.58113883 = 104.7434..., rounded down
    assert_eq!(inside.lower_limit, Some(96_838));
    assert_eq!(inside.upper_limit, Some(104_743));
    let low = evaluate(&both, &past, &metric(96.0)).unwrap();
    assert_eq!(low.outcome, BoundaryOutcome::Lower);
    assert_eq!(evaluate(&both, &past, &JsonMetric { value: 96_838, lower_value: None, upper_value: None })
        .unwrap()
        .outcome, BoundaryOutcome::InBounds);
    assert_eq!(evaluate(&both, &past, &JsonMetric { value: 96_837, lower_value: None, upper_value: None })
        .unwrap()
        .outcome, BoundaryOutcome::Lower);
    assert_eq!(evaluate(&both, &past, &JsonMetric { value: 104_743, lower_value: None, upper_value: None })
        .unwrap()
        .outcome, BoundaryOutcome::InBounds);
    assert_eq!(evaluate(&both, &past, &JsonMetric { value: 104_744, lower_value: None, upper_value: None })
        .unwrap()
        .outcome, BoundaryOutcome::Upper);
}

#[test]
fn z_score_of_a_flat_history_has_the_mean_as_both_limits() {
    let past = history(&[7.5, 7.5, 7.5]);
    let both = model(ModelTest::ZScore, Some(3000), Some(3000));
    let verdict = evaluate(&both, &past, &metric(7.5)).unwrap();
    assert_eq!(verdict, BoundaryVerdict {
        outcome: BoundaryOutcome::InBounds,
        lower_limit: Some(7_500),
        upper_limit: Some(7_500),
    });
    assert_eq!(evaluate(&both, &past, &metric(7.501)).unwrap().outcome, BoundaryOutcome::Upper);
    assert_eq!(evaluate(&both, &past, &metric(7.499)).unwrap().outcome, BoundaryOutcome::Lower);
}

#[test]
fn z_score_with_too_few_samples_is_undecided() {
    let z2 = model(ModelTest::ZScore, None, Some(2000));
    let undecided = BoundaryVerdict {
        outcome: BoundaryOutcome::InsufficientData,
        lower_limit: None,
        upper_limit: None,
    };
    assert_eq!(evaluate(&z2, &vec![], &metric(130.0)), Ok(undecided));
    assert_eq!(evaluate(&z2, &history(&[100.0]), &metric(130.0)), Ok(undecided));
    assert!(!undecided.is_alert());
    let mut strict = z2;
    strict.min_sample_size = Some(6);
    let past = history(&[100.0, 102.0, 98.0, 101.0, 99.0]);
    assert_eq!(evaluate(&strict, &past, &metric(130.0)), Ok(undecided));
    strict.min_sample_size = Some(5);
    assert_eq!(evaluate(&strict, &past, &metric(130.0)).unwrap().outcome, BoundaryOutcome::Upper);
}

#[test]
fn window_and_largest_sample_size_keep_the_newest_samples() {
    let past = history(&[1000.0, 2000.0, 100.0, 102.0, 98.0, 101.0, 99.0]);
    let mut z2 = model(ModelTest::ZScore, None, Some(2000));
    z2.window = Some(5);
    assert_eq!(evaluate(&z2, &past, &metric(130.0)).unwrap().upper_limit, Some(103_162));
    z2.window = None;
    z2.max_sample_size = Some(5);
    assert_eq!(evaluate(&z2, &past, &metric(130.0)).unwrap().upper_limit, Some(103_162));
    z2.window = Some(6);
    assert_eq!(evaluate(&z2, &past, &metric(130.0)).unwrap().upper_limit, Some(103_162));
    z2.window = Some(1);
    z2.max_sample_size = None;
    assert_eq!(evaluate(&z2, &past, &metric(130.0)).unwrap().outcome, BoundaryOutcome::InsufficientData);
    assert_eq!(samples_in_window(&z2, 7), 1);
    z2.window = Some(9);
    z2.max_sample_size = Some(3);
    assert_eq!(samples_in_window(&z2, 7), 3);
    assert_eq!(samples_in_window(&z2, 2), 2);
    assert!(enough_samples(&z2, 2));
    assert!(!enough_samples(&z2, 1));
}

#[test]
fn static_limits_are_the_boundaries() {
    let fixed = model(ModelTest::Static, Some(10_000), Some(20_000));
    let expect = |outcome| BoundaryVerdict {
        outcome,
        lower_limit: Some(10_000),
        upper_limit: Some(20_000),
    };
    assert_eq!(evaluate(&fixed, &vec![], &metric(15.0)), Ok(expect(BoundaryOutcome::InBounds)));
    assert_eq!(evaluate(&fixed, &vec![], &metric(10.0)), Ok(expect(BoundaryOutcome::InBounds)));
    assert_eq!(evaluate(&fixed, &vec![], &metric(20.0)), Ok(expect(BoundaryOutcome::InBounds)));
    assert_eq!(evaluate(&fixed, &vec![], &metric(9.999)), Ok(expect(BoundaryOutcome::Lower)));
    assert_eq!(evaluate(&fixed, &vec![], &metric(20.001)), Ok(expect(BoundaryOutcome::Upper)));
    let crossed = model(ModelTest::Static, Some(20_000), Some(10_000));
    assert_eq!(evaluate(&crossed, &vec![], &metric(15.0)).unwrap().outcome, BoundaryOutcome::Both);
    let open = model(ModelTest::Static, None, None);
    assert_eq!(evaluate(&open, &vec![], &metric(15.0)), Ok(BoundaryVerdict {
        outcome: BoundaryOutcome::InBounds,
        lower_limit: None,
        upper_limit: None,
    }));
    let mut waiting = fixed;
    waiting.min_sample_size = Some(1);
    assert_eq!(evaluate(&waiting, &vec![], &metric(15.0)).unwrap().outcome, BoundaryOutcome::InsufficientData);
}

#[test]
fn percentage_limits_lie_around_the_newest_sample() {
    let ten = model(ModelTest::Percentage, Some(100), Some(100));
    let past = history(&[50.0, 200.0]);
    let verdict = evaluate(&ten, &past, &metric(200.0)).unwrap();
    assert_eq!(verdict, BoundaryVerdict {
        outcome: BoundaryOutcome::InBounds,
        lower_limit: Some(180_000),
        upper_limit: Some(220_000),
    });
    assert_eq!(evaluate(&ten, &past, &metric(220.001)).unwrap().outcome, BoundaryOutcome::Upper);
    assert_eq!(evaluate(&ten, &past, &metric(179.999)).unwrap().outcome, BoundaryOutcome::Lower);
    // 0.123 * 1.1 = 0.1353: the upper limit is rounded down, the lower limit 0.1107 up
    let small = vec![123];
    let rounded = evaluate(&ten, &small, &metric(0.123)).unwrap();
    assert_eq!(rounded.upper_limit, Some(135));
    assert_eq!(rounded.lower_limit, Some(111));
    // below nothing the limits change sides
    let negative = vec![-100_000];
    let turned = evaluate(&ten, &negative, &metric(-100.0)).unwrap();
    assert_eq!(turned.lower_limit, Some(-90_000));
    assert_eq!(turned.upper_limit, Some(-110_000));
    assert_eq!(turned.outcome, BoundaryOutcome::Both);
    assert_eq!(evaluate(&ten, &vec![], &metric(1.0)).unwrap().outcome, BoundaryOutcome::InsufficientData);
}

#[test]
fn stamped_metric_carries_the_limits() {
    let ten = model(ModelTest::Percentage, None, Some(100));
    let verdict = evaluate(&ten, &history(&[200.0]), &metric(230.0)).unwrap();
    let kept = verdict.stamp(JsonMetric { value: 230_000, lower_value: Some(1), upper_value: Some(2) });
    assert_eq!(kept, JsonMetric { value: 230_000, lower_value: None, upper_value: Some(220_000) });
}

#[test]
fn t_test_without_its_critical_value_misses_a_parameter() {
    let past = history(&[100.0, 102.0, 98.0]);
    let guarded = model(ModelTest::TTest, None, Some(980));
    assert_eq!(evaluate(&guarded, &past, &metric(100.0)), Err(ConfigurationFailure::MissingParameter));
    assert_eq!(evaluate(&guarded, &vec![], &metric(100.0)), Err(ConfigurationFailure::MissingParameter));
    assert_eq!(
        evaluate(&Model::lower_boundary(), &past, &metric(100.0)),
        Err(ConfigurationFailure::MissingParameter)
    );
    let one_sided = Critical { lower: Some(Boundary(2000)), upper: None };
    assert_eq!(
        evaluate_with(&guarded, &past, &metric(100.0), &one_sided),
        Err(ConfigurationFailure::MissingParameter)
    );
    let unguarded = model(ModelTest::TTest, None, None);
    assert_eq!(evaluate(&unguarded, &past, &metric(100.0)), Ok(BoundaryVerdict {
        outcome: BoundaryOutcome::InBounds,
        lower_limit: None,
        upper_limit: None,
    }));
}

#[test]
fn t_test_limits_are_the_ends_of_the_confidence_interval_of_the_mean() {
    let past = history(&[100.0, 102.0, 98.0, 101.0, 99.0]);
    // with four degrees of freedom 98 in 100 values of Student's distribution lie below 2.999
    let critical = Critical { lower: Some(Boundary(2_999)), upper: Some(Boundary(2_999)) };
    let both = model(ModelTest::TTest, Some(980), Some(980));
    let verdict = evaluate_with(&both, &past, &metric(100.0), &critical).unwrap();
    let deviation_of_mean = (2.5f64 / 5.0).sqrt();
    assert_eq!(verdict.upper_limit, Some(((100.0 + 2.999 * deviation_of_mean) * 1000.0).floor() as i64));
    assert_eq!(verdict.lower_limit, Some(((100.0 - 2.999 * deviation_of_mean) * 1000.0).ceil() as i64));
    assert_eq!(verdict.upper_limit, Some(102_120));
    assert_eq!(verdict.lower_limit, Some(97_880));
    assert_eq!(verdict.outcome, BoundaryOutcome::InBounds);
    assert_eq!(evaluate_with(&both, &past, &metric(102.121), &critical).unwrap().outcome, BoundaryOutcome::Upper);
    assert_eq!(evaluate_with(&both, &past, &metric(97.879), &critical).unwrap().outcome, BoundaryOutcome::Lower);
    let upper_only = evaluate_with(&Model::upper_boundary(), &past, &metric(90.0), &critical).unwrap();
    assert_eq!(upper_only, BoundaryVerdict {
        outcome: BoundaryOutcome::InBounds,
        lower_limit: None,
        upper_limit: Some(102_120),
    });
    let lower_only = evaluate_with(&Model::lower_boundary(), &past, &metric(90.0), &critical).unwrap();
    assert_eq!(lower_only.outcome, BoundaryOutcome::Lower);
    assert_eq!(lower_only.upper_limit, None);
    assert_eq!(
        evaluate_with(&both, &history(&[100.0]), &metric(100.0), &critical).unwrap().outcome,
        BoundaryOutcome::InsufficientData
    );
    // the critical values are of no account to the other tests
    let z2 = model(ModelTest::ZScore, None, Some(2000));
    assert_eq!(
        evaluate_with(&z2, &past, &metric(130.0), &critical),
        evaluate(&z2, &past, &metric(130.0))
    );
}

#[test]
fn t_test_refuses_what_is_out_of_range() {
    let past = history(&[100.0, 102.0, 98.0]);
    let critical = Critical { lower: Some(Boundary(2_999)), upper: Some(Boundary(2_999)) };
    for case in [
        model(ModelTest::TTest, Some(-1), None),
        model(ModelTest::TTest, None, Some(MAX_CONFIDENCE + 1)),
    ] {
        assert_eq!(
            evaluate_with(&case, &past, &metric(100.0), &critical),
            Err(ConfigurationFailure::InvalidBoundary)
        );
    }
    let both = model(ModelTest::TTest, Some(980), Some(MAX_CONFIDENCE));
    for bad in [
        Critical { lower: Some(Boundary(-1)), upper: Some(Boundary(1)) },
        Critical { lower: Some(Boundary(1)), upper: Some(Boundary(MAX_FACTOR + 1)) },
    ] {
        assert_eq!(
            evaluate_with(&both, &past, &metric(100.0), &bad),
            Err(ConfigurationFailure::InvalidBoundary)
        );
    }
    assert!(evaluate_with(&both, &past, &metric(100.0), &critical).is_ok());
    assert_eq!(
        evaluate_with(&both, &vec![0, MAX_SPREAD + 1], &metric(1.0), &critical),
        Err(ConfigurationFailure::OutOfRange)
    );
    assert_eq!(
        evaluate_with(&both, &vec![1; MAX_SAMPLES + 1], &metric(1.0), &critical),
        Err(ConfigurationFailure::OutOfRange)
    );
}

#[test]
fn boundaries_out_of_their_range_are_invalid() {
    let past = history(&[100.0, 102.0, 98.0]);
    let cases = [
        model(ModelTest::Iqr, Some(-1), None),
        model(ModelTest::Iqr, None, Some(MAX_FACTOR + 1)),
        model(ModelTest::ZScore, Some(-1), None),
        model(ModelTest::ZScore, None, Some(MAX_FACTOR + 1)),
        model(ModelTest::Percentage, Some(-1), None),
        model(ModelTest::Percentage, None, Some(MAX_PERCENTAGE + 1)),
    ];
    for case in cases {
        assert_eq!(evaluate(&case, &past, &metric(100.0)), Err(ConfigurationFailure::InvalidBoundary));
        assert_eq!(evaluate(&case, &vec![], &metric(100.0)), Err(ConfigurationFailure::InvalidBoundary));
    }
    let widest = model(ModelTest::ZScore, Some(0), Some(MAX_FACTOR));
    assert!(evaluate(&widest, &past, &metric(100.0)).is_ok());
}

#[test]
fn windows_beyond_the_range_are_refused() {
    let z2 = model(ModelTest::ZScore, None, Some(2000));
    let far = vec![0, MAX_SPREAD + 1];
    assert_eq!(evaluate(&z2, &far, &metric(1.0)), Err(ConfigurationFailure::OutOfRange));
    let near = vec![0, MAX_SPREAD];
    assert!(evaluate(&z2, &near, &metric(1.0)).is_ok());
    let long = vec![5; MAX_SAMPLES + 1];
    assert_eq!(evaluate(&z2, &long, &metric(1.0)), Err(ConfigurationFailure::OutOfRange));
    let full = vec![5; MAX_SAMPLES];
    assert_eq!(evaluate(&z2, &full, &metric(0.005)).unwrap().upper_limit, Some(5));
    let high = vec![i64::MAX - 1, i64::MAX];
    assert_eq!(
        evaluate(&model(ModelTest::ZScore, None, Some(MAX_FACTOR)), &high, &metric(1.0)),
        Err(ConfigurationFailure::OutOfRange)
    );
    let doubled = model(ModelTest::Percentage, None, Some(1000));
    assert_eq!(evaluate(&doubled, &vec![i64::MAX], &metric(1.0)), Err(ConfigurationFailure::OutOfRange));
}

#[test]
fn z_score_agrees_with_the_formula_in_floating_point() {
    let past: Vec<i64> = vec![10_120, 9_870, 10_440, 10_010, 9_650, 10_300, 10_090];
    let n = past.len() as f64;
    let mean = past.iter().map(|v| *v as f64).sum::<f64>() / n;
    let variance = past.iter().map(|v| (*v as f64 - mean).powi(2)).sum::<f64>() / (n - 1.0);
    let deviation = variance.sqrt();
    for z in [0i64, 500, 1000, 1960, 2576, 3000] {
        let both = model(ModelTest::ZScore, Some(z), Some(z));
        let verdict = evaluate(&both, &past, &metric(10.0)).unwrap();
        let upper = mean + z as f64 / 1000.0 * deviation;
        let lower = mean - z as f64 / 1000.0 * deviation;
        assert_eq!(verdict.upper_limit, Some(upper.floor() as i64));
        assert_eq!(verdict.lower_limit, Some(lower.ceil() as i64));
    }
}

#[test]
fn check_limits_classifies_each_side() {
    assert_eq!(check_limits(5, Some(1), Some(9)).outcome, BoundaryOutcome::InBounds);
    assert_eq!(check_limits(0, Some(1), Some(9)).outcome, BoundaryOutcome::Lower);
    assert_eq!(check_limits(10, Some(1), Some(9)).outcome, BoundaryOutcome::Upper);
    assert_eq!(check_limits(5, Some(9), Some(1)).outcome, BoundaryOutcome::Both);
    assert_eq!(check_limits(5, None, None).outcome, BoundaryOutcome::InBounds);
    assert_eq!(check_limits(i64::MIN, None, Some(0)).outcome, BoundaryOutcome::InBounds);
}

#[test]
fn integer_square_root_is_the_floor() {
    for (m, r) in [(0u128, 0u128), (1, 1), (2, 1), (3, 1), (4, 2), (15, 3), (16, 4), (17, 4), (99, 9), (100, 10)] {
        assert_eq!(sqrt_floor(m), r);
    }
    assert_eq!(sqrt_floor(u128::MAX), u64::MAX as u128);
    assert_eq!(sqrt_floor((1u128 << 64) - 1), (1u128 << 32) - 1);
    assert_eq!(sqrt_floor(1u128 << 64), 1u128 << 32);
    assert_eq!(sqrt_floor(2_500_000), 1581);
}

#[test]
fn division_rounds_down_and_up_whatever_the_sign() {
    assert_eq!(div_floor(7, 2), 3);
    assert_eq!(div_floor(-7, 2), -4);
    assert_eq!(div_floor(-8, 2), -4);
    assert_eq!(div_floor(0, 5), 0);
    assert_eq!(div_floor(-1, 5), -1);
    assert_eq!(div_ceil(7, 2), 4);
    assert_eq!(div_ceil(-7, 2), -3);
    assert_eq!(div_ceil(8, 2), 4);
    assert_eq!(div_ceil(1, 5), 1);
    assert_eq!(div_ceil(-1, 5), 0);
}

#[test]
fn interquartile_limits_lie_beyond_the_quartiles() {
    let past = history(&[7.0, 1.0, 8.0, 3.0, 2.0, 6.0, 4.0, 5.0]);
    let tukey = model(ModelTest::Iqr, Some(1500), Some(1500));
    // quartiles 2.75 and 6.25, range 3.5
    let verdict = evaluate(&tukey, &past, &metric(5.0)).unwrap();
    assert_eq!(verdict, BoundaryVerdict {
        outcome: BoundaryOutcome::InBounds,
        lower_limit: Some(-2_500),
        upper_limit: Some(11_500),
    });
    assert_eq!(evaluate(&tukey, &past, &metric(11.5)).unwrap().outcome, BoundaryOutcome::InBounds);
    assert_eq!(evaluate(&tukey, &past, &metric(11.501)).unwrap().outcome, BoundaryOutcome::Upper);
    assert_eq!(evaluate(&tukey, &past, &metric(-2.501)).unwrap().outcome, BoundaryOutcome::Lower);
    let tight = model(ModelTest::Iqr, Some(0), Some(0));
    let verdict = evaluate(&tight, &past, &metric(5.0)).unwrap();
    assert_eq!(verdict.lower_limit, Some(2_750));
    assert_eq!(verdict.upper_limit, Some(6_250));
    let one = evaluate(&tukey, &history(&[4.0]), &metric(4.0)).unwrap();
    assert_eq!(one.lower_limit, Some(4_000));
    assert_eq!(one.upper_limit, Some(4_000));
    let two = evaluate(&tight, &vec![10, 21], &metric(0.0)).unwrap();
    // quartiles 12.75 and 18.25, rounded up and down
    assert_eq!(two.lower_limit, Some(13));
    assert_eq!(two.upper_limit, Some(18));
    assert_eq!(evaluate(&tukey, &vec![], &metric(1.0)).unwrap().outcome, BoundaryOutcome::InsufficientData);
    assert_eq!(
        evaluate(&tukey, &vec![1; MAX_SAMPLES + 1], &metric(1.0)),
        Err(ConfigurationFailure::OutOfRange)
    );
    assert_eq!(
        evaluate(&model(ModelTest::Iqr, None, Some(MAX_FACTOR)), &vec![i64::MIN, i64::MAX], &metric(1.0)),
        Err(ConfigurationFailure::OutOfRange)
    );
    let wide = evaluate(&tight, &vec![i64::MIN, i64::MAX, 0], &metric(1.0)).unwrap();
    assert_eq!(wide.lower_limit, Some(i64::MIN / 2));
    assert_eq!(wide.upper_limit, Some(i64::MAX / 2));
}

#[test]
fn interquartile_agrees_with_the_formula_in_floating_point() {
    let past: Vec<i64> = vec![10_120, 9_870, 10_440, 10_010, 9_650, 10_300, 10_090, 9_990, 10_500];
    let mut sorted: Vec<f64> = past.iter().map(|v| *v as f64).collect();
    sorted.sort_by(|a, b| a.partial_cmp(b).unwrap());
    let quartile = |p: f64| {
        let position = p * (sorted.len() - 1) as f64;
        let at = position.floor() as usize;
        let after = (at + 1).min(sorted.len() - 1);
        sorted[at] + (position - at as f64) * (sorted[after] - sorted[at])
    };
    let (first, third) = (quartile(0.25), quartile(0.75));
    for k in [0i64, 500, 1500, 3000] {
        let both = model(ModelTest::Iqr, Some(k), Some(k));
        let verdict = evaluate(&both, &past, &metric(10.0)).unwrap();
        let reach = k as f64 / 1000.0 * (third - first);
        assert_eq!(verdict.lower_limit, Some((first - reach).ceil() as i64));
        assert_eq!(verdict.upper_limit, Some((third + reach).floor() as i64));
    }
}
