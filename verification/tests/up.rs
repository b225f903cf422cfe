use bencher_core::results::{BenchmarkName, JsonMetric, NameId};
use bencher_core::up::{decimal, CliUp, Up, UpError, DEFAULT_COUNT, DEFAULT_POW, MAX_UP_VALUE};

fn up(count: Option<usize>, fail: bool, flaky: bool) -> Up {
    Up { count, pow: None, fail, flaky }
}

#[test]
fn up_is_what_the_command_line_asked_for() {
    let cli = CliUp { count: Some(3), pow: Some(-2), fail: true, flaky: false };
    let run = Up::from(cli);
    assert_eq!(run, Up { count: Some(3), pow: Some(-2), fail: true, flaky: false });
    let plain: Up = CliUp { count: None, pow: None, fail: false, flaky: true }.into();
    assert_eq!(plain.count(), DEFAULT_COUNT);
    assert_eq!(plain.count(), 5);
    assert_eq!(plain.pow(), DEFAULT_POW);
    assert_eq!(plain.pow(), 1);
    assert_eq!(run.count(), 3);
    assert_eq!(run.pow(), -2);
}

#[test]
fn decimal_writes_numerals() {
    assert_eq!(decimal(0), "0");
    assert_eq!(decimal(7), "7");
    assert_eq!(decimal(10), "10");
    assert_eq!(decimal(1234567890), "1234567890");
    assert_eq!(decimal(usize::MAX), usize::MAX.to_string());
    for n in [9usize, 11, 99, 100, 101, 909, 1000] {
        assert_eq!(decimal(n), n.to_string());
    }
}

#[test]
fn generated_results_name_each_benchmark_and_put_limits_a_tenth_around() {
    let run = up(Some(3), false, false);
    let values = vec![4_200, 17_039, 25_000];
    let results = run.generate_results(&values).unwrap();
    assert_eq!(results.len(), 3);
    let expect = [
        ("bencher::up_0", 4_200, 3_780, 4_620),
        ("bencher::up_1", 17_039, 15_336, 18_742),
        ("bencher::up_2", 25_000, 22_500, 27_500),
    ];
    for (name, value, lower, upper) in expect {
        let metrics = results.get(&BenchmarkName::parse(name).unwrap()).unwrap();
        assert_eq!(metrics.len(), 1);
        assert_eq!(metrics.get(&NameId::latency()), Some(JsonMetric {
            value,
            lower_value: Some(lower),
            upper_value: Some(upper),
        }));
    }
    assert!(results.get(&BenchmarkName::parse("bencher::up_3").unwrap()).is_none());
}

#[test]
fn generated_results_default_to_five_benchmarks() {
    let run = up(None, false, false);
    let values = vec![0, 1, 9, 10, MAX_UP_VALUE];
    let results = run.generate_results(&values).unwrap();
    assert_eq!(results.len(), 5);
    let last = results.get(&BenchmarkName::parse("bencher::up_4").unwrap()).unwrap();
    assert_eq!(last.get(&NameId::latency()), Some(JsonMetric {
        value: MAX_UP_VALUE,
        lower_value: Some(7_200_000_000_000_000_000),
        upper_value: Some(8_800_000_000_000_000_000),
    }));
    let small = results.get(&BenchmarkName::parse("bencher::up_2").unwrap()).unwrap();
    assert_eq!(small.get(&NameId::latency()), Some(JsonMetric {
        value: 9,
        lower_value: Some(9),
        upper_value: Some(9),
    }));
    let none = up(Some(0), false, false).generate_results(&vec![]).unwrap();
    assert!(none.is_empty());
    let many = up(Some(12), false, false).generate_results(&vec![5; 12]).unwrap();
    assert_eq!(many.len(), 12);
    assert!(many.get(&BenchmarkName::parse("bencher::up_11").unwrap()).is_some());
}

#[test]
fn outcome_follows_the_flags_and_the_coin() {
    assert!(up(None, false, false).outcome(false).is_ok());
    assert!(up(None, false, false).outcome(true).is_ok());
    assert!(matches!(up(None, true, false).outcome(false), Err(UpError::UpFailure)));
    assert!(matches!(up(None, true, true).outcome(false), Err(UpError::UpFailure)));
    assert!(up(None, false, true).outcome(false).is_ok());
    assert!(matches!(up(None, false, true).outcome(true), Err(UpError::UpFailure)));
}

#[test]
fn conclude_tosses_only_for_flaky_runs() {
    for _ in 0..50 {
        assert!(up(None, false, false).conclude().is_ok());
        assert!(matches!(up(None, true, false).conclude(), Err(UpError::UpFailure)));
        assert!(matches!(up(None, true, true).conclude(), Err(UpError::UpFailure)));
    }
    let mut failures = 0;
    let mut successes = 0;
    for _ in 0..400 {
        match up(None, false, true).conclude() {
            Ok(()) => successes += 1,
            Err(UpError::UpFailure) => failures += 1,
            Err(other) => panic!("{other:?}"),
        }
    }
    assert_eq!(failures + successes, 400);
    assert!(failures > 0);
    assert!(successes > 0);
}
