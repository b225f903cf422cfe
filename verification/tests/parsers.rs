use bencher_core::adapter::{Adapter, AdapterError, JsonAdapter, Outcome};
use bencher_core::catch2::AdapterCppCatch2;
use bencher_core::criterion::{read_criterion_line, AdapterRustCriterion, MAX_TIME};
use bencher_core::go_bench::{read_go_bench_line, AdapterGoBench};
use bencher_core::lines::LineKind;
use bencher_core::results::{BenchmarkName, JsonMetric, NameId, ValidError};
use bencher_core::rust_bench::{read_rust_bench_line, AdapterRustBench};
use bencher_core::text::{
    chars_of, find_line_end, find_word, read_number, same_text, split_words, MAX_WHOLE,
};

fn metric_of(outcome: &Outcome, benchmark: &str) -> Option<JsonMetric> {
    outcome
        .as_ref()
        .ok()
        .and_then(|results| results.get(&BenchmarkName::parse(benchmark).unwrap()))
        .and_then(|metrics| metrics.get(&NameId::latency()))
}

fn number(text: &str) -> Option<i64> {
    let chars = chars_of(text);
    read_number(&chars, 0, chars.len())
}

#[test]
fn numbers_are_read_in_thousandths() {
    assert_eq!(number("0"), Some(0));
    assert_eq!(number("7"), Some(7_000));
    assert_eq!(number("1,234"), Some(1_234_000));
    assert_eq!(number("1,234,567.8"), Some(1_234_567_800));
    assert_eq!(number("0.5"), Some(500));
    assert_eq!(number("0.05"), Some(50));
    assert_eq!(number("0.005"), Some(5));
    assert_eq!(number("0.0059"), Some(5));
    assert_eq!(number("26.029"), Some(26_029));
    assert_eq!(number("3.0000"), Some(3_000));
    assert_eq!(number("12.3456789"), Some(12_345));
    assert_eq!(number("007"), Some(7_000));
    assert_eq!(number(&MAX_WHOLE.to_string()), Some(4_000_000_000_000_000_000));
    assert_eq!(number("4000000000000000.999"), Some(4_000_000_000_000_000_999));
}

#[test]
fn what_is_no_number_is_not_read() {
    for text in [
        "", ".", ".5", "5.", "-5", "+5", "1e5", "1.2.3", ",5", "12a", "a12", "1.5,0", " 1",
        "4000000000000001", "99999999999999999999999999", "1,a", "0.1x",
    ] {
        assert_eq!(number(text), None, "{text}");
    }
    assert_eq!(number("5,"), Some(5_000));
    assert_eq!(number("5,.5"), Some(5_500));
}

#[test]
fn words_and_lines_are_found() {
    let chars = chars_of("  one\ttwo \r\nthree");
    assert_eq!(find_line_end(&chars, 0), 11);
    assert_eq!(find_line_end(&chars, 11), 11);
    assert_eq!(find_line_end(&chars, 12), 17);
    assert_eq!(find_line_end(&chars, 17), 17);
    assert_eq!(find_word(&chars, 0, 11), Some((2, 5)));
    assert_eq!(find_word(&chars, 5, 11), Some((6, 9)));
    assert_eq!(find_word(&chars, 9, 11), None);
    assert_eq!(find_word(&chars, 3, 4), Some((3, 4)));
    assert_eq!(find_word(&chars, 0, 2), None);
    assert_eq!(find_word(&chars, 4, 4), None);
    assert!(same_text(&chars, 2, 5, "one"));
    assert!(!same_text(&chars, 2, 5, "two"));
    assert!(!same_text(&chars, 2, 5, "on"));
    assert!(same_text(&chars, 2, 2, ""));
    assert_eq!(chars_of("a\u{b5}b"), vec!['a', '\u{b5}', 'b']);
}

const RUST_OUTPUT: &str = "
running 3 tests
test tests::ignored ... ignored
test tests::benchmark_a ... bench:       3,161 ns/iter (+/- 975)
test tests::benchmark_b ... bench:       1,234.56 ns/iter (+/- 56.7)\r
test tests::unit ... ok

test result: ok. 1 passed; 0 failed; 1 ignored; 2 measured; 0 filtered out; finished in 0.11s
";

#[test]
fn rust_bench_reads_each_benchmark_line() {
    let outcome = AdapterRustBench::parse(RUST_OUTPUT);
    assert_eq!(outcome.as_ref().unwrap().len(), 2);
    assert_eq!(metric_of(&outcome, "tests::benchmark_a"), Some(JsonMetric {
        value: 3_161_000,
        lower_value: Some(2_186_000),
        upper_value: Some(4_136_000),
    }));
    assert_eq!(metric_of(&outcome, "tests::benchmark_b"), Some(JsonMetric {
        value: 1_234_560,
        lower_value: Some(1_177_860),
        upper_value: Some(1_291_260),
    }));
    assert_eq!(metric_of(&outcome, "tests::unit"), None);
    let again = AdapterRustBench.convert(RUST_OUTPUT);
    assert_eq!(format!("{outcome:?}"), format!("{again:?}"));
}

#[test]
fn rust_bench_lines_are_told_apart() {
    let kind = |line: &str| {
        let chars = chars_of(line);
        read_rust_bench_line(&chars, 0, chars.len())
    };
    assert_eq!(kind("test a ... bench: 5 ns/iter (+/- 1)"), LineKind::Record {
        from: 5,
        to: 6,
        metric: JsonMetric { value: 5_000, lower_value: Some(4_000), upper_value: Some(6_000) },
    });
    assert_eq!(kind("test a ... bench: 5 ns/iter (+/- 7) and more"), LineKind::Record {
        from: 5,
        to: 6,
        metric: JsonMetric { value: 5_000, lower_value: Some(-2_000), upper_value: Some(12_000) },
    });
    for noise in ["", "   ", "running 2 tests", "test a ... ok", "test a ... ignored", "test a", "test",
        "Test a ... bench: 5 ns/iter (+/- 1)", "test a .. bench: 5 ns/iter (+/- 1)",
        "test a ... bench 5 ns/iter (+/- 1)", "test a b ... bench: 5 ns/iter (+/- 1)"] {
        assert_eq!(kind(noise), LineKind::Noise, "{noise}");
    }
    for bad in ["test a ... bench:", "test a ... bench: 5", "test a ... bench: 5 ns/iter",
        "test a ... bench: 5 ns/iter (+/-", "test a ... bench: x ns/iter (+/- 1)",
        "test a ... bench: 5 ms/iter (+/- 1)", "test a ... bench: 5 ns/iter +/- 1)",
        "test a ... bench: 5 ns/iter (+/- 1", "test a ... bench: 5 ns/iter (+/- )",
        "test a ... bench: 5 ns/iter (+/- y)", "test a ... bench: NaN ns/iter (+/- 1)",
        "test a ... bench: inf ns/iter (+/- 1)", "test a ... bench: 9999999999999999999 ns/iter (+/- 1)"] {
        assert_eq!(kind(bad), LineKind::Bad, "{bad}");
    }
}

#[test]
fn rust_bench_fails_on_what_it_cannot_read() {
    assert!(matches!(AdapterRustBench::parse(""), Err(AdapterError::Parse(JsonAdapter::RustBench))));
    assert!(matches!(
        AdapterRustBench::parse("no benchmark here\nnor here\n"),
        Err(AdapterError::Parse(JsonAdapter::RustBench))
    ));
    let broken = "test a ... bench: 5 ns/iter (+/- 1)\ntest b ... bench: five ns/iter (+/- 1)\n";
    assert!(matches!(AdapterRustBench::parse(broken), Err(AdapterError::Parse(JsonAdapter::RustBench))));
    let bad_name = "test a:: ... bench: 5 ns/iter (+/- 1)\n";
    assert!(matches!(
        AdapterRustBench::parse(bad_name),
        Err(AdapterError::Name(JsonAdapter::RustBench, ValidError::EmptySegment))
    ));
    let long_name = format!("test {} ... bench: 5 ns/iter (+/- 1)\n", "n".repeat(2000));
    assert!(matches!(
        AdapterRustBench::parse(&long_name),
        Err(AdapterError::Name(JsonAdapter::RustBench, ValidError::TooLong))
    ));
}

#[test]
fn a_later_line_takes_the_place_of_an_earlier_one() {
    let twice = "test a ... bench: 5 ns/iter (+/- 1)\ntest a ... bench: 9 ns/iter (+/- 2)";
    let outcome = AdapterRustBench::parse(twice);
    assert_eq!(outcome.as_ref().unwrap().len(), 1);
    assert_eq!(metric_of(&outcome, "a"), Some(JsonMetric {
        value: 9_000,
        lower_value: Some(7_000),
        upper_value: Some(11_000),
    }));
}

const GO_OUTPUT: &str = "goos: linux
goarch: amd64
pkg: example.com/fib
cpu: Some CPU @ 2.60GHz
BenchmarkFib10-8   \t 5000000\t       325 ns/op
BenchmarkFib20-8   \t   30000\t     40537.123 ns/op\t       0 B/op\t       0 allocs/op
PASS
ok  \texample.com/fib\t3.084s
";

#[test]
fn go_bench_reads_each_benchmark_line() {
    let outcome = AdapterGoBench::parse(GO_OUTPUT);
    assert_eq!(outcome.as_ref().unwrap().len(), 2);
    assert_eq!(metric_of(&outcome, "BenchmarkFib10-8"), Some(JsonMetric {
        value: 325_000,
        lower_value: None,
        upper_value: None,
    }));
    assert_eq!(metric_of(&outcome, "BenchmarkFib20-8"), Some(JsonMetric {
        value: 40_537_123,
        lower_value: None,
        upper_value: None,
    }));
    assert_eq!(AdapterGoBench.convert(GO_OUTPUT).unwrap().len(), 2);
}

#[test]
fn go_bench_lines_are_told_apart() {
    let kind = |line: &str| {
        let chars = chars_of(line);
        read_go_bench_line(&chars, 0, chars.len())
    };
    assert_eq!(kind("  BenchmarkA 10 7 ns/op"), LineKind::Record {
        from: 2,
        to: 12,
        metric: JsonMetric { value: 7_000, lower_value: None, upper_value: None },
    });
    assert_eq!(kind("Benchmark 1 0.25 ns/op"), LineKind::Record {
        from: 0,
        to: 9,
        metric: JsonMetric { value: 250, lower_value: None, upper_value: None },
    });
    for noise in ["", "PASS", "ok pkg 1.2s", "BenchmarkA", "BenchmarkA many 7 ns/op", "benchmarkA 10 7 ns/op",
        "Benchmar 10 7 ns/op", "Benchmarking fib 20"] {
        assert_eq!(kind(noise), LineKind::Noise, "{noise}");
    }
    for bad in ["BenchmarkA 10", "BenchmarkA 10 7", "BenchmarkA 10 seven ns/op", "BenchmarkA 10 7 ms/op",
        "BenchmarkA 10 7 ns/ops", "BenchmarkA 10 -7 ns/op"] {
        assert_eq!(kind(bad), LineKind::Bad, "{bad}");
    }
    assert!(matches!(AdapterGoBench::parse("PASS\n"), Err(AdapterError::Parse(JsonAdapter::GoBench))));
    assert!(matches!(
        AdapterGoBench::parse("BenchmarkA 10 7\n"),
        Err(AdapterError::Parse(JsonAdapter::GoBench))
    ));
    assert!(matches!(
        AdapterGoBench::parse("Benchmark:: 10 7 ns/op\n"),
        Err(AdapterError::Name(JsonAdapter::GoBench, ValidError::EmptySegment))
    ));
}

const CRITERION_OUTPUT: &str = "Benchmarking fib 20
Benchmarking fib 20: Warming up for 3.0000 s
Benchmarking fib 20: Collecting 100 samples in estimated 5.0658 s (188100 iterations)
Benchmarking fib 20: Analyzing
fib 20                  time:   [26.029 us 26.251 us 26.505 us]
                        change: [-0.5% +0.1% +0.8%] (p = 0.50 > 0.05)
                        No change in performance detected.
Found 11 outliers among 99 measurements (11.11%)
  6 (6.06%) high mild
file/read               time:   [1.2 ms 1.3 ms 1.4 ms]
tiny                    time:   [512.5 ps 600 ps 1.5 ns]
micro                   time:   [1 \u{b5}s 2 \u{b5}s 3 \u{b5}s]
slow                    time:   [1 s 2.5 s 3 s]
";

#[test]
fn criterion_reads_each_benchmark_line_and_converts_units() {
    let outcome = AdapterRustCriterion::parse(CRITERION_OUTPUT);
    assert_eq!(outcome.as_ref().unwrap().len(), 5);
    assert_eq!(metric_of(&outcome, "fib 20"), Some(JsonMetric {
        value: 26_251_000,
        lower_value: Some(26_029_000),
        upper_value: Some(26_505_000),
    }));
    assert_eq!(metric_of(&outcome, "file/read"), Some(JsonMetric {
        value: 1_300_000_000,
        lower_value: Some(1_200_000_000),
        upper_value: Some(1_400_000_000),
    }));
    assert_eq!(metric_of(&outcome, "tiny"), Some(JsonMetric {
        value: 600,
        lower_value: Some(512),
        upper_value: Some(1_500),
    }));
    assert_eq!(metric_of(&outcome, "micro"), Some(JsonMetric {
        value: 2_000_000,
        lower_value: Some(1_000_000),
        upper_value: Some(3_000_000),
    }));
    assert_eq!(metric_of(&outcome, "slow"), Some(JsonMetric {
        value: 2_500_000_000_000,
        lower_value: Some(1_000_000_000_000),
        upper_value: Some(3_000_000_000_000),
    }));
    assert_eq!(AdapterRustCriterion.convert(CRITERION_OUTPUT).unwrap().len(), 5);
}

#[test]
fn criterion_lines_are_told_apart() {
    let kind = |line: &str| {
        let chars = chars_of(line);
        read_criterion_line(&chars, 0, chars.len())
    };
    assert_eq!(kind("a b  c time: [1 ns 2 ns 3 ns]"), LineKind::Record {
        from: 0,
        to: 6,
        metric: JsonMetric { value: 2_000, lower_value: Some(1_000), upper_value: Some(3_000) },
    });
    for noise in ["", "fib 20", "time: [1 ns 2 ns 3 ns]", "  time:   [1 ns 2 ns 3 ns]", "a change: [1% 2% 3%]",
        "a time [1 ns 2 ns 3 ns]"] {
        assert_eq!(kind(noise), LineKind::Noise, "{noise}");
    }
    for bad in ["a time:", "a time: [1 ns 2 ns 3", "a time: [1 ns 2 ns 3 ns", "a time: 1 ns 2 ns 3 ns]",
        "a time: [1 ns 2 ns 3 xs]", "a time: [1 ns 2 fs 3 ns]", "a time: [one ns 2 ns 3 ns]",
        "a time: [1 ns 2 ns 3 ]", "a time: [ 1 ns 2 ns 3 ns]", "a time: [1 ns 2 ns 4000001 s]",
        "a time: [1 ns NaN ns 3 ns]"] {
        assert_eq!(kind(bad), LineKind::Bad, "{bad}");
    }
    assert_eq!(kind("a time: [1 ns 2 ns 4000000 s]"), LineKind::Record {
        from: 0,
        to: 1,
        metric: JsonMetric {
            value: 2_000,
            lower_value: Some(1_000),
            upper_value: Some(4_000_000_000_000_000_000),
        },
    });
    assert!(MAX_TIME >= 4_000_000_000_000_000_000);
    assert!(matches!(
        AdapterRustCriterion::parse("nothing\n"),
        Err(AdapterError::Parse(JsonAdapter::RustCriterion))
    ));
    assert!(matches!(
        AdapterRustCriterion::parse("a time: [1 ns 2 ns]\n"),
        Err(AdapterError::Parse(JsonAdapter::RustCriterion))
    ));
}

#[test]
fn words_are_split_in_order() {
    let chars = chars_of("  one\ttwo \r three ");
    assert_eq!(split_words(&chars, 0, chars.len()), vec![(2, 5), (6, 9), (12, 17)]);
    assert_eq!(split_words(&chars, 3, 8), vec![(3, 5), (6, 8)]);
    assert_eq!(split_words(&chars, 0, 2), vec![]);
    assert_eq!(split_words(&chars, 5, 5), vec![]);
}

const CATCH2_OUTPUT: &str = "
~~~~~~~~~~~~~~~~~~~~~~~~~~~~~~~~~~~~~~~~~~~~~~~~~~~~~~~~~~~~~~~~~~~~~~~~~~~~~~~
benchmarks is a Catch v2.13.8 host application.
Run with -? for options

-------------------------------------------------------------------------------
Fibonacci
-------------------------------------------------------------------------------
test.cpp:11
...............................................................................

benchmark name                       samples       iterations    estimated
                                     mean          low mean      high mean
                                     std dev       low std dev   high std dev
-------------------------------------------------------------------------------
Fibonacci 10                                   100           208    7.1968 ms 
                                        344 ns        341 ns        349 ns 
                                         19 ns         11 ns         29 ns 
                                                                               
Fibonacci 20                                   100             2    8.3712 ms 
                                     43.467 us     41.375 us     45.488 us 
                                     2.089 us      1.789 us      2.658 us 
                                                                               

===============================================================================
test cases: 1 | 1 passed
assertions: - none -
";

#[test]
fn catch2_reads_each_benchmark() {
    let outcome = AdapterCppCatch2::parse(CATCH2_OUTPUT);
    assert_eq!(outcome.as_ref().unwrap().len(), 2);
    assert_eq!(metric_of(&outcome, "Fibonacci 10"), Some(JsonMetric {
        value: 344_000,
        lower_value: Some(325_000),
        upper_value: Some(363_000),
    }));
    assert_eq!(metric_of(&outcome, "Fibonacci 20"), Some(JsonMetric {
        value: 43_467_000,
        lower_value: Some(41_378_000),
        upper_value: Some(45_556_000),
    }));
    assert_eq!(AdapterCppCatch2.convert(CATCH2_OUTPUT).unwrap().len(), 2);
    let mut names: Vec<String> =
        outcome.unwrap().names().iter().map(|name| name.as_str().to_string()).collect();
    names.sort();
    assert_eq!(names, vec!["Fibonacci 10", "Fibonacci 20"]);
}

#[test]
fn catch2_fails_on_what_it_cannot_read() {
    let parse = |text: &str| AdapterCppCatch2::parse(text);
    assert!(matches!(parse(""), Err(AdapterError::Parse(JsonAdapter::CppCatch2))));
    assert!(matches!(parse("no benchmark\n"), Err(AdapterError::Parse(JsonAdapter::CppCatch2))));
    assert!(matches!(parse("a 100 1 2 ms"), Err(AdapterError::Parse(JsonAdapter::CppCatch2))));
    assert!(matches!(parse("a 100 1 2 ms\n"), Err(AdapterError::Parse(JsonAdapter::CppCatch2))));
    assert!(matches!(
        parse("a 100 1 2 ms\n 1 ns 2 ns 3 ns"),
        Err(AdapterError::Parse(JsonAdapter::CppCatch2))
    ));
    assert!(matches!(
        parse("a 100 1 2 ms\n 1 ns 2 ns 3 ns\n"),
        Err(AdapterError::Parse(JsonAdapter::CppCatch2))
    ));
    assert!(matches!(
        parse("a 100 1 2 ms\n 1 ns 2 ns\n 1 ns 2 ns 3 ns\n"),
        Err(AdapterError::Parse(JsonAdapter::CppCatch2))
    ));
    assert!(matches!(
        parse("a 100 1 2 ms\n 1 ns 2 ns 3 ns\n 1 ns 2 xs 3 ns\n"),
        Err(AdapterError::Parse(JsonAdapter::CppCatch2))
    ));
    assert!(matches!(
        parse("a:: 100 1 2 ms\n 1 ns 2 ns 3 ns\n 1 ns 2 ns 3 ns\n"),
        Err(AdapterError::Name(JsonAdapter::CppCatch2, ValidError::EmptySegment))
    ));
    let one = parse("a b 100 1 2 ms\n 5 ns 2 ns 3 ns\n 1 ns 2 ns 3 ns");
    assert_eq!(metric_of(&one, "a b"), Some(JsonMetric {
        value: 5_000,
        lower_value: Some(4_000),
        upper_value: Some(6_000),
    }));
    // four words are no first line: there is no name before the numbers
    assert!(matches!(
        parse("100 1 2 ms\n 1 ns 2 ns 3 ns\n 1 ns 2 ns 3 ns\n"),
        Err(AdapterError::Parse(JsonAdapter::CppCatch2))
    ));
}
