use bencher_core::adapter::{Adapter, AdapterError, JsonAdapter, Outcome};
use bencher_core::google::AdapterCppGoogle;
use bencher_core::jmh::AdapterJavaJmh;
use bencher_core::json::{find_member, parse_document, read_signed, same_str, JsonValue};
use bencher_core::json_format::{read_metric, AdapterJson};
use bencher_core::results::{BenchmarkName, JsonMetric, NameId, ValidError};

fn metric_of(outcome: &Outcome, benchmark: &str, measure: &str) -> Option<JsonMetric> {
    outcome
        .as_ref()
        .ok()
        .and_then(|results| results.get(&BenchmarkName::parse(benchmark).unwrap()))
        .and_then(|metrics| metrics.get(&NameId::parse(measure).unwrap()))
}

fn plain(value: i64) -> JsonMetric {
    JsonMetric { value, lower_value: None, upper_value: None }
}

#[test]
fn documents_are_read_into_trees() {
    let document = parse_document(r#"{"b": [1, -2.5, "x", null, true], "a": {"c": 0.125}}"#).unwrap();
    let members = match &document {
        JsonValue::Object(members) => members,
        other => panic!("{other:?}"),
    };
    assert_eq!(members.len(), 2);
    // a text that is handed back unchanged would be no tree
    let items = match find_member(members, "b") {
        Some(JsonValue::Array(items)) => items,
        other => panic!("{other:?}"),
    };
    assert_eq!(items.len(), 5);
    assert!(matches!(&items[0], JsonValue::Number(text) if text == "1"));
    assert!(matches!(&items[1], JsonValue::Number(text) if text == "-2.5"));
    assert!(matches!(&items[2], JsonValue::Text(text) if text == "x"));
    assert!(matches!(&items[3], JsonValue::Null));
    assert!(matches!(&items[4], JsonValue::Bool(true)));
    let inner = match find_member(members, "a") {
        Some(JsonValue::Object(inner)) => inner,
        other => panic!("{other:?}"),
    };
    assert!(matches!(find_member(inner, "c"), Some(JsonValue::Number(text)) if text == "0.125"));
    assert!(find_member(inner, "d").is_none());
    assert!(find_member(members, "c").is_none());
    for broken in ["", "{", "{\"a\": }", "[1, 2", "nul", "{\"a\": 1} trailing", "{'a': 1}"] {
        assert!(parse_document(broken).is_none(), "{broken}");
    }
    assert!(matches!(parse_document(" 12 "), Some(JsonValue::Number(text)) if text == "12"));
    assert!(matches!(parse_document("\"t\""), Some(JsonValue::Text(text)) if text == "t"));
    assert!(matches!(parse_document("[]"), Some(JsonValue::Array(items)) if items.is_empty()));
}

#[test]
fn signed_numbers_are_read_in_thousandths() {
    assert_eq!(read_signed("0"), Some(0));
    assert_eq!(read_signed("88.0"), Some(88_000));
    assert_eq!(read_signed("-2.5"), Some(-2_500));
    assert_eq!(read_signed("-0.0004"), Some(0));
    assert_eq!(read_signed("87.4271"), Some(87_427));
    for text in ["", "-", "--1", "1e5", "1.5e-7", "+1", "NaN", "- 1"] {
        assert_eq!(read_signed(text), None, "{text}");
    }
    assert!(same_str("abc", "abc"));
    assert!(!same_str("abc", "abd"));
    assert!(!same_str("abc", "ab"));
    assert!(same_str("", ""));
}

const JSON_OUTPUT: &str = r#"{
    "tests::benchmark_a": {
        "latency": { "value": 3247.0, "lower_value": 1044.0, "upper_value": 5562.5 },
        "throughput": { "value": 12 }
    },
    "tests::benchmark_b": {
        "latency": { "value": 0.25, "lower_value": null }
    },
    "tests::benchmark_c": {}
}"#;

#[test]
fn json_reads_every_benchmark_and_measure() {
    let outcome = AdapterJson::parse(JSON_OUTPUT);
    assert_eq!(outcome.as_ref().unwrap().len(), 3);
    assert_eq!(metric_of(&outcome, "tests::benchmark_a", "latency"), Some(JsonMetric {
        value: 3_247_000,
        lower_value: Some(1_044_000),
        upper_value: Some(5_562_500),
    }));
    assert_eq!(metric_of(&outcome, "tests::benchmark_a", "throughput"), Some(plain(12_000)));
    assert_eq!(metric_of(&outcome, "tests::benchmark_b", "latency"), Some(plain(250)));
    assert_eq!(metric_of(&outcome, "tests::benchmark_c", "latency"), None);
    let benchmark_c = BenchmarkName::parse("tests::benchmark_c").unwrap();
    assert_eq!(outcome.as_ref().unwrap().get(&benchmark_c).unwrap().len(), 0);
    assert_eq!(AdapterJson.convert(JSON_OUTPUT).unwrap().len(), 3);
    assert_eq!(AdapterJson::parse("{}").unwrap().len(), 0);
}

#[test]
fn json_fails_on_what_it_cannot_read() {
    let parse = AdapterJson::parse;
    for broken in [
        "", "[]", "12", "not json", r#"{"a": 1}"#, r#"{"a": {"latency": 1}}"#,
        r#"{"a": {"latency": {}}}"#, r#"{"a": {"latency": {"value": "1"}}}"#,
        r#"{"a": {"latency": {"value": null}}}"#, r#"{"a": {"latency": {"value": 1e300}}}"#,
        r#"{"a": {"latency": {"value": 1, "lower_value": "x"}}}"#,
        r#"{"a": {"latency": {"value": 1, "upper_value": []}}}"#,
        r#"{"a": {"latency": {"value": 5000000000000000}}}"#,
    ] {
        assert!(matches!(parse(broken), Err(AdapterError::Parse(JsonAdapter::Json))), "{broken}");
    }
    assert!(matches!(
        parse(r#"{"": {"latency": {"value": 1}}}"#),
        Err(AdapterError::Name(JsonAdapter::Json, ValidError::Empty))
    ));
    assert!(matches!(
        parse(r#"{"a": {"x::": {"value": 1}}}"#),
        Err(AdapterError::Name(JsonAdapter::Json, ValidError::EmptySegment))
    ));
    assert!(matches!(
        parse(r#"{"a\nb": {"latency": {"value": 1}}}"#),
        Err(AdapterError::Name(JsonAdapter::Json, ValidError::ControlCharacter))
    ));
    let value = parse_document(r#"{"value": 2, "upper_value": 3.5}"#).unwrap();
    assert_eq!(read_metric(&value), Some(JsonMetric {
        value: 2_000,
        lower_value: None,
        upper_value: Some(3_500),
    }));
    assert_eq!(read_metric(&JsonValue::Null), None);
}

const GOOGLE_OUTPUT: &str = r#"{
  "context": { "date": "2023-01-01", "num_cpus": 8, "library_build_type": "release" },
  "benchmarks": [
    { "name": "fib_10", "run_name": "fib_10", "run_type": "iteration", "iterations": 3070566,
      "real_time": 214.98980114547953, "cpu_time": 214.98, "time_unit": "ns" },
    { "name": "fib_20", "iterations": 26030, "real_time": 27.455, "cpu_time": 27.1, "time_unit": "us" },
    { "name": "slow/1", "real_time": 1.5, "time_unit": "ms" },
    { "name": "slower", "real_time": 2, "time_unit": "s" }
  ]
}"#;

#[test]
fn google_reads_each_benchmark_and_converts_units() {
    let outcome = AdapterCppGoogle::parse(GOOGLE_OUTPUT);
    assert_eq!(outcome.as_ref().unwrap().len(), 4);
    assert_eq!(metric_of(&outcome, "fib_10", "latency"), Some(plain(214_989)));
    assert_eq!(metric_of(&outcome, "fib_20", "latency"), Some(plain(27_455_000)));
    assert_eq!(metric_of(&outcome, "slow/1", "latency"), Some(plain(1_500_000_000)));
    assert_eq!(metric_of(&outcome, "slower", "latency"), Some(plain(2_000_000_000_000)));
    assert_eq!(AdapterCppGoogle.convert(GOOGLE_OUTPUT).unwrap().len(), 4);
    assert_eq!(AdapterCppGoogle::parse(r#"{"benchmarks": []}"#).unwrap().len(), 0);
}

#[test]
fn google_fails_on_what_it_cannot_read() {
    for broken in [
        "", "[]", "{}", r#"{"benchmarks": {}}"#, r#"{"benchmarks": [1]}"#,
        r#"{"benchmarks": [{"real_time": 1, "time_unit": "ns"}]}"#,
        r#"{"benchmarks": [{"name": 1, "real_time": 1, "time_unit": "ns"}]}"#,
        r#"{"benchmarks": [{"name": "a", "time_unit": "ns"}]}"#,
        r#"{"benchmarks": [{"name": "a", "real_time": "1", "time_unit": "ns"}]}"#,
        r#"{"benchmarks": [{"name": "a", "real_time": -1, "time_unit": "ns"}]}"#,
        r#"{"benchmarks": [{"name": "a", "real_time": 1}]}"#,
        r#"{"benchmarks": [{"name": "a", "real_time": 1, "time_unit": "h"}]}"#,
        r#"{"benchmarks": [{"name": "a", "real_time": 1, "time_unit": "ns/op"}]}"#,
        r#"{"benchmarks": [{"name": "a", "real_time": 5000000, "time_unit": "s"}]}"#,
        r#"{"benchmarks": [{"name": "a", "real_time": 1, "time_unit": "ns"}, {}]}"#,
    ] {
        assert!(
            matches!(AdapterCppGoogle::parse(broken), Err(AdapterError::Parse(JsonAdapter::CppGoogle))),
            "{broken}"
        );
    }
    assert!(matches!(
        AdapterCppGoogle::parse(r#"{"benchmarks": [{"name": "::a", "real_time": 1, "time_unit": "ns"}]}"#),
        Err(AdapterError::Name(JsonAdapter::CppGoogle, ValidError::EmptySegment))
    ));
}

const JMH_OUTPUT: &str = r#"[
    {
        "jmhVersion": "1.36",
        "benchmark": "org.openjdk.jmh.samples.JMHSample_01_HelloWorld.wellHelloThere",
        "mode": "avgt",
        "threads": 1,
        "primaryMetric": {
            "score": 3.3762388731228186,
            "scoreError": 0.03105851116034076,
            "scoreConfidence": [3.3451803619624777, 3.4072973842831595],
            "scoreUnit": "ns/op",
            "rawData": [[3.35, 3.38]]
        },
        "secondaryMetrics": {}
    },
    {
        "benchmark": "org.Sample.slow",
        "primaryMetric": { "score": 1.25, "scoreError": 0.5, "scoreUnit": "ms/op" }
    }
]"#;

#[test]
fn jmh_reads_each_benchmark_with_its_error() {
    let outcome = AdapterJavaJmh::parse(JMH_OUTPUT);
    assert_eq!(outcome.as_ref().unwrap().len(), 2);
    assert_eq!(
        metric_of(&outcome, "org.openjdk.jmh.samples.JMHSample_01_HelloWorld.wellHelloThere", "latency"),
        Some(JsonMetric { value: 3_376, lower_value: Some(3_345), upper_value: Some(3_407) })
    );
    assert_eq!(metric_of(&outcome, "org.Sample.slow", "latency"), Some(JsonMetric {
        value: 1_250_000_000,
        lower_value: Some(750_000_000),
        upper_value: Some(1_750_000_000),
    }));
    assert_eq!(AdapterJavaJmh.convert(JMH_OUTPUT).unwrap().len(), 2);
    assert_eq!(AdapterJavaJmh::parse("[]").unwrap().len(), 0);
}

#[test]
fn jmh_fails_on_what_it_cannot_read() {
    for broken in [
        "", "{}", "12", "[1]", "[{}]", r#"[{"benchmark": "a"}]"#,
        r#"[{"benchmark": "a", "primaryMetric": 1}]"#,
        r#"[{"benchmark": "a", "primaryMetric": {"score": 1, "scoreUnit": "ns/op"}}]"#,
        r#"[{"benchmark": "a", "primaryMetric": {"score": 1, "scoreError": "NaN", "scoreUnit": "ns/op"}}]"#,
        r#"[{"benchmark": "a", "primaryMetric": {"score": 1, "scoreError": 1, "scoreUnit": "ops/s"}}]"#,
        r#"[{"benchmark": "a", "primaryMetric": {"score": 1, "scoreError": 1, "scoreUnit": "ns"}}]"#,
        r#"[{"benchmark": "a", "primaryMetric": {"score": 1, "scoreError": 1}}]"#,
        r#"[{"primaryMetric": {"score": 1, "scoreError": 1, "scoreUnit": "ns/op"}}]"#,
    ] {
        assert!(
            matches!(AdapterJavaJmh::parse(broken), Err(AdapterError::Parse(JsonAdapter::JavaJmh))),
            "{broken}"
        );
    }
    let bad_name = r#"[{"benchmark": "", "primaryMetric": {"score": 1, "scoreError": 1, "scoreUnit": "ns/op"}}]"#;
    assert!(matches!(
        AdapterJavaJmh::parse(bad_name),
        Err(AdapterError::Name(JsonAdapter::JavaJmh, ValidError::Empty))
    ));
}
