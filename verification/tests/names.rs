use bencher_core::results::{
    check_name, AdapterMetrics, AdapterResults, BenchmarkName, JsonMetric, NameId, ValidError,
    MAX_NAME_LEN,
};

#[test]
fn well_formed_names_are_taken() {
    for name in ["bencher::up_0", "latency", "a", "a::b::c", "group/bench 100", "a:b", "a:::b", "µs"] {
        assert_eq!(check_name(name), None, "{name}");
        assert_eq!(BenchmarkName::parse(name).unwrap().as_str(), name);
        assert_eq!(NameId::parse(name).unwrap().as_str(), name);
    }
    let longest = "x".repeat(MAX_NAME_LEN);
    assert_eq!(check_name(&longest), None);
}

#[test]
fn malformed_names_are_refused() {
    assert_eq!(check_name(""), Some(ValidError::Empty));
    assert_eq!(check_name(&"x".repeat(MAX_NAME_LEN + 1)), Some(ValidError::TooLong));
    assert_eq!(check_name("a\nb"), Some(ValidError::ControlCharacter));
    assert_eq!(check_name("tab\t"), Some(ValidError::ControlCharacter));
    assert_eq!(check_name("del\u{7f}"), Some(ValidError::ControlCharacter));
    assert_eq!(check_name("::a"), Some(ValidError::EmptySegment));
    assert_eq!(check_name("a::"), Some(ValidError::EmptySegment));
    assert_eq!(check_name("a::::b"), Some(ValidError::EmptySegment));
    assert_eq!(check_name("::"), Some(ValidError::EmptySegment));
    assert_eq!(check_name("a:::"), Some(ValidError::EmptySegment));
    assert_eq!(check_name("::\n"), Some(ValidError::ControlCharacter));
    assert!(matches!(BenchmarkName::parse("a::"), Err(ValidError::EmptySegment)));
    assert!(matches!(NameId::parse(""), Err(ValidError::Empty)));
    assert!(matches!(BenchmarkName::parse("\u{1}"), Err(ValidError::ControlCharacter)));
    assert!(matches!(NameId::parse(&"y".repeat(2000)), Err(ValidError::TooLong)));
}

#[test]
fn names_compare_by_their_text() {
    let a = BenchmarkName::parse("a::b").unwrap();
    let b = BenchmarkName::parse("a::b").unwrap();
    let c = BenchmarkName::parse("a::c").unwrap();
    assert!(a.same_as(&b));
    assert!(!a.same_as(&c));
    assert!(a.duplicate().same_as(&a));
    let latency = NameId::latency();
    assert_eq!(latency.as_str(), "latency");
    assert!(latency.same_as(&NameId::parse("latency").unwrap()));
    assert!(latency.duplicate().same_as(&latency));
}

fn metric(value: i64) -> JsonMetric {
    JsonMetric { value, lower_value: Some(value - 1), upper_value: Some(value + 1) }
}

#[test]
fn metrics_are_a_map_from_measure_to_metric() {
    let mut metrics = AdapterMetrics::new();
    assert_eq!(metrics.len(), 0);
    assert_eq!(metrics.get(&NameId::latency()), None);
    assert_eq!(metrics.insert(NameId::latency(), metric(5)), None);
    assert_eq!(metrics.insert(NameId::parse("throughput").unwrap(), metric(7)), None);
    assert_eq!(metrics.len(), 2);
    assert_eq!(metrics.get(&NameId::latency()), Some(metric(5)));
    assert_eq!(metrics.insert(NameId::latency(), metric(6)), Some(metric(5)));
    assert_eq!(metrics.len(), 2);
    assert_eq!(metrics.get(&NameId::latency()), Some(metric(6)));
    assert_eq!(metrics.get(&NameId::parse("throughput").unwrap()), Some(metric(7)));
    assert_eq!(metrics.get(&NameId::parse("memory").unwrap()), None);
}

#[test]
fn results_are_a_map_from_benchmark_to_metrics() {
    let mut results = AdapterResults::new();
    assert!(results.is_empty());
    assert_eq!(results.len(), 0);
    let name = |text: &str| BenchmarkName::parse(text).unwrap();
    assert!(results.get(&name("a")).is_none());
    let mut first = AdapterMetrics::new();
    first.insert(NameId::latency(), metric(1));
    results.insert(name("a"), first);
    let mut second = AdapterMetrics::new();
    second.insert(NameId::latency(), metric(2));
    results.insert(name("b"), second);
    assert!(!results.is_empty());
    assert_eq!(results.len(), 2);
    assert_eq!(results.get(&name("a")).unwrap().get(&NameId::latency()), Some(metric(1)));
    assert_eq!(results.get(&name("b")).unwrap().get(&NameId::latency()), Some(metric(2)));
    let mut third = AdapterMetrics::new();
    third.insert(NameId::latency(), metric(3));
    results.insert(name("a"), third);
    assert_eq!(results.len(), 2);
    assert_eq!(results.get(&name("a")).unwrap().get(&NameId::latency()), Some(metric(3)));
    assert_eq!(results.get(&name("b")).unwrap().get(&NameId::latency()), Some(metric(2)));
    assert!(results.get(&name("c")).is_none());
}

#[test]
fn names_list_every_key_once() {
    let mut metrics = AdapterMetrics::new();
    assert!(metrics.names().is_empty());
    metrics.insert(NameId::latency(), metric(1));
    metrics.insert(NameId::parse("throughput").unwrap(), metric(2));
    metrics.insert(NameId::latency(), metric(3));
    let mut names: Vec<String> = metrics.names().iter().map(|n| n.as_str().to_string()).collect();
    names.sort();
    assert_eq!(names, vec!["latency", "throughput"]);
    let mut results = AdapterResults::new();
    assert!(results.names().is_empty());
    results.insert(BenchmarkName::parse("b").unwrap(), AdapterMetrics::new());
    results.insert(BenchmarkName::parse("a").unwrap(), metrics);
    results.insert(BenchmarkName::parse("b").unwrap(), AdapterMetrics::new());
    let mut names: Vec<String> = results.names().iter().map(|n| n.as_str().to_string()).collect();
    names.sort();
    assert_eq!(names, vec!["a", "b"]);
}
