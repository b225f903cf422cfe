//! The adapter for the generic structured format: a document whose
//! members are the benchmarks, by name; the members of a benchmark are its
//! measures, by name; and a measure holds its `value` and, where it has
//! them, its `lower_value` and its `upper_value`.
//!
//! ```text
//! { "bench": { "latency": { "value": 88.0, "lower_value": 87.42, "upper_value": 88.58 } } }
//! ```

use vstd::prelude::*;
use crate::adapter::{answer_of, Adapter, AdapterError, Answer, JsonAdapter, Outcome, ResultsView};
use crate::json::{find_member, json_document, member, parse_document, read_signed, signed_value, JsonValue};
use crate::results::{name_error, AdapterMetrics, AdapterResults, BenchmarkName, JsonMetric, NameId};

verus! {

/// The number that `value` is, in thousandths.
pub open spec fn number_of(value: JsonValue) -> Option<int> {
    match value {
        JsonValue::Number(text) => signed_value(text@),
        _ => None,
    }
}

/// The limit that a member holds: none where the member is missing or
/// null, the number where it is one; it cannot be read where it is anything
/// else.
pub open spec fn limit_of(value: Option<JsonValue>) -> Option<Option<int>> {
    match value {
        None => Some(None),
        Some(JsonValue::Null) => Some(None),
        Some(other) => match number_of(other) {
            Some(v) => Some(Some(v)),
            None => None,
        },
    }
}

/// The metric that `value` holds.
pub open spec fn metric_of(value: JsonValue) -> Option<JsonMetric> {
    match value {
        JsonValue::Object(members) => match member(members@, "value"@) {
            Some(number) => match (
                number_of(number),
                limit_of(member(members@, "lower_value"@)),
                limit_of(member(members@, "upper_value"@)),
            ) {
                (Some(v), Some(lower), Some(upper)) => Some(
                    JsonMetric {
                        value: v as i64,
                        lower_value: match lower {
                            Some(l) => Some(l as i64),
                            None => None,
                        },
                        upper_value: match upper {
                            Some(u) => Some(u as i64),
                            None => None,
                        },
                    },
                ),
                _ => None,
            },
            None => None,
        },
        _ => None,
    }
}

/// The metrics that the members from `k` on hold, after those of `found`.
pub open spec fn metrics_from(
    members: Seq<(String, JsonValue)>,
    k: int,
    found: Map<Seq<char>, JsonMetric>,
) -> Result<Map<Seq<char>, JsonMetric>, AdapterError>
    decreases members.len() - k,
{
    if k < 0 || k >= members.len() {
        Ok(found)
    } else {
        match name_error(members[k].0@) {
            Some(e) => Err(AdapterError::Name(JsonAdapter::Json, e)),
            None => match metric_of(members[k].1) {
                None => Err(AdapterError::Parse(JsonAdapter::Json)),
                Some(metric) => metrics_from(members, k + 1, found.insert(members[k].0@, metric)),
            },
        }
    }
}

/// The metrics that `value` holds as the measures of a benchmark.
pub open spec fn measures_of(value: JsonValue) -> Result<Map<Seq<char>, JsonMetric>, AdapterError> {
    match value {
        JsonValue::Object(members) => metrics_from(
            members@,
            0,
            Map::<Seq<char>, JsonMetric>::empty(),
        ),
        _ => Err(AdapterError::Parse(JsonAdapter::Json)),
    }
}

/// The benchmarks that the members from `k` on hold, after those of
/// `found`.
pub open spec fn benchmarks_from(members: Seq<(String, JsonValue)>, k: int, found: ResultsView) -> Answer
    decreases members.len() - k,
{
    if k < 0 || k >= members.len() {
        Ok(found)
    } else {
        match name_error(members[k].0@) {
            Some(e) => Err(AdapterError::Name(JsonAdapter::Json, e)),
            None => match measures_of(members[k].1) {
                Err(e) => Err(e),
                Ok(metrics) => benchmarks_from(members, k + 1, found.insert(members[k].0@, metrics)),
            },
        }
    }
}

/// What the adapter answers to a document: the benchmarks that its
/// members hold. It fails where the text is no document or the document no
/// object, where a name is not well-formed, and where a benchmark or a
/// measure does not hold what it has to.
pub open spec fn json_results(document: Option<JsonValue>) -> Answer {
    match document {
        Some(JsonValue::Object(members)) => benchmarks_from(
            members@,
            0,
            Map::<Seq<char>, Map<Seq<char>, JsonMetric>>::empty(),
        ),
        _ => Err(AdapterError::Parse(JsonAdapter::Json)),
    }
}

fn read_limit(value: Option<&JsonValue>) -> (r: Option<Option<i64>>)
    ensures
        match r {
            Some(Some(v)) => limit_of(
                match value {
                    Some(v) => Some(*v),
                    None => None,
                },
            ) == Some(Some(v as int)),
            Some(None) => limit_of(
                match value {
                    Some(v) => Some(*v),
                    None => None,
                },
            ) == Some(None::<int>),
            None => limit_of(
                match value {
                    Some(v) => Some(*v),
                    None => None,
                },
            ) is None,
        },
{
    match value {
        None => Some(None),
        Some(JsonValue::Null) => Some(None),
        Some(JsonValue::Number(text)) => match read_signed(text.as_str()) {
            Some(v) => Some(Some(v)),
            None => None,
        },
        Some(_) => None,
    }
}

/// Reads the metric that `value` holds.
pub fn read_metric(value: &JsonValue) -> (r: Option<JsonMetric>)
    ensures
        r == metric_of(*value),
{
    let members = match value {
        JsonValue::Object(members) => members,
        _ => { return None; },
    };
    let v = match find_member(members, "value") {
        Some(JsonValue::Number(text)) => match read_signed(text.as_str()) {
            Some(v) => v,
            None => { return None; },
        },
        _ => { return None; },
    };
    let lower = match read_limit(find_member(members, "lower_value")) {
        Some(lower) => lower,
        None => { return None; },
    };
    let upper = match read_limit(find_member(members, "upper_value")) {
        Some(upper) => upper,
        None => { return None; },
    };
    Some(JsonMetric { value: v, lower_value: lower, upper_value: upper })
}

/// Reads the measures that `value` holds.
pub fn read_measures(value: &JsonValue) -> (r: Result<AdapterMetrics, AdapterError>)
    ensures
        match r {
            Ok(metrics) => measures_of(*value) == Ok::<Map<Seq<char>, JsonMetric>, AdapterError>(
                metrics@,
            ),
            Err(e) => measures_of(*value) == Err::<Map<Seq<char>, JsonMetric>, AdapterError>(e),
        },
{
    let members = match value {
        JsonValue::Object(members) => members,
        _ => { return Err(AdapterError::Parse(JsonAdapter::Json)); },
    };
    let mut metrics = AdapterMetrics::new();
    let mut k: usize = 0;
    while k < members.len()
        invariant
            k <= members.len(),
            measures_of(*value) == metrics_from(
                members@,
                0,
                Map::<Seq<char>, JsonMetric>::empty(),
            ),
            metrics_from(members@, k as int, metrics@) == metrics_from(
                members@,
                0,
                Map::<Seq<char>, JsonMetric>::empty(),
            ),
        decreases members.len() - k,
    {
        let name = match NameId::parse(members[k].0.as_str()) {
            Ok(name) => name,
            Err(e) => { return Err(AdapterError::Name(JsonAdapter::Json, e)); },
        };
        let metric = match read_metric(&members[k].1) {
            Some(metric) => metric,
            None => { return Err(AdapterError::Parse(JsonAdapter::Json)); },
        };
        metrics.insert(name, metric);
        k += 1;
    }
    Ok(metrics)
}

/// Reads the benchmarks that a document holds.
pub fn read_results(document: &Option<JsonValue>) -> (r: Outcome)
    ensures
        answer_of(r) == json_results(*document),
{
    let members = match document {
        Some(JsonValue::Object(members)) => members,
        _ => { return Err(AdapterError::Parse(JsonAdapter::Json)); },
    };
    let mut results = AdapterResults::new();
    let mut k: usize = 0;
    while k < members.len()
        invariant
            k <= members.len(),
            json_results(*document) == benchmarks_from(
                members@,
                0,
                Map::<Seq<char>, Map<Seq<char>, JsonMetric>>::empty(),
            ),
            benchmarks_from(members@, k as int, results@) == benchmarks_from(
                members@,
                0,
                Map::<Seq<char>, Map<Seq<char>, JsonMetric>>::empty(),
            ),
        decreases members.len() - k,
    {
        let name = match BenchmarkName::parse(members[k].0.as_str()) {
            Ok(name) => name,
            Err(e) => { return Err(AdapterError::Name(JsonAdapter::Json, e)); },
        };
        let metrics = match read_measures(&members[k].1) {
            Ok(metrics) => metrics,
            Err(e) => { return Err(e); },
        };
        results.insert(name, metrics);
        k += 1;
    }
    Ok(results)
}

/// The adapter for the generic structured format.
pub struct AdapterJson;

impl Adapter for AdapterJson {
    open spec fn parsed(input: Seq<char>) -> Answer {
        json_results(json_document(input))
    }

    open spec fn converted(&self, input: Seq<char>) -> Answer {
        Self::parsed(input)
    }

    fn convert(&self, input: &str) -> (r: Outcome) {
        Self::parse(input)
    }

    fn parse(input: &str) -> (r: Outcome) {
        let document = parse_document(input);
        read_results(&document)
    }
}

} // verus!
