//! The adapter for the structured output of the Java Microbenchmark
//! Harness: a list, each item of which holds the name of a `benchmark` and
//! its `primaryMetric` with the `score`, the `scoreError` and the
//! `scoreUnit` that both are given in.
//!
//! ```text
//! [ { "benchmark": "org.Fib.run", "primaryMetric":
//!     { "score": 3.37, "scoreError": 0.03, "scoreUnit": "ns/op" } } ]
//! ```
//!
//! It reports a latency in nanoseconds with limits the error of the score
//! below and above it.

use vstd::prelude::*;
use crate::adapter::{Adapter, AdapterError, Answer, JsonAdapter, Outcome};
use crate::json::{find_member, json_document, member, parse_document, JsonValue};
use crate::records::{collect, read_time_of, records_of, text_of, time_of, RecordFormat};
use crate::results::JsonMetric;

verus! {

/// The benchmark that `item` is.
pub open spec fn jmh_record(item: JsonValue) -> Option<(Seq<char>, JsonMetric)> {
    match item {
        JsonValue::Object(members) => match (
            text_of(member(members@, "benchmark"@)),
            member(members@, "primaryMetric"@),
        ) {
            (Some(name), Some(JsonValue::Object(metric))) => match (
                time_of(member(metric@, "score"@), member(metric@, "scoreUnit"@), "/op"@),
                time_of(member(metric@, "scoreError"@), member(metric@, "scoreUnit"@), "/op"@),
            ) {
                (Some(score), Some(error)) => Some(
                    (
                        name,
                        JsonMetric {
                            value: score as i64,
                            lower_value: Some((score - error) as i64),
                            upper_value: Some((score + error) as i64),
                        },
                    ),
                ),
                _ => None,
            },
            _ => None,
        },
        _ => None,
    }
}

/// What the adapter answers to a document: the benchmarks of the list
/// that it is. It fails where the text is no document or the document no
/// list, and where the list cannot be read.
pub open spec fn jmh_results(document: Option<JsonValue>) -> Answer {
    match document {
        Some(JsonValue::Array(items)) => records_of::<AdapterJavaJmh>(items@),
        _ => Err(AdapterError::Parse(JsonAdapter::JavaJmh)),
    }
}

/// The adapter for the structured output of the Java Microbenchmark
/// Harness.
pub struct AdapterJavaJmh;

impl RecordFormat for AdapterJavaJmh {
    open spec fn adapter() -> JsonAdapter {
        JsonAdapter::JavaJmh
    }

    open spec fn record(item: JsonValue) -> Option<(Seq<char>, JsonMetric)> {
        jmh_record(item)
    }

    fn name() -> (adapter: JsonAdapter) {
        JsonAdapter::JavaJmh
    }

    fn read_record(item: &JsonValue) -> (r: Option<(String, JsonMetric)>) {
        let members = match item {
            JsonValue::Object(members) => members,
            _ => { return None; },
        };
        let name = match find_member(members, "benchmark") {
            Some(JsonValue::Text(name)) => name,
            _ => { return None; },
        };
        let metric = match find_member(members, "primaryMetric") {
            Some(JsonValue::Object(metric)) => metric,
            _ => { return None; },
        };
        proof {
            reveal_strlit("ns");
            reveal_strlit("us");
            reveal_strlit("ms");
            reveal_strlit("s");
            reveal_strlit("/op");
            reveal_strlit("ns/op");
            reveal_strlit("us/op");
            reveal_strlit("ms/op");
            reveal_strlit("s/op");
            assert("ns"@ + "/op"@ =~= "ns/op"@);
            assert("us"@ + "/op"@ =~= "us/op"@);
            assert("ms"@ + "/op"@ =~= "ms/op"@);
            assert("s"@ + "/op"@ =~= "s/op"@);
        }
        let score = match read_time_of(
            find_member(metric, "score"),
            find_member(metric, "scoreUnit"),
            ["ns/op", "us/op", "ms/op", "s/op"],
            Ghost("/op"@),
        ) {
            Some(score) => score,
            None => { return None; },
        };
        let error = match read_time_of(
            find_member(metric, "scoreError"),
            find_member(metric, "scoreUnit"),
            ["ns/op", "us/op", "ms/op", "s/op"],
            Ghost("/op"@),
        ) {
            Some(error) => error,
            None => { return None; },
        };
        Some(
            (
                name.clone(),
                JsonMetric {
                    value: score,
                    lower_value: Some(score - error),
                    upper_value: Some(score + error),
                },
            ),
        )
    }
}

impl Adapter for AdapterJavaJmh {
    open spec fn parsed(input: Seq<char>) -> Answer {
        jmh_results(json_document(input))
    }

    open spec fn converted(&self, input: Seq<char>) -> Answer {
        Self::parsed(input)
    }

    fn convert(&self, input: &str) -> (r: Outcome) {
        Self::parse(input)
    }

    fn parse(input: &str) -> (r: Outcome) {
        let document = parse_document(input);
        match &document {
            Some(JsonValue::Array(items)) => collect::<AdapterJavaJmh>(items),
            _ => Err(AdapterError::Parse(JsonAdapter::JavaJmh)),
        }
    }
}

} // verus!
