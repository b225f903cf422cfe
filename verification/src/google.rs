//! The adapter for the structured output of Google Benchmark: a document
//! with a list `benchmarks`, each item of which holds the `name` of a
//! benchmark, its `real_time` and the `time_unit` that the time is given in.
//!
//! ```text
//! { "benchmarks": [ { "name": "fib/10", "real_time": 214.98, "time_unit": "ns" } ] }
//! ```
//!
//! It reports a latency in nanoseconds.

use vstd::prelude::*;
use crate::adapter::{Adapter, AdapterError, Answer, JsonAdapter, Outcome};
use crate::json::{find_member, json_document, member, parse_document, JsonValue};
use crate::records::{collect, read_time_of, records_of, text_of, time_of, RecordFormat};
use crate::results::JsonMetric;

verus! {

/// The benchmark that `item` is.
pub open spec fn google_record(item: JsonValue) -> Option<(Seq<char>, JsonMetric)> {
    match item {
        JsonValue::Object(members) => match (
            text_of(member(members@, "name"@)),
            time_of(
                member(members@, "real_time"@),
                member(members@, "time_unit"@),
                Seq::<char>::empty(),
            ),
        ) {
            (Some(name), Some(time)) => Some(
                (name, JsonMetric { value: time as i64, lower_value: None, upper_value: None }),
            ),
            _ => None,
        },
        _ => None,
    }
}

/// What the adapter answers to a document: the benchmarks of its list
/// `benchmarks`. It fails where the text is no document, the document no
/// object or without that list, and where the list cannot be read.
pub open spec fn google_results(document: Option<JsonValue>) -> Answer {
    match document {
        Some(JsonValue::Object(members)) => match member(members@, "benchmarks"@) {
            Some(JsonValue::Array(items)) => records_of::<AdapterCppGoogle>(items@),
            _ => Err(AdapterError::Parse(JsonAdapter::CppGoogle)),
        },
        _ => Err(AdapterError::Parse(JsonAdapter::CppGoogle)),
    }
}

/// The adapter for the structured output of Google Benchmark.
pub struct AdapterCppGoogle;

impl RecordFormat for AdapterCppGoogle {
    open spec fn adapter() -> JsonAdapter {
        JsonAdapter::CppGoogle
    }

    open spec fn record(item: JsonValue) -> Option<(Seq<char>, JsonMetric)> {
        google_record(item)
    }

    fn name() -> (adapter: JsonAdapter) {
        JsonAdapter::CppGoogle
    }

    fn read_record(item: &JsonValue) -> (r: Option<(String, JsonMetric)>) {
        let members = match item {
            JsonValue::Object(members) => members,
            _ => { return None; },
        };
        let name = match find_member(members, "name") {
            Some(JsonValue::Text(name)) => name,
            _ => { return None; },
        };
        proof {
            reveal_strlit("ns");
            reveal_strlit("us");
            reveal_strlit("ms");
            reveal_strlit("s");
            assert("ns"@ + Seq::<char>::empty() =~= "ns"@);
            assert("us"@ + Seq::<char>::empty() =~= "us"@);
            assert("ms"@ + Seq::<char>::empty() =~= "ms"@);
            assert("s"@ + Seq::<char>::empty() =~= "s"@);
        }
        let time = match read_time_of(
            find_member(members, "real_time"),
            find_member(members, "time_unit"),
            ["ns", "us", "ms", "s"],
            Ghost(Seq::<char>::empty()),
        ) {
            Some(time) => time,
            None => { return None; },
        };
        Some((name.clone(), JsonMetric { value: time, lower_value: None, upper_value: None }))
    }
}

impl Adapter for AdapterCppGoogle {
    open spec fn parsed(input: Seq<char>) -> Answer {
        google_results(json_document(input))
    }

    open spec fn converted(&self, input: Seq<char>) -> Answer {
        Self::parsed(input)
    }

    fn convert(&self, input: &str) -> (r: Outcome) {
        Self::parse(input)
    }

    fn parse(input: &str) -> (r: Outcome) {
        let document = parse_document(input);
        let members = match &document {
            Some(JsonValue::Object(members)) => members,
            _ => { return Err(AdapterError::Parse(JsonAdapter::CppGoogle)); },
        };
        match find_member(members, "benchmarks") {
            Some(JsonValue::Array(items)) => collect::<AdapterCppGoogle>(items),
            _ => Err(AdapterError::Parse(JsonAdapter::CppGoogle)),
        }
    }
}

} // verus!
