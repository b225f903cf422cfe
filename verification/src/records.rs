//! Formats in which the benchmarks are the items of a list in a
//! structured document: how the items are read into a result set.

use vstd::prelude::*;
use crate::adapter::{answer_of, AdapterError, Answer, JsonAdapter, Outcome, ResultsView};
use crate::criterion::{apply_scale, scaled};
use crate::json::{read_signed, same_str, signed_value, JsonValue};
use crate::lines::latency_only;
use crate::results::{name_error, AdapterMetrics, AdapterResults, BenchmarkName, JsonMetric, NameId};

verus! {

/// A format in which every benchmark is one item of a list.
pub trait RecordFormat {
    /// The name of the format.
    spec fn adapter() -> JsonAdapter;

    /// The name of the benchmark that `item` is, and what it measured;
    /// nothing where the item does not hold what it has to.
    spec fn record(item: JsonValue) -> Option<(Seq<char>, JsonMetric)>;

    /// The name of the format.
    fn name() -> (adapter: JsonAdapter)
        ensures
            adapter == Self::adapter(),
    ;

    /// Reads the benchmark that `item` is.
    fn read_record(item: &JsonValue) -> (r: Option<(String, JsonMetric)>)
        ensures
            match r {
                Some((name, metric)) => Self::record(*item) == Some((name@, metric)),
                None => Self::record(*item) is None,
            },
    ;
}

/// What the adapter of the format `F` answers when the items from `k` on
/// are read after the benchmarks of `found`: the benchmarks of all items, a
/// later one taking the place of an earlier one of the same name. It fails
/// where an item does not hold what it has to or the name of a benchmark is
/// not well-formed.
pub open spec fn records_from<F: RecordFormat>(items: Seq<JsonValue>, k: int, found: ResultsView) -> Answer
    decreases items.len() - k,
{
    if k < 0 || k >= items.len() {
        Ok(found)
    } else {
        match F::record(items[k]) {
            None => Err(AdapterError::Parse(F::adapter())),
            Some((name, metric)) => match name_error(name) {
                Some(e) => Err(AdapterError::Name(F::adapter(), e)),
                None => records_from::<F>(items, k + 1, found.insert(name, latency_only(metric))),
            },
        }
    }
}

/// What the adapter of the format `F` answers to the list `items`.
pub open spec fn records_of<F: RecordFormat>(items: Seq<JsonValue>) -> Answer {
    records_from::<F>(items, 0, Map::<Seq<char>, Map<Seq<char>, JsonMetric>>::empty())
}

/// Reads the benchmarks that the items of a list are.
pub fn collect<F: RecordFormat>(items: &Vec<JsonValue>) -> (r: Outcome)
    ensures
        answer_of(r) == records_of::<F>(items@),
{
    let mut results = AdapterResults::new();
    let mut k: usize = 0;
    while k < items.len()
        invariant
            k <= items.len(),
            records_from::<F>(items@, k as int, results@) == records_of::<F>(items@),
        decreases items.len() - k,
    {
        let (text, metric) = match F::read_record(&items[k]) {
            Some(record) => record,
            None => { return Err(AdapterError::Parse(F::name())); },
        };
        let name = match BenchmarkName::parse(text.as_str()) {
            Ok(name) => name,
            Err(e) => { return Err(AdapterError::Name(F::name(), e)); },
        };
        let mut metrics = AdapterMetrics::new();
        metrics.insert(NameId::latency(), metric);
        assert(metrics@ == latency_only(metric));
        results.insert(name, metrics);
        k += 1;
    }
    Ok(results)
}

/// The text that `value` is.
pub open spec fn text_of(value: Option<JsonValue>) -> Option<Seq<char>> {
    match value {
        Some(JsonValue::Text(text)) => Some(text@),
        _ => None,
    }
}

/// The time, in thousandths of the unit it is given in, that `value` is:
/// a number that is not below nothing.
pub open spec fn amount_of(value: Option<JsonValue>) -> Option<int> {
    match value {
        Some(JsonValue::Number(text)) => match signed_value(text@) {
            Some(v) => if v >= 0 {
                Some(v)
            } else {
                None
            },
            None => None,
        },
        _ => None,
    }
}

/// The scale of the unit of time that `unit` spells, with `per` behind
/// it: by how much a time is multiplied, and then divided, to be a time in
/// nanoseconds.
pub open spec fn scale_of(unit: Seq<char>, per: Seq<char>) -> Option<(int, int)> {
    if unit == "ns"@ + per {
        Some((1, 1))
    } else if unit == "us"@ + per {
        Some((1000, 1))
    } else if unit == "ms"@ + per {
        Some((1000000, 1))
    } else if unit == "s"@ + per {
        Some((1000000000, 1))
    } else {
        None
    }
}

/// The time in nanoseconds that the amount `amount` of the unit `unit`
/// is.
pub open spec fn time_of(amount: Option<JsonValue>, unit: Option<JsonValue>, per: Seq<char>) -> Option<
    int,
> {
    match (amount_of(amount), text_of(unit)) {
        (Some(v), Some(text)) => match scale_of(text, per) {
            Some(scale) => scaled(v, scale),
            None => None,
        },
        _ => None,
    }
}

/// Reads the time in nanoseconds that an amount of a unit is; `units`
/// are the names of the nanosecond, the microsecond, the millisecond and
/// the second.
pub fn read_time_of(
    amount: Option<&JsonValue>,
    unit: Option<&JsonValue>,
    units: [&str; 4],
    Ghost(per): Ghost<Seq<char>>,
) -> (r: Option<i64>)
    requires
        units[0]@ == "ns"@ + per,
        units[1]@ == "us"@ + per,
        units[2]@ == "ms"@ + per,
        units[3]@ == "s"@ + per,
    ensures
        match r {
            Some(t) => time_of(
                match amount {
                    Some(v) => Some(*v),
                    None => None,
                },
                match unit {
                    Some(v) => Some(*v),
                    None => None,
                },
                per,
            ) == Some(t as int) && 0 <= t <= crate::criterion::MAX_TIME,
            None => time_of(
                match amount {
                    Some(v) => Some(*v),
                    None => None,
                },
                match unit {
                    Some(v) => Some(*v),
                    None => None,
                },
                per,
            ) is None,
        },
{
    let v = match amount {
        Some(JsonValue::Number(text)) => match read_signed(text.as_str()) {
            Some(v) => v,
            None => { return None; },
        },
        _ => { return None; },
    };
    if v < 0 {
        return None;
    }
    let text = match unit {
        Some(JsonValue::Text(text)) => text,
        _ => { return None; },
    };
    let scale: (i64, i64) = if same_str(text.as_str(), units[0]) {
        (1, 1)
    } else if same_str(text.as_str(), units[1]) {
        (1000, 1)
    } else if same_str(text.as_str(), units[2]) {
        (1000000, 1)
    } else if same_str(text.as_str(), units[3]) {
        (1000000000, 1)
    } else {
        return None;
    };
    apply_scale(v, scale)
}

} // verus!
