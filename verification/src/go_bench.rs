//! The adapter for the output of the benchmarks of Go. A benchmark is one
//! line of the form
//!
//! ```text
//! BenchmarkName-8     5000000     325 ns/op
//! ```
//!
//! and reports a latency in nanoseconds. Words behind the unit, and every
//! other line, are passed over.

use vstd::prelude::*;
use crate::adapter::{Adapter, Answer, JsonAdapter, Outcome};
use crate::lines::{lines_of, scan, LineFormat, LineKind};
use crate::results::JsonMetric;
use crate::text::{find_word, next_word, number_value, read_number, same_text, spells};

verus! {

/// What the line of `s` from `lo` up to `hi` is: the line of a benchmark
/// when its first word begins with `Benchmark` and its second word is a
/// number, the count of iterations; then the words that follow have to be a
/// number and `ns/op`.
pub open spec fn go_bench_line(s: Seq<char>, lo: int, hi: int) -> LineKind {
    match next_word(s, lo, hi) {
        None => LineKind::Noise,
        Some(name) => match next_word(s, name.1, hi) {
            None => LineKind::Noise,
            Some(count) => if name.1 - name.0 < 9 || !spells(
                s,
                name.0,
                name.0 + 9,
                "Benchmark"@,
            ) || number_value(s, count.0, count.1) is None {
                LineKind::Noise
            } else {
                match next_word(s, count.1, hi) {
                    None => LineKind::Bad,
                    Some(value) => match next_word(s, value.1, hi) {
                        None => LineKind::Bad,
                        Some(unit) => match number_value(s, value.0, value.1) {
                            Some(v) => if spells(s, unit.0, unit.1, "ns/op"@) {
                                LineKind::Record {
                                    from: name.0 as usize,
                                    to: name.1 as usize,
                                    metric: JsonMetric {
                                        value: v as i64,
                                        lower_value: None,
                                        upper_value: None,
                                    },
                                }
                            } else {
                                LineKind::Bad
                            },
                            None => LineKind::Bad,
                        },
                    },
                }
            },
        },
    }
}

/// Says what the line from `lo` up to `hi` is.
pub fn read_go_bench_line(chars: &Vec<char>, lo: usize, hi: usize) -> (kind: LineKind)
    requires
        lo <= hi <= chars.len(),
    ensures
        kind == go_bench_line(chars@, lo as int, hi as int),
        kind matches LineKind::Record { from, to, .. } ==> lo <= from < to <= hi,
{
    let name = match find_word(chars, lo, hi) {
        Some(word) => word,
        None => { return LineKind::Noise; },
    };
    let count = match find_word(chars, name.1, hi) {
        Some(word) => word,
        None => { return LineKind::Noise; },
    };
    if name.1 - name.0 < 9 || !same_text(chars, name.0, name.0 + 9, "Benchmark") {
        return LineKind::Noise;
    }
    if read_number(chars, count.0, count.1).is_none() {
        return LineKind::Noise;
    }
    let value = match find_word(chars, count.1, hi) {
        Some(word) => word,
        None => { return LineKind::Bad; },
    };
    let unit = match find_word(chars, value.1, hi) {
        Some(word) => word,
        None => { return LineKind::Bad; },
    };
    let v = match read_number(chars, value.0, value.1) {
        Some(v) => v,
        None => { return LineKind::Bad; },
    };
    if same_text(chars, unit.0, unit.1, "ns/op") {
        LineKind::Record {
            from: name.0,
            to: name.1,
            metric: JsonMetric { value: v, lower_value: None, upper_value: None },
        }
    } else {
        LineKind::Bad
    }
}

/// The adapter for the output of the benchmarks of Go.
pub struct AdapterGoBench;

impl LineFormat for AdapterGoBench {
    open spec fn adapter() -> JsonAdapter {
        JsonAdapter::GoBench
    }

    open spec fn kind(s: Seq<char>, lo: int, hi: int) -> LineKind {
        go_bench_line(s, lo, hi)
    }

    fn name() -> (adapter: JsonAdapter) {
        JsonAdapter::GoBench
    }

    fn read_line(chars: &Vec<char>, lo: usize, hi: usize) -> (kind: LineKind) {
        read_go_bench_line(chars, lo, hi)
    }
}

impl Adapter for AdapterGoBench {
    open spec fn parsed(input: Seq<char>) -> Answer {
        lines_of::<AdapterGoBench>(input)
    }

    open spec fn converted(&self, input: Seq<char>) -> Answer {
        Self::parsed(input)
    }

    fn convert(&self, input: &str) -> (r: Outcome) {
        Self::parse(input)
    }

    fn parse(input: &str) -> (r: Outcome) {
        scan::<AdapterGoBench>(input)
    }
}

} // verus!
