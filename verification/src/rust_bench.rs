//! The adapter for the output of the benchmark harness that comes with
//! Rust. A benchmark is one line of the form
//!
//! ```text
//! test NAME ... bench:       1,234 ns/iter (+/- 56)
//! ```
//!
//! and reports a latency in nanoseconds with limits the given deviation
//! below and above it. Every other line is passed over.

use vstd::prelude::*;
use crate::adapter::{Adapter, Answer, JsonAdapter, Outcome};
use crate::lines::{lines_of, scan, LineFormat, LineKind};
use crate::results::JsonMetric;
use crate::text::{find_word, next_word, number_value, read_number, same_text, spells};

verus! {

/// What the line of `s` from `lo` up to `hi` is: the line of a benchmark
/// when its words are `test`, a name, `...` and `bench:`; then the words
/// that follow have to be a number, `ns/iter`, `(+/-` and a number with a
/// closing bracket behind it.
pub open spec fn rust_bench_line(s: Seq<char>, lo: int, hi: int) -> LineKind {
    match next_word(s, lo, hi) {
        None => LineKind::Noise,
        Some(test) => match next_word(s, test.1, hi) {
            None => LineKind::Noise,
            Some(name) => match next_word(s, name.1, hi) {
                None => LineKind::Noise,
                Some(dots) => match next_word(s, dots.1, hi) {
                    None => LineKind::Noise,
                    Some(bench) => if !spells(s, test.0, test.1, "test"@) || !spells(
                        s,
                        dots.0,
                        dots.1,
                        "..."@,
                    ) || !spells(s, bench.0, bench.1, "bench:"@) {
                        LineKind::Noise
                    } else {
                        rust_bench_measure(s, name.0, name.1, bench.1, hi)
                    },
                },
            },
        }
    }
}

/// What the line of the benchmark called by the characters from `from` up
/// to `to` is, its measurement standing from `lo` up to `hi`.
pub open spec fn rust_bench_measure(s: Seq<char>, from: int, to: int, lo: int, hi: int) -> LineKind {
    match next_word(s, lo, hi) {
        None => LineKind::Bad,
        Some(value) => match next_word(s, value.1, hi) {
            None => LineKind::Bad,
            Some(unit) => match next_word(s, unit.1, hi) {
                None => LineKind::Bad,
                Some(sign) => match next_word(s, sign.1, hi) {
                    None => LineKind::Bad,
                    Some(deviation) => match (
                        number_value(s, value.0, value.1),
                        number_value(s, deviation.0, deviation.1 - 1),
                    ) {
                        (Some(v), Some(d)) => if spells(s, unit.0, unit.1, "ns/iter"@) && spells(
                            s,
                            sign.0,
                            sign.1,
                            "(+/-"@,
                        ) && s[deviation.1 - 1] == ')' {
                            LineKind::Record {
                                from: from as usize,
                                to: to as usize,
                                metric: JsonMetric {
                                    value: v as i64,
                                    lower_value: Some((v - d) as i64),
                                    upper_value: Some((v + d) as i64),
                                },
                            }
                        } else {
                            LineKind::Bad
                        },
                        _ => LineKind::Bad,
                    },
                },
            },
        }
    }
}

/// Reads the measurement of a benchmark line.
fn read_measure(chars: &Vec<char>, from: usize, to: usize, lo: usize, hi: usize) -> (kind: LineKind)
    requires
        from <= to <= lo <= hi <= chars.len(),
    ensures
        kind == rust_bench_measure(chars@, from as int, to as int, lo as int, hi as int),
        kind matches LineKind::Record { from: a, to: b, .. } ==> a == from && b == to,
{
    let value = match find_word(chars, lo, hi) {
        Some(word) => word,
        None => { return LineKind::Bad; },
    };
    let unit = match find_word(chars, value.1, hi) {
        Some(word) => word,
        None => { return LineKind::Bad; },
    };
    let sign = match find_word(chars, unit.1, hi) {
        Some(word) => word,
        None => { return LineKind::Bad; },
    };
    let deviation = match find_word(chars, sign.1, hi) {
        Some(word) => word,
        None => { return LineKind::Bad; },
    };
    let v = match read_number(chars, value.0, value.1) {
        Some(v) => v,
        None => { return LineKind::Bad; },
    };
    let d = match read_number(chars, deviation.0, deviation.1 - 1) {
        Some(d) => d,
        None => { return LineKind::Bad; },
    };
    if same_text(chars, unit.0, unit.1, "ns/iter") && same_text(chars, sign.0, sign.1, "(+/-")
        && chars[deviation.1 - 1] == ')' {
        LineKind::Record {
            from,
            to,
            metric: JsonMetric { value: v, lower_value: Some(v - d), upper_value: Some(v + d) },
        }
    } else {
        LineKind::Bad
    }
}

/// Says what the line from `lo` up to `hi` is.
pub fn read_rust_bench_line(chars: &Vec<char>, lo: usize, hi: usize) -> (kind: LineKind)
    requires
        lo <= hi <= chars.len(),
    ensures
        kind == rust_bench_line(chars@, lo as int, hi as int),
        kind matches LineKind::Record { from, to, .. } ==> lo <= from < to <= hi,
{
    let test = match find_word(chars, lo, hi) {
        Some(word) => word,
        None => { return LineKind::Noise; },
    };
    let name = match find_word(chars, test.1, hi) {
        Some(word) => word,
        None => { return LineKind::Noise; },
    };
    let dots = match find_word(chars, name.1, hi) {
        Some(word) => word,
        None => { return LineKind::Noise; },
    };
    let bench = match find_word(chars, dots.1, hi) {
        Some(word) => word,
        None => { return LineKind::Noise; },
    };
    if !same_text(chars, test.0, test.1, "test") || !same_text(chars, dots.0, dots.1, "...")
        || !same_text(chars, bench.0, bench.1, "bench:") {
        return LineKind::Noise;
    }
    read_measure(chars, name.0, name.1, bench.1, hi)
}

/// The adapter for the output of the benchmark harness of Rust.
pub struct AdapterRustBench;

impl LineFormat for AdapterRustBench {
    open spec fn adapter() -> JsonAdapter {
        JsonAdapter::RustBench
    }

    open spec fn kind(s: Seq<char>, lo: int, hi: int) -> LineKind {
        rust_bench_line(s, lo, hi)
    }

    fn name() -> (adapter: JsonAdapter) {
        JsonAdapter::RustBench
    }

    fn read_line(chars: &Vec<char>, lo: usize, hi: usize) -> (kind: LineKind) {
        read_rust_bench_line(chars, lo, hi)
    }
}

impl Adapter for AdapterRustBench {
    open spec fn parsed(input: Seq<char>) -> Answer {
        lines_of::<AdapterRustBench>(input)
    }

    open spec fn converted(&self, input: Seq<char>) -> Answer {
        Self::parsed(input)
    }

    fn convert(&self, input: &str) -> (r: Outcome) {
        Self::parse(input)
    }

    fn parse(input: &str) -> (r: Outcome) {
        scan::<AdapterRustBench>(input)
    }
}

} // verus!
