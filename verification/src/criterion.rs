//! The adapter for the output of Criterion. A benchmark is one line of
//! the form
//!
//! ```text
//! NAME                    time:   [26.029 us 26.251 us 26.505 us]
//! ```
//!
//! where the name may hold blanks. It reports a latency, taken to
//! nanoseconds from the unit it is given in, with the first and the last
//! time as its limits. Every other line is passed over.

use vstd::prelude::*;
use crate::adapter::{Adapter, Answer, JsonAdapter, Outcome};
use crate::lines::{lines_of, scan, LineFormat, LineKind};
use crate::results::JsonMetric;
use crate::text::{
    find_word, lemma_skips, next_word, number_value, read_number, same_text, spells, MAX_WHOLE,
};

verus! {

/// Largest magnitude, in thousandths, that a time can have.
pub const MAX_TIME: i64 = 4000000000000000999;

/// By how much a time in the unit that the characters of `s` from `a` up
/// to `b` spell is multiplied, and then divided, to be a time in
/// nanoseconds.
pub open spec fn unit_scale(s: Seq<char>, a: int, b: int) -> Option<(int, int)> {
    if spells(s, a, b, "ps"@) {
        Some((1, 1000))
    } else if spells(s, a, b, "ns"@) {
        Some((1, 1))
    } else if spells(s, a, b, "us"@) || spells(s, a, b, "\u{b5}s"@) {
        Some((1000, 1))
    } else if spells(s, a, b, "ms"@) {
        Some((1000000, 1))
    } else if spells(s, a, b, "s"@) {
        Some((1000000000, 1))
    } else {
        None
    }
}

/// The time `v` of a unit with the scale `scale`, in nanoseconds; nothing
/// where it is above `MAX_TIME`. A time in a unit below the nanosecond is
/// rounded down.
pub open spec fn scaled(v: int, scale: (int, int)) -> Option<int> {
    if v * scale.0 / scale.1 <= MAX_TIME {
        Some(v * scale.0 / scale.1)
    } else {
        None
    }
}

/// The time that a number and a unit spell, in nanoseconds.
pub open spec fn time_value(s: Seq<char>, number: (int, int), unit: (int, int)) -> Option<int> {
    match (number_value(s, number.0, number.1), unit_scale(s, unit.0, unit.1)) {
        (Some(v), Some(scale)) => scaled(v, scale),
        _ => None,
    }
}

/// Where the word `time:` ends that is the first from `lo` on, and where
/// the word before it ends, `to` being where the word before `lo` ends.
pub open spec fn find_time(s: Seq<char>, lo: int, hi: int, to: int) -> Option<(int, int)>
    decreases hi - lo,
    via find_time_ends
{
    match next_word(s, lo, hi) {
        None => None,
        Some(word) => if spells(s, word.0, word.1, "time:"@) {
            Some((to, word.1))
        } else if 0 <= lo <= hi <= s.len() {
            find_time(s, word.1, hi, word.1)
        } else {
            None
        },
    }
}

#[via_fn]
proof fn find_time_ends(s: Seq<char>, lo: int, hi: int, to: int) {
    if 0 <= lo <= hi <= s.len() {
        lemma_skips(s, lo, hi);
        let begin = crate::text::skip_spaces(s, lo, hi);
        if begin < hi {
            lemma_skips(s, begin, hi);
        }
    }
}

/// What the line of `s` from `lo` up to `hi` is: the line of a benchmark
/// when a word `time:` stands behind its first word; then the words that
/// follow have to be three times, each a number and a unit, the first with
/// an opening bracket before it and the last with a closing one behind it.
pub open spec fn criterion_line(s: Seq<char>, lo: int, hi: int) -> LineKind {
    match next_word(s, lo, hi) {
        None => LineKind::Noise,
        Some(first) => if spells(s, first.0, first.1, "time:"@) {
            LineKind::Noise
        } else {
            match find_time(s, first.1, hi, first.1) {
                None => LineKind::Noise,
                Some((to, after)) => criterion_measure(s, first.0, to, after, hi),
            }
        },
    }
}

/// What the line of the benchmark called by the characters from `from` up
/// to `to` is, its times standing from `lo` up to `hi`.
pub open spec fn criterion_measure(s: Seq<char>, from: int, to: int, lo: int, hi: int) -> LineKind {
    match next_word(s, lo, hi) {
        None => LineKind::Bad,
        Some(a) => match next_word(s, a.1, hi) {
            None => LineKind::Bad,
            Some(au) => match next_word(s, au.1, hi) {
                None => LineKind::Bad,
                Some(b) => match next_word(s, b.1, hi) {
                    None => LineKind::Bad,
                    Some(bu) => match next_word(s, bu.1, hi) {
                        None => LineKind::Bad,
                        Some(c) => match next_word(s, c.1, hi) {
                            None => LineKind::Bad,
                            Some(cu) => match (
                                time_value(s, (a.0 + 1, a.1), au),
                                time_value(s, b, bu),
                                time_value(s, c, (cu.0, cu.1 - 1)),
                            ) {
                                (Some(lower), Some(value), Some(upper)) => if s[a.0] == '['
                                    && s[cu.1 - 1] == ']' {
                                    LineKind::Record {
                                        from: from as usize,
                                        to: to as usize,
                                        metric: JsonMetric {
                                            value: value as i64,
                                            lower_value: Some(lower as i64),
                                            upper_value: Some(upper as i64),
                                        },
                                    }
                                } else {
                                    LineKind::Bad
                                },
                                _ => LineKind::Bad,
                            },
                        },
                    },
                },
            },
        },
    }
}

/// The scale of the unit that the characters from `a` up to `b` spell.
fn read_unit(chars: &Vec<char>, a: usize, b: usize) -> (scale: Option<(i64, i64)>)
    requires
        a <= b <= chars.len(),
    ensures
        match scale {
            Some((mul, div)) => unit_scale(chars@, a as int, b as int) == Some(
                (mul as int, div as int),
            ) && 1 <= mul <= 1000000000 && 1 <= div <= 1000,
            None => unit_scale(chars@, a as int, b as int) is None,
        },
{
    if same_text(chars, a, b, "ps") {
        Some((1, 1000))
    } else if same_text(chars, a, b, "ns") {
        Some((1, 1))
    } else if same_text(chars, a, b, "us") || same_text(chars, a, b, "\u{b5}s") {
        Some((1000, 1))
    } else if same_text(chars, a, b, "ms") {
        Some((1000000, 1))
    } else if same_text(chars, a, b, "s") {
        Some((1000000000, 1))
    } else {
        None
    }
}

/// Takes the time `v` of a unit with the scale `scale` to nanoseconds.
pub fn apply_scale(v: i64, scale: (i64, i64)) -> (time: Option<i64>)
    requires
        0 <= v <= 1000 * MAX_WHOLE + 999,
        1 <= scale.0 <= 1000000000,
        1 <= scale.1 <= 1000,
    ensures
        match time {
            Some(t) => scaled(v as int, (scale.0 as int, scale.1 as int)) == Some(t as int) && 0
                <= t <= MAX_TIME,
            None => scaled(v as int, (scale.0 as int, scale.1 as int)) is None,
        },
{
    let (mul, div) = scale;
    assert(0 <= (v as i128) * (mul as i128) <= (1000 * MAX_WHOLE + 999) * 1000000000)
        by (nonlinear_arith)
        requires
            0 <= v <= 1000 * MAX_WHOLE + 999,
            1 <= mul <= 1000000000,
    ;
    let product = (v as i128) * (mul as i128);
    let t = product / (div as i128);
    if t <= MAX_TIME as i128 {
        assert(t >= 0) by (nonlinear_arith)
            requires
                t == (product as int) / (div as int),
                product >= 0,
                div >= 1,
        ;
        Some(t as i64)
    } else {
        None
    }
}

/// The time that a number and a unit spell, in nanoseconds.
pub fn read_time(chars: &Vec<char>, number: (usize, usize), unit: (usize, usize)) -> (time: Option<i64>)
    requires
        number.0 <= number.1 <= chars.len(),
        unit.0 <= unit.1 <= chars.len(),
    ensures
        match time {
            Some(t) => time_value(
                chars@,
                (number.0 as int, number.1 as int),
                (unit.0 as int, unit.1 as int),
            ) == Some(t as int) && 0 <= t <= MAX_TIME,
            None => time_value(
                chars@,
                (number.0 as int, number.1 as int),
                (unit.0 as int, unit.1 as int),
            ) is None,
        },
{
    let v = match read_number(chars, number.0, number.1) {
        Some(v) => v,
        None => { return None; },
    };
    let scale = match read_unit(chars, unit.0, unit.1) {
        Some(scale) => scale,
        None => { return None; },
    };
    apply_scale(v, scale)
}

/// Reads the times of a benchmark line.
fn read_measure(chars: &Vec<char>, from: usize, to: usize, lo: usize, hi: usize) -> (kind: LineKind)
    requires
        from <= to <= lo <= hi <= chars.len(),
    ensures
        kind == criterion_measure(chars@, from as int, to as int, lo as int, hi as int),
        kind matches LineKind::Record { from: x, to: y, .. } ==> x == from && y == to,
{
    let a = match find_word(chars, lo, hi) {
        Some(word) => word,
        None => { return LineKind::Bad; },
    };
    let au = match find_word(chars, a.1, hi) {
        Some(word) => word,
        None => { return LineKind::Bad; },
    };
    let b = match find_word(chars, au.1, hi) {
        Some(word) => word,
        None => { return LineKind::Bad; },
    };
    let bu = match find_word(chars, b.1, hi) {
        Some(word) => word,
        None => { return LineKind::Bad; },
    };
    let c = match find_word(chars, bu.1, hi) {
        Some(word) => word,
        None => { return LineKind::Bad; },
    };
    let cu = match find_word(chars, c.1, hi) {
        Some(word) => word,
        None => { return LineKind::Bad; },
    };
    let lower = match read_time(chars, (a.0 + 1, a.1), au) {
        Some(t) => t,
        None => { return LineKind::Bad; },
    };
    let value = match read_time(chars, b, bu) {
        Some(t) => t,
        None => { return LineKind::Bad; },
    };
    let upper = match read_time(chars, c, (cu.0, cu.1 - 1)) {
        Some(t) => t,
        None => { return LineKind::Bad; },
    };
    if chars[a.0] == '[' && chars[cu.1 - 1] == ']' {
        LineKind::Record {
            from,
            to,
            metric: JsonMetric { value, lower_value: Some(lower), upper_value: Some(upper) },
        }
    } else {
        LineKind::Bad
    }
}

/// Says what the line from `lo` up to `hi` is.
pub fn read_criterion_line(chars: &Vec<char>, lo: usize, hi: usize) -> (kind: LineKind)
    requires
        lo <= hi <= chars.len(),
    ensures
        kind == criterion_line(chars@, lo as int, hi as int),
        kind matches LineKind::Record { from, to, .. } ==> lo <= from < to <= hi,
{
    let first = match find_word(chars, lo, hi) {
        Some(word) => word,
        None => { return LineKind::Noise; },
    };
    if same_text(chars, first.0, first.1, "time:") {
        return LineKind::Noise;
    }
    let mut at = first.1;
    let mut to = first.1;
    loop
        invariant
            lo <= first.0 < first.1 <= to <= at <= hi <= chars.len(),
            next_word(chars@, lo as int, hi as int) == Some((first.0 as int, first.1 as int)),
            !spells(chars@, first.0 as int, first.1 as int, "time:"@),
            find_time(chars@, at as int, hi as int, to as int) == find_time(
                chars@,
                first.1 as int,
                hi as int,
                first.1 as int,
            ),
        decreases hi - at,
    {
        let word = match find_word(chars, at, hi) {
            Some(word) => word,
            None => { return LineKind::Noise; },
        };
        if same_text(chars, word.0, word.1, "time:") {
            return read_measure(chars, first.0, to, word.1, hi);
        }
        at = word.1;
        to = word.1;
    }
}

/// The adapter for the output of Criterion.
pub struct AdapterRustCriterion;

impl LineFormat for AdapterRustCriterion {
    open spec fn adapter() -> JsonAdapter {
        JsonAdapter::RustCriterion
    }

    open spec fn kind(s: Seq<char>, lo: int, hi: int) -> LineKind {
        criterion_line(s, lo, hi)
    }

    fn name() -> (adapter: JsonAdapter) {
        JsonAdapter::RustCriterion
    }

    fn read_line(chars: &Vec<char>, lo: usize, hi: usize) -> (kind: LineKind) {
        read_criterion_line(chars, lo, hi)
    }
}

impl Adapter for AdapterRustCriterion {
    open spec fn parsed(input: Seq<char>) -> Answer {
        lines_of::<AdapterRustCriterion>(input)
    }

    open spec fn converted(&self, input: Seq<char>) -> Answer {
        Self::parsed(input)
    }

    fn convert(&self, input: &str) -> (r: Outcome) {
        Self::parse(input)
    }

    fn parse(input: &str) -> (r: Outcome) {
        scan::<AdapterRustCriterion>(input)
    }
}

} // verus!
