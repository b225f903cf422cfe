//! Formats in which every benchmark is one line of the output: how the
//! lines of an input are read into a result set.

use vstd::prelude::*;
use vstd::string::*;
use crate::adapter::{AdapterError, Answer, JsonAdapter, Outcome, ResultsView, answer_of};
use crate::results::{name_error, AdapterMetrics, AdapterResults, BenchmarkName, JsonMetric, NameId};
use crate::text::{chars_of, find_line_end, lemma_line_end, line_end};

verus! {

/// What a line of the output is.
#[derive(Clone, Copy, Debug, PartialEq, Eq, Structural)]
pub enum LineKind {
    /// Not the line of a benchmark.
    Noise,
    /// The line of a benchmark with a number or a unit that cannot be read.
    Bad,
    /// The line of a benchmark: its name stands from `from` up to `to`, and
    /// `metric` is what it measured.
    Record { from: usize, to: usize, metric: JsonMetric },
}

/// The metrics of a benchmark of which only the latency was measured.
pub open spec fn latency_only(metric: JsonMetric) -> Map<Seq<char>, JsonMetric> {
    Map::<Seq<char>, JsonMetric>::empty().insert("latency"@, metric)
}

/// A format in which every benchmark is one line.
pub trait LineFormat {
    /// The name of the format.
    spec fn adapter() -> JsonAdapter;

    /// What the line of `s` from `lo` up to `hi` is.
    spec fn kind(s: Seq<char>, lo: int, hi: int) -> LineKind;

    /// The name of the format.
    fn name() -> (adapter: JsonAdapter)
        ensures
            adapter == Self::adapter(),
    ;

    /// Says what the line from `lo` up to `hi` is.
    fn read_line(chars: &Vec<char>, lo: usize, hi: usize) -> (kind: LineKind)
        requires
            lo <= hi <= chars.len(),
        ensures
            kind == Self::kind(chars@, lo as int, hi as int),
            kind matches LineKind::Record { from, to, .. } ==> lo <= from <= to <= hi,
    ;
}

/// What the adapter of the format `F` answers when the lines of `s` from
/// `i` on are read after the benchmarks of `found`: the benchmarks of all
/// lines, a later one taking the place of an earlier one of the same name.
/// It fails where the line of a benchmark cannot be read or the name of a
/// benchmark is not well-formed, and where no line is the line of a
/// benchmark.
pub open spec fn lines_from<F: LineFormat>(s: Seq<char>, i: int, found: ResultsView) -> Answer
    decreases s.len() + 1 - i,
    via lines_from_ends::<F>
{
    if i < 0 || i >= s.len() {
        if found == Map::<Seq<char>, Map<Seq<char>, JsonMetric>>::empty() {
            Err(AdapterError::Parse(F::adapter()))
        } else {
            Ok(found)
        }
    } else {
        let end = line_end(s, i);
        match F::kind(s, i, end) {
            LineKind::Noise => lines_from::<F>(s, end + 1, found),
            LineKind::Bad => Err(AdapterError::Parse(F::adapter())),
            LineKind::Record { from, to, metric } => match name_error(
                s.subrange(from as int, to as int),
            ) {
                Some(e) => Err(AdapterError::Name(F::adapter(), e)),
                None => lines_from::<F>(
                    s,
                    end + 1,
                    found.insert(s.subrange(from as int, to as int), latency_only(metric)),
                ),
            },
        }
    }
}

#[via_fn]
proof fn lines_from_ends<F: LineFormat>(s: Seq<char>, i: int, found: ResultsView) {
    if 0 <= i < s.len() {
        lemma_line_end(s, i);
    }
}

/// What the adapter of the format `F` answers to `input`.
pub open spec fn lines_of<F: LineFormat>(input: Seq<char>) -> Answer {
    lines_from::<F>(input, 0, Map::<Seq<char>, Map<Seq<char>, JsonMetric>>::empty())
}

/// Reads the lines of `input` in the format `F`.
pub fn scan<F: LineFormat>(input: &str) -> (r: Outcome)
    ensures
        answer_of(r) == lines_of::<F>(input@),
{
    let chars = chars_of(input);
    let ghost s = input@;
    let mut results = AdapterResults::new();
    let mut i: usize = 0;
    while i < chars.len()
        invariant
            chars@ == s,
            s == input@,
            lines_from::<F>(s, i as int, results@) == lines_of::<F>(s),
        decreases chars.len() - i,
    {
        let end = find_line_end(&chars, i);
        let ghost before = results@;
        let ghost whole = lines_from::<F>(s, i as int, before);
        match F::read_line(&chars, i, end) {
            LineKind::Noise => {
                assert(whole == lines_from::<F>(s, end + 1, before));
            },
            LineKind::Bad => {
                return Err(AdapterError::Parse(F::name()));
            },
            LineKind::Record { from, to, metric } => {
                let name = match BenchmarkName::parse(input.substring_char(from, to)) {
                    Ok(name) => name,
                    Err(e) => {
                        return Err(AdapterError::Name(F::name(), e));
                    },
                };
                let mut metrics = AdapterMetrics::new();
                metrics.insert(NameId::latency(), metric);
                assert(metrics@ == latency_only(metric));
                results.insert(name, metrics);
                assert(whole == lines_from::<F>(s, end + 1, results@));
            },
        }
        assert(end == chars.len() ==> lines_from::<F>(s, end + 1, results@) == lines_from::<F>(
            s,
            end as int,
            results@,
        ));
        i = if end < chars.len() {
            end + 1
        } else {
            end
        };
    }
    if results.is_empty() {
        Err(AdapterError::Parse(F::name()))
    } else {
        Ok(results)
    }
}

} // verus!
