//! The adapter for the output of Catch2. A benchmark is three lines: its
//! name with the count of its samples, the count of its iterations and the
//! time its run was estimated to take; its mean with the limits of the
//! mean; and its standard deviation with the limits of the deviation.
//!
//! ```text
//! Fibonacci 20                                   100             1     2.4921 ms
//!                                         24.604 us     24.59 us    24.634 us
//!                                         94.106 ns     40.214 ns    202.99 ns
//! ```
//!
//! It reports a latency in nanoseconds, the mean, with limits one standard
//! deviation below and above it. Every other line is passed over.

use vstd::prelude::*;
use vstd::string::*;
use crate::adapter::{Adapter, AdapterError, Answer, JsonAdapter, Outcome, ResultsView};
use crate::criterion::{read_time, time_value};
use crate::lines::latency_only;
use crate::results::{name_error, AdapterMetrics, AdapterResults, BenchmarkName, JsonMetric, NameId};
use crate::text::{
    chars_of, find_line_end, lemma_line_end, line_end, number_value, read_number, same_words,
    split_words, words_of,
};

verus! {

/// Whether the words `words` of `s` are the first line of a benchmark: at
/// least five words, of which the last four are two numbers and a time.
pub open spec fn is_head(s: Seq<char>, words: Seq<(int, int)>) -> bool {
    let n = words.len() as int;
    &&& n >= 5
    &&& number_value(s, words[n - 4].0, words[n - 4].1) is Some
    &&& number_value(s, words[n - 3].0, words[n - 3].1) is Some
    &&& time_value(s, words[n - 2], words[n - 1]) is Some
}

/// The first of the three times that the words `words` of `s` are; nothing
/// where they are not just three times.
pub open spec fn first_of_three(s: Seq<char>, words: Seq<(int, int)>) -> Option<int> {
    if words.len() == 6 && time_value(s, words[2], words[3]) is Some && time_value(
        s,
        words[4],
        words[5],
    ) is Some {
        time_value(s, words[0], words[1])
    } else {
        None
    }
}

/// What the adapter answers when the lines of `s` from `i` on are read
/// after the benchmarks of `found`: the benchmarks of all lines, a later
/// one taking the place of an earlier one of the same name. It fails where
/// the two lines behind the first line of a benchmark are missing or cannot
/// be read, where the name of a benchmark is not well-formed, and where no
/// line is the first line of a benchmark.
pub open spec fn catch2_from(s: Seq<char>, i: int, found: ResultsView) -> Answer
    decreases s.len() + 1 - i,
    via catch2_from_ends
{
    if i < 0 || i >= s.len() {
        if found == Map::<Seq<char>, Map<Seq<char>, JsonMetric>>::empty() {
            Err(AdapterError::Parse(JsonAdapter::CppCatch2))
        } else {
            Ok(found)
        }
    } else {
        let first = line_end(s, i);
        let head = words_of(s, i, first);
        if !is_head(s, head) {
            catch2_from(s, first + 1, found)
        } else if first >= s.len() {
            Err(AdapterError::Parse(JsonAdapter::CppCatch2))
        } else {
            let second = line_end(s, first + 1);
            let third = line_end(s, second + 1);
            match (
                first_of_three(s, words_of(s, first + 1, second)),
                first_of_three(s, words_of(s, second + 1, third)),
            ) {
                (Some(mean), Some(deviation)) => {
                    let name = s.subrange(head[0].0, head[head.len() - 5].1);
                    match name_error(name) {
                        Some(e) => Err(AdapterError::Name(JsonAdapter::CppCatch2, e)),
                        None => catch2_from(
                            s,
                            third + 1,
                            found.insert(
                                name,
                                latency_only(
                                    JsonMetric {
                                        value: mean as i64,
                                        lower_value: Some((mean - deviation) as i64),
                                        upper_value: Some((mean + deviation) as i64),
                                    },
                                ),
                            ),
                        ),
                    }
                },
                _ => Err(AdapterError::Parse(JsonAdapter::CppCatch2)),
            }
        }
    }
}

#[via_fn]
proof fn catch2_from_ends(s: Seq<char>, i: int, found: ResultsView) {
    if 0 <= i < s.len() {
        lemma_line_end(s, i);
        let first = line_end(s, i);
        if first < s.len() {
            lemma_line_end(s, first + 1);
            let second = line_end(s, first + 1);
            if second < s.len() {
                lemma_line_end(s, second + 1);
            }
        }
    }
}

/// Whether the words are the first line of a benchmark.
fn head_line(chars: &Vec<char>, words: &Vec<(usize, usize)>, Ghost(positions): Ghost<Seq<(int, int)>>) -> (b:
    bool)
    requires
        same_words(words@, positions),
        forall|k: int| 0 <= k < words.len() ==> (#[trigger] words[k]).0 <= words[k].1 <= chars.len(),
    ensures
        b == is_head(chars@, positions),
{
    let n = words.len();
    if n < 5 {
        return false;
    }
    let samples = words[n - 4];
    let iterations = words[n - 3];
    if read_number(chars, samples.0, samples.1).is_none() {
        return false;
    }
    if read_number(chars, iterations.0, iterations.1).is_none() {
        return false;
    }
    read_time(chars, words[n - 2], words[n - 1]).is_some()
}

/// The first of the three times that the words are.
fn three_times(chars: &Vec<char>, words: &Vec<(usize, usize)>, Ghost(positions): Ghost<Seq<(int, int)>>) -> (r:
    Option<i64>)
    requires
        same_words(words@, positions),
        forall|k: int| 0 <= k < words.len() ==> (#[trigger] words[k]).0 <= words[k].1 <= chars.len(),
    ensures
        match r {
            Some(t) => first_of_three(chars@, positions) == Some(t as int) && 0 <= t
                <= crate::criterion::MAX_TIME,
            None => first_of_three(chars@, positions) is None,
        },
{
    if words.len() != 6 {
        return None;
    }
    if read_time(chars, words[2], words[3]).is_none() {
        return None;
    }
    if read_time(chars, words[4], words[5]).is_none() {
        return None;
    }
    read_time(chars, words[0], words[1])
}

/// The adapter for the output of Catch2.
pub struct AdapterCppCatch2;

impl Adapter for AdapterCppCatch2 {
    open spec fn parsed(input: Seq<char>) -> Answer {
        catch2_from(input, 0, Map::<Seq<char>, Map<Seq<char>, JsonMetric>>::empty())
    }

    open spec fn converted(&self, input: Seq<char>) -> Answer {
        Self::parsed(input)
    }

    fn convert(&self, input: &str) -> (r: Outcome) {
        Self::parse(input)
    }

    fn parse(input: &str) -> (r: Outcome) {
        let chars = chars_of(input);
        let ghost s = input@;
        let mut results = AdapterResults::new();
        let mut i: usize = 0;
        while i < chars.len()
            invariant
                chars@ == s,
                s == input@,
                catch2_from(s, i as int, results@) == catch2_from(
                    s,
                    0,
                    Map::<Seq<char>, Map<Seq<char>, JsonMetric>>::empty(),
                ),
            decreases chars.len() - i,
        {
            let ghost whole = catch2_from(s, i as int, results@);
            let first = find_line_end(&chars, i);
            let head = split_words(&chars, i, first);
            let ghost head_positions = words_of(s, i as int, first as int);
            if !head_line(&chars, &head, Ghost(head_positions)) {
                assert(whole == catch2_from(s, first + 1, results@));
                assert(first == chars.len() ==> catch2_from(s, first + 1, results@) == catch2_from(
                    s,
                    first as int,
                    results@,
                ));
                i = if first < chars.len() {
                    first + 1
                } else {
                    first
                };
            } else {
                if first >= chars.len() {
                    return Err(AdapterError::Parse(JsonAdapter::CppCatch2));
                }
                let second = find_line_end(&chars, first + 1);
                let mean_words = split_words(&chars, first + 1, second);
                let mean = match three_times(
                    &chars,
                    &mean_words,
                    Ghost(words_of(s, first + 1, second as int)),
                ) {
                    Some(mean) => mean,
                    None => {
                        return Err(AdapterError::Parse(JsonAdapter::CppCatch2));
                    },
                };
                if second >= chars.len() {
                    proof {
                        // no line stands behind the end of the text
                        assert(line_end(s, second + 1) == second + 1);
                        assert(words_of(s, second + 1, second + 1).len() == 0);
                    }
                    return Err(AdapterError::Parse(JsonAdapter::CppCatch2));
                }
                let third = find_line_end(&chars, second + 1);
                let deviation_words = split_words(&chars, second + 1, third);
                let deviation = match three_times(
                    &chars,
                    &deviation_words,
                    Ghost(words_of(s, second + 1, third as int)),
                ) {
                    Some(deviation) => deviation,
                    None => {
                        return Err(AdapterError::Parse(JsonAdapter::CppCatch2));
                    },
                };
                let from = head[0].0;
                let to = head[head.len() - 5].1;
                let name = match BenchmarkName::parse(input.substring_char(from, to)) {
                    Ok(name) => name,
                    Err(e) => {
                        return Err(AdapterError::Name(JsonAdapter::CppCatch2, e));
                    },
                };
                let metric = JsonMetric {
                    value: mean,
                    lower_value: Some(mean - deviation),
                    upper_value: Some(mean + deviation),
                };
                let mut metrics = AdapterMetrics::new();
                metrics.insert(NameId::latency(), metric);
                assert(metrics@ == latency_only(metric));
                results.insert(name, metrics);
                assert(whole == catch2_from(s, third + 1, results@));
                assert(third == chars.len() ==> catch2_from(s, third + 1, results@) == catch2_from(
                    s,
                    third as int,
                    results@,
                ));
                i = if third < chars.len() {
                    third + 1
                } else {
                    third
                };
            }
        }
        if results.is_empty() {
            Err(AdapterError::Parse(JsonAdapter::CppCatch2))
        } else {
            Ok(results)
        }
    }
}

} // verus!
