//! Adapters: parsers that turn the output of a benchmark tool into the
//! canonical result model, the selector that tries them in a fixed order of
//! priority, and the dispatch from the name of a format to its parser.

use vstd::prelude::*;
use crate::catch2::AdapterCppCatch2;
use crate::criterion::AdapterRustCriterion;
use crate::go_bench::AdapterGoBench;
use crate::google::AdapterCppGoogle;
use crate::jmh::AdapterJavaJmh;
use crate::json_format::AdapterJson;
use crate::results::{AdapterResults, JsonMetric, ValidError};
use crate::rust_bench::AdapterRustBench;

verus! {

/// The formats that an adapter can be asked for by name.
#[derive(Clone, Copy, Debug, PartialEq, Eq, Structural)]
pub enum JsonAdapter {
    /// Whichever format recognises the input: the selector.
    Magic,
    /// The generic structured format.
    Json,
    /// Any of the formats of C++ tools.
    Cpp,
    CppGoogle,
    CppCatch2,
    /// Any of the formats of Go tools.
    Go,
    GoBench,
    /// Any of the formats of Java tools.
    Java,
    JavaJmh,
    /// Any of the formats of Rust tools.
    Rust,
    RustBench,
    RustCriterion,
}

/// Why an adapter produced no result set.
#[derive(Clone, Copy, Debug, PartialEq, Eq, Structural)]
pub enum AdapterError {
    /// The parser of one format did not recognise the input, or could not
    /// read a number or a unit in a record of it.
    Parse(JsonAdapter),
    /// The parser of one format found a benchmark whose name is not
    /// well-formed.
    Name(JsonAdapter, ValidError),
    /// No parser of the selector `adapter` produced a benchmark: of the
    /// parsers it tried, `failed` did not recognise the input and `empty`
    /// found no benchmark in it.
    NoMatch { adapter: JsonAdapter, failed: usize, empty: usize },
}

/// What a parser hands back: a result set or a failure.
pub type Outcome = Result<AdapterResults, AdapterError>;

/// A result set as mathematics: for each benchmark, by name, the metric
/// of each of its measures, by name.
pub type ResultsView = Map<Seq<char>, Map<Seq<char>, JsonMetric>>;

/// What a parser answers: the result set it found, or a failure.
pub type Answer = Result<ResultsView, AdapterError>;

/// The answer that `outcome` holds.
pub open spec fn answer_of(outcome: Outcome) -> Answer {
    match outcome {
        Ok(results) => Ok(results@),
        Err(e) => Err(e),
    }
}

/// The answers that `outcomes` hold.
pub open spec fn answers_of(outcomes: Seq<Outcome>) -> Seq<Answer> {
    Seq::new(outcomes.len(), |i: int| answer_of(outcomes[i]))
}

/// A parser for one format, or a selector over several. The answer to an
/// input is a function of the input alone: parsing has no side effect, and
/// the same input has the same answer at every call.
pub trait Adapter {
    /// What the adapter answers to `input`.
    spec fn parsed(input: Seq<char>) -> Answer;

    /// What this adapter, asked as a value, answers to `input`.
    spec fn converted(&self, input: Seq<char>) -> Answer;

    /// Parses `input` with the adapter that `self` stands for.
    fn convert(&self, input: &str) -> (r: Outcome)
        ensures
            answer_of(r) == self.converted(input@),
    ;

    /// Parses `input`.
    fn parse(input: &str) -> (r: Outcome)
        ensures
            answer_of(r) == Self::parsed(input@),
    ;
}

/// Whether an answer is one that a selector returns: a result set with at
/// least one benchmark.
pub open spec fn usable(answer: Answer) -> bool {
    answer matches Ok(results) && results != Map::<Seq<char>, Map<Seq<char>, JsonMetric>>::empty()
}

/// Whether an answer is a result set without benchmarks.
pub open spec fn vacant(answer: Answer) -> bool {
    answer matches Ok(results) && results == Map::<Seq<char>, Map<Seq<char>, JsonMetric>>::empty()
}

/// How many of the first `n` answers are result sets without benchmarks.
pub open spec fn vacant_among(outcomes: Seq<Answer>, n: int) -> nat
    decreases n,
{
    if n <= 0 {
        0
    } else {
        vacant_among(outcomes, n - 1) + if vacant(outcomes[n - 1]) {
            1nat
        } else {
            0nat
        }
    }
}

/// How many of the first `n` answers are failures.
pub open spec fn failed_among(outcomes: Seq<Answer>, n: int) -> nat
    decreases n,
{
    if n <= 0 {
        0
    } else {
        failed_among(outcomes, n - 1) + if outcomes[n - 1] is Err {
            1nat
        } else {
            0nat
        }
    }
}

/// Whether `i` is the position of the first usable answer.
pub open spec fn first_usable_at(outcomes: Seq<Answer>, i: int) -> bool {
    &&& 0 <= i < outcomes.len()
    &&& usable(outcomes[i])
    &&& forall|k: int| 0 <= k < i ==> !usable(#[trigger] outcomes[k])
}

/// What a selector answers when its parsers, in its order of priority,
/// answer `outcomes`: the first usable answer; where there is none, the
/// failure that counts the parsers that failed and those that found
/// nothing.
pub open spec fn select(adapter: JsonAdapter, outcomes: Seq<Answer>) -> Answer {
    if exists|i: int| first_usable_at(outcomes, i) {
        outcomes[choose|i: int| first_usable_at(outcomes, i)]
    } else {
        Err(
            AdapterError::NoMatch {
                adapter,
                failed: failed_among(outcomes, outcomes.len() as int) as usize,
                empty: vacant_among(outcomes, outcomes.len() as int) as usize,
            },
        )
    }
}

/// Where an answer is the first usable one, the selector returns it.
pub proof fn lemma_select_first(adapter: JsonAdapter, outcomes: Seq<Answer>, i: int)
    requires
        first_usable_at(outcomes, i),
    ensures
        select(adapter, outcomes) == outcomes[i],
{
    let j = choose|j: int| first_usable_at(outcomes, j);
    if i < j {
        assert(!usable(outcomes[i]));
    } else if j < i {
        assert(!usable(outcomes[j]));
    }
}

/// Where an answer is usable, a first usable answer stands at its
/// position or before it.
pub proof fn lemma_first_usable_exists(outcomes: Seq<Answer>, i: int) -> (k: int)
    requires
        0 <= i < outcomes.len(),
        usable(outcomes[i]),
    ensures
        0 <= k <= i,
        first_usable_at(outcomes, k),
    decreases i,
{
    if exists|j: int| 0 <= j < i && usable(#[trigger] outcomes[j]) {
        let j = choose|j: int| 0 <= j < i && usable(#[trigger] outcomes[j]);
        lemma_first_usable_exists(outcomes, j)
    } else {
        i
    }
}

/// Priority: where two parsers of a selector both have a usable answer,
/// the selector returns the answer of a parser that stands no later in its
/// order than the earlier of the two, and never passes over a usable answer
/// for a later one.
pub proof fn law_priority(adapter: JsonAdapter, outcomes: Seq<Answer>, i: int, j: int) -> (k: int)
    requires
        0 <= i < j < outcomes.len(),
        usable(outcomes[i]),
        usable(outcomes[j]),
    ensures
        0 <= k <= i,
        select(adapter, outcomes) == outcomes[k],
        forall|earlier: int| 0 <= earlier < k ==> !usable(#[trigger] outcomes[earlier]),
        (forall|earlier: int| 0 <= earlier < i ==> !usable(#[trigger] outcomes[earlier]))
            ==> select(adapter, outcomes) == outcomes[i],
{
    let k = lemma_first_usable_exists(outcomes, i);
    lemma_select_first(adapter, outcomes, k);
    if forall|earlier: int| 0 <= earlier < i ==> !usable(#[trigger] outcomes[earlier]) {
        assert(k == i);
    }
    k
}

/// No match: where no parser of a selector has a usable answer, the
/// selector fails, and its failure counts every parser it tried as either
/// failed or empty.
pub proof fn law_no_match(adapter: JsonAdapter, outcomes: Seq<Answer>)
    requires
        forall|i: int| 0 <= i < outcomes.len() ==> !usable(#[trigger] outcomes[i]),
        outcomes.len() <= usize::MAX,
    ensures
        select(adapter, outcomes) matches Err(AdapterError::NoMatch { adapter: a, failed, empty })
            && a == adapter && failed + empty == outcomes.len(),
{
    lemma_tally(outcomes, outcomes.len() as int);
}

proof fn lemma_tally(outcomes: Seq<Answer>, n: int)
    requires
        0 <= n <= outcomes.len(),
        forall|i: int| 0 <= i < outcomes.len() ==> !usable(#[trigger] outcomes[i]),
    ensures
        failed_among(outcomes, n) + vacant_among(outcomes, n) == n,
    decreases n,
{
    if n > 0 {
        lemma_tally(outcomes, n - 1);
        assert(!usable(outcomes[n - 1]));
    }
}

proof fn lemma_among_prefix(a: Seq<Answer>, b: Seq<Answer>, n: int)
    requires
        0 <= n <= a.len() <= b.len(),
        forall|i: int| 0 <= i < a.len() ==> #[trigger] a[i] == b[i],
    ensures
        failed_among(a, n) == failed_among(b, n),
        vacant_among(a, n) == vacant_among(b, n),
    decreases n,
{
    if n > 0 {
        lemma_among_prefix(a, b, n - 1);
        assert(a[n - 1] == b[n - 1]);
    }
}

/// Picks from the answers of the parsers of a selector, given in its order
/// of priority, the one that the selector returns.
pub fn select_outcome(adapter: JsonAdapter, outcomes: Vec<Outcome>) -> (r: Outcome)
    ensures
        answer_of(r) == select(adapter, answers_of(outcomes@)),
{
    let ghost all = answers_of(outcomes@);
    let mut rest = outcomes;
    let mut failed: usize = 0;
    let mut empty: usize = 0;
    let mut i: usize = 0;
    while i < rest.len()
        invariant
            i <= rest.len(),
            rest@ == outcomes@,
            all == answers_of(outcomes@),
            forall|k: int| 0 <= k < i ==> !usable(#[trigger] all[k]),
            failed == failed_among(all, i as int),
            empty == vacant_among(all, i as int),
            failed + empty == i,
        decreases rest.len() - i,
    {
        let found = match &rest[i] {
            Ok(results) => {
                if results.is_empty() {
                    empty += 1;
                    false
                } else {
                    true
                }
            },
            Err(_) => {
                failed += 1;
                false
            },
        };
        if found {
            proof {
                lemma_select_first(adapter, all, i as int);
            }
            return rest.remove(i);
        }
        i += 1;
    }
    proof {
        if exists|k: int| first_usable_at(all, k) {
            let k = choose|k: int| first_usable_at(all, k);
            assert(!usable(all[k]));
        }
    }
    Err(AdapterError::NoMatch { adapter, failed, empty })
}

/// The answers of a selector's parsers so far, none of them usable.
struct Tally {
    adapter: JsonAdapter,
    failed: usize,
    empty: usize,
    seen: Ghost<Seq<Answer>>,
}

impl Tally {
    spec fn ok(&self) -> bool {
        &&& self.failed == failed_among(self.seen@, self.seen@.len() as int)
        &&& self.empty == vacant_among(self.seen@, self.seen@.len() as int)
        &&& self.failed + self.empty == self.seen@.len()
        &&& forall|k: int| 0 <= k < self.seen@.len() ==> !usable(#[trigger] self.seen@[k])
    }

    fn new(adapter: JsonAdapter) -> (t: Tally)
        ensures
            t.ok(),
            t.adapter == adapter,
            t.seen@ == Seq::<Answer>::empty(),
    {
        Tally { adapter, failed: 0, empty: 0, seen: Ghost(Seq::empty()) }
    }

    /// Takes the next answer: hands it back when it is usable, and counts
    /// it otherwise.
    fn offer(&mut self, outcome: Outcome) -> (r: Option<Outcome>)
        requires
            old(self).ok(),
            old(self).seen@.len() < 16,
        ensures
            final(self).adapter == old(self).adapter,
            final(self).seen@ == old(self).seen@.push(answer_of(outcome)),
            usable(answer_of(outcome)) ==> r == Some(outcome) && first_usable_at(
                final(self).seen@,
                old(self).seen@.len() as int,
            ),
            !usable(answer_of(outcome)) ==> r is None && final(self).ok(),
    {
        let ghost before = self.seen@;
        let ghost after = before.push(answer_of(outcome));
        proof {
            lemma_among_prefix(before, after, before.len() as int);
            self.seen = Ghost(after);
        }
        let found = match &outcome {
            Ok(results) => {
                if results.is_empty() {
                    self.empty = self.empty + 1;
                    false
                } else {
                    true
                }
            },
            Err(_) => {
                self.failed = self.failed + 1;
                false
            },
        };
        if found {
            assert forall|k: int| 0 <= k < before.len() implies !usable(#[trigger] after[k]) by {
                assert(after[k] == before[k]);
            }
            Some(outcome)
        } else {
            assert forall|k: int| 0 <= k < after.len() implies !usable(#[trigger] after[k]) by {
                if k < before.len() {
                    assert(after[k] == before[k]);
                }
            }
            None
        }
    }

    /// The failure of a selector none of whose parsers had a usable answer.
    fn none(self) -> (r: Outcome)
        requires
            self.ok(),
        ensures
            answer_of(r) == select(self.adapter, self.seen@),
    {
        proof {
            if exists|k: int| first_usable_at(self.seen@, k) {
                let k = choose|k: int| first_usable_at(self.seen@, k);
                assert(!usable(self.seen@[k]));
            }
        }
        Err(AdapterError::NoMatch { adapter: self.adapter, failed: self.failed, empty: self.empty })
    }
}

proof fn lemma_select_prefix(
    adapter: JsonAdapter,
    part: Seq<Answer>,
    all: Seq<Answer>,
    i: int,
)
    requires
        first_usable_at(part, i),
        part.len() <= all.len(),
        forall|k: int| 0 <= k < part.len() ==> #[trigger] part[k] == all[k],
    ensures
        select(adapter, all) == part[i],
{
    assert(first_usable_at(all, i)) by {
        assert(all[i] == part[i]);
        assert forall|k: int| 0 <= k < i implies !usable(#[trigger] all[k]) by {
            assert(part[k] == all[k]);
        }
    }
    lemma_select_first(adapter, all, i);
}

/// The selector over the formats of Rust tools.
pub struct AdapterRust;

/// The selector over the formats of C++ tools.
pub struct AdapterCpp;

/// The selector over the formats of Go tools.
pub struct AdapterGo;

/// The selector over the formats of Java tools.
pub struct AdapterJava;

/// The selector over every format: the formats of single tools first,
/// those of Rust, C++, Go and Java in that order, and the generic
/// structured format, which is the most permissive, last. The order in
/// full is that of `magic_outcomes`.
pub struct AdapterMagic;

/// What the parsers of the Rust formats answer, in their order of
/// priority.
pub open spec fn rust_outcomes(input: Seq<char>) -> Seq<Answer> {
    seq![AdapterRustBench::parsed(input), AdapterRustCriterion::parsed(input)]
}

/// What the parsers of the C++ formats answer, in their order of priority.
pub open spec fn cpp_outcomes(input: Seq<char>) -> Seq<Answer> {
    seq![AdapterCppGoogle::parsed(input), AdapterCppCatch2::parsed(input)]
}

/// What the parsers of the Go formats answer, in their order of priority.
pub open spec fn go_outcomes(input: Seq<char>) -> Seq<Answer> {
    seq![AdapterGoBench::parsed(input)]
}

/// What the parsers of the Java formats answer, in their order of
/// priority.
pub open spec fn java_outcomes(input: Seq<char>) -> Seq<Answer> {
    seq![AdapterJavaJmh::parsed(input)]
}

/// What the parsers of all formats answer, in the order of priority of
/// the selector over every format.
pub open spec fn magic_outcomes(input: Seq<char>) -> Seq<Answer> {
    seq![
        AdapterRustBench::parsed(input),
        AdapterRustCriterion::parsed(input),
        AdapterCppGoogle::parsed(input),
        AdapterCppCatch2::parsed(input),
        AdapterGoBench::parsed(input),
        AdapterJavaJmh::parsed(input),
        AdapterJson::parsed(input),
    ]
}

impl Adapter for AdapterRust {
    open spec fn parsed(input: Seq<char>) -> Answer {
        select(JsonAdapter::Rust, rust_outcomes(input))
    }

    open spec fn converted(&self, input: Seq<char>) -> Answer {
        Self::parsed(input)
    }

    fn convert(&self, input: &str) -> (r: Outcome) {
        Self::parse(input)
    }

    fn parse(input: &str) -> (r: Outcome) {
        let ghost all = rust_outcomes(input@);
        let mut tally = Tally::new(JsonAdapter::Rust);
        match tally.offer(AdapterRustBench::parse(input)) {
            Some(found) => {
                proof {
                    lemma_select_prefix(JsonAdapter::Rust, tally.seen@, all, 0);
                }
                return found;
            },
            None => {},
        }
        match tally.offer(AdapterRustCriterion::parse(input)) {
            Some(found) => {
                proof {
                    lemma_select_prefix(JsonAdapter::Rust, tally.seen@, all, 1);
                }
                return found;
            },
            None => {},
        }
        assert(tally.seen@ =~= all);
        tally.none()
    }
}

impl Adapter for AdapterCpp {
    open spec fn parsed(input: Seq<char>) -> Answer {
        select(JsonAdapter::Cpp, cpp_outcomes(input))
    }

    open spec fn converted(&self, input: Seq<char>) -> Answer {
        Self::parsed(input)
    }

    fn convert(&self, input: &str) -> (r: Outcome) {
        Self::parse(input)
    }

    fn parse(input: &str) -> (r: Outcome) {
        let ghost all = cpp_outcomes(input@);
        let mut tally = Tally::new(JsonAdapter::Cpp);
        match tally.offer(AdapterCppGoogle::parse(input)) {
            Some(found) => {
                proof {
                    lemma_select_prefix(JsonAdapter::Cpp, tally.seen@, all, 0);
                }
                return found;
            },
            None => {},
        }
        match tally.offer(AdapterCppCatch2::parse(input)) {
            Some(found) => {
                proof {
                    lemma_select_prefix(JsonAdapter::Cpp, tally.seen@, all, 1);
                }
                return found;
            },
            None => {},
        }
        assert(tally.seen@ =~= all);
        tally.none()
    }
}

impl Adapter for AdapterGo {
    open spec fn parsed(input: Seq<char>) -> Answer {
        select(JsonAdapter::Go, go_outcomes(input))
    }

    open spec fn converted(&self, input: Seq<char>) -> Answer {
        Self::parsed(input)
    }

    fn convert(&self, input: &str) -> (r: Outcome) {
        Self::parse(input)
    }

    fn parse(input: &str) -> (r: Outcome) {
        let ghost all = go_outcomes(input@);
        let mut tally = Tally::new(JsonAdapter::Go);
        match tally.offer(AdapterGoBench::parse(input)) {
            Some(found) => {
                proof {
                    lemma_select_prefix(JsonAdapter::Go, tally.seen@, all, 0);
                }
                return found;
            },
            None => {},
        }
        assert(tally.seen@ =~= all);
        tally.none()
    }
}

impl Adapter for AdapterJava {
    open spec fn parsed(input: Seq<char>) -> Answer {
        select(JsonAdapter::Java, java_outcomes(input))
    }

    open spec fn converted(&self, input: Seq<char>) -> Answer {
        Self::parsed(input)
    }

    fn convert(&self, input: &str) -> (r: Outcome) {
        Self::parse(input)
    }

    fn parse(input: &str) -> (r: Outcome) {
        let ghost all = java_outcomes(input@);
        let mut tally = Tally::new(JsonAdapter::Java);
        match tally.offer(AdapterJavaJmh::parse(input)) {
            Some(found) => {
                proof {
                    lemma_select_prefix(JsonAdapter::Java, tally.seen@, all, 0);
                }
                return found;
            },
            None => {},
        }
        assert(tally.seen@ =~= all);
        tally.none()
    }
}

impl Adapter for AdapterMagic {
    open spec fn parsed(input: Seq<char>) -> Answer {
        select(JsonAdapter::Magic, magic_outcomes(input))
    }

    open spec fn converted(&self, input: Seq<char>) -> Answer {
        Self::parsed(input)
    }

    fn convert(&self, input: &str) -> (r: Outcome) {
        Self::parse(input)
    }

    fn parse(input: &str) -> (r: Outcome) {
        let ghost all = magic_outcomes(input@);
        let mut tally = Tally::new(JsonAdapter::Magic);
        match tally.offer(AdapterRustBench::parse(input)) {
            Some(found) => {
                proof {
                    lemma_select_prefix(JsonAdapter::Magic, tally.seen@, all, 0);
                }
                return found;
            },
            None => {},
        }
        match tally.offer(AdapterRustCriterion::parse(input)) {
            Some(found) => {
                proof {
                    lemma_select_prefix(JsonAdapter::Magic, tally.seen@, all, 1);
                }
                return found;
            },
            None => {},
        }
        match tally.offer(AdapterCppGoogle::parse(input)) {
            Some(found) => {
                proof {
                    lemma_select_prefix(JsonAdapter::Magic, tally.seen@, all, 2);
                }
                return found;
            },
            None => {},
        }
        match tally.offer(AdapterCppCatch2::parse(input)) {
            Some(found) => {
                proof {
                    lemma_select_prefix(JsonAdapter::Magic, tally.seen@, all, 3);
                }
                return found;
            },
            None => {},
        }
        match tally.offer(AdapterGoBench::parse(input)) {
            Some(found) => {
                proof {
                    lemma_select_prefix(JsonAdapter::Magic, tally.seen@, all, 4);
                }
                return found;
            },
            None => {},
        }
        match tally.offer(AdapterJavaJmh::parse(input)) {
            Some(found) => {
                proof {
                    lemma_select_prefix(JsonAdapter::Magic, tally.seen@, all, 5);
                }
                return found;
            },
            None => {},
        }
        match tally.offer(AdapterJson::parse(input)) {
            Some(found) => {
                proof {
                    lemma_select_prefix(JsonAdapter::Magic, tally.seen@, all, 6);
                }
                return found;
            },
            None => {},
        }
        assert(tally.seen@ =~= all);
        tally.none()
    }
}

/// The selector is deterministic: whatever it hands back for an input,
/// at whatever call, holds the one answer that belongs to the input.
pub proof fn law_selector_deterministic(input: Seq<char>, first: Outcome, second: Outcome)
    requires
        answer_of(first) == AdapterMagic::parsed(input),
        answer_of(second) == AdapterMagic::parsed(input),
    ensures
        answer_of(first) == answer_of(second),
{
}

/// The selector follows its order of priority: where the parsers at the
/// places `i` and `j` of its order, `i` before `j`, both find benchmarks in
/// an input, the selector answers with what a parser at a place no later
/// than `i` found, and every parser before that place found none.
pub proof fn law_selector_priority(input: Seq<char>, i: int, j: int) -> (k: int)
    requires
        0 <= i < j < magic_outcomes(input).len(),
        usable(magic_outcomes(input)[i]),
        usable(magic_outcomes(input)[j]),
    ensures
        0 <= k <= i,
        AdapterMagic::parsed(input) == magic_outcomes(input)[k],
        forall|earlier: int| 0 <= earlier < k ==> !usable(#[trigger] magic_outcomes(input)[earlier]),
{
    law_priority(JsonAdapter::Magic, magic_outcomes(input), i, j)
}

/// Where no parser finds a benchmark in an input, the selector fails, and
/// its failure counts all seven parsers.
pub proof fn law_selector_no_match(input: Seq<char>)
    requires
        forall|i: int|
            0 <= i < magic_outcomes(input).len() ==> !usable(#[trigger] magic_outcomes(input)[i]),
    ensures
        AdapterMagic::parsed(input) matches Err(
            AdapterError::NoMatch { adapter: JsonAdapter::Magic, failed, empty },
        ) && failed + empty == 7,
{
    law_no_match(JsonAdapter::Magic, magic_outcomes(input));
}

impl Adapter for JsonAdapter {
    open spec fn parsed(input: Seq<char>) -> Answer {
        AdapterMagic::parsed(input)
    }

    open spec fn converted(&self, input: Seq<char>) -> Answer {
        match *self {
            JsonAdapter::Magic => AdapterMagic::parsed(input),
            JsonAdapter::Json => AdapterJson::parsed(input),
            JsonAdapter::Cpp => AdapterCpp::parsed(input),
            JsonAdapter::CppGoogle => AdapterCppGoogle::parsed(input),
            JsonAdapter::CppCatch2 => AdapterCppCatch2::parsed(input),
            JsonAdapter::Go => AdapterGo::parsed(input),
            JsonAdapter::GoBench => AdapterGoBench::parsed(input),
            JsonAdapter::Java => AdapterJava::parsed(input),
            JsonAdapter::JavaJmh => AdapterJavaJmh::parsed(input),
            JsonAdapter::Rust => AdapterRust::parsed(input),
            JsonAdapter::RustBench => AdapterRustBench::parsed(input),
            JsonAdapter::RustCriterion => AdapterRustCriterion::parsed(input),
        }
    }

    fn convert(&self, input: &str) -> (r: Outcome) {
        match self {
            JsonAdapter::Magic => AdapterMagic::parse(input),
            JsonAdapter::Json => AdapterJson::parse(input),
            JsonAdapter::Cpp => AdapterCpp::parse(input),
            JsonAdapter::CppGoogle => AdapterCppGoogle::parse(input),
            JsonAdapter::CppCatch2 => AdapterCppCatch2::parse(input),
            JsonAdapter::Go => AdapterGo::parse(input),
            JsonAdapter::GoBench => AdapterGoBench::parse(input),
            JsonAdapter::Java => AdapterJava::parse(input),
            JsonAdapter::JavaJmh => AdapterJavaJmh::parse(input),
            JsonAdapter::Rust => AdapterRust::parse(input),
            JsonAdapter::RustBench => AdapterRustBench::parse(input),
            JsonAdapter::RustCriterion => AdapterRustCriterion::parse(input),
        }
    }

    fn parse(input: &str) -> (r: Outcome) {
        AdapterMagic::parse(input)
    }
}

} // verus!
