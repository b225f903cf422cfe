//! The canonical result model: what every adapter produces. A result set
//! maps the name of a benchmark to its metrics, and the metrics of one
//! benchmark map the name of a measure to the values measured.

use vstd::prelude::*;
use vstd::string::*;

verus! {

/// Longest name, in characters, that a benchmark or a measure can have.
pub const MAX_NAME_LEN: usize = 1024;

/// Why a name is not well-formed.
#[derive(Clone, Copy, Debug, PartialEq, Eq, Structural)]
pub enum ValidError {
    /// The name has no characters.
    Empty,
    /// The name has more than `MAX_NAME_LEN` characters.
    TooLong,
    /// The name holds a control character.
    ControlCharacter,
    /// The name begins or ends with the separator `::`, or has two
    /// separators in a row.
    EmptySegment,
}

/// Whether `c` is a control character.
pub open spec fn is_control(c: char) -> bool {
    (c as u32) < 32 || c as u32 == 127
}

/// Whether the separator `::` stands at position `i` of `name`.
pub open spec fn separator_at(name: Seq<char>, i: int) -> bool {
    0 <= i && i + 1 < name.len() && name[i] == ':' && name[i + 1] == ':'
}

/// Whether one of the segments that the separators cut `name` into is
/// empty.
pub open spec fn has_empty_segment(name: Seq<char>) -> bool {
    ||| separator_at(name, 0)
    ||| separator_at(name, name.len() - 2)
    ||| exists|i: int| #[trigger] separator_at(name, i) && separator_at(name, i + 2)
}

/// What is wrong with `name`, if anything: the first that applies of
/// being empty, being too long, holding a control character, and having an
/// empty segment.
pub open spec fn name_error(name: Seq<char>) -> Option<ValidError> {
    if name.len() == 0 {
        Some(ValidError::Empty)
    } else if name.len() > MAX_NAME_LEN {
        Some(ValidError::TooLong)
    } else if exists|i: int| 0 <= i < name.len() && is_control(#[trigger] name[i]) {
        Some(ValidError::ControlCharacter)
    } else if has_empty_segment(name) {
        Some(ValidError::EmptySegment)
    } else {
        None
    }
}

/// Checks a name and says what is wrong with it, if anything.
pub fn check_name(name: &str) -> (r: Option<ValidError>)
    ensures
        r == name_error(name@),
{
    let n = name.unicode_len();
    if n == 0 {
        return Some(ValidError::Empty);
    }
    if n > MAX_NAME_LEN {
        return Some(ValidError::TooLong);
    }
    let mut i: usize = 0;
    while i < n
        invariant
            i <= n,
            1 <= n <= MAX_NAME_LEN,
            n == name@.len(),
            forall|k: int| 0 <= k < i ==> !is_control(#[trigger] name@[k]),
        decreases n - i,
    {
        let c = name.get_char(i);
        if (c as u32) < 32 || c as u32 == 127 {
            assert(is_control(name@[i as int]));
            return Some(ValidError::ControlCharacter);
        }
        i += 1;
    }
    // separators: one at the start, one at the end, or two in a row
    let mut previous: bool = false;
    let mut before: bool = false;
    let mut j: usize = 0;
    while j + 1 < n
        invariant
            j < n,
            1 <= n <= MAX_NAME_LEN,
            n == name@.len(),
            forall|k: int| 0 <= k < n ==> !is_control(#[trigger] name@[k]),
            previous == (j >= 1 && separator_at(name@, j - 1)),
            before == (j >= 2 && separator_at(name@, j - 2)),
            !separator_at(name@, 0) || j == 0,
            !separator_at(name@, n - 2) || j + 2 <= n,
            forall|k: int|
                0 <= k && k + 2 < j ==> !(#[trigger] separator_at(name@, k) && separator_at(
                    name@,
                    k + 2,
                )),
        decreases n - j,
    {
        let here = name.get_char(j) == ':' && name.get_char(j + 1) == ':';
        if here && (j == 0 || j + 2 == n || before) {
            assert(separator_at(name@, j as int));
            assert(has_empty_segment(name@)) by {
                if j != 0 && j + 2 != n {
                    assert(separator_at(name@, j - 2) && separator_at(name@, j - 2 + 2));
                }
            }
            return Some(ValidError::EmptySegment);
        }
        before = previous;
        previous = here;
        j += 1;
    }
    assert(!has_empty_segment(name@)) by {
        assert forall|k: int| #[trigger] separator_at(name@, k) && separator_at(name@, k + 2)
            implies false by {
            assert(k + 3 < n);
        }
    }
    None
}

/// The name of a benchmark: one unit of work that a tool has measured.
#[derive(Debug)]
pub struct BenchmarkName {
    name: String,
}

impl View for BenchmarkName {
    type V = Seq<char>;

    closed spec fn view(&self) -> Seq<char> {
        self.name@
    }
}

impl BenchmarkName {
    #[verifier::type_invariant]
    spec fn well_formed(&self) -> bool {
        name_error(self.name@) is None
    }

    /// Takes `name` as the name of a benchmark when it is well-formed.
    pub fn parse(name: &str) -> (r: Result<BenchmarkName, ValidError>)
        ensures
            match name_error(name@) {
                Some(e) => r == Err::<BenchmarkName, ValidError>(e),
                None => r is Ok && r->Ok_0@ == name@,
            },
    {
        match check_name(name) {
            Some(e) => Err(e),
            None => Ok(BenchmarkName { name: String::from_str(name) }),
        }
    }

    /// The name as text.
    pub fn as_str(&self) -> (s: &str)
        ensures
            s@ == self@,
            name_error(s@) is None,
    {
        proof {
            use_type_invariant(self);
        }
        self.name.as_str()
    }

    /// A copy of the name.
    pub fn duplicate(&self) -> (r: BenchmarkName)
        ensures
            r@ == self@,
    {
        proof {
            use_type_invariant(self);
        }
        BenchmarkName { name: self.name.clone() }
    }

    /// Whether two names are the same text.
    pub fn same_as(&self, other: &BenchmarkName) -> (b: bool)
        ensures
            b == (self@ == other@),
    {
        self.name == other.name
    }
}

/// The name of a measure: one dimension, such as latency, in which a
/// benchmark is measured.
#[derive(Debug)]
pub struct NameId {
    name: String,
}

impl View for NameId {
    type V = Seq<char>;

    closed spec fn view(&self) -> Seq<char> {
        self.name@
    }
}

impl NameId {
    #[verifier::type_invariant]
    spec fn well_formed(&self) -> bool {
        name_error(self.name@) is None
    }

    /// The name of the measure of latency.
    pub fn latency() -> (r: NameId)
        ensures
            r@ == "latency"@,
    {
        proof {
            reveal_strlit("latency");
            let name = "latency"@;
            assert(name.len() == 7);
            assert(!has_empty_segment(name)) by {
                assert forall|i: int| !(#[trigger] separator_at(name, i)) by {
                    if 0 <= i < 6 {
                        assert(name[i] != ':');
                    }
                }
            }
            assert(name_error(name) is None);
        }
        NameId { name: String::from_str("latency") }
    }

    /// Takes `name` as the name of a measure when it is well-formed.
    pub fn parse(name: &str) -> (r: Result<NameId, ValidError>)
        ensures
            match name_error(name@) {
                Some(e) => r == Err::<NameId, ValidError>(e),
                None => r is Ok && r->Ok_0@ == name@,
            },
    {
        match check_name(name) {
            Some(e) => Err(e),
            None => Ok(NameId { name: String::from_str(name) }),
        }
    }

    /// The name as text.
    pub fn as_str(&self) -> (s: &str)
        ensures
            s@ == self@,
            name_error(s@) is None,
    {
        proof {
            use_type_invariant(self);
        }
        self.name.as_str()
    }

    /// A copy of the name.
    pub fn duplicate(&self) -> (r: NameId)
        ensures
            r@ == self@,
    {
        proof {
            use_type_invariant(self);
        }
        NameId { name: self.name.clone() }
    }

    /// Whether two names are the same text.
    pub fn same_as(&self, other: &NameId) -> (b: bool)
        ensures
            b == (self@ == other@),
    {
        self.name == other.name
    }
}

/// One measured value with the limits that go with it. Every magnitude is
/// a fixed-point number with three fractional digits: the integer held is
/// the magnitude times one thousand.
#[derive(Clone, Copy, Debug, PartialEq, Eq, Structural)]
pub struct JsonMetric {
    pub value: i64,
    pub lower_value: Option<i64>,
    pub upper_value: Option<i64>,
}

/// The metrics of one benchmark: for each measure, by name, what was
/// measured.
#[derive(Debug)]
pub struct AdapterMetrics {
    inner: Vec<(NameId, JsonMetric)>,
}

/// Whether no two of the entries have the same name.
spec fn distinct_measures(entries: Seq<(NameId, JsonMetric)>) -> bool {
    forall|i: int, j: int|
        0 <= i < j < entries.len() ==> (#[trigger] entries[i]).0@ != (#[trigger] entries[j]).0@
}

/// The position of the entry called `name`.
spec fn measure_position(entries: Seq<(NameId, JsonMetric)>, name: Seq<char>) -> int {
    choose|i: int| 0 <= i < entries.len() && (#[trigger] entries[i]).0@ == name
}

/// Whether an entry is called `name`.
spec fn has_measure(entries: Seq<(NameId, JsonMetric)>, name: Seq<char>) -> bool {
    exists|i: int| 0 <= i < entries.len() && (#[trigger] entries[i]).0@ == name
}

proof fn lemma_measure_position(entries: Seq<(NameId, JsonMetric)>, i: int)
    requires
        distinct_measures(entries),
        0 <= i < entries.len(),
    ensures
        has_measure(entries, entries[i].0@),
        measure_position(entries, entries[i].0@) == i,
{
    let j = measure_position(entries, entries[i].0@);
    if i < j {
        assert(entries[i].0@ != entries[j].0@);
    } else if j < i {
        assert(entries[j].0@ != entries[i].0@);
    }
}

impl View for AdapterMetrics {
    type V = Map<Seq<char>, JsonMetric>;

    closed spec fn view(&self) -> Map<Seq<char>, JsonMetric> {
        Map::new(
            |name: Seq<char>| has_measure(self.inner@, name),
            |name: Seq<char>| self.inner@[measure_position(self.inner@, name)].1,
        )
    }
}

impl AdapterMetrics {
    #[verifier::type_invariant]
    spec fn well_formed(&self) -> bool {
        distinct_measures(self.inner@)
    }

    /// How many measures there are.
    pub closed spec fn count(&self) -> nat {
        self.inner@.len()
    }

    /// The metrics of a benchmark that nothing was measured of.
    pub fn new() -> (r: AdapterMetrics)
        ensures
            r@ == Map::<Seq<char>, JsonMetric>::empty(),
            r.count() == 0,
    {
        let r = AdapterMetrics { inner: Vec::new() };
        assert(r@ =~= Map::<Seq<char>, JsonMetric>::empty());
        r
    }

    /// How many measures there are.
    pub fn len(&self) -> (n: usize)
        ensures
            n == self.count(),
            n == 0 <==> self@ == Map::<Seq<char>, JsonMetric>::empty(),
    {
        proof {
            use_type_invariant(self);
            if self.inner@.len() > 0 {
                lemma_measure_position(self.inner@, 0);
                assert(self@.contains_key(self.inner@[0].0@));
            } else {
                assert(self@ =~= Map::<Seq<char>, JsonMetric>::empty());
            }
        }
        self.inner.len()
    }

    fn position(&self, measure: &NameId) -> (r: Option<usize>)
        ensures
            match r {
                Some(i) => i < self.inner@.len() && self.inner@[i as int].0@ == measure@,
                None => !has_measure(self.inner@, measure@),
            },
    {
        let mut i: usize = 0;
        while i < self.inner.len()
            invariant
                i <= self.inner@.len(),
                forall|k: int| 0 <= k < i ==> (#[trigger] self.inner@[k]).0@ != measure@,
            decreases self.inner@.len() - i,
        {
            if self.inner[i].0.same_as(measure) {
                return Some(i);
            }
            i += 1;
        }
        None
    }

    /// The names of the measures, each once.
    pub fn names(&self) -> (names: Vec<NameId>)
        ensures
            names.len() == self.count(),
            forall|i: int| 0 <= i < names.len() ==> self@.contains_key(#[trigger] names[i]@),
            forall|name: Seq<char>|
                self@.contains_key(name) ==> exists|i: int|
                    0 <= i < names.len() && #[trigger] names[i]@ == name,
            forall|i: int, j: int|
                0 <= i < j < names.len() ==> (#[trigger] names[i])@ != (#[trigger] names[j])@,
    {
        proof {
            use_type_invariant(self);
        }
        let mut names: Vec<NameId> = Vec::new();
        let mut i: usize = 0;
        while i < self.inner.len()
            invariant
                i <= self.inner@.len(),
                names.len() == i,
                distinct_measures(self.inner@),
                forall|k: int| 0 <= k < i ==> (#[trigger] names[k])@ == self.inner@[k].0@,
            decreases self.inner@.len() - i,
        {
            names.push(self.inner[i].0.duplicate());
            i += 1;
        }
        proof {
            assert forall|k: int| 0 <= k < names.len() implies self@.contains_key(
                #[trigger] names[k]@,
            ) by {
                lemma_measure_position(self.inner@, k);
            }
            assert forall|name: Seq<char>| self@.contains_key(name) implies exists|k: int|
                0 <= k < names.len() && #[trigger] names[k]@ == name by {
                let q = measure_position(self.inner@, name);
                assert(names[q]@ == name);
            }
        }
        names
    }

    /// What was measured of `measure`, if anything.
    pub fn get(&self, measure: &NameId) -> (r: Option<JsonMetric>)
        ensures
            r == (if self@.contains_key(measure@) {
                Some(self@[measure@])
            } else {
                None
            }),
    {
        proof {
            use_type_invariant(self);
        }
        match self.position(measure) {
            Some(i) => {
                proof {
                    lemma_measure_position(self.inner@, i as int);
                }
                Some(self.inner[i].1)
            },
            None => None,
        }
    }

    /// Sets what was measured of `measure`, and answers what was there
    /// before.
    pub fn insert(&mut self, measure: NameId, metric: JsonMetric) -> (previous: Option<JsonMetric>)
        ensures
            final(self)@ == old(self)@.insert(measure@, metric),
            previous == (if old(self)@.contains_key(measure@) {
                Some(old(self)@[measure@])
            } else {
                None
            }),
            final(self).count() == old(self).count() + (if old(self)@.contains_key(measure@) {
                0nat
            } else {
                1nat
            }),
    {
        proof {
            use_type_invariant(&*self);
        }
        let ghost before = self.inner@;
        let ghost name = measure@;
        match self.position(&measure) {
            Some(i) => {
                proof {
                    lemma_measure_position(before, i as int);
                }
                let previous = self.inner[i].1;
                let mut entries: Vec<(NameId, JsonMetric)> = Vec::new();
                core::mem::swap(&mut self.inner, &mut entries);
                entries.set(i, (measure, metric));
                self.inner = entries;
                proof {
                    let after = self.inner@;
                    assert(distinct_measures(after)) by {
                        assert forall|a: int, b: int| 0 <= a < b < after.len() implies (
                        #[trigger] after[a]).0@ != (#[trigger] after[b]).0@ by {
                            assert(after[a].0@ == before[a].0@);
                            assert(after[b].0@ == before[b].0@);
                        }
                    }
                    assert(self@ =~= old(self)@.insert(name, metric)) by {
                        assert forall|k: Seq<char>| has_measure(after, k) <==> has_measure(
                            before,
                            k,
                        ) || k == name by {
                            if has_measure(after, k) {
                                let q = measure_position(after, k);
                                assert(before[q].0@ == after[q].0@);
                            }
                            if has_measure(before, k) {
                                let q = measure_position(before, k);
                                assert(after[q].0@ == before[q].0@);
                            }
                            if k == name {
                                assert(after[i as int].0@ == name);
                            }
                        }
                        assert forall|k: Seq<char>| has_measure(after, k) implies after[measure_position(
                            after,
                            k,
                        )].1 == (if k == name {
                            metric
                        } else {
                            before[measure_position(before, k)].1
                        }) by {
                            let q = measure_position(after, k);
                            assert(after[q].0@ == before[q].0@);
                            lemma_measure_position(before, q);
                        }
                    }
                }
                Some(previous)
            },
            None => {
                let mut entries: Vec<(NameId, JsonMetric)> = Vec::new();
                core::mem::swap(&mut self.inner, &mut entries);
                entries.push((measure, metric));
                self.inner = entries;
                proof {
                    let after = self.inner@;
                    let last = before.len() as int;
                    assert(distinct_measures(after)) by {
                        assert forall|a: int, b: int| 0 <= a < b < after.len() implies (
                        #[trigger] after[a]).0@ != (#[trigger] after[b]).0@ by {
                            assert(after[a] == before[a]);
                            if b < last {
                                assert(after[b] == before[b]);
                            }
                        }
                    }
                    assert(self@ =~= old(self)@.insert(name, metric)) by {
                        assert forall|k: Seq<char>| has_measure(after, k) <==> has_measure(
                            before,
                            k,
                        ) || k == name by {
                            if has_measure(after, k) {
                                let q = measure_position(after, k);
                                if q < last {
                                    assert(before[q] == after[q]);
                                }
                            }
                            if has_measure(before, k) {
                                let q = measure_position(before, k);
                                assert(after[q] == before[q]);
                            }
                            if k == name {
                                assert(after[last].0@ == name);
                            }
                        }
                        assert forall|k: Seq<char>| has_measure(after, k) implies after[measure_position(
                            after,
                            k,
                        )].1 == (if k == name {
                            metric
                        } else {
                            before[measure_position(before, k)].1
                        }) by {
                            let q = measure_position(after, k);
                            if q < last {
                                assert(after[q] == before[q]);
                                lemma_measure_position(before, q);
                            }
                        }
                    }
                }
                None
            },
        }
    }
}

/// A result set: for each benchmark, by name, its metrics. A set without
/// entries says that no benchmark was found.
#[derive(Debug)]
pub struct AdapterResults {
    inner: Vec<(BenchmarkName, AdapterMetrics)>,
}

/// Whether no two of the entries have the same name.
spec fn distinct_benchmarks(entries: Seq<(BenchmarkName, AdapterMetrics)>) -> bool {
    forall|i: int, j: int|
        0 <= i < j < entries.len() ==> (#[trigger] entries[i]).0@ != (#[trigger] entries[j]).0@
}

/// The position of the entry called `name`.
spec fn benchmark_position(entries: Seq<(BenchmarkName, AdapterMetrics)>, name: Seq<char>) -> int {
    choose|i: int| 0 <= i < entries.len() && (#[trigger] entries[i]).0@ == name
}

/// Whether an entry is called `name`.
spec fn has_benchmark(entries: Seq<(BenchmarkName, AdapterMetrics)>, name: Seq<char>) -> bool {
    exists|i: int| 0 <= i < entries.len() && (#[trigger] entries[i]).0@ == name
}

proof fn lemma_benchmark_position(entries: Seq<(BenchmarkName, AdapterMetrics)>, i: int)
    requires
        distinct_benchmarks(entries),
        0 <= i < entries.len(),
    ensures
        has_benchmark(entries, entries[i].0@),
        benchmark_position(entries, entries[i].0@) == i,
{
    let j = benchmark_position(entries, entries[i].0@);
    if i < j {
        assert(entries[i].0@ != entries[j].0@);
    } else if j < i {
        assert(entries[j].0@ != entries[i].0@);
    }
}

impl View for AdapterResults {
    type V = Map<Seq<char>, Map<Seq<char>, JsonMetric>>;

    closed spec fn view(&self) -> Map<Seq<char>, Map<Seq<char>, JsonMetric>> {
        Map::new(
            |name: Seq<char>| has_benchmark(self.inner@, name),
            |name: Seq<char>| self.inner@[benchmark_position(self.inner@, name)].1@,
        )
    }
}

impl AdapterResults {
    #[verifier::type_invariant]
    spec fn well_formed(&self) -> bool {
        distinct_benchmarks(self.inner@)
    }

    /// How many benchmarks there are.
    pub closed spec fn count(&self) -> nat {
        self.inner@.len()
    }

    /// Whether the set has no benchmark.
    pub open spec fn is_empty_spec(&self) -> bool {
        self.count() == 0
    }

    /// The result set without entries.
    pub fn new() -> (r: AdapterResults)
        ensures
            r@ == Map::<Seq<char>, Map<Seq<char>, JsonMetric>>::empty(),
            r.count() == 0,
    {
        let r = AdapterResults { inner: Vec::new() };
        assert(r@ =~= Map::<Seq<char>, Map<Seq<char>, JsonMetric>>::empty());
        r
    }

    /// How many benchmarks there are.
    pub fn len(&self) -> (n: usize)
        ensures
            n == self.count(),
            n == 0 <==> self@ == Map::<Seq<char>, Map<Seq<char>, JsonMetric>>::empty(),
    {
        proof {
            use_type_invariant(self);
            if self.inner@.len() > 0 {
                lemma_benchmark_position(self.inner@, 0);
                assert(self@.contains_key(self.inner@[0].0@));
            } else {
                assert(self@ =~= Map::<Seq<char>, Map<Seq<char>, JsonMetric>>::empty());
            }
        }
        self.inner.len()
    }

    /// Whether the set has no benchmark.
    pub fn is_empty(&self) -> (b: bool)
        ensures
            b == self.is_empty_spec(),
            b <==> self@ == Map::<Seq<char>, Map<Seq<char>, JsonMetric>>::empty(),
    {
        self.len() == 0
    }

    fn position(&self, benchmark: &BenchmarkName) -> (r: Option<usize>)
        ensures
            match r {
                Some(i) => i < self.inner@.len() && self.inner@[i as int].0@ == benchmark@,
                None => !has_benchmark(self.inner@, benchmark@),
            },
    {
        let mut i: usize = 0;
        while i < self.inner.len()
            invariant
                i <= self.inner@.len(),
                forall|k: int| 0 <= k < i ==> (#[trigger] self.inner@[k]).0@ != benchmark@,
            decreases self.inner@.len() - i,
        {
            if self.inner[i].0.same_as(benchmark) {
                return Some(i);
            }
            i += 1;
        }
        None
    }

    /// The names of the benchmarks, each once.
    pub fn names(&self) -> (names: Vec<BenchmarkName>)
        ensures
            names.len() == self.count(),
            forall|i: int| 0 <= i < names.len() ==> self@.contains_key(#[trigger] names[i]@),
            forall|name: Seq<char>|
                self@.contains_key(name) ==> exists|i: int|
                    0 <= i < names.len() && #[trigger] names[i]@ == name,
            forall|i: int, j: int|
                0 <= i < j < names.len() ==> (#[trigger] names[i])@ != (#[trigger] names[j])@,
    {
        proof {
            use_type_invariant(self);
        }
        let mut names: Vec<BenchmarkName> = Vec::new();
        let mut i: usize = 0;
        while i < self.inner.len()
            invariant
                i <= self.inner@.len(),
                names.len() == i,
                distinct_benchmarks(self.inner@),
                forall|k: int| 0 <= k < i ==> (#[trigger] names[k])@ == self.inner@[k].0@,
            decreases self.inner@.len() - i,
        {
            names.push(self.inner[i].0.duplicate());
            i += 1;
        }
        proof {
            assert forall|k: int| 0 <= k < names.len() implies self@.contains_key(
                #[trigger] names[k]@,
            ) by {
                lemma_benchmark_position(self.inner@, k);
            }
            assert forall|name: Seq<char>| self@.contains_key(name) implies exists|k: int|
                0 <= k < names.len() && #[trigger] names[k]@ == name by {
                let q = benchmark_position(self.inner@, name);
                assert(names[q]@ == name);
            }
        }
        names
    }

    /// The metrics of `benchmark`, if it is in the set.
    pub fn get(&self, benchmark: &BenchmarkName) -> (r: Option<&AdapterMetrics>)
        ensures
            self@.contains_key(benchmark@) <==> r is Some,
            r matches Some(metrics) ==> metrics@ == self@[benchmark@],
    {
        proof {
            use_type_invariant(self);
        }
        match self.position(benchmark) {
            Some(i) => {
                proof {
                    lemma_benchmark_position(self.inner@, i as int);
                }
                Some(&self.inner[i].1)
            },
            None => None,
        }
    }

    /// Sets the metrics of `benchmark`, in place of those it had, if any.
    pub fn insert(&mut self, benchmark: BenchmarkName, metrics: AdapterMetrics)
        ensures
            final(self)@ == old(self)@.insert(benchmark@, metrics@),
            final(self).count() == old(self).count() + (if old(self)@.contains_key(benchmark@) {
                0nat
            } else {
                1nat
            }),
    {
        proof {
            use_type_invariant(&*self);
        }
        let ghost before = self.inner@;
        let ghost name = benchmark@;
        let ghost value = metrics@;
        match self.position(&benchmark) {
            Some(i) => {
                proof {
                    lemma_benchmark_position(before, i as int);
                }
                let mut entries: Vec<(BenchmarkName, AdapterMetrics)> = Vec::new();
                core::mem::swap(&mut self.inner, &mut entries);
                entries.set(i, (benchmark, metrics));
                self.inner = entries;
                proof {
                    let after = self.inner@;
                    assert(self@ =~= old(self)@.insert(name, value)) by {
                        assert forall|k: Seq<char>| has_benchmark(after, k) <==> has_benchmark(
                            before,
                            k,
                        ) || k == name by {
                            if has_benchmark(after, k) {
                                let q = benchmark_position(after, k);
                                assert(before[q].0@ == after[q].0@);
                            }
                            if has_benchmark(before, k) {
                                let q = benchmark_position(before, k);
                                assert(after[q].0@ == before[q].0@);
                            }
                            if k == name {
                                assert(after[i as int].0@ == name);
                            }
                        }
                        assert forall|k: Seq<char>| has_benchmark(after, k) implies after[benchmark_position(
                            after,
                            k,
                        )].1@ == (if k == name {
                            value
                        } else {
                            before[benchmark_position(before, k)].1@
                        }) by {
                            let q = benchmark_position(after, k);
                            assert(after[q].0@ == before[q].0@);
                            lemma_benchmark_position(before, q);
                        }
                    }
                }
            },
            None => {
                let mut entries: Vec<(BenchmarkName, AdapterMetrics)> = Vec::new();
                core::mem::swap(&mut self.inner, &mut entries);
                entries.push((benchmark, metrics));
                self.inner = entries;
                proof {
                    let after = self.inner@;
                    let last = before.len() as int;
                    assert(self@ =~= old(self)@.insert(name, value)) by {
                        assert forall|k: Seq<char>| has_benchmark(after, k) <==> has_benchmark(
                            before,
                            k,
                        ) || k == name by {
                            if has_benchmark(after, k) {
                                let q = benchmark_position(after, k);
                                if q < last {
                                    assert(before[q] == after[q]);
                                }
                            }
                            if has_benchmark(before, k) {
                                let q = benchmark_position(before, k);
                                assert(after[q] == before[q]);
                            }
                            if k == name {
                                assert(after[last].0@ == name);
                            }
                        }
                        assert forall|k: Seq<char>| has_benchmark(after, k) implies after[benchmark_position(
                            after,
                            k,
                        )].1@ == (if k == name {
                            value
                        } else {
                            before[benchmark_position(before, k)].1@
                        }) by {
                            let q = benchmark_position(after, k);
                            if q < last {
                                assert(after[q] == before[q]);
                                lemma_benchmark_position(before, q);
                            }
                        }
                    }
                }
            },
        }
    }
}

} // verus!
