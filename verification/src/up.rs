//! The demonstration run: a made-up result set with one latency per
//! benchmark, and a run that can be told to fail, always or by chance.

use vstd::prelude::*;
use vstd::string::*;
use crate::results::{
    has_empty_segment, is_control, name_error, separator_at, AdapterMetrics, AdapterResults,
    BenchmarkName, JsonMetric, NameId, ValidError,
};

verus! {

/// How many benchmarks a run makes up when it is not told.
pub const DEFAULT_COUNT: usize = 5;

/// The power of ten of the magnitudes when a run is not told.
pub const DEFAULT_POW: i32 = 1;

/// The demonstration run as asked for on the command line.
#[derive(Clone, Copy, Debug, PartialEq, Eq, Structural)]
pub struct CliUp {
    pub count: Option<usize>,
    pub pow: Option<i32>,
    pub fail: bool,
    pub flaky: bool,
}

/// The demonstration run.
#[derive(Clone, Copy, Debug, PartialEq, Eq, Structural)]
pub struct Up {
    /// How many benchmarks to make up.
    pub count: Option<usize>,
    /// The power of ten of the magnitudes.
    pub pow: Option<i32>,
    /// Whether the run is to fail.
    pub fail: bool,
    /// Whether the run is to fail by the toss of a coin.
    pub flaky: bool,
}

/// Why a demonstration run failed.
#[derive(Debug)]
pub enum UpError {
    /// The container daemon could not be reached; the text says why.
    Docker(String),
    /// A made-up benchmark name is not well-formed.
    ParseBenchmarkName(ValidError),
    /// The results could not be written out; the text says why.
    SerializeResults(String),
    /// The run was told to fail, or the coin fell that way.
    UpFailure,
}

impl From<CliUp> for Up {
    fn from(up: CliUp) -> (r: Up) {
        let CliUp { count, pow, fail, flaky } = up;
        Up { count, pow, fail, flaky }
    }
}

impl vstd::std_specs::convert::FromSpecImpl<CliUp> for Up {
    open spec fn obeys_from_spec() -> bool {
        true
    }

    open spec fn from_spec(up: CliUp) -> Up {
        Up { count: up.count, pow: up.pow, fail: up.fail, flaky: up.flaky }
    }
}

/// The character of the decimal digit `d`.
pub open spec fn digit(d: nat) -> char {
    if d == 0 {
        '0'
    } else if d == 1 {
        '1'
    } else if d == 2 {
        '2'
    } else if d == 3 {
        '3'
    } else if d == 4 {
        '4'
    } else if d == 5 {
        '5'
    } else if d == 6 {
        '6'
    } else if d == 7 {
        '7'
    } else if d == 8 {
        '8'
    } else {
        '9'
    }
}

/// The decimal numeral of `n`, without leading zeros.
pub open spec fn numeral(n: nat) -> Seq<char>
    decreases n,
{
    if n < 10 {
        seq![digit(n)]
    } else {
        numeral(n / 10).push(digit(n % 10))
    }
}

/// The name of the benchmark number `c` of a demonstration run.
pub open spec fn up_name(c: nat) -> Seq<char> {
    "bencher::up_"@ + numeral(c)
}

/// The metric that a demonstration run reports for the value `value`:
/// the value itself, with limits a tenth of it below and above.
pub open spec fn up_metric(value: i64) -> JsonMetric {
    JsonMetric {
        value,
        lower_value: Some((value - value / 10) as i64),
        upper_value: Some((value + value / 10) as i64),
    }
}

/// Largest value that a demonstration run can put limits around.
pub const MAX_UP_VALUE: i64 = 8000000000000000000;

fn digit_text(d: usize) -> (r: &'static str)
    requires
        d < 10,
    ensures
        r@ == seq![digit(d as nat)],
{
    proof {
        reveal_strlit("0");
        reveal_strlit("1");
        reveal_strlit("2");
        reveal_strlit("3");
        reveal_strlit("4");
        reveal_strlit("5");
        reveal_strlit("6");
        reveal_strlit("7");
        reveal_strlit("8");
        reveal_strlit("9");
    }
    let r = if d == 0 {
        "0"
    } else if d == 1 {
        "1"
    } else if d == 2 {
        "2"
    } else if d == 3 {
        "3"
    } else if d == 4 {
        "4"
    } else if d == 5 {
        "5"
    } else if d == 6 {
        "6"
    } else if d == 7 {
        "7"
    } else if d == 8 {
        "8"
    } else {
        "9"
    };
    assert(r@ =~= seq![digit(d as nat)]);
    r
}

/// Writes `n` as a decimal numeral.
pub fn decimal(n: usize) -> (r: String)
    ensures
        r@ == numeral(n as nat),
    decreases n,
{
    if n < 10 {
        String::from_str(digit_text(n))
    } else {
        let mut r = decimal(n / 10);
        r.append(digit_text(n % 10));
        assert(r@ =~= numeral(n as nat));
        r
    }
}

/// Ten to the power of `k`.
spec fn pow10(k: nat) -> nat
    decreases k,
{
    if k == 0 {
        1
    } else {
        10 * pow10((k - 1) as nat)
    }
}

proof fn lemma_numeral(n: nat, k: nat)
    requires
        n < pow10(k),
        k >= 1,
    ensures
        1 <= numeral(n).len() <= k,
        forall|i: int|
            0 <= i < numeral(n).len() ==> !is_control(#[trigger] numeral(n)[i]) && numeral(n)[i]
                != ':',
    decreases n,
{
    if n >= 10 {
        reveal_with_fuel(pow10, 2);
        lemma_numeral(n / 10, (k - 1) as nat);
    }
}

/// The name of every benchmark of a demonstration run is well-formed.
pub proof fn lemma_up_name(c: nat)
    requires
        c <= usize::MAX,
    ensures
        name_error(up_name(c)) is None,
{
    reveal_strlit("bencher::up_");
    let head = "bencher::up_"@;
    let name = up_name(c);
    assert(pow10(20) == 100000000000000000000nat) by {
        reveal_with_fuel(pow10, 21);
    }
    lemma_numeral(c, 20);
    assert(head.len() == 12);
    assert forall|i: int| 0 <= i < name.len() implies !is_control(#[trigger] name[i]) by {
        if i >= 12 {
            assert(name[i] == numeral(c)[i - 12]);
        } else {
            assert(name[i] == head[i]);
        }
    }
    assert forall|i: int| #[trigger] separator_at(name, i) implies i == 7 by {
        if i >= 12 {
            assert(name[i] == numeral(c)[i - 12]);
        } else if i + 1 >= 12 {
            assert(name[i] == head[i]);
        } else {
            assert(name[i] == head[i]);
            assert(name[i + 1] == head[i + 1]);
        }
    }
    assert(!has_empty_segment(name)) by {
        assert(name.len() >= 13);
        if separator_at(name, 0) {
            assert(false);
        }
        if separator_at(name, name.len() - 2) {
            assert(false);
        }
        if exists|i: int| #[trigger] separator_at(name, i) && separator_at(name, i + 2) {
            let i = choose|i: int| #[trigger] separator_at(name, i) && separator_at(name, i + 2);
            assert(false);
        }
    }
}

/// The toss of a coin: `gen::<bool>()` on the thread-local generator
/// that `thread_rng()` of the crate `rand` hands out. Nothing is claimed
/// of how it falls.
#[verifier::external_body]
fn toss() -> (heads: bool) {
    rand::Rng::gen::<bool>(&mut rand::thread_rng())
}

impl Up {
    /// How many benchmarks the run makes up.
    pub open spec fn count_spec(&self) -> usize {
        match self.count {
            Some(count) => count,
            None => DEFAULT_COUNT,
        }
    }

    /// How many benchmarks the run makes up.
    pub fn count(&self) -> (n: usize)
        ensures
            n == self.count_spec(),
    {
        match self.count {
            Some(count) => count,
            None => DEFAULT_COUNT,
        }
    }

    /// The power of ten of the magnitudes of the run.
    pub fn pow(&self) -> (p: i32)
        ensures
            p == (match self.pow {
                Some(pow) => pow,
                None => DEFAULT_POW,
            }),
    {
        match self.pow {
            Some(pow) => pow,
            None => DEFAULT_POW,
        }
    }

    /// The result set of the run, from the values that were drawn for its
    /// benchmarks: the benchmark number `c` is called `bencher::up_c` and
    /// reports, as its latency, the value number `c` with limits a tenth
    /// of it below and above.
    pub fn generate_results(&self, values: &Vec<i64>) -> (r: Result<AdapterResults, UpError>)
        requires
            values.len() == self.count_spec(),
            forall|c: int| 0 <= c < values.len() ==> 0 <= #[trigger] values[c] <= MAX_UP_VALUE,
        ensures
            r matches Ok(results) && results.count() == values.len() && forall|c: int|
                0 <= c < values.len() ==> results@.contains_key(#[trigger] up_name(c as nat))
                    && results@[up_name(c as nat)] == Map::<Seq<char>, JsonMetric>::empty().insert(
                    "latency"@,
                    up_metric(values[c]),
                ),
    {
        let count = self.count();
        let mut results = AdapterResults::new();
        let mut c: usize = 0;
        while c < count
            invariant
                c <= count,
                count == values.len(),
                forall|k: int| 0 <= k < values.len() ==> 0 <= #[trigger] values[k] <= MAX_UP_VALUE,
                results.count() == c,
                forall|k: int|
                    0 <= k < c ==> results@.contains_key(#[trigger] up_name(k as nat))
                        && results@[up_name(k as nat)] == Map::<Seq<char>, JsonMetric>::empty().insert(
                        "latency"@,
                        up_metric(values[k]),
                    ),
                forall|k: int| c <= k <= usize::MAX ==> !results@.contains_key(#[trigger] up_name(k as nat)),
            decreases count - c,
        {
            let value = values[c];
            let variance = value / 10;
            let mut head = String::from_str("bencher::up_");
            let digits = decimal(c);
            head.append(digits.as_str());
            proof {
                lemma_up_name(c as nat);
                assert(head@ == up_name(c as nat));
            }
            let name = match BenchmarkName::parse(head.as_str()) {
                Ok(name) => name,
                Err(e) => { return Err(UpError::ParseBenchmarkName(e)); },
            };
            let mut metrics = AdapterMetrics::new();
            metrics.insert(
                NameId::latency(),
                JsonMetric {
                    value,
                    lower_value: Some(value - variance),
                    upper_value: Some(value + variance),
                },
            );
            proof {
                assert forall|k: int| 0 <= k <= usize::MAX && k != c implies #[trigger] up_name(
                    k as nat,
                ) != up_name(c as nat) by {
                    lemma_up_names_differ(k as nat, c as nat);
                }
            }
            let ghost before = results@;
            results.insert(name, metrics);
            proof {
                assert forall|k: int| 0 <= k < c + 1 implies results@.contains_key(
                    #[trigger] up_name(k as nat),
                ) && results@[up_name(k as nat)] == Map::<Seq<char>, JsonMetric>::empty().insert(
                    "latency"@,
                    up_metric(values[k]),
                ) by {
                    if k < c {
                        assert(before.contains_key(up_name(k as nat)));
                        assert(up_name(k as nat) != up_name(c as nat));
                    }
                }
            }
            c += 1;
        }
        Ok(results)
    }

    /// How the run ends when the coin has fallen: with a failure when the
    /// run was told to fail, or when it is flaky and the coin shows heads.
    pub fn outcome(&self, heads: bool) -> (r: Result<(), UpError>)
        ensures
            r is Ok <==> !(self.fail || (self.flaky && heads)),
            r matches Err(e) ==> e is UpFailure,
    {
        if self.fail || (self.flaky && heads) {
            Err(UpError::UpFailure)
        } else {
            Ok(())
        }
    }

    /// Ends the run, tossing the coin where the run is flaky and was not
    /// told to fail: a run told to fail fails, a run that is neither told
    /// to fail nor flaky succeeds, and a flaky run ends as the coin falls.
    pub fn conclude(&self) -> (r: Result<(), UpError>)
        ensures
            self.fail ==> r is Err,
            !self.fail && !self.flaky ==> r is Ok,
            r matches Err(e) ==> e is UpFailure,
    {
        let heads = !self.fail && self.flaky && toss();
        self.outcome(heads)
    }
}

proof fn lemma_numeral_value(a: nat, b: nat)
    requires
        numeral(a) == numeral(b),
    ensures
        a == b,
    decreases a,
{
    if a < 10 && b < 10 {
        assert(numeral(a)[0] == digit(a));
        assert(numeral(b)[0] == digit(b));
    } else if a >= 10 && b >= 10 {
        let na = numeral(a / 10);
        let nb = numeral(b / 10);
        assert(numeral(a).len() == na.len() + 1);
        assert(numeral(b).len() == nb.len() + 1);
        assert(na =~= nb) by {
            assert forall|i: int| 0 <= i < na.len() implies na[i] == nb[i] by {
                assert(numeral(a)[i] == na[i]);
                assert(numeral(b)[i] == nb[i]);
            }
        }
        lemma_numeral_value(a / 10, b / 10);
        assert(numeral(a)[na.len() as int] == digit(a % 10));
        assert(numeral(b)[nb.len() as int] == digit(b % 10));
        assert(a % 10 == b % 10);
        assert(a == 10 * (a / 10) + a % 10);
        assert(b == 10 * (b / 10) + b % 10);
    } else if a < 10 {
        assert(numeral(a).len() == 1);
        lemma_numeral_longer(b);
    } else {
        assert(numeral(b).len() == 1);
        lemma_numeral_longer(a);
    }
}

proof fn lemma_numeral_longer(n: nat)
    requires
        n >= 10,
    ensures
        numeral(n).len() >= 2,
    decreases n,
{
    reveal_with_fuel(numeral, 2);
    if n / 10 >= 10 {
        lemma_numeral_longer(n / 10);
    }
}

proof fn lemma_up_names_differ(a: nat, b: nat)
    requires
        a != b,
    ensures
        up_name(a) != up_name(b),
{
    if up_name(a) == up_name(b) {
        let head = "bencher::up_"@;
        assert(numeral(a) =~= numeral(b)) by {
            assert(up_name(a).len() == head.len() + numeral(a).len());
            assert(up_name(b).len() == head.len() + numeral(b).len());
            assert forall|i: int| 0 <= i < numeral(a).len() implies numeral(a)[i] == numeral(b)[i] by {
                assert(up_name(a)[head.len() + i] == numeral(a)[i]);
                assert(up_name(b)[head.len() + i] == numeral(b)[i]);
            }
        }
        lemma_numeral_value(a, b);
    }
}

} // verus!
