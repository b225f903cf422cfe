//! Text as adapters read it: characters, lines, words and decimal numbers.

use vstd::prelude::*;
use vstd::string::*;

verus! {

/// The characters of `text`.
pub fn chars_of(text: &str) -> (chars: Vec<char>)
    ensures
        chars@ == text@,
{
    broadcast use vstd::string::group_string_axioms;

    let mut chars: Vec<char> = Vec::new();
    for c in it: text.chars()
        invariant
            it.seq() == text@,
            chars@ == it.seq().take(it.index() as int),
    {
        chars.push(c);
        assert(it.seq().take(it.index() + 1) =~= it.seq().take(it.index() as int).push(c));
    }
    assert(chars@ =~= text@);
    chars
}

/// Whether `c` separates words: a blank, a tab or a carriage return.
pub open spec fn is_space(c: char) -> bool {
    c == ' ' || c == '\t' || c == '\r'
}

/// Where the line that begins at `i` ends: at the next line feed, or at
/// the end of the text.
pub open spec fn line_end(s: Seq<char>, i: int) -> int
    decreases s.len() - i,
{
    if 0 <= i < s.len() && s[i] != '\n' {
        line_end(s, i + 1)
    } else {
        i
    }
}

/// The first position from `i` on, before `hi`, that holds no space; `hi`
/// where there is none.
pub open spec fn skip_spaces(s: Seq<char>, i: int, hi: int) -> int
    decreases hi - i,
{
    if 0 <= i < hi <= s.len() && is_space(s[i]) {
        skip_spaces(s, i + 1, hi)
    } else {
        i
    }
}

/// The first position from `i` on, before `hi`, that holds a space; `hi`
/// where there is none.
pub open spec fn skip_word(s: Seq<char>, i: int, hi: int) -> int
    decreases hi - i,
{
    if 0 <= i < hi <= s.len() && !is_space(s[i]) {
        skip_word(s, i + 1, hi)
    } else {
        i
    }
}

/// The first word of `s` between `lo` and `hi`: where it begins and where
/// it ends.
pub open spec fn next_word(s: Seq<char>, lo: int, hi: int) -> Option<(int, int)> {
    let begin = skip_spaces(s, lo, hi);
    if begin < hi {
        Some((begin, skip_word(s, begin, hi)))
    } else {
        None
    }
}

/// The line that begins at `i` ends at `i` or after it, within the text.
pub proof fn lemma_line_end(s: Seq<char>, i: int)
    requires
        0 <= i <= s.len(),
    ensures
        i <= line_end(s, i) <= s.len(),
        line_end(s, i) < s.len() ==> s[line_end(s, i)] == '\n',
        forall|k: int| i <= k < line_end(s, i) ==> #[trigger] s[k] != '\n',
    decreases s.len() - i,
{
    if i < s.len() && s[i] != '\n' {
        lemma_line_end(s, i + 1);
    }
}

/// A word that begins between `lo` and `hi` is not empty and ends by
/// `hi`.
pub proof fn lemma_skips(s: Seq<char>, i: int, hi: int)
    requires
        0 <= i <= hi <= s.len(),
    ensures
        i <= skip_spaces(s, i, hi) <= hi,
        i <= skip_word(s, i, hi) <= hi,
        i < hi && !is_space(s[i]) ==> i < skip_word(s, i, hi),
        skip_spaces(s, i, hi) < hi ==> !is_space(s[skip_spaces(s, i, hi)]),
        forall|k: int| i <= k < skip_word(s, i, hi) ==> !is_space(#[trigger] s[k]),
    decreases hi - i,
{
    if i < hi {
        lemma_skips(s, i + 1, hi);
    }
}

/// Where the line that begins at `i` ends.
pub fn find_line_end(chars: &Vec<char>, i: usize) -> (end: usize)
    requires
        i <= chars.len(),
    ensures
        end == line_end(chars@, i as int),
        i <= end <= chars.len(),
{
    let mut j = i;
    while j < chars.len() && chars[j] != '\n'
        invariant
            i <= j <= chars.len(),
            line_end(chars@, j as int) == line_end(chars@, i as int),
        decreases chars.len() - j,
    {
        j += 1;
    }
    j
}

/// The first word between `lo` and `hi`.
pub fn find_word(chars: &Vec<char>, lo: usize, hi: usize) -> (word: Option<(usize, usize)>)
    requires
        lo <= hi <= chars.len(),
    ensures
        match word {
            Some((a, b)) => next_word(chars@, lo as int, hi as int) == Some((a as int, b as int))
                && lo <= a < b <= hi,
            None => next_word(chars@, lo as int, hi as int) is None,
        },
{
    let mut a = lo;
    while a < hi && (chars[a] == ' ' || chars[a] == '\t' || chars[a] == '\r')
        invariant
            lo <= a <= hi <= chars.len(),
            skip_spaces(chars@, a as int, hi as int) == skip_spaces(chars@, lo as int, hi as int),
        decreases hi - a,
    {
        a += 1;
    }
    if a >= hi {
        return None;
    }
    let mut b = a + 1;
    assert(skip_word(chars@, a as int, hi as int) == skip_word(chars@, b as int, hi as int));
    while b < hi && !(chars[b] == ' ' || chars[b] == '\t' || chars[b] == '\r')
        invariant
            a < b <= hi <= chars.len(),
            skip_word(chars@, b as int, hi as int) == skip_word(chars@, a as int, hi as int),
        decreases hi - b,
    {
        b += 1;
    }
    Some((a, b))
}

/// The words of `s` between `lo` and `hi`, in order: where each begins
/// and ends.
pub open spec fn words_of(s: Seq<char>, lo: int, hi: int) -> Seq<(int, int)>
    decreases hi - lo,
    via words_of_ends
{
    match next_word(s, lo, hi) {
        None => Seq::empty(),
        Some(word) => if 0 <= lo <= hi <= s.len() {
            seq![word] + words_of(s, word.1, hi)
        } else {
            Seq::empty()
        },
    }
}

#[via_fn]
proof fn words_of_ends(s: Seq<char>, lo: int, hi: int) {
    if 0 <= lo <= hi <= s.len() {
        lemma_skips(s, lo, hi);
        let begin = skip_spaces(s, lo, hi);
        if begin < hi {
            lemma_skips(s, begin, hi);
        }
    }
}

/// Whether `words` holds the positions `positions`.
pub open spec fn same_words(words: Seq<(usize, usize)>, positions: Seq<(int, int)>) -> bool {
    &&& words.len() == positions.len()
    &&& forall|k: int|
        0 <= k < words.len() ==> (#[trigger] words[k]).0 == positions[k].0 && words[k].1
            == positions[k].1
}

/// The words between `lo` and `hi`, in order.
pub fn split_words(chars: &Vec<char>, lo: usize, hi: usize) -> (words: Vec<(usize, usize)>)
    requires
        lo <= hi <= chars.len(),
    ensures
        same_words(words@, words_of(chars@, lo as int, hi as int)),
        forall|k: int| 0 <= k < words.len() ==> lo <= (#[trigger] words[k]).0 < words[k].1 <= hi,
        forall|j: int, k: int|
            0 <= j < k < words.len() ==> (#[trigger] words[j]).1 <= (#[trigger] words[k]).0,
{
    let mut words: Vec<(usize, usize)> = Vec::new();
    let mut at = lo;
    let ghost all = words_of(chars@, lo as int, hi as int);
    loop
        invariant
            lo <= at <= hi <= chars.len(),
            all == words_of(chars@, lo as int, hi as int),
            all.len() == words.len() + words_of(chars@, at as int, hi as int).len(),
            forall|k: int|
                0 <= k < words.len() ==> (#[trigger] words[k]).0 == all[k].0 && words[k].1
                    == all[k].1,
            forall|k: int|
                0 <= k < words_of(chars@, at as int, hi as int).len() ==> all[words.len() + k]
                    == #[trigger] words_of(chars@, at as int, hi as int)[k],
            forall|k: int|
                0 <= k < words.len() ==> lo <= (#[trigger] words[k]).0 < words[k].1 <= at,
            forall|j: int, k: int|
                0 <= j < k < words.len() ==> (#[trigger] words[j]).1 <= (#[trigger] words[k]).0,
        decreases hi - at,
    {
        let ghost rest = words_of(chars@, at as int, hi as int);
        match find_word(chars, at, hi) {
            None => {
                assert(rest.len() == 0);
                return words;
            },
            Some(word) => {
                let ghost after = words_of(chars@, word.1 as int, hi as int);
                assert(rest == seq![(word.0 as int, word.1 as int)] + after);
                assert(rest[0] == (word.0 as int, word.1 as int));
                assert forall|k: int| 0 <= k < after.len() implies all[words.len() + 1 + k]
                    == #[trigger] after[k] by {
                    assert(rest[k + 1] == after[k]);
                }
                words.push(word);
                at = word.1;
            },
        }
    }
}

/// Whether the characters of `s` from `a` up to `b` are those of `text`.
pub open spec fn spells(s: Seq<char>, a: int, b: int, text: Seq<char>) -> bool {
    0 <= a <= b <= s.len() && s.subrange(a, b) == text
}

/// Whether the characters from `a` up to `b` are those of `text`.
pub fn same_text(chars: &Vec<char>, a: usize, b: usize, text: &str) -> (same: bool)
    requires
        a <= b <= chars.len(),
    ensures
        same == spells(chars@, a as int, b as int, text@),
{
    let n = text.unicode_len();
    if n != b - a {
        return false;
    }
    let mut k: usize = 0;
    while k < n
        invariant
            k <= n,
            n == b - a,
            n == text@.len(),
            a <= b <= chars.len(),
            forall|j: int| 0 <= j < k ==> chars@[a + j] == text@[j],
        decreases n - k,
    {
        if chars[a + k] != text.get_char(k) {
            assert(chars@.subrange(a as int, b as int)[k as int] != text@[k as int]);
            return false;
        }
        k += 1;
    }
    assert(chars@.subrange(a as int, b as int) =~= text@);
    true
}

/// The decimal digit that `c` is, if it is one.
pub open spec fn digit_of(c: char) -> Option<nat> {
    if '0' <= c <= '9' {
        Some((c as u32 - '0' as u32) as nat)
    } else {
        None
    }
}

/// The number that the characters of `s` from `lo` up to `hi` spell when
/// they are decimal digits, with commas among them passed over; nothing
/// when another character stands among them.
pub open spec fn digits_value(s: Seq<char>, lo: int, hi: int) -> Option<nat>
    decreases hi - lo,
{
    if hi <= lo {
        Some(0)
    } else {
        match digits_value(s, lo, hi - 1) {
            None => None,
            Some(v) => match digit_of(s[hi - 1]) {
                Some(d) => Some(10 * v + d),
                None => if s[hi - 1] == ',' {
                    Some(v)
                } else {
                    None
                },
            },
        }
    }
}

/// The thousandths that the characters of `s` from `lo` up to `hi` spell
/// as the digits behind a decimal point: the first three of them, and
/// nothing where one of the characters is no digit. Digits behind the third
/// are dropped.
pub open spec fn fraction_value(s: Seq<char>, lo: int, hi: int) -> Option<nat>
    decreases hi - lo,
{
    if hi <= lo {
        Some(0)
    } else {
        match (fraction_value(s, lo, hi - 1), digit_of(s[hi - 1])) {
            (Some(v), Some(d)) => if hi - lo == 1 {
                Some(100 * d)
            } else if hi - lo == 2 {
                Some(v + 10 * d)
            } else if hi - lo == 3 {
                Some(v + d)
            } else {
                Some(v)
            },
            _ => None,
        }
    }
}

/// The first position from `i` on, before `hi`, that holds a decimal
/// point; `hi` where there is none.
pub open spec fn point_position(s: Seq<char>, i: int, hi: int) -> int
    decreases hi - i,
{
    if 0 <= i < hi <= s.len() && s[i] != '.' {
        point_position(s, i + 1, hi)
    } else {
        i
    }
}

/// Largest whole part of a number that is read.
pub const MAX_WHOLE: u64 = 4000000000000000;

/// The magnitude, in thousandths, that the characters of `s` from `lo`
/// up to `hi` spell as a decimal number: a whole part that begins with a
/// digit and may hold commas, and, behind a decimal point, a fraction of at
/// least one digit. Nothing where they spell no such number, or one whose
/// whole part is above `MAX_WHOLE`.
pub open spec fn number_value(s: Seq<char>, lo: int, hi: int) -> Option<int> {
    let point = point_position(s, lo, hi);
    if !(0 <= lo < hi <= s.len()) || digit_of(s[lo]) is None {
        None
    } else {
        match digits_value(s, lo, point) {
            None => None,
            Some(whole) => if whole > MAX_WHOLE {
                None
            } else if point == hi {
                Some((1000 * whole) as int)
            } else if point + 1 == hi {
                None
            } else {
                match fraction_value(s, point + 1, hi) {
                    None => None,
                    Some(thousandths) => Some((1000 * whole + thousandths) as int),
                }
            },
        }
    }
}

/// The number grows with every digit: where the digits up to `mid` spell
/// more than a bound, so do the digits up to `hi`, if they spell a number.
pub proof fn lemma_digits_grow(s: Seq<char>, lo: int, mid: int, hi: int)
    requires
        lo <= mid <= hi,
    ensures
        digits_value(s, lo, mid) is None ==> digits_value(s, lo, hi) is None,
        digits_value(s, lo, hi) matches Some(v) ==> digits_value(s, lo, mid) matches Some(u) && u
            <= v,
    decreases hi - mid,
{
    if mid < hi {
        lemma_digits_grow(s, lo, mid, hi - 1);
    }
}

/// Reads the decimal number that the characters from `lo` up to `hi`
/// spell, in thousandths.
pub fn read_number(chars: &Vec<char>, lo: usize, hi: usize) -> (value: Option<i64>)
    requires
        lo <= hi <= chars.len(),
    ensures
        match value {
            Some(v) => number_value(chars@, lo as int, hi as int) == Some(v as int) && 0 <= v
                <= 1000 * MAX_WHOLE + 999,
            None => number_value(chars@, lo as int, hi as int) is None,
        },
{
    if lo >= hi {
        return None;
    }
    let first = chars[lo];
    if !('0' <= first && first <= '9') {
        return None;
    }
    let ghost s = chars@;
    let ghost point = point_position(s, lo as int, hi as int);
    let mut whole: u64 = 0;
    let mut i = lo;
    while i < hi && chars[i] != '.'
        invariant
            lo <= i <= hi <= chars.len(),
            lo < hi,
            s == chars@,
            digit_of(s[lo as int]) is Some,
            point == point_position(s, lo as int, hi as int),
            point_position(s, i as int, hi as int) == point,
            digits_value(s, lo as int, i as int) == Some(whole as nat),
            whole <= MAX_WHOLE,
        decreases hi - i,
    {
        let c = chars[i];
        if '0' <= c && c <= '9' {
            let d = (c as u32 - '0' as u32) as u64;
            let next = 10 * whole + d;
            if next > MAX_WHOLE {
                proof {
                    assert(digits_value(s, lo as int, i + 1) == Some(next as nat));
                    lemma_point_position(s, i + 1, hi as int);
                    lemma_digits_grow(s, lo as int, i + 1, point);
                }
                return None;
            }
            whole = next;
        } else if c != ',' {
            proof {
                assert(digits_value(s, lo as int, i + 1) is None);
                lemma_point_position(s, i + 1, hi as int);
                lemma_digits_grow(s, lo as int, i + 1, point);
            }
            return None;
        }
        i += 1;
    }
    assert(i == point);
    if i == hi {
        return Some((1000 * whole) as i64);
    }
    if i + 1 == hi {
        return None;
    }
    let begin = i + 1;
    let mut thousandths: u64 = 0;
    let mut j = begin;
    while j < hi
        invariant
            begin <= j <= hi <= chars.len(),
            lo < begin < hi,
            s == chars@,
            digit_of(s[lo as int]) is Some,
            begin - 1 == point_position(s, lo as int, hi as int),
            digits_value(s, lo as int, begin - 1) == Some(whole as nat),
            whole <= MAX_WHOLE,
            fraction_value(s, begin as int, j as int) == Some(thousandths as nat),
            thousandths <= 999,
            j - begin == 0 ==> thousandths == 0,
            j - begin == 1 ==> thousandths % 100 == 0,
            j - begin == 2 ==> thousandths % 10 == 0,
        decreases hi - j,
    {
        let c = chars[j];
        if !('0' <= c && c <= '9') {
            proof {
                assert(fraction_value(s, begin as int, j + 1) is None);
                lemma_fraction_fails(s, begin as int, j + 1, hi as int);
            }
            return None;
        }
        let d = (c as u32 - '0' as u32) as u64;
        if j - begin == 0 {
            thousandths = 100 * d;
        } else if j - begin == 1 {
            thousandths = thousandths + 10 * d;
        } else if j - begin == 2 {
            thousandths = thousandths + d;
        }
        j += 1;
    }
    Some((1000 * whole + thousandths) as i64)
}

/// The decimal point stands at or after the position the search began
/// at, and no earlier position holds one.
pub proof fn lemma_point_position(s: Seq<char>, i: int, hi: int)
    requires
        0 <= i <= hi <= s.len(),
    ensures
        i <= point_position(s, i, hi) <= hi,
    decreases hi - i,
{
    if i < hi && s[i] != '.' {
        lemma_point_position(s, i + 1, hi);
    }
}

/// Once the digits behind the point fail to be digits, they fail for good.
pub proof fn lemma_fraction_fails(s: Seq<char>, lo: int, mid: int, hi: int)
    requires
        lo <= mid <= hi,
        fraction_value(s, lo, mid) is None,
    ensures
        fraction_value(s, lo, hi) is None,
    decreases hi - mid,
{
    if mid < hi {
        lemma_fraction_fails(s, lo, mid, hi - 1);
    }
}

} // verus!
