//! Integer arithmetic that the boundary check rests on: division that
//! rounds down or up whatever the sign, and the integer square root.

use vstd::prelude::*;
use vstd::arithmetic::div_mod::{lemma_fundamental_div_mod, lemma_fundamental_div_mod_converse};

verus! {

/// The largest integer that is not above `a / b`, for a positive `b`.
pub open spec fn floor_div(a: int, b: int) -> int
    recommends
        b > 0,
{
    a / b
}

/// The smallest integer that is not below `a / b`, for a positive `b`.
pub open spec fn ceil_div(a: int, b: int) -> int
    recommends
        b > 0,
{
    -((-a) / b)
}

/// What makes `q` the quotient rounded down: `q * b <= a < (q + 1) * b`.
pub proof fn lemma_floor_div(a: int, b: int, q: int)
    requires
        b > 0,
    ensures
        q == floor_div(a, b) <==> q * b <= a < (q + 1) * b,
        ceil_div(a, b) == q <==> (q - 1) * b < a <= q * b,
{
    lemma_fundamental_div_mod(a, b);
    lemma_fundamental_div_mod(-a, b);
    let f = a / b;
    let g = (-a) / b;
    assert(b * f <= a < b * f + b);
    assert(b * g <= -a < b * g + b);
    assert(q * b <= a < (q + 1) * b ==> q == f) by (nonlinear_arith)
        requires
            b > 0,
            b * f <= a < b * f + b,
    ;
    assert(q == f ==> q * b <= a < (q + 1) * b) by (nonlinear_arith)
        requires
            b > 0,
            b * f <= a < b * f + b,
    ;
    assert((q - 1) * b < a <= q * b ==> q == -g) by (nonlinear_arith)
        requires
            b > 0,
            b * g <= -a < b * g + b,
    ;
    assert(q == -g ==> (q - 1) * b < a <= q * b) by (nonlinear_arith)
        requires
            b > 0,
            b * g <= -a < b * g + b,
    ;
}

/// Largest magnitude of a dividend of the two divisions below.
pub const MAX_DIVIDEND: i128 = 0x3fff_ffff_ffff_ffff_ffff_ffff_ffff_ffff;

/// Divides and rounds down.
pub fn div_floor(a: i128, b: i128) -> (q: i128)
    requires
        b > 0,
        -MAX_DIVIDEND <= a <= MAX_DIVIDEND,
    ensures
        q == floor_div(a as int, b as int),
        -MAX_DIVIDEND - 1 <= q <= MAX_DIVIDEND,
{
    if a >= 0 {
        let q = a / b;
        proof {
            lemma_fundamental_div_mod(a as int, b as int);
            assert(0 <= q <= a) by (nonlinear_arith)
                requires
                    b >= 1,
                    a >= 0,
                    a == b * q + (a as int % b as int),
                    0 <= (a as int % b as int) < b,
            ;
        }
        q
    } else {
        let n = -a - 1;
        let m = n / b;
        let q = -m - 1;
        proof {
            lemma_fundamental_div_mod(n as int, b as int);
            let r = n as int % b as int;
            assert(0 <= m <= n) by (nonlinear_arith)
                requires
                    b >= 1,
                    n >= 0,
                    n == b * m + r,
                    0 <= r < b,
            ;
            assert(a == q * b + (b - 1 - r)) by (nonlinear_arith)
                requires
                    n == b * m + r,
                    a == -n - 1,
                    q == -m - 1,
            ;
            lemma_fundamental_div_mod_converse(a as int, b as int, q as int, b - 1 - r);
        }
        q
    }
}

/// Divides and rounds up.
pub fn div_ceil(a: i128, b: i128) -> (q: i128)
    requires
        b > 0,
        -MAX_DIVIDEND <= a <= MAX_DIVIDEND,
    ensures
        q == ceil_div(a as int, b as int),
        -MAX_DIVIDEND <= q <= MAX_DIVIDEND + 1,
{
    -div_floor(-a, b)
}

/// Whether `r` is the integer square root of `m`: the largest integer
/// whose square is not above `m`.
pub open spec fn is_sqrt(m: nat, r: nat) -> bool {
    r * r <= m < (r + 1) * (r + 1)
}

/// The integer square root of `m`.
pub open spec fn isqrt(m: nat) -> nat {
    choose|r: nat| is_sqrt(m, r)
}

/// Squaring keeps the order of natural numbers.
pub proof fn lemma_square_order(a: int, b: int)
    requires
        0 <= a,
        0 <= b,
    ensures
        a <= b <==> a * a <= b * b,
        a < b <==> a * a < b * b,
{
    assert(a <= b ==> a * a <= b * b) by (nonlinear_arith)
        requires
            0 <= a,
            0 <= b,
    ;
    assert(a < b ==> a * a < b * b) by (nonlinear_arith)
        requires
            0 <= a,
            0 <= b,
    ;
    assert(b <= a ==> b * b <= a * a) by (nonlinear_arith)
        requires
            0 <= a,
            0 <= b,
    ;
    assert(b < a ==> b * b < a * a) by (nonlinear_arith)
        requires
            0 <= a,
            0 <= b,
    ;
}

/// A number found to be the integer square root is the one that `isqrt`
/// names, and a natural number is at most the root exactly when its square
/// is at most `m`.
pub proof fn lemma_isqrt(m: nat, r: nat)
    requires
        is_sqrt(m, r),
    ensures
        isqrt(m) == r,
        forall|t: int| 0 <= t ==> (#[trigger] (t * t) <= m <==> t <= r),
{
    let s = isqrt(m);
    assert(is_sqrt(m, s));
    lemma_square_order(r as int, s as int);
    lemma_square_order((r + 1) as int, s as int);
    lemma_square_order((s + 1) as int, r as int);
    assert forall|t: int| 0 <= t implies (#[trigger] (t * t) <= m <==> t <= r) by {
        lemma_square_order(t, r as int);
        lemma_square_order((r + 1) as int, t);
    }
}

/// Every natural number has an integer square root.
pub proof fn lemma_isqrt_exists(m: nat)
    ensures
        is_sqrt(m, isqrt(m)),
    decreases m,
{
    if m == 0 {
        let zero: nat = 0;
        assert(zero * zero == 0 && (zero + 1) * (zero + 1) == 1) by (nonlinear_arith)
            requires
                zero == 0,
        ;
        assert(is_sqrt(m, zero));
    } else {
        lemma_isqrt_exists((m - 1) as nat);
        let r = isqrt((m - 1) as nat);
        if (r + 1) * (r + 1) <= m {
            let next = r + 1;
            assert((r + 1) * (r + 1) < (next + 1) * (next + 1)) by (nonlinear_arith)
                requires
                    next == r + 1,
            ;
            assert(is_sqrt(m, next));
        } else {
            assert(is_sqrt(m, r));
        }
    }
}

/// An integer is at most the quotient rounded down exactly when its
/// product with the divisor is at most the dividend, and at least the
/// quotient rounded up exactly when that product is at least the dividend.
pub proof fn lemma_div_order(a: int, b: int, k: int)
    requires
        b > 0,
    ensures
        k <= floor_div(a, b) <==> k * b <= a,
        k >= ceil_div(a, b) <==> k * b >= a,
{
    let f = floor_div(a, b);
    let c = ceil_div(a, b);
    lemma_floor_div(a, b, f);
    lemma_floor_div(a, b, c);
    assert(k <= f ==> k * b <= f * b) by (nonlinear_arith)
        requires
            b > 0,
    ;
    assert(k >= f + 1 ==> k * b >= (f + 1) * b) by (nonlinear_arith)
        requires
            b > 0,
    ;
    assert(k >= c ==> k * b >= c * b) by (nonlinear_arith)
        requires
            b > 0,
    ;
    assert(k <= c - 1 ==> k * b <= (c - 1) * b) by (nonlinear_arith)
        requires
            b > 0,
    ;
}

/// The integer square root of `m`.
pub fn sqrt_floor(m: u128) -> (r: u128)
    ensures
        is_sqrt(m as nat, r as nat),
        r == isqrt(m as nat),
        r < 0x1_0000_0000_0000_0000,
{
    let mut lo: u128 = 0;
    let mut hi: u128 = 0x1_0000_0000_0000_0000;
    assert(0x1_0000_0000_0000_0000int * 0x1_0000_0000_0000_0000int > u128::MAX);
    while hi - lo > 1
        invariant
            lo < hi <= 0x1_0000_0000_0000_0000,
            lo * lo <= m,
            m < hi * hi,
        decreases hi - lo,
    {
        let mid = lo + (hi - lo) / 2;
        assert(mid * mid < 0x1_0000_0000_0000_0000int * 0x1_0000_0000_0000_0000int)
            by (nonlinear_arith)
            requires
                0 <= mid < 0x1_0000_0000_0000_0000,
        ;
        assert(0x1_0000_0000_0000_0000int * 0x1_0000_0000_0000_0000int
            == 0x1_0000_0000_0000_0000_0000_0000_0000_0000int);
        let square = mid * mid;
        if square <= m {
            lo = mid;
        } else {
            hi = mid;
        }
    }
    proof {
        assert(hi == lo + 1);
        lemma_isqrt(m as nat, lo as nat);
    }
    lo
}

} // verus!
