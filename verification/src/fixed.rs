//! Exact arithmetic on millionths: rounding division, integer square root,
//! and a fixed-point exponential and logistic curve.

use vstd::prelude::*;

verus! {

/// The integer that stands for the number one.
pub const ONE: i64 = 1_000_000;

/// The natural logarithm of two, in millionths.
pub const LN2: i64 = 693_147;

/// The number of terms after the constant one in the series for `e^-r`.
pub const EXP_TERMS: i64 = 10;

/// The number of halvings after which a value of at most one has vanished.
pub const EXP_CUTOFF: i64 = 24;

/// The largest magnitude that the wide helpers accept: two to the 124th.
pub const WIDE_LIMIT: i128 = 0x1000_0000_0000_0000_0000_0000_0000_0000;

/// The quotient `a / b` rounded to the nearest integer, halves away from
/// zero. Meant for a positive `b`.
pub open spec fn round_div(a: int, b: int) -> int {
    if a >= 0 {
        (2 * a + b) / (2 * b)
    } else {
        -((b - 2 * a) / (2 * b))
    }
}

/// Rounding division is odd in its numerator.
pub proof fn lemma_round_div_odd(a: int, b: int)
    requires
        b > 0,
    ensures
        round_div(-a, b) == -round_div(a, b),
{
    if a > 0 {
        assert(b - 2 * (-a) == 2 * a + b);
    } else if a < 0 {
        assert(2 * (-a) + b == b - 2 * a);
    } else {
        assert(2 * 0 + b == b);
        vstd::arithmetic::div_mod::lemma_small_div_converse(b, 2 * b);
        assert(b / (2 * b) == 0) by (nonlinear_arith)
            requires
                b > 0,
        ;
    }
}

/// Rounding division stays within half a unit of the exact quotient.
pub proof fn lemma_round_div_error(a: int, b: int)
    requires
        b > 0,
    ensures
        -b <= 2 * (round_div(a, b) * b - a) <= b,
{
    if a >= 0 {
        let q = (2 * a + b) / (2 * b);
        vstd::arithmetic::div_mod::lemma_fundamental_div_mod(2 * a + b, 2 * b);
        vstd::arithmetic::div_mod::lemma_mod_bound(2 * a + b, 2 * b);
        assert((2 * b) * q == 2 * (q * b)) by (nonlinear_arith);
    } else {
        let q = (b - 2 * a) / (2 * b);
        vstd::arithmetic::div_mod::lemma_fundamental_div_mod(b - 2 * a, 2 * b);
        vstd::arithmetic::div_mod::lemma_mod_bound(b - 2 * a, 2 * b);
        assert((2 * b) * q == 2 * (q * b)) by (nonlinear_arith);
        assert((-q) * b == -(q * b)) by (nonlinear_arith);
    }
}

/// The rounded mean of `count` numbers of a magnitude of at most `bound`
/// has itself a magnitude of at most `bound`.
pub proof fn lemma_round_div_mean(sum: int, count: int, bound: int)
    requires
        count > 0,
        bound >= 0,
        -(count * bound) <= sum <= count * bound,
    ensures
        -bound <= round_div(sum, count) <= bound,
{
    lemma_round_div_error(sum, count);
    let q = round_div(sum, count);
    assert(-bound <= q <= bound) by (nonlinear_arith)
        requires
            -count <= 2 * (q * count - sum) <= count,
            -(count * bound) <= sum <= count * bound,
            count > 0,
            bound >= 0,
    ;
}

/// Computes [`round_div`].
pub fn div_round(a: i128, b: i128) -> (q: i128)
    requires
        0 < b <= WIDE_LIMIT,
        -WIDE_LIMIT <= a <= WIDE_LIMIT,
    ensures
        q == round_div(a as int, b as int),
{
    if a >= 0 {
        (2 * a + b) / (2 * b)
    } else {
        let q: i128 = (b - 2 * a) / (2 * b);
        assert(0 <= q) by {
            vstd::arithmetic::div_mod::lemma_div_pos_is_pos(b - 2 * a, 2 * b);
        }
        -q
    }
}

/// Whether `r` is the integer square root of `n`: the largest natural number
/// whose square does not exceed `n`.
pub open spec fn is_sqrt(r: nat, n: nat) -> bool {
    r * r <= n < (r + 1) * (r + 1)
}

/// The integer square root of `n`.
pub open spec fn isqrt(n: nat) -> nat {
    choose|r: nat| is_sqrt(r, n)
}

/// At most one number is the integer square root of `n`.
pub proof fn lemma_sqrt_unique(a: nat, b: nat, n: nat)
    requires
        is_sqrt(a, n),
        is_sqrt(b, n),
    ensures
        a == b,
{
    if a < b {
        assert((a + 1) * (a + 1) <= b * b) by (nonlinear_arith)
            requires
                a + 1 <= b,
        ;
    } else if b < a {
        assert((b + 1) * (b + 1) <= a * a) by (nonlinear_arith)
            requires
                b + 1 <= a,
        ;
    }
}

/// Every natural number has an integer square root.
pub proof fn lemma_root_exists(n: nat)
    ensures
        is_sqrt(isqrt(n), n),
    decreases n,
{
    if n == 0 {
        assert(is_sqrt(0, 0)) by (nonlinear_arith);
    } else {
        lemma_root_exists((n - 1) as nat);
        let r = isqrt((n - 1) as nat);
        if (r + 1) * (r + 1) <= n {
            assert(n < (r + 2) * (r + 2)) by (nonlinear_arith)
                requires
                    n - 1 < (r + 1) * (r + 1),
            ;
            assert(is_sqrt(r + 1, n));
        } else {
            assert(is_sqrt(r, n));
        }
    }
}

/// A number that passes [`is_sqrt`] is the integer square root.
pub proof fn lemma_sqrt_is(r: nat, n: nat)
    requires
        is_sqrt(r, n),
    ensures
        isqrt(n) == r,
{
    lemma_sqrt_unique(isqrt(n), r, n);
}

/// The integer square root is monotone: a number whose square is at most `n`
/// is at most the root of `n`, and one whose square exceeds `n` exceeds it.
pub proof fn lemma_sqrt_bounds(r: nat, n: nat, lo: nat, hi: nat)
    requires
        is_sqrt(r, n),
        lo * lo <= n,
        n < hi * hi,
    ensures
        lo <= r < hi,
{
    if r < lo {
        assert((r + 1) * (r + 1) <= lo * lo) by (nonlinear_arith)
            requires
                r + 1 <= lo,
        ;
    }
    if hi <= r {
        assert(hi * hi <= r * r) by (nonlinear_arith)
            requires
                hi <= r,
        ;
    }
}

/// Computes the integer square root by bisection.
pub fn sqrt_floor(n: u64) -> (r: u64)
    ensures
        is_sqrt(r as nat, n as nat),
        r as nat == isqrt(n as nat),
        r < 0x1_0000_0000,
{
    let mut lo: u64 = 0;
    let mut hi: u64 = 0x1_0000_0000;
    assert(0x1_0000_0000u64 * 0x1_0000_0000u64 > n) by (nonlinear_arith);
    assert(0 * 0 == 0) by (nonlinear_arith);
    while hi - lo > 1
        invariant
            lo < hi <= 0x1_0000_0000,
            lo * lo <= n < hi * hi,
        decreases hi - lo,
    {
        let mid: u64 = lo + (hi - lo) / 2;
        assert(mid * mid <= 0x1_0000_0000u64 * 0x1_0000_0000u64) by (nonlinear_arith)
            requires
                mid <= 0x1_0000_0000u64,
        ;
        let sq: u128 = (mid as u128) * (mid as u128);
        if sq <= n as u128 {
            lo = mid;
        } else {
            hi = mid;
        }
    }
    proof {
        assert(hi == lo + 1);
        lemma_sqrt_is(lo as nat, n as nat);
    }
    lo
}

/// The value `p` after `k` halvings, each rounded down.
pub open spec fn halved(p: int, k: nat) -> int
    decreases k,
{
    if k == 0 {
        p
    } else {
        halved(p / 2, (k - 1) as nat)
    }
}

/// Halving keeps a value between zero and its start.
pub proof fn lemma_halved_bounds(p: int, k: nat)
    requires
        0 <= p,
    ensures
        0 <= halved(p, k) <= p,
    decreases k,
{
    if k > 0 {
        lemma_halved_bounds(p / 2, (k - 1) as nat);
    }
}

/// The series `1 - r/i * (1 - r/(i+1) * (...))` in millionths, cut after
/// the term with divisor [`EXP_TERMS`]. Started at `i == 1` it approximates
/// `e^-r` for a remainder `r` between zero and [`LN2`].
pub open spec fn exp_series(r: int, i: int) -> int
    decreases EXP_TERMS + 1 - i,
{
    if i < 1 || i > EXP_TERMS {
        ONE as int
    } else {
        ONE - (r * exp_series(r, i + 1)) / (i * ONE)
    }
}

/// Every partial series lies above zero and at most at one.
pub proof fn lemma_exp_series_bounds(r: int, i: int)
    requires
        0 <= r < ONE,
        1 <= i,
    ensures
        0 < exp_series(r, i) <= ONE,
    decreases EXP_TERMS + 1 - i,
{
    if i <= EXP_TERMS {
        lemma_exp_series_bounds(r, i + 1);
        let p = exp_series(r, i + 1);
        assert(0 <= r * p < i * ONE * ONE) by (nonlinear_arith)
            requires
                0 <= r < ONE,
                0 < p <= ONE,
                1 <= i,
        ;
        assert(0 <= (r * p) / (i * ONE) < ONE) by (nonlinear_arith)
            requires
                0 <= r * p < i * ONE * ONE,
                1 <= i,
        ;
    }
}

/// The fixed-point value of `e^-x` in millionths, for `x >= 0` in
/// millionths: `x` is split into a count of [`LN2`] and a remainder, the
/// series gives the remainder's part, and each [`LN2`] halves it.
pub open spec fn exp_neg(x: int) -> int {
    if x / (LN2 as int) >= EXP_CUTOFF {
        0
    } else {
        halved(exp_series(x % (LN2 as int), 1), (x / (LN2 as int)) as nat)
    }
}

/// The fixed-point exponential lies between zero and one.
pub proof fn lemma_exp_neg_bounds(x: int)
    requires
        0 <= x,
    ensures
        0 <= exp_neg(x) <= ONE,
        exp_neg(0) == ONE,
{
    let k = x / (LN2 as int);
    let r = x % (LN2 as int);
    if k < EXP_CUTOFF {
        lemma_exp_series_bounds(r, 1);
        lemma_halved_bounds(exp_series(r, 1), k as nat);
    }
    reveal_with_fuel(exp_series, 12);
    assert(exp_series(0, 1) == ONE);
}

/// Computes [`exp_neg`].
pub fn exp_neg_fixed(x: i64) -> (e: i64)
    requires
        0 <= x,
    ensures
        e == exp_neg(x as int),
        0 <= e <= ONE,
{
    proof {
        lemma_exp_neg_bounds(x as int);
    }
    let k: i64 = x / LN2;
    let r: i64 = x % LN2;
    if k >= EXP_CUTOFF {
        return 0;
    }
    let mut p: i64 = ONE;
    let mut i: i64 = EXP_TERMS;
    while i >= 1
        invariant
            0 <= i <= EXP_TERMS,
            0 <= r < LN2,
            p == exp_series(r as int, i + 1),
            0 < p <= ONE,
        decreases i,
    {
        proof {
            lemma_exp_series_bounds(r as int, i as int);
        }
        assert(0 <= r * p <= ONE * ONE) by (nonlinear_arith)
            requires
                0 <= r < ONE,
                0 < p <= ONE,
        ;
        p = ONE - (r * p) / (i * ONE);
        i = i - 1;
    }
    let mut j: i64 = 0;
    let ghost start = p as int;
    while j < k
        invariant
            0 <= j <= k,
            0 <= p,
            halved(p as int, (k - j) as nat) == halved(start, k as nat),
        decreases k - j,
    {
        p = p / 2;
        j = j + 1;
    }
    p
}

/// The logistic curve `1 / (1 + e^-x)` in millionths, for `x` in
/// millionths. Negative arguments mirror positive ones, so that
/// `logistic(x) + logistic(-x)` is exactly one.
pub open spec fn logistic(x: int) -> int {
    if x >= 0 {
        (ONE * ONE) / (ONE + exp_neg(x))
    } else {
        ONE - (ONE * ONE) / (ONE + exp_neg(-x))
    }
}

/// The logistic curve lies between zero and one, is one half at zero, at
/// least one half for every positive argument, and mirrors about zero.
pub proof fn lemma_logistic_bounds(x: int)
    ensures
        0 <= logistic(x) <= ONE,
        logistic(x) + logistic(-x) == ONE,
        x >= 0 ==> logistic(x) >= ONE / 2,
        x <= 0 ==> logistic(x) <= ONE / 2,
{
    let m = if x >= 0 { x } else { -x };
    lemma_exp_neg_bounds(m);
    let e = exp_neg(m);
    assert(ONE / 2 <= (ONE * ONE) / (ONE + e) <= ONE) by (nonlinear_arith)
        requires
            0 <= e <= ONE,
    ;
    if x == 0 {
        assert(e == ONE);
        assert((ONE * ONE) / (ONE + ONE) == ONE / 2);
    }
}

/// Computes [`logistic`].
pub fn logistic_fixed(x: i64) -> (p: i64)
    requires
        x > i64::MIN,
    ensures
        p == logistic(x as int),
        0 <= p <= ONE,
{
    proof {
        lemma_logistic_bounds(x as int);
    }
    if x >= 0 {
        let e = exp_neg_fixed(x);
        (ONE * ONE) / (ONE + e)
    } else {
        let e = exp_neg_fixed(-x);
        ONE - (ONE * ONE) / (ONE + e)
    }
}

} // verus!
