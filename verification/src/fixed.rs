//! Fixed-point arithmetic over a common scale.
//!
//! A value `v` stands for the real number `v / SCALE`.  Multiplication and
//! powers truncate toward zero after each step, exactly as the executable
//! code computes them, so contracts can pin results to the digit.
use vstd::arithmetic::div_mod::{lemma_div_is_ordered, lemma_div_pos_is_pos};
use vstd::arithmetic::mul::{lemma_mul_inequality, lemma_mul_nonnegative, lemma_mul_upper_bound};
use vstd::prelude::*;

verus! {

/// The fixed-point unit; a stored value `v` represents `v / SCALE`.
pub const SCALE: u64 = 1048576;

/// Truncating fixed-point product: `(a * b) / SCALE`.
pub open spec fn fp_mul(a: int, b: int) -> int {
    (a * b) / (SCALE as int)
}

/// Truncating fixed-point power: one truncation after each factor.
pub open spec fn fp_pow(r: int, n: nat) -> int
    decreases n,
{
    if n == 0 {
        SCALE as int
    } else {
        fp_mul(fp_pow(r, (n - 1) as nat), r)
    }
}

pub proof fn lemma_fp_mul_nonneg(a: int, b: int)
    requires
        0 <= a,
        0 <= b,
    ensures
        0 <= fp_mul(a, b),
{
    lemma_mul_nonnegative(a, b);
    lemma_div_pos_is_pos(a * b, SCALE as int);
}

/// Multiplying by a factor at most one (i.e. at most SCALE) cannot grow a value.
pub proof fn lemma_fp_mul_le(a: int, b: int)
    requires
        0 <= a,
        0 <= b <= SCALE,
    ensures
        0 <= fp_mul(a, b) <= a,
{
    lemma_fp_mul_nonneg(a, b);
    lemma_mul_inequality(b, SCALE as int, a);
    assert(a * b == b * a) by (nonlinear_arith);
    assert(a * SCALE == SCALE * a) by (nonlinear_arith);
    lemma_div_is_ordered(a * b, a * (SCALE as int), SCALE as int);
    assert(a * (SCALE as int) / (SCALE as int) == a) by (nonlinear_arith)
        requires 0 <= a;
}

/// Fixed-point powers of a value in [0, 1] stay in [0, 1].
pub proof fn lemma_fp_pow_bounds(r: int, n: nat)
    requires
        0 <= r <= SCALE,
    ensures
        0 <= fp_pow(r, n) <= SCALE,
    decreases n,
{
    if n > 0 {
        lemma_fp_pow_bounds(r, (n - 1) as nat);
        lemma_fp_mul_le(fp_pow(r, (n - 1) as nat), r);
    }
}

/// Fixed-point powers are monotone in the base.
pub proof fn lemma_fp_pow_mono(r1: int, r2: int, n: nat)
    requires
        0 <= r1 <= r2,
    ensures
        0 <= fp_pow(r1, n) <= fp_pow(r2, n),
    decreases n,
{
    if n == 0 {
    } else {
        lemma_fp_pow_mono(r1, r2, (n - 1) as nat);
        let a1 = fp_pow(r1, (n - 1) as nat);
        let a2 = fp_pow(r2, (n - 1) as nat);
        lemma_mul_nonnegative(a1, r1);
        lemma_mul_upper_bound(a1, a2, r1, r2);
        lemma_div_is_ordered(a1 * r1, a2 * r2, SCALE as int);
        lemma_div_pos_is_pos(a1 * r1, SCALE as int);
    }
}

pub fn fp_mul_exec(a: u64, b: u64) -> (r: u64)
    requires
        fp_mul(a as int, b as int) <= u64::MAX,
    ensures
        r as int == fp_mul(a as int, b as int),
{
    proof {
        lemma_mul_nonnegative(a as int, b as int);
        assert((a as int) * (b as int) <= u128::MAX) by (nonlinear_arith)
            requires a <= u64::MAX && b <= u64::MAX;
    }
    (((a as u128) * (b as u128)) / (SCALE as u128)) as u64
}

pub fn fp_pow_exec(r: u64, n: u64) -> (res: u64)
    requires
        r <= SCALE,
    ensures
        res as int == fp_pow(r as int, n as nat),
        res <= SCALE,
{
    let mut acc: u64 = SCALE;
    let mut i: u64 = 0;
    while i < n
        invariant
            i <= n,
            r <= SCALE,
            acc as int == fp_pow(r as int, i as nat),
            acc <= SCALE,
        decreases n - i,
    {
        proof {
            lemma_fp_mul_le(acc as int, r as int);
        }
        acc = fp_mul_exec(acc, r);
        i = i + 1;
    }
    acc
}

/// `r` is the fixed-point n-th root of `x` under the truncating power: the
/// greatest value not above SCALE whose n-th power is at most `x`.
pub open spec fn is_fp_nth_root(r: int, x: int, n: nat) -> bool {
    &&& 0 <= r <= SCALE
    &&& fp_pow(r, n) <= x
    &&& (r == SCALE || fp_pow(r + 1, n) > x)
}

/// The fixed-point n-th root is unique, so contracts over it pin one value.
pub proof fn lemma_fp_nth_root_unique(r1: int, r2: int, x: int, n: nat)
    requires
        is_fp_nth_root(r1, x, n),
        is_fp_nth_root(r2, x, n),
    ensures
        r1 == r2,
{
    if r1 < r2 {
        lemma_fp_pow_mono(r1 + 1, r2, n);
    }
    if r2 < r1 {
        lemma_fp_pow_mono(r2 + 1, r1, n);
    }
}

/// A quotient of non-negative integers truncates to zero exactly when the
/// numerator is smaller than the denominator.
pub proof fn lemma_div_zero_iff(x: int, d: int)
    requires
        x >= 0,
        d >= 1,
    ensures
        x / d == 0 <==> x < d,
{
    if x < d {
        vstd::arithmetic::div_mod::lemma_basic_div(x, d);
    }
    if d <= x {
        vstd::arithmetic::div_mod::lemma_div_is_ordered_by_denominator(x, d, x);
        vstd::arithmetic::div_mod::lemma_div_by_self(x);
    }
}

pub fn fp_nth_root(x: u64, n: u64) -> (r: u64)
    requires
        n >= 1,
    ensures
        is_fp_nth_root(r as int, x as int, n as nat),
{
    let mut lo: u64 = 0;
    let mut hi: u64 = SCALE;
    proof {
        assert(fp_pow(0, n as nat) == fp_mul(fp_pow(0, (n - 1) as nat), 0));
        assert(fp_pow(0, (n - 1) as nat) * 0 == 0);
    }
    while lo < hi
        invariant
            lo <= hi <= SCALE,
            fp_pow(lo as int, n as nat) <= x,
            hi == SCALE || fp_pow(hi as int + 1, n as nat) > x,
        decreases hi - lo,
    {
        let mid = lo + (hi - lo + 1) / 2;
        let p = fp_pow_exec(mid, n);
        if p <= x {
            lo = mid;
        } else {
            hi = mid - 1;
        }
    }
    lo
}

} // verus!
