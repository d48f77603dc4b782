//! Fixed-point scalar arithmetic: truncating division and integer square
//! roots, the two primitives every vector operation is built from.

use vstd::prelude::*;
use vstd::arithmetic::div_mod::{
    lemma_div_by_multiple, lemma_div_is_ordered, lemma_div_pos_is_pos,
};

verus! {

/// One world unit is `SCALE` raw fixed-point steps.
pub const SCALE: i64 = 1_000_000;

/// Largest raw coordinate magnitude the geometry works with
/// (100 000 world units).
pub const COORD_LIMIT: i64 = 100_000_000_000;

/// Largest raw component magnitude the plain vector operations accept.
pub const VEC_LIMIT: i64 = 1_000_000_000_000;

pub open spec fn iabs(a: int) -> int {
    if a < 0 {
        -a
    } else {
        a
    }
}

/// Truncating (round-toward-zero) division: the semantics of the
/// executable fixed-point divisions.
pub open spec fn tdiv(a: int, b: int) -> int {
    if (a < 0) == (b < 0) {
        iabs(a) / iabs(b)
    } else {
        -(iabs(a) / iabs(b))
    }
}

pub open spec fn is_isqrt(n: int, r: int) -> bool {
    0 <= r && r * r <= n && n < (r + 1) * (r + 1)
}

/// The integer square root (the floor of the real square root).
pub open spec fn isqrt(n: int) -> int {
    choose|r: int| #[trigger] is_isqrt(n, r)
}

proof fn lemma_isqrt_exists(n: int)
    requires
        n >= 0,
    ensures
        exists|r: int| #[trigger] is_isqrt(n, r),
    decreases n,
{
    if n == 0 {
        assert(is_isqrt(0, 0));
    } else {
        lemma_isqrt_exists(n - 1);
        let r = choose|r: int| #[trigger] is_isqrt(n - 1, r);
        if (r + 1) * (r + 1) <= n {
            assert(n == (r + 1) * (r + 1));
            assert((r + 2) * (r + 2) > n) by (nonlinear_arith)
                requires
                    r >= 0,
                    n == (r + 1) * (r + 1),
            ;
            assert(is_isqrt(n, r + 1));
        } else {
            assert(is_isqrt(n, r));
        }
    }
}

/// `isqrt(n)` really is the integer square root of `n`.
pub proof fn lemma_isqrt(n: int)
    requires
        n >= 0,
    ensures
        is_isqrt(n, isqrt(n)),
{
    lemma_isqrt_exists(n);
}

/// The integer square root is the only value satisfying `is_isqrt`.
pub proof fn lemma_isqrt_unique(n: int, r: int)
    requires
        is_isqrt(n, r),
    ensures
        r == isqrt(n),
{
    assert(n >= 0) by (nonlinear_arith)
        requires
            is_isqrt(n, r),
    ;
    lemma_isqrt(n);
    let s = isqrt(n);
    if r < s {
        assert(false) by (nonlinear_arith)
            requires
                is_isqrt(n, r),
                is_isqrt(n, s),
                r < s,
        ;
    }
    if s < r {
        assert(false) by (nonlinear_arith)
            requires
                is_isqrt(n, r),
                is_isqrt(n, s),
                s < r,
        ;
    }
}

/// The integer square root of a perfect square is exact.
pub proof fn lemma_isqrt_square(k: int)
    requires
        k >= 0,
    ensures
        isqrt(k * k) == k,
{
    assert(is_isqrt(k * k, k)) by (nonlinear_arith)
        requires
            k >= 0,
    ;
    lemma_isqrt_unique(k * k, k);
}

/// The integer square root is monotone.
pub proof fn lemma_isqrt_ordered(m: int, n: int)
    requires
        0 <= m <= n,
    ensures
        isqrt(m) <= isqrt(n),
{
    lemma_isqrt(m);
    lemma_isqrt(n);
    assert(isqrt(m) <= isqrt(n)) by (nonlinear_arith)
        requires
            is_isqrt(m, isqrt(m)),
            is_isqrt(n, isqrt(n)),
            m <= n,
    ;
}

/// `|a / b| <= m` whenever `|a| <= m * b`.
pub proof fn lemma_tdiv_bound(a: int, b: int, m: int)
    requires
        1 <= b,
        0 <= m,
        iabs(a) <= m * b,
    ensures
        iabs(tdiv(a, b)) <= m,
{
    lemma_div_pos_is_pos(iabs(a), b);
    lemma_div_is_ordered(iabs(a), m * b, b);
    lemma_div_by_multiple(m, b);
}

/// Truncating division is exact on multiples of the divisor.
pub proof fn lemma_tdiv_exact(k: int, b: int)
    requires
        b > 0,
    ensures
        tdiv(k * b, b) == k,
{
    if k >= 0 {
        assert(k * b >= 0) by (nonlinear_arith)
            requires
                k >= 0,
                b > 0,
        ;
        lemma_div_by_multiple(k, b);
    } else {
        assert(k * b < 0 && -(k * b) == (-k) * b) by (nonlinear_arith)
            requires
                k < 0,
                b > 0,
        ;
        lemma_div_by_multiple(-k, b);
    }
}

/// Truncating division never grows the magnitude of the dividend.
pub proof fn lemma_tdiv_le_num(a: int, b: int)
    requires
        b >= 1,
    ensures
        iabs(tdiv(a, b)) <= iabs(a),
{
    lemma_div_pos_is_pos(iabs(a), b);
    vstd::arithmetic::div_mod::lemma_div_nonincreasing(iabs(a), b);
}

/// The remainder left by truncating division has magnitude below the
/// divisor.
pub proof fn lemma_tdiv_remainder(a: int, b: int)
    requires
        b > 0,
    ensures
        iabs(a - b * tdiv(a, b)) < b,
{
    if a >= 0 {
        vstd::arithmetic::div_mod::lemma_fundamental_div_mod(a, b);
        vstd::arithmetic::div_mod::lemma_mod_bound(a, b);
    } else {
        let na = -a;
        vstd::arithmetic::div_mod::lemma_fundamental_div_mod(na, b);
        vstd::arithmetic::div_mod::lemma_mod_bound(na, b);
        assert(b * (-(na / b)) == -(b * (na / b))) by (nonlinear_arith);
    }
}

/// Truncating division of a nonnegative value agrees with floor division.
pub proof fn lemma_tdiv_nonneg(a: int, b: int)
    requires
        a >= 0,
        b > 0,
    ensures
        tdiv(a, b) == a / b,
        tdiv(a, b) >= 0,
{
    lemma_div_pos_is_pos(a, b);
}

/// Truncating division, computed over `i128` intermediates.
pub fn div_i128(a: i128, b: i128) -> (r: i128)
    requires
        b > 0,
        a > i128::MIN,
    ensures
        r as int == tdiv(a as int, b as int),
{
    proof {
        lemma_div_pos_is_pos(iabs(a as int), b as int);
        vstd::arithmetic::div_mod::lemma_div_nonincreasing(iabs(a as int), b as int);
    }
    if a >= 0 {
        ((a as u128) / (b as u128)) as i128
    } else {
        let na: u128 = (-a) as u128;
        -(((na) / (b as u128)) as i128)
    }
}

/// `tdiv(a * b, d)`, computed without overflow over `i128` intermediates.
pub fn mul_div(a: i64, b: i64, d: i64) -> (r: i64)
    requires
        d > 0,
        i64::MIN <= tdiv(a as int * b as int, d as int) <= i64::MAX,
    ensures
        r as int == tdiv(a as int * b as int, d as int),
{
    proof {
        assert(i128::MIN < (a as int) * (b as int) <= i128::MAX) by (nonlinear_arith)
            requires
                i64::MIN <= a <= i64::MAX,
                i64::MIN <= b <= i64::MAX,
        ;
    }
    let p: i128 = (a as i128) * (b as i128);
    let q: i128 = div_i128(p, d as i128);
    q as i64
}

/// Integer square root of a `u128`, by binary search on the root.
pub fn isqrt_u128(n: u128) -> (r: u64)
    requires
        n < 0x40000000000000000000000000000000u128,
    ensures
        r as int == isqrt(n as int),
        is_isqrt(n as int, r as int),
{
    let mut lo: u128 = 0;
    let mut hi: u128 = 0x8000000000000000u128;
    proof {
        assert((hi as int) * (hi as int) > n as int);
    }
    while lo + 1 < hi
        invariant
            0 <= lo < hi <= 0x8000000000000000u128,
            (lo as int) * (lo as int) <= n as int,
            (n as int) < (hi as int) * (hi as int),
        decreases hi - lo,
    {
        let mid: u128 = lo + (hi - lo) / 2;
        proof {
            assert(mid * mid <= 0x8000000000000000u128 * 0x8000000000000000u128)
                by (nonlinear_arith)
                requires
                    0 <= mid <= 0x8000000000000000u128,
            ;
        }
        if mid * mid <= n {
            lo = mid;
        } else {
            hi = mid;
        }
    }
    proof {
        assert(is_isqrt(n as int, lo as int));
        lemma_isqrt_unique(n as int, lo as int);
        assert((lo as int) < 0x10000000000000000int) by (nonlinear_arith)
            requires
                (lo as int) * (lo as int) <= n as int,
                (n as int) < 0x8000000000000000int * 0x8000000000000000int,
                lo >= 0,
        ;
    }
    lo as u64
}

} // verus!
