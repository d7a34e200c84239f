//! Integer arithmetic helpers: floor / ceiling / round-to-nearest division
//! and an integer square root, with exact specifications.

use vstd::prelude::*;

verus! {

/// Floor division for a positive divisor. Spec-level `/` on `int` is
/// Euclidean division, which coincides with floor division when `b > 0`.
pub open spec fn floor_div(a: int, b: int) -> int {
    a / b
}

/// Ceiling division for a positive divisor.
pub open spec fn ceil_div(a: int, b: int) -> int {
    -((-a) / b)
}

/// Division rounded to the nearest integer, ties away from zero, for a
/// positive divisor. This matches how `f64::round` treats a quotient.
pub open spec fn round_div(a: int, b: int) -> int {
    if a >= 0 {
        (2 * a + b) / (2 * b)
    } else {
        -((2 * (-a) + b) / (2 * b))
    }
}

/// `r` is the floor of the square root of `n`.
pub open spec fn is_sqrt_floor(n: int, r: int) -> bool {
    0 <= r && r * r <= n && n < (r + 1) * (r + 1)
}

/// The floor of the square root of a non-negative integer.
pub open spec fn sqrt_floor(n: int) -> int {
    choose|r: int| is_sqrt_floor(n, r)
}

/// The square-root floor is unique.
pub proof fn lemma_sqrt_floor_unique(n: int, r: int)
    requires
        is_sqrt_floor(n, r),
    ensures
        r == sqrt_floor(n),
{
    let s = sqrt_floor(n);
    assert(is_sqrt_floor(n, s));
    assert(r == s) by (nonlinear_arith)
        requires
            is_sqrt_floor(n, r),
            is_sqrt_floor(n, s),
    ;
}

/// The square root of a perfect square.
pub proof fn lemma_sqrt_floor_square(v: int)
    requires
        v >= 0,
    ensures
        sqrt_floor(v * v) == v,
{
    assert(is_sqrt_floor(v * v, v)) by (nonlinear_arith)
        requires
            v >= 0,
    ;
    lemma_sqrt_floor_unique(v * v, v);
}

/// The quotient of floor division lies between the dividend's bounds.
proof fn lemma_floor_div_in_range(a: int, b: int, m: int)
    requires
        b > 0,
        m >= 0,
        -m <= a <= m,
    ensures
        vstd::math::min(a, 0) <= floor_div(a, b) <= vstd::math::max(a, 0),
{
    vstd::arithmetic::div_mod::lemma_fundamental_div_mod(a, b);
    vstd::arithmetic::div_mod::lemma_mod_division_less_than_divisor(a, b);
    assert(vstd::math::min(a, 0) <= a / b <= vstd::math::max(a, 0)) by (nonlinear_arith)
        requires
            b > 0,
            m >= 0,
            -m <= a <= m,
            a == b * (a / b) + (a % b),
            0 <= a % b < b,
    ;
}

/// Floor division of `a` by the positive divisor `b`, as exact integers.
pub fn floor_div_i64(a: i64, b: i64) -> (r: i64)
    requires
        b > 0,
    ensures
        r == floor_div(a as int, b as int),
        vstd::math::min(a as int, 0) <= r <= vstd::math::max(a as int, 0),
{
    proof {
        lemma_floor_div_in_range(a as int, b as int, 0x8000_0000_0000_0000);
    }
    match a.checked_div_euclid(b) {
        Some(q) => q,
        None => {
            proof {
                assert(false);
            }
            0
        },
    }
}

/// Ceiling division of `a` by the positive divisor `b`.
pub fn ceil_div_i64(a: i64, b: i64) -> (r: i64)
    requires
        b > 0,
        -0x7fff_ffff_ffff_ffff <= a,
    ensures
        r == ceil_div(a as int, b as int),
{
    let neg = floor_div_i64(-a, b);
    -neg
}

/// Division of `a` by the positive divisor `b`, rounded to the nearest
/// integer with ties away from zero.
pub fn round_div_i64(a: i64, b: i64) -> (r: i64)
    requires
        b > 0,
        -0x1000_0000_0000_0000 <= a <= 0x1000_0000_0000_0000,
        b <= 0x1000_0000_0000_0000,
    ensures
        r == round_div(a as int, b as int),
{
    if a >= 0 {
        floor_div_i64(2 * a + b, 2 * b)
    } else {
        let q = floor_div_i64(2 * (-a) + b, 2 * b);
        -q
    }
}

/// Rounding an exact multiple returns the multiplier: the raster round trip
/// rests on this.
pub proof fn lemma_round_div_exact(k: int, b: int)
    requires
        b > 0,
    ensures
        round_div(k * b, b) == k,
{
    if k >= 0 {
        assert((2 * (k * b) + b) / (2 * b) == k) by (nonlinear_arith)
            requires
                b > 0,
                k >= 0,
        ;
    } else {
        assert((2 * (-(k * b)) + b) / (2 * b) == -k) by (nonlinear_arith)
            requires
                b > 0,
                k < 0,
        ;
        assert(k * b < 0) by (nonlinear_arith)
            requires
                b > 0,
                k < 0,
        ;
    }
}

/// Floor division stays at or below the exact quotient: `floor_div(a, b) * b <= a`.
pub proof fn lemma_floor_div_le(a: int, b: int)
    requires
        b > 0,
    ensures
        floor_div(a, b) * b <= a,
        a < (floor_div(a, b) + 1) * b,
{
    vstd::arithmetic::div_mod::lemma_fundamental_div_mod(a, b);
    vstd::arithmetic::div_mod::lemma_mod_division_less_than_divisor(a, b);
    assert(floor_div(a, b) * b <= a && a < (floor_div(a, b) + 1) * b) by (nonlinear_arith)
        requires
            b > 0,
            a == b * (a / b) + a % b,
            0 <= a % b < b,
            floor_div(a, b) == a / b,
    ;
}

/// Ceiling division stays at or above the exact quotient.
pub proof fn lemma_ceil_div_ge(a: int, b: int)
    requires
        b > 0,
    ensures
        ceil_div(a, b) * b >= a,
        (ceil_div(a, b) - 1) * b < a,
{
    lemma_floor_div_le(-a, b);
    assert(ceil_div(a, b) * b >= a && (ceil_div(a, b) - 1) * b < a) by (nonlinear_arith)
        requires
            b > 0,
            floor_div(-a, b) * b <= -a,
            -a < (floor_div(-a, b) + 1) * b,
            ceil_div(a, b) == -floor_div(-a, b),
    ;
}

/// Division rounded to the nearest integer, ties away from zero, for any
/// non-zero divisor: the divisor's sign is folded into the dividend.
pub open spec fn round_div_signed(a: int, b: int) -> int {
    if b > 0 {
        round_div(a, b)
    } else {
        round_div(-a, -b)
    }
}

/// Floor division of `a` by the positive divisor `b`, over `i128`.
pub fn floor_div_i128(a: i128, b: i128) -> (r: i128)
    requires
        b > 0,
    ensures
        r == floor_div(a as int, b as int),
        vstd::math::min(a as int, 0) <= r <= vstd::math::max(a as int, 0),
{
    proof {
        lemma_floor_div_in_range(a as int, b as int, 0x8000_0000_0000_0000_0000_0000_0000_0000);
    }
    match a.checked_div_euclid(b) {
        Some(q) => q,
        None => {
            proof {
                assert(false);
            }
            0
        },
    }
}

/// Division of `a` by the non-zero divisor `b`, rounded to the nearest
/// integer with ties away from zero, over `i128`.
pub fn round_div_signed_i128(a: i128, b: i128) -> (r: i128)
    requires
        b != 0,
        -0x1000_0000_0000_0000_0000_0000_0000_0000 <= a <= 0x1000_0000_0000_0000_0000_0000_0000_0000,
        -0x1000_0000_0000_0000_0000_0000_0000_0000 <= b <= 0x1000_0000_0000_0000_0000_0000_0000_0000,
    ensures
        r == round_div_signed(a as int, b as int),
{
    let (aa, bb) = if b > 0 {
        (a, b)
    } else {
        (-a, -b)
    };
    if aa >= 0 {
        floor_div_i128(2 * aa + bb, 2 * bb)
    } else {
        let q = floor_div_i128(2 * (-aa) + bb, 2 * bb);
        -q
    }
}

/// Bounds on the dividend as multiples of the divisor bound the quotient.
pub proof fn lemma_floor_div_bounds(a: int, b: int, lo: int, hi: int)
    requires
        b > 0,
        lo * b <= a,
        a <= hi * b,
    ensures
        lo <= floor_div(a, b) <= hi,
{
    lemma_floor_div_le(a, b);
    assert(lo <= floor_div(a, b) <= hi) by (nonlinear_arith)
        requires
            b > 0,
            lo * b <= a <= hi * b,
            floor_div(a, b) * b <= a,
            a < (floor_div(a, b) + 1) * b,
    ;
}

/// Filtering a sequence extended by one element: the element stays exactly
/// when the predicate holds of it.
pub proof fn lemma_filter_push<A>(s: Seq<A>, x: A, p: spec_fn(A) -> bool)
    ensures
        s.push(x).filter(p) == if p(x) {
            s.filter(p).push(x)
        } else {
            s.filter(p)
        },
{
    reveal(Seq::filter);
    assert(s.push(x).drop_last() =~= s);
    assert(s.push(x).last() == x);
}

/// Filtering keeps only elements of the original sequence, so a property
/// of every element survives the filter.
pub proof fn lemma_filter_elements<A>(s: Seq<A>, p: spec_fn(A) -> bool, q: spec_fn(A) -> bool)
    requires
        forall|i: int| 0 <= i < s.len() ==> q(#[trigger] s[i]),
    ensures
        forall|i: int| 0 <= i < s.filter(p).len() ==> q(#[trigger] s.filter(p)[i]),
    decreases s.len(),
{
    reveal(Seq::filter);
    if s.len() > 0 {
        assert(forall|i: int| 0 <= i < s.drop_last().len() ==> q(#[trigger] s.drop_last()[i]));
        lemma_filter_elements(s.drop_last(), p, q);
        let sub = s.drop_last().filter(p);
        if p(s.last()) {
            assert(forall|i: int|
                0 <= i < sub.push(s.last()).len() ==> q(#[trigger] sub.push(s.last())[i]));
        }
    }
}

/// The floor of the square root, by binary search over `u128`.
pub fn isqrt_u128(n: u128) -> (r: u64)
    requires
        (n as int) < 0x4000_0000_0000_0000_0000_0000_0000_0000,
    ensures
        is_sqrt_floor(n as int, r as int),
        r == sqrt_floor(n as int),
{
    let mut lo: u128 = 0;
    let mut hi: u128 = 0x8000_0000_0000_0000;
    proof {
        assert((hi as int) * (hi as int) > n as int) by (nonlinear_arith)
            requires
                hi == 0x8000_0000_0000_0000u128,
                (n as int) < 0x4000_0000_0000_0000_0000_0000_0000_0000,
        ;
    }
    while lo + 1 < hi
        invariant
            lo < hi <= 0x8000_0000_0000_0000,
            (lo as int) * (lo as int) <= n as int,
            (hi as int) * (hi as int) > n as int,
        decreases hi - lo,
    {
        let mid: u128 = lo + (hi - lo) / 2;
        proof {
            assert((mid as int) * (mid as int)
                <= 0x4000_0000_0000_0000_0000_0000_0000_0000) by (nonlinear_arith)
                requires
                    0 <= (mid as int) <= 0x8000_0000_0000_0000,
            ;
        }
        if mid * mid <= n {
            lo = mid;
        } else {
            hi = mid;
        }
    }
    proof {
        assert((lo as int + 1) * (lo as int + 1) > n as int);
        lemma_sqrt_floor_unique(n as int, lo as int);
    }
    lo as u64
}

} // verus!
