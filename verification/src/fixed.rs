use vstd::prelude::*;
use vstd::arithmetic::div_mod::lemma_div_is_ordered;
use vstd::arithmetic::div_mod::lemma_div_multiples_vanish;
use vstd::arithmetic::div_mod::lemma_div_nonincreasing;
use vstd::arithmetic::div_mod::lemma_div_pos_is_pos;
use vstd::arithmetic::mul::lemma_mul_inequality;

verus! {

/// The number one in the fixed-point scale used throughout the library:
/// every scalar carries sixteen fractional bits.
pub const FX_ONE: i128 = 65536;

pub open spec fn abs_i(a: int) -> int {
    if a >= 0 {
        a
    } else {
        -a
    }
}

/// Integer division truncating toward zero, the rounding that the executable
/// operations below produce.
pub open spec fn tdiv(n: int, d: int) -> int
    recommends
        d != 0,
{
    if (n >= 0) == (d >= 0) {
        abs_i(n) / abs_i(d)
    } else {
        -(abs_i(n) / abs_i(d))
    }
}

/// Product of two fixed-point scalars.
pub open spec fn fx_mul_s(a: int, b: int) -> int {
    tdiv(a * b, 65536)
}

/// Quotient of two fixed-point scalars.
pub open spec fn fx_div_s(a: int, b: int) -> int
    recommends
        b != 0,
{
    tdiv(a * 65536, b)
}

pub open spec fn is_isqrt(n: int, r: int) -> bool {
    0 <= r && r * r <= n && n < (r + 1) * (r + 1)
}

/// The integer square root: the unique `r` with `r * r <= n < (r + 1) * (r + 1)`.
pub open spec fn isqrt_s(n: int) -> int {
    choose|r: int| #[trigger] is_isqrt(n, r)
}

/// Square root of a fixed-point scalar: scaling the radicand once more by the
/// scale keeps the result in the same scale.
pub open spec fn fx_sqrt_s(x: int) -> int {
    isqrt_s(x * 65536)
}

/// Fixed-point power with a whole exponent; the exponent zero gives one.
pub open spec fn fx_pow_s(b: int, e: nat) -> int
    decreases e,
{
    if e == 0 {
        65536
    } else {
        fx_mul_s(fx_pow_s(b, (e - 1) as nat), b)
    }
}

pub proof fn lemma_isqrt_unique(n: int, r1: int, r2: int)
    by (nonlinear_arith)
    requires
        0 <= r1,
        r1 * r1 <= n,
        n < (r1 + 1) * (r1 + 1),
        0 <= r2,
        r2 * r2 <= n,
        n < (r2 + 1) * (r2 + 1),
    ensures
        r1 == r2,
{
}

pub proof fn lemma_isqrt_exists(n: int)
    requires
        0 <= n,
    ensures
        is_isqrt(n, isqrt_s(n)),
    decreases n,
{
    if n == 0 {
        assert(is_isqrt(0, 0));
    } else {
        lemma_isqrt_exists(n - 1);
        let r = isqrt_s(n - 1);
        if n < (r + 1) * (r + 1) {
            assert(is_isqrt(n, r));
        } else {
            assert((r + 1) * (r + 1) < (r + 2) * (r + 2)) by (nonlinear_arith)
                requires
                    r >= 0,
            ;
            assert(is_isqrt(n, r + 1));
        }
        assert(exists|q: int| #[trigger] is_isqrt(n, q));
    }
}

/// Magnitudes multiply: the product of two bounded factors is bounded by the
/// product of the bounds.
pub proof fn lemma_abs_mul_bound(a: int, b: int, x: int, y: int)
    by (nonlinear_arith)
    requires
        -x <= a <= x,
        -y <= b <= y,
        0 <= x,
        0 <= y,
    ensures
        -(x * y) <= a * b <= x * y,
{
}

/// Truncating division never grows a magnitude.
pub proof fn lemma_tdiv_bound(n: int, d: int, x: int)
    requires
        1 <= d,
        -x <= n <= x,
    ensures
        -x <= tdiv(n, d) <= x,
{
    if n >= 0 {
        lemma_div_pos_is_pos(n, d);
        lemma_div_nonincreasing(n, d);
    } else {
        lemma_div_pos_is_pos(-n, d);
        lemma_div_nonincreasing(-n, d);
    }
}

/// Truncating division is monotone in the dividend for a positive divisor.
pub proof fn lemma_tdiv_mono(n1: int, n2: int, d: int)
    requires
        n1 <= n2,
        1 <= d,
    ensures
        tdiv(n1, d) <= tdiv(n2, d),
{
    if n1 >= 0 {
        lemma_div_is_ordered(n1, n2, d);
    } else if n2 >= 0 {
        lemma_div_pos_is_pos(n2, d);
        lemma_div_pos_is_pos(-n1, d);
    } else {
        lemma_div_is_ordered(-n2, -n1, d);
    }
}

/// Dividing out the scale shrinks a bounded product's magnitude by the scale.
pub proof fn lemma_tdiv_scaled_bound(p: int, m: int)
    requires
        -m <= p <= m,
        0 <= m,
    ensures
        -(m / 65536) <= tdiv(p, 65536) <= m / 65536,
{
    if p >= 0 {
        lemma_div_pos_is_pos(p, 65536);
        lemma_div_is_ordered(p, m, 65536);
        lemma_div_pos_is_pos(m, 65536);
    } else {
        lemma_div_pos_is_pos(-p, 65536);
        lemma_div_is_ordered(-p, m, 65536);
        lemma_div_pos_is_pos(m, 65536);
    }
}

/// A dividend of at most `d * c` in magnitude leaves a quotient of at
/// most `c` in magnitude.
pub proof fn lemma_tdiv_quotient_bound(n: int, d: int, c: int)
    requires
        1 <= d,
        0 <= c,
        -(d * c) <= n <= d * c,
    ensures
        -c <= tdiv(n, d) <= c,
{
    lemma_div_multiples_vanish(c, d);
    if n >= 0 {
        lemma_div_pos_is_pos(n, d);
        lemma_div_is_ordered(n, d * c, d);
    } else {
        lemma_div_pos_is_pos(-n, d);
        lemma_div_is_ordered(-n, d * c, d);
    }
}

/// Scaling by a factor of at most one never grows a non-negative scalar.
pub proof fn lemma_fx_mul_unit(a: int, b: int)
    requires
        0 <= a,
        0 <= b <= 65536,
    ensures
        0 <= fx_mul_s(a, b) <= a,
{
    lemma_mul_inequality(b, 65536, a);
    assert(a * b == b * a) by (nonlinear_arith);
    assert(a * 65536 == 65536 * a) by (nonlinear_arith);
    lemma_tdiv_mono(a * b, a * 65536, 65536);
    lemma_div_multiples_vanish(a, 65536);
    lemma_div_pos_is_pos(a * b, 65536);
    assert(a * b >= 0) by (nonlinear_arith)
        requires
            a >= 0,
            b >= 0,
    ;
}

/// A power of a scalar between zero and one stays between zero and one.
pub proof fn lemma_fx_pow_range(b: int, e: nat)
    requires
        0 <= b <= 65536,
    ensures
        0 <= fx_pow_s(b, e) <= 65536,
    decreases e,
{
    if e > 0 {
        lemma_fx_pow_range(b, (e - 1) as nat);
        lemma_fx_mul_unit(fx_pow_s(b, (e - 1) as nat), b);
    }
}

/// A product of non-negative scalars is non-negative.
pub proof fn lemma_fx_mul_nonneg(a: int, b: int)
    requires
        0 <= a,
        0 <= b,
    ensures
        0 <= fx_mul_s(a, b),
{
    assert(a * b >= 0) by (nonlinear_arith)
        requires
            a >= 0,
            b >= 0,
    ;
    lemma_div_pos_is_pos(a * b, 65536);
}

/// A fixed-point square is never negative.
pub proof fn lemma_fx_square_nonneg(a: int)
    ensures
        0 <= fx_mul_s(a, a),
{
    assert(a * a >= 0) by (nonlinear_arith);
    lemma_div_pos_is_pos(a * a, 65536);
}

/// Division truncating toward zero, computed through the unsigned division
/// of the magnitudes.
pub fn tdiv_i128(n: i128, d: i128) -> (r: i128)
    requires
        d != 0,
        i128::MIN < n,
        i128::MIN < d,
    ensures
        r as int == tdiv(n as int, d as int),
{
    let nn: u128 = if n >= 0 {
        n as u128
    } else {
        (-n) as u128
    };
    let dd: u128 = if d >= 0 {
        d as u128
    } else {
        (-d) as u128
    };
    let q: u128 = nn / dd;
    proof {
        lemma_div_pos_is_pos(nn as int, dd as int);
        lemma_div_nonincreasing(nn as int, dd as int);
    }
    if (n >= 0) == (d >= 0) {
        q as i128
    } else {
        -(q as i128)
    }
}

pub fn fx_mul(a: i128, b: i128) -> (r: i128)
    requires
        -(i128::MAX as int) <= a as int * b as int <= i128::MAX as int,
    ensures
        r as int == fx_mul_s(a as int, b as int),
{
    let p: i128 = a * b;
    tdiv_i128(p, 65536)
}

pub fn fx_div(a: i128, b: i128) -> (r: i128)
    requires
        b != 0,
        i128::MIN < b,
        -(i128::MAX as int) <= a as int * 65536 <= i128::MAX as int,
    ensures
        r as int == fx_div_s(a as int, b as int),
{
    let p: i128 = a * 65536;
    tdiv_i128(p, b)
}

pub fn isqrt_u128(n: u128) -> (r: u128)
    ensures
        is_isqrt(n as int, r as int),
{
    let mut lo: u128 = 0;
    let mut hi: u128 = 0x1_0000_0000_0000_0000;
    proof {
        assert((n as int) < 0x1_0000_0000_0000_0000 * 0x1_0000_0000_0000_0000);
    }
    while lo + 1 < hi
        invariant
            lo < hi <= 0x1_0000_0000_0000_0000,
            (lo as int) * (lo as int) <= n as int,
            (n as int) < (hi as int) * (hi as int),
        decreases hi - lo,
    {
        let mid: u128 = lo + (hi - lo) / 2;
        proof {
            assert(lo < mid < hi);
            assert((mid as int) * (mid as int) < u128::MAX as int) by (nonlinear_arith)
                requires
                    mid as int <= 0xffff_ffff_ffff_ffff,
            ;
        }
        if mid * mid <= n {
            lo = mid;
        } else {
            hi = mid;
        }
    }
    lo
}

/// Square root of a non-negative fixed-point scalar.
pub fn fx_sqrt(x: i128) -> (r: i128)
    requires
        0 <= x,
        x as int * 65536 <= u128::MAX as int,
    ensures
        r as int == fx_sqrt_s(x as int),
        0 <= r,
{
    let wide: u128 = (x as u128) * 65536;
    let root: u128 = isqrt_u128(wide);
    proof {
        assert((root as int) < 0x1_0000_0000_0000_0000) by (nonlinear_arith)
            requires
                0 <= root as int,
                (root as int) * (root as int) <= wide as int,
                wide as int <= u128::MAX as int,
        ;
        let c = isqrt_s(x as int * 65536);
        assert(exists|q: int| #[trigger] is_isqrt(x as int * 65536, q));
        assert(is_isqrt(x as int * 65536, c));
        lemma_isqrt_unique(x as int * 65536, root as int, c);
    }
    root as i128
}

/// Fixed-point power of a scalar between zero and one, by a whole exponent.
pub fn fx_pow(b: i128, e: u32) -> (r: i128)
    requires
        0 <= b <= 65536,
    ensures
        r as int == fx_pow_s(b as int, e as nat),
        0 <= r <= 65536,
{
    let mut acc: i128 = 65536;
    let mut i: u32 = 0;
    while i < e
        invariant
            i <= e,
            0 <= acc <= 65536,
            0 <= b <= 65536,
            acc as int == fx_pow_s(b as int, i as nat),
        decreases e - i,
    {
        proof {
            lemma_fx_mul_unit(acc as int, b as int);
            lemma_abs_mul_bound(acc as int, b as int, 65536, 65536);
        }
        acc = fx_mul(acc, b);
        i = i + 1;
    }
    acc
}

} // verus!
