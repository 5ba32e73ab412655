//! Fixed-point scalar arithmetic.
//!
//! A scalar is an `i64` holding the real value times `SCALE` (2^16).
//! Products and quotients round toward zero: each operation computes the
//! exact integer magnitude and reattaches the sign, so the specification
//! functions below describe the executable results exactly.

use vstd::prelude::*;

verus! {

/// One unit, as a raw fixed-point value.
pub const SCALE: i64 = 65536;

/// Absolute value of a mathematical integer.
pub open spec fn iabs(x: int) -> int {
    if x >= 0 { x } else { -x }
}

/// Exact value of a fixed-point product: (a*b)/SCALE rounded toward zero.
pub open spec fn fx_mul(a: int, b: int) -> int {
    let m = (iabs(a) * iabs(b)) / (SCALE as int);
    if (a >= 0) == (b >= 0) { m } else { -m }
}

/// Fixed-point product. Rounds toward zero.
pub fn mul_fx(a: i64, b: i64) -> (r: i64)
    requires
        -0x7fff_ffff_ffff_ffff <= fx_mul(a as int, b as int) <= 0x7fff_ffff_ffff_ffff,
    ensures
        r == fx_mul(a as int, b as int),
{
    let ma: u128 = if a >= 0 { a as u128 } else { (-(a as i128)) as u128 };
    let mb: u128 = if b >= 0 { b as u128 } else { (-(b as i128)) as u128 };
    proof {
        assert(ma == iabs(a as int));
        assert(mb == iabs(b as int));
        assert(ma * mb == iabs(a as int) * iabs(b as int)) by (nonlinear_arith)
            requires
                ma == iabs(a as int),
                mb == iabs(b as int),
        ;
    }
    let m: u128 = (ma * mb) / 65536;
    if (a >= 0) == (b >= 0) {
        m as i64
    } else {
        -(m as i64)
    }
}

/// Exact value of a fixed-point quotient: (a*SCALE)/b rounded toward zero.
/// Meaningful only for b != 0.
pub open spec fn fx_div(a: int, b: int) -> int {
    let m = (iabs(a) * (SCALE as int)) / iabs(b);
    if (a >= 0) == (b >= 0) { m } else { -m }
}

/// Fixed-point quotient. Rounds toward zero.
pub fn div_fx(a: i64, b: i64) -> (r: i64)
    requires
        b != 0,
        -0x7fff_ffff_ffff_ffff <= fx_div(a as int, b as int) <= 0x7fff_ffff_ffff_ffff,
    ensures
        r == fx_div(a as int, b as int),
{
    let ma: u128 = if a >= 0 { a as u128 } else { (-(a as i128)) as u128 };
    let mb: u128 = if b >= 0 { b as u128 } else { (-(b as i128)) as u128 };
    proof {
        assert(ma == iabs(a as int));
        assert(mb == iabs(b as int));
        assert(ma * 65536 == iabs(a as int) * 65536) by (nonlinear_arith)
            requires
                ma == iabs(a as int),
        ;
        assert(ma * 65536 < 0x1_0000_0000_0000_0000_0000) by (nonlinear_arith)
            requires
                ma < 0x1_0000_0000_0000_0000u128,
        ;
    }
    let m: u128 = (ma * 65536) / mb;
    if (a >= 0) == (b >= 0) {
        m as i64
    } else {
        -(m as i64)
    }
}

/// r is the integer square root of x.
pub open spec fn is_sqrt(r: int, x: int) -> bool {
    0 <= r && r * r <= x && x < (r + 1) * (r + 1)
}

/// The integer square root of x, as a specification-level value.
pub open spec fn sqrt_of(x: int) -> int {
    choose|r: int| is_sqrt(r, x)
}

/// An integer has at most one integer square root.
pub proof fn lemma_is_sqrt_unique(r1: int, r2: int, x: int)
    by (nonlinear_arith)
    requires
        is_sqrt(r1, x),
        is_sqrt(r2, x),
    ensures
        r1 == r2,
{
}

/// A witness of `is_sqrt` pins down `sqrt_of`.
pub proof fn lemma_sqrt_of(r: int, x: int)
    requires
        is_sqrt(r, x),
    ensures
        sqrt_of(x) == r,
{
    assert(exists|s: int| is_sqrt(s, x)) by {
        assert(is_sqrt(r, x));
    }
    lemma_is_sqrt_unique(r, sqrt_of(x), x);
}

/// Integer square root by bisection.
pub fn isqrt_u128(x: u128) -> (r: u64)
    requires
        x < 0x1_0000_0000_0000_0000_0000,
    ensures
        is_sqrt(r as int, x as int),
        r <= 0x100_0000_0000u64,
{
    if x == 0 {
        return 0;
    }
    let mut lo: u64 = 0;
    let mut hi: u64 = 0x100_0000_0001;
    proof {
        assert((hi as int) * (hi as int) > x) by (nonlinear_arith)
            requires
                hi == 0x100_0000_0001u64,
                x < 0x1_0000_0000_0000_0000_0000u128,
        ;
    }
    while lo + 1 < hi
        invariant
            0 <= lo < hi <= 0x100_0000_0001,
            (lo as int) * (lo as int) <= x,
            x < (hi as int) * (hi as int),
        decreases hi - lo,
    {
        let mid: u64 = lo + (hi - lo) / 2;
        proof {
            assert((mid as u128) * (mid as u128) <= 0x2_0000_0000_0000_0000_0000)
                by (nonlinear_arith)
                requires
                    mid <= 0x100_0000_0001u64,
            ;
        }
        let sq: u128 = (mid as u128) * (mid as u128);
        if sq <= x {
            lo = mid;
        } else {
            hi = mid;
        }
    }
    lo
}

/// Fixed-point square root: the integer square root of a*SCALE.
pub fn sqrt_fx(a: i64) -> (r: i64)
    requires
        0 <= a,
    ensures
        is_sqrt(r as int, a * 65536),
        r == sqrt_of(a * 65536),
        0 <= r <= 0x100_0000_0000i64,
{
    let x: u128 = (a as u128) * 65536;
    let r = isqrt_u128(x);
    proof {
        lemma_sqrt_of(r as int, x as int);
    }
    r as i64
}

/// Fixed-point products are symmetric in their arguments.
pub proof fn lemma_fx_mul_comm(a: int, b: int)
    by (nonlinear_arith)
    ensures
        fx_mul(a, b) == fx_mul(b, a),
{
}

/// Multiplying by zero gives zero.
pub proof fn lemma_fx_mul_zero(a: int)
    by (nonlinear_arith)
    ensures
        fx_mul(a, 0) == 0,
        fx_mul(0, a) == 0,
{
}

/// Negating a factor negates the product.
pub proof fn lemma_fx_mul_neg(a: int, b: int)
    by (nonlinear_arith)
    ensures
        fx_mul(-a, b) == -fx_mul(a, b),
        fx_mul(a, -b) == -fx_mul(a, b),
{
}

/// For a nonnegative left factor, the product is monotone in the right
/// factor.
pub proof fn lemma_fx_mul_mono(a: int, y1: int, y2: int)
    by (nonlinear_arith)
    requires
        0 <= a,
        y1 <= y2,
    ensures
        fx_mul(a, y1) <= fx_mul(a, y2),
{
}

/// Every nonnegative integer has an integer square root.
pub proof fn lemma_isqrt_exists(x: int)
    requires
        0 <= x,
    ensures
        is_sqrt(sqrt_of(x), x),
    decreases x,
{
    if x == 0 {
        assert(is_sqrt(0, 0));
    } else {
        lemma_isqrt_exists(x - 1);
        let r = sqrt_of(x - 1);
        if (r + 1) * (r + 1) <= x {
            assert(is_sqrt(r + 1, x)) by (nonlinear_arith)
                requires
                    is_sqrt(r, x - 1),
                    (r + 1) * (r + 1) <= x,
            ;
            assert(exists|q: int| is_sqrt(q, x));
        } else {
            assert(is_sqrt(r, x));
            assert(exists|q: int| is_sqrt(q, x));
        }
    }
    assert(is_sqrt(sqrt_of(x), x));
}

/// A product of nonnegative factors is nonnegative.
pub proof fn lemma_fx_mul_nonneg(a: int, b: int)
    by (nonlinear_arith)
    requires
        0 <= a,
        0 <= b,
    ensures
        0 <= fx_mul(a, b),
{
}

/// Bounds on the factors bound the product.
pub proof fn lemma_fx_mul_bound(a: int, b: int, m: int, n: int)
    by (nonlinear_arith)
    requires
        iabs(a) <= m,
        iabs(b) <= n,
    ensures
        iabs(fx_mul(a, b)) <= (m * n) / 65536,
        -((m * n) / 65536) <= fx_mul(a, b) <= (m * n) / 65536,
{
}

/// The scaled fixed-point product differs from the exact integer product
/// by less than one scale unit.
pub proof fn lemma_fx_mul_err(a: int, b: int)
    by (nonlinear_arith)
    ensures
        iabs(65536 * fx_mul(a, b) - a * b) < 65536,
{
}

/// The value clamped to [0, 1] in fixed point.
pub open spec fn clamp01(x: int) -> int {
    if x < 0 {
        0
    } else if x > 65536 {
        65536
    } else {
        x
    }
}

/// Clamp a scalar to [0, 1] in fixed point.
pub fn clamp_unit(x: i64) -> (r: i64)
    ensures
        r == clamp01(x as int),
        0 <= r <= 65536,
{
    if x < 0 {
        0
    } else if x > 65536 {
        65536
    } else {
        x
    }
}

/// A bound on the numerator bounds the quotient, for any nonzero divisor.
pub proof fn lemma_fx_div_bound(a: int, b: int, m: int)
    by (nonlinear_arith)
    requires
        iabs(a) <= m,
        b != 0,
    ensures
        iabs(fx_div(a, b)) <= m * 65536,
        -(m * 65536) <= fx_div(a, b) <= m * 65536,
{
}

/// A sharper quotient bound when the divisor's magnitude has a lower bound.
pub proof fn lemma_fx_div_bound2(a: int, b: int, m: int, n: int)
    by (nonlinear_arith)
    requires
        iabs(a) <= m,
        1 <= n <= iabs(b),
    ensures
        iabs(fx_div(a, b)) <= (m * 65536) / n,
        -((m * 65536) / n) <= fx_div(a, b) <= (m * 65536) / n,
{
}

} // verus!
