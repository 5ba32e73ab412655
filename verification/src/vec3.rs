//! Three-component fixed-point vectors.
//!
//! A `Vec3` serves as a point, a direction, or a color. Every component is
//! a fixed-point scalar (see `fixed`), and every operation's contract gives
//! the exact value of each result component.

use vstd::prelude::*;
use crate::fixed::{
    fx_mul, fx_div, iabs, is_sqrt, sqrt_of, mul_fx, div_fx, sqrt_fx,
    lemma_fx_mul_bound, lemma_fx_div_bound, lemma_fx_mul_comm,
};

verus! {

/// Largest component magnitude accepted by addition and subtraction.
pub const ADD_LIM: i64 = 0x3fff_ffff_ffff_ffff;

/// Largest component magnitude accepted by products and scaling.
pub const MUL_LIM: i64 = 0x7f_ffff_ffff;

/// Largest component magnitude accepted by division by a scalar.
pub const DIV_LIM: i64 = 0x4000_0000_0000;

/// Largest component magnitude accepted by dot and cross products.
pub const DOT_LIM: i64 = 0x40_0000_0000;

/// Largest component magnitude accepted by length and normalization.
pub const LEN_LIM: i64 = 0x4000_0000;

#[derive(Clone, Copy, Debug, PartialEq, Eq, Structural)]
pub struct Vec3 {
    pub x: i64,
    pub y: i64,
    pub z: i64,
}

/// Every component of v has magnitude at most m.
pub open spec fn in_range(v: Vec3, m: int) -> bool {
    iabs(v.x as int) <= m && iabs(v.y as int) <= m && iabs(v.z as int) <= m
}

/// Exact value of the fixed-point dot product.
pub open spec fn dot_spec(a: Vec3, b: Vec3) -> int {
    fx_mul(a.x as int, b.x as int) + fx_mul(a.y as int, b.y as int) + fx_mul(
        a.z as int,
        b.z as int,
    )
}

/// Exact x component of the fixed-point cross product.
pub open spec fn cross_x(a: Vec3, b: Vec3) -> int {
    fx_mul(a.y as int, b.z as int) - fx_mul(a.z as int, b.y as int)
}

/// Exact y component of the fixed-point cross product.
pub open spec fn cross_y(a: Vec3, b: Vec3) -> int {
    fx_mul(a.z as int, b.x as int) - fx_mul(a.x as int, b.z as int)
}

/// Exact z component of the fixed-point cross product.
pub open spec fn cross_z(a: Vec3, b: Vec3) -> int {
    fx_mul(a.x as int, b.y as int) - fx_mul(a.y as int, b.x as int)
}

impl Vec3 {
    pub fn new(x: i64, y: i64, z: i64) -> (r: Vec3)
        ensures
            r.x == x && r.y == y && r.z == z,
    {
        Vec3 { x, y, z }
    }

    pub fn x(self) -> (r: i64)
        ensures
            r == self.x,
    {
        self.x
    }

    pub fn y(self) -> (r: i64)
        ensures
            r == self.y,
    {
        self.y
    }

    pub fn z(self) -> (r: i64)
        ensures
            r == self.z,
    {
        self.z
    }

    /// Component-wise sum.
    pub fn plus(self, v: Vec3) -> (r: Vec3)
        requires
            in_range(self, ADD_LIM as int),
            in_range(v, ADD_LIM as int),
        ensures
            r.x == self.x + v.x && r.y == self.y + v.y && r.z == self.z + v.z,
    {
        Vec3 { x: self.x + v.x, y: self.y + v.y, z: self.z + v.z }
    }

    /// Component-wise difference.
    pub fn minus(self, v: Vec3) -> (r: Vec3)
        requires
            in_range(self, ADD_LIM as int),
            in_range(v, ADD_LIM as int),
        ensures
            r.x == self.x - v.x && r.y == self.y - v.y && r.z == self.z - v.z,
    {
        Vec3 { x: self.x - v.x, y: self.y - v.y, z: self.z - v.z }
    }

    /// Component-wise negation.
    pub fn negated(self) -> (r: Vec3)
        requires
            in_range(self, 0x7fff_ffff_ffff_ffff),
        ensures
            r.x == -self.x && r.y == -self.y && r.z == -self.z,
    {
        Vec3 { x: -self.x, y: -self.y, z: -self.z }
    }

    /// Component-wise fixed-point product.
    pub fn times(self, v: Vec3) -> (r: Vec3)
        requires
            in_range(self, MUL_LIM as int),
            in_range(v, MUL_LIM as int),
        ensures
            r.x == fx_mul(self.x as int, v.x as int),
            r.y == fx_mul(self.y as int, v.y as int),
            r.z == fx_mul(self.z as int, v.z as int),
    {
        proof {
            lemma_fx_mul_bound(self.x as int, v.x as int, MUL_LIM as int, MUL_LIM as int);
            lemma_fx_mul_bound(self.y as int, v.y as int, MUL_LIM as int, MUL_LIM as int);
            lemma_fx_mul_bound(self.z as int, v.z as int, MUL_LIM as int, MUL_LIM as int);
        }
        Vec3 { x: mul_fx(self.x, v.x), y: mul_fx(self.y, v.y), z: mul_fx(self.z, v.z) }
    }

    /// Fixed-point scaling by a scalar.
    pub fn scaled(self, f: i64) -> (r: Vec3)
        requires
            in_range(self, MUL_LIM as int),
            iabs(f as int) <= MUL_LIM as int,
        ensures
            r.x == fx_mul(self.x as int, f as int),
            r.y == fx_mul(self.y as int, f as int),
            r.z == fx_mul(self.z as int, f as int),
    {
        proof {
            lemma_fx_mul_bound(self.x as int, f as int, MUL_LIM as int, MUL_LIM as int);
            lemma_fx_mul_bound(self.y as int, f as int, MUL_LIM as int, MUL_LIM as int);
            lemma_fx_mul_bound(self.z as int, f as int, MUL_LIM as int, MUL_LIM as int);
        }
        Vec3 { x: mul_fx(self.x, f), y: mul_fx(self.y, f), z: mul_fx(self.z, f) }
    }

    /// Component-wise fixed-point quotient.
    pub fn divided_by(self, v: Vec3) -> (r: Vec3)
        requires
            v.x != 0,
            v.y != 0,
            v.z != 0,
            in_range(self, DIV_LIM as int),
        ensures
            r.x == fx_div(self.x as int, v.x as int),
            r.y == fx_div(self.y as int, v.y as int),
            r.z == fx_div(self.z as int, v.z as int),
    {
        proof {
            lemma_fx_div_bound(self.x as int, v.x as int, DIV_LIM as int);
            lemma_fx_div_bound(self.y as int, v.y as int, DIV_LIM as int);
            lemma_fx_div_bound(self.z as int, v.z as int, DIV_LIM as int);
        }
        Vec3 { x: div_fx(self.x, v.x), y: div_fx(self.y, v.y), z: div_fx(self.z, v.z) }
    }

    /// Fixed-point division by a scalar.
    pub fn divided(self, f: i64) -> (r: Vec3)
        requires
            f != 0,
            in_range(self, DIV_LIM as int),
        ensures
            r.x == fx_div(self.x as int, f as int),
            r.y == fx_div(self.y as int, f as int),
            r.z == fx_div(self.z as int, f as int),
    {
        proof {
            lemma_fx_div_bound(self.x as int, f as int, DIV_LIM as int);
            lemma_fx_div_bound(self.y as int, f as int, DIV_LIM as int);
            lemma_fx_div_bound(self.z as int, f as int, DIV_LIM as int);
        }
        Vec3 { x: div_fx(self.x, f), y: div_fx(self.y, f), z: div_fx(self.z, f) }
    }

    /// Fixed-point dot product.
    pub fn dot(self, v: Vec3) -> (r: i64)
        requires
            in_range(self, DOT_LIM as int),
            in_range(v, DOT_LIM as int),
        ensures
            r == dot_spec(self, v),
    {
        proof {
            lemma_fx_mul_bound(self.x as int, v.x as int, DOT_LIM as int, DOT_LIM as int);
            lemma_fx_mul_bound(self.y as int, v.y as int, DOT_LIM as int, DOT_LIM as int);
            lemma_fx_mul_bound(self.z as int, v.z as int, DOT_LIM as int, DOT_LIM as int);
        }
        mul_fx(self.x, v.x) + mul_fx(self.y, v.y) + mul_fx(self.z, v.z)
    }

    /// Fixed-point cross product.
    pub fn cross(self, v: Vec3) -> (r: Vec3)
        requires
            in_range(self, DOT_LIM as int),
            in_range(v, DOT_LIM as int),
        ensures
            r.x == cross_x(self, v),
            r.y == cross_y(self, v),
            r.z == cross_z(self, v),
    {
        proof {
            lemma_fx_mul_bound(self.y as int, v.z as int, DOT_LIM as int, DOT_LIM as int);
            lemma_fx_mul_bound(self.z as int, v.y as int, DOT_LIM as int, DOT_LIM as int);
            lemma_fx_mul_bound(self.z as int, v.x as int, DOT_LIM as int, DOT_LIM as int);
            lemma_fx_mul_bound(self.x as int, v.z as int, DOT_LIM as int, DOT_LIM as int);
            lemma_fx_mul_bound(self.x as int, v.y as int, DOT_LIM as int, DOT_LIM as int);
            lemma_fx_mul_bound(self.y as int, v.x as int, DOT_LIM as int, DOT_LIM as int);
        }
        Vec3 {
            x: mul_fx(self.y, v.z) - mul_fx(self.z, v.y),
            y: mul_fx(self.z, v.x) - mul_fx(self.x, v.z),
            z: mul_fx(self.x, v.y) - mul_fx(self.y, v.x),
        }
    }

    /// Fixed-point squared Euclidean length.
    pub fn squared_length(self) -> (r: i64)
        requires
            in_range(self, DOT_LIM as int),
        ensures
            r == dot_spec(self, self),
            r >= 0,
    {
        proof {
            lemma_sq_nonneg(self.x as int);
            lemma_sq_nonneg(self.y as int);
            lemma_sq_nonneg(self.z as int);
        }
        self.dot(self)
    }

    /// Fixed-point Euclidean length.
    pub fn length(self) -> (r: i64)
        requires
            in_range(self, LEN_LIM as int),
        ensures
            r == sqrt_of(dot_spec(self, self) * 65536),
            is_sqrt(r as int, dot_spec(self, self) * 65536),
            0 <= r <= 0x100_0000_0000i64,
    {
        let sql = self.squared_length();
        sqrt_fx(sql)
    }

    /// The unit vector in this vector's direction, by fixed-point division
    /// by the length. Requires a nonzero fixed-point squared length.
    pub fn unit(self) -> (r: Vec3)
        requires
            in_range(self, LEN_LIM as int),
            dot_spec(self, self) >= 1,
        ensures
            r.x == fx_div(self.x as int, sqrt_of(dot_spec(self, self) * 65536)),
            r.y == fx_div(self.y as int, sqrt_of(dot_spec(self, self) * 65536)),
            r.z == fx_div(self.z as int, sqrt_of(dot_spec(self, self) * 65536)),
            in_range(r, 131072),
    {
        let len = self.length();
        proof {
            let sql = dot_spec(self, self);
            lemma_sq_nonneg(self.x as int);
            lemma_sq_nonneg(self.y as int);
            lemma_sq_nonneg(self.z as int);
            lemma_unit_component_bound(self.x as int, sql, len as int);
            lemma_unit_component_bound(self.y as int, sql, len as int);
            lemma_unit_component_bound(self.z as int, sql, len as int);
        }
        self.divided(len)
    }
}

/// The unit vector in v's direction.
pub fn unit_vector(v: Vec3) -> (r: Vec3)
    requires
        in_range(v, LEN_LIM as int),
        dot_spec(v, v) >= 1,
    ensures
        r.x == fx_div(v.x as int, sqrt_of(dot_spec(v, v) * 65536)),
        r.y == fx_div(v.y as int, sqrt_of(dot_spec(v, v) * 65536)),
        r.z == fx_div(v.z as int, sqrt_of(dot_spec(v, v) * 65536)),
        in_range(r, 131072),
{
    v.unit()
}

/// A fixed-point square is never negative.
pub proof fn lemma_sq_nonneg(a: int)
    by (nonlinear_arith)
    ensures
        fx_mul(a, a) >= 0,
{
}

/// A component divided by the vector's length has magnitude at most 2,
/// provided the fixed-point squared length is nonzero.
proof fn lemma_unit_component_bound(c: int, sql: int, l: int)
    by (nonlinear_arith)
    requires
        fx_mul(c, c) <= sql,
        1 <= sql,
        is_sqrt(l, sql * 65536),
    ensures
        l >= 256,
        iabs(fx_div(c, l)) <= 131072,
{
}

/// The components of a vector, as a triple of integers.
pub open spec fn t_of(v: Vec3) -> (int, int, int) {
    (v.x as int, v.y as int, v.z as int)
}

/// Fixed-point dot product of two component triples.
pub open spec fn dot_t(a: (int, int, int), b: (int, int, int)) -> int {
    fx_mul(a.0, b.0) + fx_mul(a.1, b.1) + fx_mul(a.2, b.2)
}

/// Component-wise negation of a triple.
pub open spec fn neg_t(a: (int, int, int)) -> (int, int, int) {
    (-a.0, -a.1, -a.2)
}

/// Fixed-point cross product of two component triples.
pub open spec fn cross_t(a: (int, int, int), b: (int, int, int)) -> (int, int, int) {
    (
        fx_mul(a.1, b.2) - fx_mul(a.2, b.1),
        fx_mul(a.2, b.0) - fx_mul(a.0, b.2),
        fx_mul(a.0, b.1) - fx_mul(a.1, b.0),
    )
}

/// The fixed-point unit vector of a component triple: each component
/// divided by the integer square root of the scaled squared length.
pub open spec fn unit_t(a: (int, int, int)) -> (int, int, int) {
    let l = sqrt_of(dot_t(a, a) * 65536);
    (fx_div(a.0, l), fx_div(a.1, l), fx_div(a.2, l))
}

/// The components of the fixed-point unit vector in v's direction.
pub open spec fn u3(v: Vec3) -> (int, int, int) {
    unit_t(t_of(v))
}

/// Arithmetic core of the unit-length bound, over component magnitudes.
/// With sql the fixed-point squared length and l the scaled length, the
/// squared length of the normalized components lies in a narrow band
/// around one.
proof fn lemma_unit_dot_band_core(m1: int, m2: int, m3: int, sql: int, l: int)
    requires
        0 <= m1 && 0 <= m2 && 0 <= m3,
        (m1 * m1) / 65536 + (m2 * m2) / 65536 + (m3 * m3) / 65536 == sql,
        65536 <= sql,
        is_sqrt(l, sql * 65536),
    ensures
        (65400 <= ((m1 * 65536) / l) * ((m1 * 65536) / l) / 65536 + ((m2 * 65536) / l) * ((m2
            * 65536) / l) / 65536 + ((m3 * 65536) / l) * ((m3 * 65536) / l) / 65536 <= 65600),
{
    let x = sql * 65536;
    assert(65536 * 65536 <= x) by (nonlinear_arith)
        requires
            65536 <= sql,
            x == sql * 65536,
    ;
    assert(l >= 65536) by (nonlinear_arith)
        requires
            is_sqrt(l, x),
            x >= 65536 * 65536,
    ;
    assert(65536 * l <= x && x <= l * l + 2 * l) by (nonlinear_arith)
        requires
            is_sqrt(l, x),
            l >= 65536,
    ;
    let q1 = (m1 * 65536) / l;
    let q2 = (m2 * 65536) / l;
    let q3 = (m3 * 65536) / l;
    vstd::arithmetic::div_mod::lemma_fundamental_div_mod(m1 * 65536, l);
    vstd::arithmetic::div_mod::lemma_mod_bound(m1 * 65536, l);
    vstd::arithmetic::div_mod::lemma_fundamental_div_mod(m2 * 65536, l);
    vstd::arithmetic::div_mod::lemma_mod_bound(m2 * 65536, l);
    vstd::arithmetic::div_mod::lemma_fundamental_div_mod(m3 * 65536, l);
    vstd::arithmetic::div_mod::lemma_mod_bound(m3 * 65536, l);
    assert(q1 >= 0 && q2 >= 0 && q3 >= 0) by (nonlinear_arith)
        requires
            q1 * l >= m1 * 65536 - l + 1 && q1 * l <= m1 * 65536,
            q2 * l >= m2 * 65536 - l + 1 && q2 * l <= m2 * 65536,
            q3 * l >= m3 * 65536 - l + 1 && q3 * l <= m3 * 65536,
            m1 >= 0 && m2 >= 0 && m3 >= 0,
            l >= 1,
    ;
    vstd::arithmetic::div_mod::lemma_fundamental_div_mod(m1 * m1, 65536);
    vstd::arithmetic::div_mod::lemma_mod_bound(m1 * m1, 65536);
    vstd::arithmetic::div_mod::lemma_fundamental_div_mod(m2 * m2, 65536);
    vstd::arithmetic::div_mod::lemma_mod_bound(m2 * m2, 65536);
    vstd::arithmetic::div_mod::lemma_fundamental_div_mod(m3 * m3, 65536);
    vstd::arithmetic::div_mod::lemma_mod_bound(m3 * m3, 65536);
    let msq = m1 * m1 + m2 * m2 + m3 * m3;
    assert(x <= msq && msq <= x + 196605);
    // upper bound: (qi l)^2 <= (mi 65536)^2
    assert(q1 * q1 * (l * l) <= m1 * m1 * (65536 * 65536) && q2 * q2 * (l * l) <= m2 * m2 * (65536
        * 65536) && q3 * q3 * (l * l) <= m3 * m3 * (65536 * 65536)) by (nonlinear_arith)
        requires
            0 <= q1 * l <= m1 * 65536,
            0 <= q2 * l <= m2 * 65536,
            0 <= q3 * l <= m3 * 65536,
    ;
    let a = q1 * q1 + q2 * q2 + q3 * q3;
    assert(a * (l * l) <= 65536 * 65536 * (x + 196605)) by (nonlinear_arith)
        requires
            q1 * q1 * (l * l) <= m1 * m1 * (65536 * 65536),
            q2 * q2 * (l * l) <= m2 * m2 * (65536 * 65536),
            q3 * q3 * (l * l) <= m3 * m3 * (65536 * 65536),
            a == q1 * q1 + q2 * q2 + q3 * q3,
            m1 * m1 + m2 * m2 + m3 * m3 <= x + 196605,
    ;
    assert(a >= 0) by (nonlinear_arith)
        requires
            q1 >= 0 && q2 >= 0 && q3 >= 0,
            a == q1 * q1 + q2 * q2 + q3 * q3,
    ;
    assert(32768 * (l * l) >= 32767 * x) by (nonlinear_arith)
        requires
            x <= l * l + 2 * l,
            65536 * l <= x,
    ;
    assert(a <= 65600 * 65536) by (nonlinear_arith)
        requires
            a * (l * l) <= 65536 * 65536 * (x + 196605),
            32768 * (l * l) >= 32767 * x,
            a >= 0,
            x >= 65536 * 65536,
            l >= 1,
    ;
    // lower bound: (qi l)^2 >= (mi 65536)^2 - 2 (mi 65536) l
    assert(q1 * q1 * (l * l) >= m1 * m1 * (65536 * 65536) - 2 * (m1 * 65536) * l && q2 * q2 * (l
        * l) >= m2 * m2 * (65536 * 65536) - 2 * (m2 * 65536) * l && q3 * q3 * (l * l) >= m3 * m3
        * (65536 * 65536) - 2 * (m3 * 65536) * l) by (nonlinear_arith)
        requires
            q1 * l >= m1 * 65536 - l + 1 && 0 <= q1 * l <= m1 * 65536,
            q2 * l >= m2 * 65536 - l + 1 && 0 <= q2 * l <= m2 * 65536,
            q3 * l >= m3 * 65536 - l + 1 && 0 <= q3 * l <= m3 * 65536,
            m1 >= 0 && m2 >= 0 && m3 >= 0,
            l >= 1,
    ;
    assert(m1 <= l + 3 && m2 <= l + 3 && m3 <= l + 3) by (nonlinear_arith)
        requires
            m1 * m1 <= x + 196605 && m2 * m2 <= x + 196605 && m3 * m3 <= x + 196605,
            x <= l * l + 2 * l,
            m1 >= 0 && m2 >= 0 && m3 >= 0,
            l >= 65536,
    ;
    assert(a * (l * l) == q1 * q1 * (l * l) + q2 * q2 * (l * l) + q3 * q3 * (l * l))
        by (nonlinear_arith)
        requires
            a == q1 * q1 + q2 * q2 + q3 * q3,
    ;
    assert(2 * (m1 * 65536) * l + 2 * (m2 * 65536) * l + 2 * (m3 * 65536) * l == 131072 * ((m1
        + m2 + m3) * l)) by (nonlinear_arith);
    assert((m1 + m2 + m3) * l <= 3 * (l * l) + 9 * l) by (nonlinear_arith)
        requires
            m1 + m2 + m3 <= 3 * l + 9,
            l >= 1,
    ;
    assert(m1 * m1 * (65536 * 65536) + m2 * m2 * (65536 * 65536) + m3 * m3 * (65536 * 65536)
        >= (65536 * 65536) * x) by (nonlinear_arith)
        requires
            m1 * m1 + m2 * m2 + m3 * m3 >= x,
    ;
    assert(a * (l * l) >= (65536 * 65536) * x - 393216 * (l * l) - 1179648 * l);
    assert(a * (l * l) >= (65536 * 65536 - 393234) * x) by (nonlinear_arith)
        requires
            a * (l * l) >= (65536 * 65536) * x - 393216 * (l * l) - 1179648 * l,
            l * l <= x,
            65536 * l <= x,
            l >= 1,
    ;
    assert(a >= 65536 * 65536 - 393234) by (nonlinear_arith)
        requires
            a * (l * l) >= (65536 * 65536 - 393234) * x,
            l * l <= x,
            a >= 0,
            x >= 65536 * 65536,
    ;
    vstd::arithmetic::div_mod::lemma_fundamental_div_mod(q1 * q1, 65536);
    vstd::arithmetic::div_mod::lemma_mod_bound(q1 * q1, 65536);
    vstd::arithmetic::div_mod::lemma_fundamental_div_mod(q2 * q2, 65536);
    vstd::arithmetic::div_mod::lemma_mod_bound(q2 * q2, 65536);
    vstd::arithmetic::div_mod::lemma_fundamental_div_mod(q3 * q3, 65536);
    vstd::arithmetic::div_mod::lemma_mod_bound(q3 * q3, 65536);
}

/// Normalization preserves length up to rounding: for any vector whose
/// fixed-point squared length is at least one, the squared length of its
/// unit vector lies within a quarter percent of one.
pub proof fn lemma_unit_length_near_one(v: Vec3)
    requires
        in_range(v, LEN_LIM as int),
        dot_spec(v, v) >= 65536,
    ensures
        65400 <= dot_t(u3(v), u3(v)) <= 65600,
{
    let sql = dot_spec(v, v);
    let x = sql * 65536;
    crate::fixed::lemma_isqrt_exists(x);
    let l = sqrt_of(x);
    let m1 = iabs(v.x as int);
    let m2 = iabs(v.y as int);
    let m3 = iabs(v.z as int);
    lemma_unit_dot_band_core(m1, m2, m3, sql, l);
    assert(l >= 1) by (nonlinear_arith)
        requires
            is_sqrt(l, x),
            x >= 65536,
    ;
    let q1 = (m1 * 65536) / l;
    let q2 = (m2 * 65536) / l;
    let q3 = (m3 * 65536) / l;
    assert(q1 >= 0 && q2 >= 0 && q3 >= 0) by (nonlinear_arith)
        requires
            m1 >= 0 && m2 >= 0 && m3 >= 0,
            l >= 1,
            q1 == (m1 * 65536) / l,
            q2 == (m2 * 65536) / l,
            q3 == (m3 * 65536) / l,
    ;
    assert(iabs(fx_div(v.x as int, l)) == q1);
    assert(iabs(fx_div(v.y as int, l)) == q2);
    assert(iabs(fx_div(v.z as int, l)) == q3);
    assert(fx_mul(fx_div(v.x as int, l), fx_div(v.x as int, l)) == q1 * q1 / 65536);
    assert(fx_mul(fx_div(v.y as int, l), fx_div(v.y as int, l)) == q2 * q2 / 65536);
    assert(fx_mul(fx_div(v.z as int, l), fx_div(v.z as int, l)) == q3 * q3 / 65536);
}

/// Arithmetic core of the orthogonality bound: if the exact integer cross
/// products cancel against (dx, dy, dz), the fixed-point dot of the
/// fixed-point cross with that triple carries only rounding error.
proof fn lemma_cross_dot_small(
    ax: int,
    ay: int,
    az: int,
    bx: int,
    by: int,
    bz: int,
    dx: int,
    dy: int,
    dz: int,
    m: int,
)
    requires
        (ay * bz - az * by) * dx + (az * bx - ax * bz) * dy + (ax * by - ay * bx) * dz == 0,
        iabs(dx) <= m,
        iabs(dy) <= m,
        iabs(dz) <= m,
        0 <= m,
    ensures
        iabs(
            dot_t(cross_t((ax, ay, az), (bx, by, bz)), (dx, dy, dz)),
        ) * 65536 <= 6 * m + 3 * 65536,
{
    let c1 = fx_mul(ay, bz) - fx_mul(az, by);
    let c2 = fx_mul(az, bx) - fx_mul(ax, bz);
    let c3 = fx_mul(ax, by) - fx_mul(ay, bx);
    crate::fixed::lemma_fx_mul_err(ay, bz);
    crate::fixed::lemma_fx_mul_err(az, by);
    crate::fixed::lemma_fx_mul_err(az, bx);
    crate::fixed::lemma_fx_mul_err(ax, bz);
    crate::fixed::lemma_fx_mul_err(ax, by);
    crate::fixed::lemma_fx_mul_err(ay, bx);
    let e1 = 65536 * c1 - (ay * bz - az * by);
    let e2 = 65536 * c2 - (az * bx - ax * bz);
    let e3 = 65536 * c3 - (ax * by - ay * bx);
    assert(iabs(e1) < 2 * 65536 && iabs(e2) < 2 * 65536 && iabs(e3) < 2 * 65536);
    assert(iabs(e1 * dx) <= 2 * 65536 * m && iabs(e2 * dy) <= 2 * 65536 * m && iabs(e3 * dz) <= 2
        * 65536 * m) by (nonlinear_arith)
        requires
            iabs(e1) <= 2 * 65536,
            iabs(e2) <= 2 * 65536,
            iabs(e3) <= 2 * 65536,
            iabs(dx) <= m,
            iabs(dy) <= m,
            iabs(dz) <= m,
            0 <= m,
    ;
    assert(65536 * (c1 * dx + c2 * dy + c3 * dz) == (ay * bz - az * by) * dx + (az * bx - ax * bz)
        * dy + (ax * by - ay * bx) * dz + (e1 * dx + e2 * dy + e3 * dz)) by (nonlinear_arith)
        requires
            e1 == 65536 * c1 - (ay * bz - az * by),
            e2 == 65536 * c2 - (az * bx - ax * bz),
            e3 == 65536 * c3 - (ax * by - ay * bx),
    ;
    assert(iabs(65536 * (c1 * dx + c2 * dy + c3 * dz)) <= 6 * 65536 * m) by (nonlinear_arith)
        requires
            65536 * (c1 * dx + c2 * dy + c3 * dz) == e1 * dx + e2 * dy + e3 * dz,
            iabs(e1 * dx) <= 2 * 65536 * m,
            iabs(e2 * dy) <= 2 * 65536 * m,
            iabs(e3 * dz) <= 2 * 65536 * m,
            0 <= m,
    ;
    assert(iabs(c1 * dx + c2 * dy + c3 * dz) <= 6 * m) by (nonlinear_arith)
        requires
            iabs(65536 * (c1 * dx + c2 * dy + c3 * dz)) <= 6 * 65536 * m,
            0 <= m,
    ;
    crate::fixed::lemma_fx_mul_err(c1, dx);
    crate::fixed::lemma_fx_mul_err(c2, dy);
    crate::fixed::lemma_fx_mul_err(c3, dz);
    let dotv = dot_t(cross_t((ax, ay, az), (bx, by, bz)), (dx, dy, dz));
    assert(dotv == fx_mul(c1, dx) + fx_mul(c2, dy) + fx_mul(c3, dz));
    assert(iabs(65536 * dotv - (c1 * dx + c2 * dy + c3 * dz)) < 3 * 65536);
    assert(iabs(dotv) * 65536 <= 6 * m + 3 * 65536) by (nonlinear_arith)
        requires
            iabs(65536 * dotv - (c1 * dx + c2 * dy + c3 * dz)) <= 3 * 65536,
            iabs(c1 * dx + c2 * dy + c3 * dz) <= 6 * m,
            0 <= m,
    ;
}

/// The fixed-point cross product is orthogonal to both of its factors up
/// to rounding: its dot with either factor, scaled back up, is within a
/// few scale units of zero (at most 6*m + 3 scale units for components
/// bounded by m).
pub proof fn lemma_cross_orthogonal(a: Vec3, b: Vec3, m: int)
    requires
        in_range(a, m),
        in_range(b, m),
        0 <= m,
    ensures
        iabs(dot_t(cross_t(t_of(a), t_of(b)), t_of(a))) * 65536 <= 6 * m + 3 * 65536,
        iabs(dot_t(cross_t(t_of(a), t_of(b)), t_of(b))) * 65536 <= 6 * m + 3 * 65536,
{
    let ax = a.x as int;
    let ay = a.y as int;
    let az = a.z as int;
    let bx = b.x as int;
    let by = b.y as int;
    let bz = b.z as int;
    assert((ay * bz - az * by) * ax + (az * bx - ax * bz) * ay + (ax * by - ay * bx) * az == 0)
        by (nonlinear_arith);
    assert((ay * bz - az * by) * bx + (az * bx - ax * bz) * by + (ax * by - ay * bx) * bz == 0)
        by (nonlinear_arith);
    lemma_cross_dot_small(ax, ay, az, bx, by, bz, ax, ay, az, m);
    lemma_cross_dot_small(ax, ay, az, bx, by, bz, bx, by, bz, m);
}

/// The dot product is symmetric in its arguments.
pub proof fn lemma_dot_symmetric(a: Vec3, b: Vec3)
    ensures
        dot_spec(a, b) == dot_spec(b, a),
{
    lemma_fx_mul_comm(a.x as int, b.x as int);
    lemma_fx_mul_comm(a.y as int, b.y as int);
    lemma_fx_mul_comm(a.z as int, b.z as int);
}

/// Swapping the arguments of the cross product negates every component.
pub proof fn lemma_cross_antisymmetric(a: Vec3, b: Vec3)
    ensures
        cross_x(a, b) == -cross_x(b, a),
        cross_y(a, b) == -cross_y(b, a),
        cross_z(a, b) == -cross_z(b, a),
{
    lemma_fx_mul_comm(a.x as int, b.y as int);
    lemma_fx_mul_comm(a.y as int, b.x as int);
    lemma_fx_mul_comm(a.y as int, b.z as int);
    lemma_fx_mul_comm(a.z as int, b.y as int);
    lemma_fx_mul_comm(a.z as int, b.x as int);
    lemma_fx_mul_comm(a.x as int, b.z as int);
}

/// Adding a vector and then subtracting it restores every component exactly:
/// fixed-point addition and subtraction are lossless.
pub proof fn lemma_plus_minus_cancel(a: Vec3, b: Vec3)
    ensures
        (a.x + b.x) - b.x == a.x,
        (a.y + b.y) - b.y == a.y,
        (a.z + b.z) - b.z == a.z,
{
}

} // verus!
