use vstd::prelude::*;
use crate::fixed::fx_mul;
use crate::fixed::fx_mul_s;
use crate::fixed::fx_sqrt;
use crate::fixed::fx_sqrt_s;
use crate::fixed::isqrt_s;
use crate::fixed::lemma_abs_mul_bound;
use crate::fixed::lemma_fx_square_nonneg;
use crate::fixed::lemma_isqrt_exists;
use crate::fixed::lemma_tdiv_bound;
use crate::fixed::lemma_tdiv_scaled_bound;
use vstd::arithmetic::div_mod::lemma_fundamental_div_mod;
use vstd::arithmetic::div_mod::lemma_mod_division_less_than_divisor;

verus! {

/// A point or direction in space, each component a fixed-point scalar.
#[derive(Clone, Copy, Debug, PartialEq, Eq, Structural)]
pub struct Vec3 {
    pub x: i128,
    pub y: i128,
    pub z: i128,
}

/// Every component's magnitude is at most `b`.
pub open spec fn in_range(v: Vec3, b: int) -> bool {
    -b <= v.x <= b && -b <= v.y <= b && -b <= v.z <= b
}

/// The widest component bound under which the vector operations below
/// stay free of overflow.
pub const VEC_LIMIT: i128 = 0x4000_0000_0000_0000;

pub open spec fn sub_s(a: Vec3, b: Vec3) -> Vec3 {
    Vec3 { x: (a.x - b.x) as i128, y: (a.y - b.y) as i128, z: (a.z - b.z) as i128 }
}

pub open spec fn add_s(a: Vec3, b: Vec3) -> Vec3 {
    Vec3 { x: (a.x + b.x) as i128, y: (a.y + b.y) as i128, z: (a.z + b.z) as i128 }
}

pub open spec fn neg_s(a: Vec3) -> Vec3 {
    Vec3 { x: (-a.x) as i128, y: (-a.y) as i128, z: (-a.z) as i128 }
}

/// Componentwise scaling by a fixed-point factor.
pub open spec fn scale_s(t: int, a: Vec3) -> Vec3 {
    Vec3 {
        x: fx_mul_s(t, a.x as int) as i128,
        y: fx_mul_s(t, a.y as int) as i128,
        z: fx_mul_s(t, a.z as int) as i128,
    }
}

pub open spec fn dot_s(a: Vec3, b: Vec3) -> int {
    fx_mul_s(a.x as int, b.x as int) + fx_mul_s(a.y as int, b.y as int) + fx_mul_s(
        a.z as int,
        b.z as int,
    )
}

/// The Euclidean magnitude in fixed point: the square root of the
/// dot product of the vector with itself.
pub open spec fn mag_s(a: Vec3) -> int {
    fx_sqrt_s(dot_s(a, a))
}

pub proof fn lemma_dot_bound(a: Vec3, b: Vec3, x: int, y: int)
    requires
        in_range(a, x),
        in_range(b, y),
        0 <= x,
        0 <= y,
    ensures
        -(3 * ((x * y) / 65536)) <= dot_s(a, b) <= 3 * ((x * y) / 65536),
{
    lemma_abs_mul_bound(a.x as int, b.x as int, x, y);
    lemma_abs_mul_bound(a.y as int, b.y as int, x, y);
    lemma_abs_mul_bound(a.z as int, b.z as int, x, y);
    lemma_tdiv_scaled_bound(a.x as int * b.x as int, x * y);
    lemma_tdiv_scaled_bound(a.y as int * b.y as int, x * y);
    lemma_tdiv_scaled_bound(a.z as int * b.z as int, x * y);
}

pub proof fn lemma_dot_self_nonneg(a: Vec3)
    ensures
        0 <= dot_s(a, a),
{
    lemma_fx_square_nonneg(a.x as int);
    lemma_fx_square_nonneg(a.y as int);
    lemma_fx_square_nonneg(a.z as int);
}

impl Vec3 {
    pub fn new(x: i128, y: i128, z: i128) -> (r: Vec3)
        ensures
            r == (Vec3 { x, y, z }),
    {
        Vec3 { x, y, z }
    }

    pub fn minus(&self, o: &Vec3) -> (r: Vec3)
        requires
            in_range(*self, VEC_LIMIT as int),
            in_range(*o, VEC_LIMIT as int),
        ensures
            r == sub_s(*self, *o),
    {
        Vec3 { x: self.x - o.x, y: self.y - o.y, z: self.z - o.z }
    }

    pub fn plus(&self, o: &Vec3) -> (r: Vec3)
        requires
            in_range(*self, VEC_LIMIT as int),
            in_range(*o, VEC_LIMIT as int),
        ensures
            r == add_s(*self, *o),
    {
        Vec3 { x: self.x + o.x, y: self.y + o.y, z: self.z + o.z }
    }

    pub fn negated(&self) -> (r: Vec3)
        requires
            in_range(*self, VEC_LIMIT as int),
        ensures
            r == neg_s(*self),
    {
        Vec3 { x: -self.x, y: -self.y, z: -self.z }
    }

    pub fn scaled(&self, t: i128) -> (r: Vec3)
        requires
            in_range(*self, VEC_LIMIT as int),
            -(VEC_LIMIT as int) <= t <= VEC_LIMIT as int,
        ensures
            r == scale_s(t as int, *self),
    {
        proof {
            lemma_abs_mul_bound(t as int, self.x as int, VEC_LIMIT as int, VEC_LIMIT as int);
            lemma_abs_mul_bound(t as int, self.y as int, VEC_LIMIT as int, VEC_LIMIT as int);
            lemma_abs_mul_bound(t as int, self.z as int, VEC_LIMIT as int, VEC_LIMIT as int);
            lemma_tdiv_bound(t as int * self.x as int, 65536, VEC_LIMIT as int * VEC_LIMIT as int);
            lemma_tdiv_bound(t as int * self.y as int, 65536, VEC_LIMIT as int * VEC_LIMIT as int);
            lemma_tdiv_bound(t as int * self.z as int, 65536, VEC_LIMIT as int * VEC_LIMIT as int);
        }
        Vec3 { x: fx_mul(t, self.x), y: fx_mul(t, self.y), z: fx_mul(t, self.z) }
    }

    pub fn dot(&self, o: &Vec3) -> (r: i128)
        requires
            in_range(*self, VEC_LIMIT as int),
            in_range(*o, VEC_LIMIT as int),
        ensures
            r as int == dot_s(*self, *o),
    {
        proof {
            lemma_abs_mul_bound(self.x as int, o.x as int, VEC_LIMIT as int, VEC_LIMIT as int);
            lemma_abs_mul_bound(self.y as int, o.y as int, VEC_LIMIT as int, VEC_LIMIT as int);
            lemma_abs_mul_bound(self.z as int, o.z as int, VEC_LIMIT as int, VEC_LIMIT as int);
            lemma_tdiv_bound(
                self.x as int * o.x as int,
                65536,
                VEC_LIMIT as int * VEC_LIMIT as int,
            );
            lemma_tdiv_bound(
                self.y as int * o.y as int,
                65536,
                VEC_LIMIT as int * VEC_LIMIT as int,
            );
            lemma_tdiv_bound(
                self.z as int * o.z as int,
                65536,
                VEC_LIMIT as int * VEC_LIMIT as int,
            );
        }
        let px: i128 = fx_mul(self.x, o.x);
        let py: i128 = fx_mul(self.y, o.y);
        let pz: i128 = fx_mul(self.z, o.z);
        px + py + pz
    }

    pub fn magnitude(&self) -> (r: i128)
        requires
            in_range(*self, VEC_LIMIT as int),
        ensures
            r as int == mag_s(*self),
            0 <= r,
    {
        proof {
            lemma_dot_bound(*self, *self, VEC_LIMIT as int, VEC_LIMIT as int);
            lemma_dot_self_nonneg(*self);
        }
        let d: i128 = self.dot(self);
        fx_sqrt(d)
    }
}

/// A componentwise bound yields a magnitude bound: the diagonal of a box
/// with half-side `b` is shorter than `2 * b`.
pub proof fn lemma_mag_range(a: Vec3, b: int)
    requires
        in_range(a, b),
        0 <= b,
    ensures
        0 <= mag_s(a) <= 2 * b,
{
    lemma_dot_bound(a, a, b, b);
    lemma_dot_self_nonneg(a);
    lemma_isqrt_exists(dot_s(a, a) * 65536);
    let q = (b * b) / 65536;
    lemma_fundamental_div_mod(b * b, 65536);
    lemma_mod_division_less_than_divisor(b * b, 65536);
    assert(65536 * q <= b * b);
    assert(dot_s(a, a) * 65536 <= 3 * q * 65536);
    let r = isqrt_s(dot_s(a, a) * 65536);
    assert(r <= 2 * b) by (nonlinear_arith)
        requires
            0 <= r,
            0 <= b,
            r * r <= 3 * (b * b),
    ;
}

} // verus!
