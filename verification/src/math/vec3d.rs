//! The 3-component fixed-point vector, used as point, direction and color.

use vstd::prelude::*;
use crate::num::{
    iabs, is_isqrt, isqrt, tdiv, lemma_isqrt_ordered, lemma_isqrt_square, lemma_tdiv_bound,
    lemma_tdiv_nonneg, div_i128, isqrt_u128, mul_div, SCALE, VEC_LIMIT,
};
use vstd::arithmetic::div_mod::{lemma_div_by_self, lemma_div_is_ordered};

verus! {

/// A 3-component vector of raw fixed-point coordinates (`SCALE` steps
/// per world unit).
#[derive(Clone, Copy, Debug, PartialEq, Eq, Structural)]
pub struct Vec3D {
    pub x: i64,
    pub y: i64,
    pub z: i64,
}

/// A color is a vector whose components are channel intensities,
/// nominally in `[0, SCALE]`.
pub type ColorRGB = Vec3D;

impl Vec3D {
    /// Every component has magnitude at most `m`.
    pub open spec fn in_bounds(self, m: int) -> bool {
        iabs(self.x as int) <= m && iabs(self.y as int) <= m && iabs(self.z as int) <= m
    }

    pub open spec fn is_zero(self) -> bool {
        self.x == 0 && self.y == 0 && self.z == 0
    }

    /// The unscaled dot product: exact over the integers.
    pub open spec fn dot_raw(self, other: Self) -> int {
        self.x * other.x + self.y * other.y + self.z * other.z
    }

    /// The unscaled squared length: exact over the integers.
    pub open spec fn len2_raw(self) -> int {
        self.dot_raw(self)
    }

    pub open spec fn add_spec(self, other: Self) -> Self {
        Vec3D { x: (self.x + other.x) as i64, y: (self.y + other.y) as i64, z: (self.z + other.z) as i64 }
    }

    pub open spec fn sub_spec(self, other: Self) -> Self {
        Vec3D { x: (self.x - other.x) as i64, y: (self.y - other.y) as i64, z: (self.z - other.z) as i64 }
    }

    pub open spec fn neg_spec(self) -> Self {
        Vec3D { x: (-self.x) as i64, y: (-self.y) as i64, z: (-self.z) as i64 }
    }

    /// Multiplication by a fixed-point scalar `s`.
    pub open spec fn mul_spec(self, s: int) -> Self {
        Vec3D {
            x: tdiv(self.x * s, SCALE as int) as i64,
            y: tdiv(self.y * s, SCALE as int) as i64,
            z: tdiv(self.z * s, SCALE as int) as i64,
        }
    }

    /// Division by a fixed-point scalar `s`.
    pub open spec fn div_spec(self, s: int) -> Self {
        Vec3D {
            x: tdiv(self.x * SCALE, s) as i64,
            y: tdiv(self.y * SCALE, s) as i64,
            z: tdiv(self.z * SCALE, s) as i64,
        }
    }

    /// The fixed-point dot product.
    pub open spec fn dot_spec(self, other: Self) -> int {
        tdiv(self.dot_raw(other), SCALE as int)
    }

    /// The fixed-point right-handed cross product.
    pub open spec fn cross_spec(self, other: Self) -> Self {
        Vec3D {
            x: tdiv(self.y * other.z - self.z * other.y, SCALE as int) as i64,
            y: tdiv(self.z * other.x - self.x * other.z, SCALE as int) as i64,
            z: tdiv(self.x * other.y - self.y * other.x, SCALE as int) as i64,
        }
    }

    /// The fixed-point length: the integer square root of the raw
    /// squared length.
    pub open spec fn length_spec(self) -> int {
        isqrt(self.len2_raw())
    }

    /// The unit vector in the direction of `self`.
    pub open spec fn unit_spec(self) -> Self {
        Vec3D {
            x: tdiv(self.x * SCALE, self.length_spec()) as i64,
            y: tdiv(self.y * SCALE, self.length_spec()) as i64,
            z: tdiv(self.z * SCALE, self.length_spec()) as i64,
        }
    }

    pub fn new(x: i64, y: i64, z: i64) -> (r: Self)
        ensures
            r == (Vec3D { x, y, z }),
    {
        Self { x, y, z }
    }

    pub fn x0(&self) -> (r: i64)
        ensures
            r == self.x,
    {
        self.x
    }

    pub fn x1(&self) -> (r: i64)
        ensures
            r == self.y,
    {
        self.y
    }

    pub fn x2(&self) -> (r: i64)
        ensures
            r == self.z,
    {
        self.z
    }

    pub fn x(&self) -> (r: i64)
        ensures
            r == self.x,
    {
        self.x
    }

    pub fn y(&self) -> (r: i64)
        ensures
            r == self.y,
    {
        self.y
    }

    pub fn z(&self) -> (r: i64)
        ensures
            r == self.z,
    {
        self.z
    }

    pub fn r(&self) -> (r: i64)
        ensures
            r == self.x,
    {
        self.x
    }

    pub fn g(&self) -> (r: i64)
        ensures
            r == self.y,
    {
        self.y
    }

    pub fn b(&self) -> (r: i64)
        ensures
            r == self.z,
    {
        self.z
    }

    pub fn zeros() -> (r: Self)
        ensures
            r == (Vec3D { x: 0i64, y: 0i64, z: 0i64 }),
    {
        Self::new(0, 0, 0)
    }

    /// Full intensity on every channel.
    pub fn white() -> (r: Self)
        ensures
            r == (Vec3D { x: SCALE, y: SCALE, z: SCALE }),
    {
        Self::new(SCALE, SCALE, SCALE)
    }

    pub fn black() -> (r: Self)
        ensures
            r == (Vec3D { x: 0i64, y: 0i64, z: 0i64 }),
    {
        Self::new(0, 0, 0)
    }

    /// The components as an array, in x, y, z order.
    pub fn bytes(&self) -> (r: [i64; 3])
        ensures
            r[0] == self.x,
            r[1] == self.y,
            r[2] == self.z,
    {
        [self.x, self.y, self.z]
    }

    pub fn add(self, other: Self) -> (r: Self)
        requires
            i64::MIN <= self.x + other.x <= i64::MAX,
            i64::MIN <= self.y + other.y <= i64::MAX,
            i64::MIN <= self.z + other.z <= i64::MAX,
        ensures
            r == self.add_spec(other),
    {
        Self::new(self.x + other.x, self.y + other.y, self.z + other.z)
    }

    pub fn add_assign(&mut self, other: Self)
        requires
            i64::MIN <= old(self).x + other.x <= i64::MAX,
            i64::MIN <= old(self).y + other.y <= i64::MAX,
            i64::MIN <= old(self).z + other.z <= i64::MAX,
        ensures
            *final(self) == old(self).add_spec(other),
    {
        *self = self.add(other);
    }

    pub fn sub(self, other: Self) -> (r: Self)
        requires
            i64::MIN <= self.x - other.x <= i64::MAX,
            i64::MIN <= self.y - other.y <= i64::MAX,
            i64::MIN <= self.z - other.z <= i64::MAX,
        ensures
            r == self.sub_spec(other),
    {
        Self::new(self.x - other.x, self.y - other.y, self.z - other.z)
    }

    pub fn sub_assign(&mut self, other: Self)
        requires
            i64::MIN <= old(self).x - other.x <= i64::MAX,
            i64::MIN <= old(self).y - other.y <= i64::MAX,
            i64::MIN <= old(self).z - other.z <= i64::MAX,
        ensures
            *final(self) == old(self).sub_spec(other),
    {
        *self = self.sub(other);
    }

    pub fn neg(self) -> (r: Self)
        requires
            self.x > i64::MIN,
            self.y > i64::MIN,
            self.z > i64::MIN,
        ensures
            r == self.neg_spec(),
    {
        Self::new(-self.x, -self.y, -self.z)
    }

    /// Scale by the fixed-point scalar `s`.
    pub fn mul(self, s: i64) -> (r: Self)
        requires
            self.in_bounds(VEC_LIMIT as int),
            iabs(s as int) <= VEC_LIMIT as int,
        ensures
            r == self.mul_spec(s as int),
    {
        proof {
            lemma_mul_comp_fits(self.x as int, s as int);
            lemma_mul_comp_fits(self.y as int, s as int);
            lemma_mul_comp_fits(self.z as int, s as int);
        }
        Self::new(
            mul_div(self.x, s, SCALE),
            mul_div(self.y, s, SCALE),
            mul_div(self.z, s, SCALE),
        )
    }

    pub fn mul_assign(&mut self, s: i64)
        requires
            old(self).in_bounds(VEC_LIMIT as int),
            iabs(s as int) <= VEC_LIMIT as int,
        ensures
            *final(self) == old(self).mul_spec(s as int),
    {
        *self = self.mul(s);
    }

    /// Divide by the fixed-point scalar `s`.
    pub fn div(self, s: i64) -> (r: Self)
        requires
            self.in_bounds(VEC_LIMIT as int),
            iabs(s as int) <= VEC_LIMIT as int,
            s != 0,
        ensures
            r == self.div_spec(s as int),
    {
        proof {
            lemma_div_comp_fits(self.x as int, s as int);
            lemma_div_comp_fits(self.y as int, s as int);
            lemma_div_comp_fits(self.z as int, s as int);
        }
        if s > 0 {
            Self::new(
                mul_div(self.x, SCALE, s),
                mul_div(self.y, SCALE, s),
                mul_div(self.z, SCALE, s),
            )
        } else {
            let t: i64 = -s;
            let r = Self::new(
                mul_div(self.x, SCALE, t),
                mul_div(self.y, SCALE, t),
                mul_div(self.z, SCALE, t),
            );
            proof {
                lemma_tdiv_neg_divisor(self.x as int * SCALE as int, t as int);
                lemma_tdiv_neg_divisor(self.y as int * SCALE as int, t as int);
                lemma_tdiv_neg_divisor(self.z as int * SCALE as int, t as int);
            }
            r.neg()
        }
    }

    pub fn div_assign(&mut self, s: i64)
        requires
            old(self).in_bounds(VEC_LIMIT as int),
            iabs(s as int) <= VEC_LIMIT as int,
            s != 0,
        ensures
            *final(self) == old(self).div_spec(s as int),
    {
        *self = self.div(s);
    }

    /// The fixed-point dot product.
    pub fn dot(&self, other: &Self) -> (r: i64)
        requires
            self.in_bounds(VEC_LIMIT as int),
            other.in_bounds(VEC_LIMIT as int),
        ensures
            r as int == self.dot_spec(*other),
    {
        proof {
            lemma_dot_raw_bound(*self, *other, VEC_LIMIT as int);
            lemma_tdiv_bound(
                self.dot_raw(*other),
                SCALE as int,
                3 * VEC_LIMIT as int * VEC_LIMIT as int / SCALE as int,
            );
        }
        let p: i128 = (self.x as i128) * (other.x as i128) + (self.y as i128) * (other.y as i128)
            + (self.z as i128) * (other.z as i128);
        div_i128(p, SCALE as i128) as i64
    }

    /// The raw squared length, as a fixed-point value.
    pub fn length_squared(&self) -> (r: i64)
        requires
            self.in_bounds(VEC_LIMIT as int),
        ensures
            r as int == self.dot_spec(*self),
            r >= 0,
    {
        proof {
            lemma_len2_raw_bounds(*self, VEC_LIMIT as int);
            lemma_tdiv_nonneg(self.len2_raw(), SCALE as int);
            lemma_tdiv_bound(
                self.len2_raw(),
                SCALE as int,
                3 * VEC_LIMIT as int * VEC_LIMIT as int / SCALE as int,
            );
        }
        let p: i128 = (self.x as i128) * (self.x as i128) + (self.y as i128) * (self.y as i128)
            + (self.z as i128) * (self.z as i128);
        div_i128(p, SCALE as i128) as i64
    }

    /// The fixed-point length.
    pub fn length(&self) -> (r: i64)
        requires
            self.in_bounds(VEC_LIMIT as int),
        ensures
            r as int == self.length_spec(),
            is_isqrt(self.len2_raw(), r as int),
            r >= 0,
    {
        proof {
            lemma_len2_raw_bounds(*self, VEC_LIMIT as int);
        }
        let p: i128 = (self.x as i128) * (self.x as i128) + (self.y as i128) * (self.y as i128)
            + (self.z as i128) * (self.z as i128);
        let r: u64 = isqrt_u128(p as u128);
        proof {
            assert((r as int) * (r as int) <= 3 * VEC_LIMIT as int * VEC_LIMIT as int);
            assert(r as int <= 2 * VEC_LIMIT as int) by (nonlinear_arith)
                requires
                    (r as int) * (r as int) <= 3 * VEC_LIMIT as int * VEC_LIMIT as int,
                    r >= 0,
            ;
        }
        r as i64
    }

    /// The unit vector in the direction of `self`: components scaled so
    /// that the result's length is `SCALE` up to truncation.
    pub fn unit(&self) -> (r: Self)
        requires
            self.in_bounds(VEC_LIMIT as int),
            !self.is_zero(),
        ensures
            r == self.unit_spec(),
            r.in_bounds(SCALE as int),
            !r.is_zero(),
    {
        proof {
            lemma_unit_props(*self);
        }
        let l: i64 = self.length();
        Self::new(
            mul_div(self.x, SCALE, l),
            mul_div(self.y, SCALE, l),
            mul_div(self.z, SCALE, l),
        )
    }

    /// The fixed-point cross product.
    pub fn cross(&self, other: &Self) -> (r: Self)
        requires
            self.in_bounds(VEC_LIMIT as int),
            other.in_bounds(VEC_LIMIT as int),
        ensures
            r == self.cross_spec(*other),
    {
        proof {
            lemma_cross_comp_fits(*self, *other);
        }
        let cx: i128 = (self.y as i128) * (other.z as i128) - (self.z as i128) * (other.y as i128);
        let cy: i128 = (self.z as i128) * (other.x as i128) - (self.x as i128) * (other.z as i128);
        let cz: i128 = (self.x as i128) * (other.y as i128) - (self.y as i128) * (other.x as i128);
        Self::new(
            div_i128(cx, SCALE as i128) as i64,
            div_i128(cy, SCALE as i128) as i64,
            div_i128(cz, SCALE as i128) as i64,
        )
    }
}

/// A fixed-point scalar times a vector; the scalar stands on the left.
pub fn scalar_mul(s: i64, v: Vec3D) -> (r: Vec3D)
    requires
        v.in_bounds(VEC_LIMIT as int),
        iabs(s as int) <= VEC_LIMIT as int,
    ensures
        r == v.mul_spec(s as int),
{
    v.mul(s)
}

proof fn lemma_tdiv_neg_divisor(a: int, b: int)
    requires
        b > 0,
    ensures
        tdiv(a, -b) == -tdiv(a, b),
{
}

proof fn lemma_mul_comp_fits(c: int, s: int)
    requires
        iabs(c) <= VEC_LIMIT as int,
        iabs(s) <= VEC_LIMIT as int,
    ensures
        iabs(tdiv(c * s, SCALE as int)) <= VEC_LIMIT as int * VEC_LIMIT as int / SCALE as int,
{
    assert(iabs(c * s) <= (VEC_LIMIT as int * VEC_LIMIT as int / SCALE as int) * SCALE as int)
        by (nonlinear_arith)
        requires
            iabs(c) <= VEC_LIMIT as int,
            iabs(s) <= VEC_LIMIT as int,
    ;
    lemma_tdiv_bound(c * s, SCALE as int, VEC_LIMIT as int * VEC_LIMIT as int / SCALE as int);
}

proof fn lemma_div_comp_fits(c: int, s: int)
    requires
        iabs(c) <= VEC_LIMIT as int,
        s != 0,
    ensures
        iabs(tdiv(c * SCALE, s)) <= VEC_LIMIT as int * SCALE as int,
        iabs(tdiv(c * SCALE, -s)) <= VEC_LIMIT as int * SCALE as int,
{
    assert(iabs(c * SCALE) <= VEC_LIMIT as int * SCALE as int) by (nonlinear_arith)
        requires
            iabs(c) <= VEC_LIMIT as int,
    ;
    if s > 0 {
        lemma_tdiv_bound(c * SCALE, s as int, VEC_LIMIT as int * SCALE as int);
        lemma_tdiv_neg_divisor(c * SCALE, s);
    } else {
        lemma_tdiv_bound(c * SCALE, -s, VEC_LIMIT as int * SCALE as int);
        lemma_tdiv_neg_divisor(c * SCALE, -s);
    }
}

proof fn lemma_dot_raw_bound(a: Vec3D, b: Vec3D, m: int)
    requires
        a.in_bounds(m),
        b.in_bounds(m),
        m >= 0,
    ensures
        iabs(a.dot_raw(b)) <= 3 * m * m,
        iabs(a.x * b.x) <= m * m,
        iabs(a.y * b.y) <= m * m,
        iabs(a.z * b.z) <= m * m,
{
    lemma_prod_bound(a.x as int, b.x as int, m, m);
    lemma_prod_bound(a.y as int, b.y as int, m, m);
    lemma_prod_bound(a.z as int, b.z as int, m, m);
    assert(3 * m * m == m * m + m * m + m * m) by (nonlinear_arith);
}

/// `|a * b| <= ma * mb` whenever `|a| <= ma` and `|b| <= mb`.
pub proof fn lemma_prod_bound(a: int, b: int, ma: int, mb: int)
    by (nonlinear_arith)
    requires
        iabs(a) <= ma,
        iabs(b) <= mb,
    ensures
        iabs(a * b) <= ma * mb,
{
}

/// The raw squared length is nonnegative and bounded by the component
/// bounds.
pub proof fn lemma_len2_raw_bounds(v: Vec3D, m: int)
    requires
        v.in_bounds(m),
        m >= 0,
    ensures
        0 <= v.len2_raw() <= 3 * m * m,
        0 <= v.x * v.x <= m * m,
        0 <= v.y * v.y <= m * m,
        0 <= v.z * v.z <= m * m,
{
    lemma_square_bound(v.x as int, m);
    lemma_square_bound(v.y as int, m);
    lemma_square_bound(v.z as int, m);
    assert(3 * m * m == m * m + m * m + m * m) by (nonlinear_arith);
}

/// Vector addition is commutative.
pub proof fn lemma_add_commutative(a: Vec3D, b: Vec3D)
    ensures
        a.add_spec(b) == b.add_spec(a),
{
}

/// Vector addition is associative, within the coordinate range.
pub proof fn lemma_add_associative(a: Vec3D, b: Vec3D, c: Vec3D)
    requires
        i64::MIN <= a.x + b.x <= i64::MAX,
        i64::MIN <= a.y + b.y <= i64::MAX,
        i64::MIN <= a.z + b.z <= i64::MAX,
        i64::MIN <= b.x + c.x <= i64::MAX,
        i64::MIN <= b.y + c.y <= i64::MAX,
        i64::MIN <= b.z + c.z <= i64::MAX,
        i64::MIN <= a.x + b.x + c.x <= i64::MAX,
        i64::MIN <= a.y + b.y + c.y <= i64::MAX,
        i64::MIN <= a.z + b.z + c.z <= i64::MAX,
    ensures
        a.add_spec(b).add_spec(c) == a.add_spec(b.add_spec(c)),
{
}

/// Scaling by a scalar is the same from either side: `v * s == s * v`.
pub proof fn lemma_scalar_mul_commutative(v: Vec3D, s: int)
    ensures
        v.mul_spec(s) == (Vec3D {
            x: tdiv(s * v.x, SCALE as int) as i64,
            y: tdiv(s * v.y, SCALE as int) as i64,
            z: tdiv(s * v.z, SCALE as int) as i64,
        }),
{
    assert(v.x * s == s * v.x && v.y * s == s * v.y && v.z * s == s * v.z) by (nonlinear_arith);
}

/// A vector is orthogonal to its own cross products: exactly so at the
/// unscaled level, and within a componentwise truncation margin for
/// the fixed-point cross product.
#[verifier::rlimit(60)]
pub proof fn lemma_dot_cross_orthogonal(a: Vec3D, b: Vec3D)
    requires
        a.in_bounds(VEC_LIMIT as int),
        b.in_bounds(VEC_LIMIT as int),
    ensures
        a.x * (a.y * b.z - a.z * b.y) + a.y * (a.z * b.x - a.x * b.z) + a.z * (a.x * b.y - a.y
            * b.x) == 0,
        iabs(a.dot_raw(a.cross_spec(b))) <= iabs(a.x as int) + iabs(a.y as int) + iabs(a.z as int),
{
    let s = SCALE as int;
    let n1 = a.y * b.z - a.z * b.y;
    let n2 = a.z * b.x - a.x * b.z;
    let n3 = a.x * b.y - a.y * b.x;
    assert(a.x * n1 + a.y * n2 + a.z * n3 == 0) by (nonlinear_arith)
        requires
            n1 == a.y * b.z - a.z * b.y,
            n2 == a.z * b.x - a.x * b.z,
            n3 == a.x * b.y - a.y * b.x,
    ;
    lemma_cross_comp_fits(a, b);
    let c1 = tdiv(n1, s);
    let c2 = tdiv(n2, s);
    let c3 = tdiv(n3, s);
    assert(iabs(n1) <= 2000000000000000000int * s && iabs(n2) <= 2000000000000000000int * s
        && iabs(n3) <= 2000000000000000000int * s) by (nonlinear_arith)
        requires
            iabs(n1) <= 2000000000000000000000000int,
            iabs(n2) <= 2000000000000000000000000int,
            iabs(n3) <= 2000000000000000000000000int,
            s == 1000000int,
    ;
    lemma_tdiv_bound(n1, s, 2000000000000000000int);
    lemma_tdiv_bound(n2, s, 2000000000000000000int);
    lemma_tdiv_bound(n3, s, 2000000000000000000int);
    let r1 = n1 - s * c1;
    let r2 = n2 - s * c2;
    let r3 = n3 - s * c3;
    crate::num::lemma_tdiv_remainder(n1, s);
    crate::num::lemma_tdiv_remainder(n2, s);
    crate::num::lemma_tdiv_remainder(n3, s);
    let m = iabs(a.x as int) + iabs(a.y as int) + iabs(a.z as int);
    assert(a.x * n1 == s * (a.x * c1) + a.x * r1) by (nonlinear_arith)
        requires
            n1 == s * c1 + r1,
    ;
    assert(a.y * n2 == s * (a.y * c2) + a.y * r2) by (nonlinear_arith)
        requires
            n2 == s * c2 + r2,
    ;
    assert(a.z * n3 == s * (a.z * c3) + a.z * r3) by (nonlinear_arith)
        requires
            n3 == s * c3 + r3,
    ;
    assert(iabs(a.x * r1) <= iabs(a.x as int) * s) by (nonlinear_arith)
        requires
            iabs(r1) < s,
            s > 0,
    ;
    assert(iabs(a.y * r2) <= iabs(a.y as int) * s) by (nonlinear_arith)
        requires
            iabs(r2) < s,
            s > 0,
    ;
    assert(iabs(a.z * r3) <= iabs(a.z as int) * s) by (nonlinear_arith)
        requires
            iabs(r3) < s,
            s > 0,
    ;
    assert(s == 1000000int);
    assert(a.cross_spec(b).x == c1 && a.cross_spec(b).y == c2 && a.cross_spec(b).z == c3);
    assert(iabs(a.dot_raw(a.cross_spec(b))) <= m);
}

/// A vector with a single nonzero component normalizes to exactly one
/// unit of length.
pub proof fn lemma_unit_length_axis(v: Vec3D)
    requires
        v.in_bounds(VEC_LIMIT as int),
        (v.x != 0 && v.y == 0 && v.z == 0) || (v.x == 0 && v.y != 0 && v.z == 0) || (v.x == 0
            && v.y == 0 && v.z != 0),
    ensures
        v.unit_spec().length_spec() == SCALE as int,
{
    vstd::arithmetic::div_mod::lemma_div_of0(SCALE as int);
    if v.x != 0 {
        lemma_axis_comp(v.x as int);
        assert(v.len2_raw() == v.x * v.x);
        lemma_isqrt_square(iabs(v.x as int));
        assert(iabs(v.x as int) * iabs(v.x as int) == v.x * v.x) by (nonlinear_arith);
        lemma_unit_axis_zero(v.length_spec());
        assert(v.unit_spec().len2_raw() == SCALE as int * SCALE as int) by (nonlinear_arith)
            requires
                v.unit_spec().x as int == tdiv(v.x * SCALE, v.length_spec()),
                iabs(tdiv(v.x * SCALE, v.length_spec())) == SCALE as int,
                v.unit_spec().y == 0,
                v.unit_spec().z == 0,
                iabs(v.unit_spec().x as int) == SCALE as int,
        ;
    } else if v.y != 0 {
        lemma_axis_comp(v.y as int);
        assert(v.len2_raw() == v.y * v.y);
        lemma_isqrt_square(iabs(v.y as int));
        assert(iabs(v.y as int) * iabs(v.y as int) == v.y * v.y) by (nonlinear_arith);
        lemma_unit_axis_zero(v.length_spec());
        assert(v.unit_spec().len2_raw() == SCALE as int * SCALE as int) by (nonlinear_arith)
            requires
                v.unit_spec().y as int == tdiv(v.y * SCALE, v.length_spec()),
                iabs(tdiv(v.y * SCALE, v.length_spec())) == SCALE as int,
                v.unit_spec().x == 0,
                v.unit_spec().z == 0,
                iabs(v.unit_spec().y as int) == SCALE as int,
        ;
    } else {
        lemma_axis_comp(v.z as int);
        assert(v.len2_raw() == v.z * v.z);
        lemma_isqrt_square(iabs(v.z as int));
        assert(iabs(v.z as int) * iabs(v.z as int) == v.z * v.z) by (nonlinear_arith);
        lemma_unit_axis_zero(v.length_spec());
        assert(v.unit_spec().len2_raw() == SCALE as int * SCALE as int) by (nonlinear_arith)
            requires
                v.unit_spec().z as int == tdiv(v.z * SCALE, v.length_spec()),
                iabs(tdiv(v.z * SCALE, v.length_spec())) == SCALE as int,
                v.unit_spec().x == 0,
                v.unit_spec().y == 0,
                iabs(v.unit_spec().z as int) == SCALE as int,
        ;
    }
    lemma_isqrt_square(SCALE as int);
}

/// Normalization is accurate for vectors at least one unit long: the
/// unit vector's length is within four millionths of one unit.
pub proof fn lemma_unit_length_near(v: Vec3D)
    requires
        v.in_bounds(VEC_LIMIT as int),
        !v.is_zero(),
        v.length_spec() >= SCALE as int,
    ensures
        SCALE as int - 4 <= v.unit_spec().length_spec() <= SCALE as int + 4,
{
    let s = SCALE as int;
    let n = v.len2_raw();
    let l = v.length_spec();
    lemma_unit_props(v);
    lemma_len2_raw_bounds(v, VEC_LIMIT as int);
    crate::num::lemma_isqrt(n);
    let u1 = tdiv(v.x * s, l);
    let u2 = tdiv(v.y * s, l);
    let u3 = tdiv(v.z * s, l);
    lemma_unit_comp(v.x as int, v.y as int, v.z as int, n, l);
    lemma_unit_comp(v.y as int, v.x as int, v.z as int, n, l);
    lemma_unit_comp(v.z as int, v.x as int, v.y as int, n, l);
    assert(v.y * v.y + v.x * v.x + v.z * v.z == n);
    assert(v.z * v.z + v.x * v.x + v.y * v.y == n);
    assert(iabs(v.x as int) <= l && iabs(v.y as int) <= l && iabs(v.z as int) <= l) by {
        lemma_comp_le_length(v.x as int, v.y as int, v.z as int, n, l);
        lemma_comp_le_length(v.y as int, v.x as int, v.z as int, n, l);
        lemma_comp_le_length(v.z as int, v.x as int, v.y as int, n, l);
    }
    let r1 = v.x * s - l * u1;
    let r2 = v.y * s - l * u2;
    let r3 = v.z * s - l * u3;
    crate::num::lemma_tdiv_remainder(v.x * s, l);
    crate::num::lemma_tdiv_remainder(v.y * s, l);
    crate::num::lemma_tdiv_remainder(v.z * s, l);
    lemma_unit_comp_sq(v.x as int, l, u1, r1);
    lemma_unit_comp_sq(v.y as int, l, u2, r2);
    lemma_unit_comp_sq(v.z as int, l, u3, r3);
    let uu = u1 * u1 + u2 * u2 + u3 * u3;
    assert((l * l) * uu == (l * l) * (u1 * u1) + (l * l) * (u2 * u2) + (l * l) * (u3 * u3))
        by (nonlinear_arith)
        requires
            uu == u1 * u1 + u2 * u2 + u3 * u3,
    ;
    // lower bound: scaled squares lose at most 6 * SCALE * l * l
    assert((l * l) * uu >= 1000000000000int * n - 6000000int * (l * l));
    assert(1000000000000int * n >= 1000000000000int * (l * l));
    assert((l * l) * uu >= (l * l) * 999994000000int) by (nonlinear_arith)
        requires
            (l * l) * uu >= 1000000000000int * (l * l) - 6000000int * (l * l),
    ;
    assert(uu >= 999994000000int) by (nonlinear_arith)
        requires
            (l * l) * uu >= (l * l) * 999994000000int,
            l >= 1,
    ;
    // upper bound: the squared length is below (l + 1)^2, and l >= SCALE
    assert(n < (l + 1) * (l + 1));
    assert(1000000000000int * n <= 1000000000000int * (l * l) + 2000000000000int * l
        + 1000000000000int) by (nonlinear_arith)
        requires
            n < (l + 1) * (l + 1),
    ;
    assert(2000000000000int * l <= 2000000int * (l * l) && 1000000000000int <= l * l)
        by (nonlinear_arith)
        requires
            l >= 1000000,
    ;
    assert((l * l) * uu <= (l * l) * 1000009000001int) by (nonlinear_arith)
        requires
            (l * l) * uu <= 1000000000000int * (l * l) + 2000000int * (l * l) + l * l + 6000000int
                * (l * l) + 3 * (l * l),
    ;
    assert(uu <= 1000009000001int) by (nonlinear_arith)
        requires
            (l * l) * uu <= (l * l) * 1000009000001int,
            l >= 1,
    ;
    assert(v.unit_spec().len2_raw() == uu);
    crate::num::lemma_isqrt_ordered(999994000000int, uu);
    crate::num::lemma_isqrt_ordered(uu, 1000009000001int);
    assert(is_isqrt(999994000000int, 999996int)) by (nonlinear_arith);
    crate::num::lemma_isqrt_unique(999994000000int, 999996int);
    assert(is_isqrt(1000009000001int, 1000004int)) by (nonlinear_arith);
    crate::num::lemma_isqrt_unique(1000009000001int, 1000004int);
}

/// No component outgrows the length of the whole vector.
proof fn lemma_comp_le_length(c: int, d: int, e: int, n: int, l: int)
    requires
        n == c * c + d * d + e * e,
        is_isqrt(n, l),
    ensures
        iabs(c) <= l,
{
    assert(iabs(c) * iabs(c) <= n) by (nonlinear_arith)
        requires
            n == c * c + d * d + e * e,
    ;
    lemma_isqrt_square(iabs(c));
    lemma_isqrt_ordered(iabs(c) * iabs(c), n);
    crate::num::lemma_isqrt_unique(n, l);
}

/// One scaled component squared, with its truncation remainder.
proof fn lemma_unit_comp_sq(x: int, l: int, u: int, r: int)
    by (nonlinear_arith)
    requires
        l >= 1,
        iabs(x) <= l,
        iabs(r) < l,
        l * u == x * 1000000int - r,
    ensures
        (l * l) * (u * u) >= 1000000000000int * (x * x) - 2000000int * (l * l),
        (l * l) * (u * u) <= 1000000000000int * (x * x) + 2000000int * (l * l) + l * l,
{
}

/// Normalizing an axis-aligned vector scales its one nonzero component
/// to exactly `SCALE`.
proof fn lemma_axis_comp(c: int)
    requires
        c != 0,
        iabs(c) <= VEC_LIMIT as int,
    ensures
        iabs(tdiv(c * SCALE, isqrt(c * c))) == SCALE as int,
{
    lemma_isqrt_square(iabs(c));
    assert(iabs(c) * iabs(c) == c * c) by (nonlinear_arith);
    let l = iabs(c);
    if c > 0 {
        assert(c * SCALE == SCALE as int * l) by (nonlinear_arith)
            requires
                c > 0,
                l == iabs(c),
        ;
        crate::num::lemma_tdiv_exact(SCALE as int, l);
    } else {
        assert(c * SCALE == (-SCALE as int) * l) by (nonlinear_arith)
            requires
                c < 0,
                l == iabs(c),
        ;
        crate::num::lemma_tdiv_exact(-SCALE as int, l);
    }
}

proof fn lemma_unit_axis_zero(l: int)
    requires
        l >= 1,
    ensures
        tdiv(0, l) == 0,
{
    vstd::arithmetic::div_mod::lemma_div_of0(l);
}

/// Componentwise bounds for a scalar multiplication.
pub proof fn lemma_mul_spec_bounds(v: Vec3D, s: int, mv: int, ms: int)
    requires
        v.in_bounds(mv),
        iabs(s) <= ms,
        0 <= mv * ms <= i64::MAX as int,
    ensures
        iabs(tdiv(v.x * s, SCALE as int)) <= mv * ms,
        iabs(tdiv(v.y * s, SCALE as int)) <= mv * ms,
        iabs(tdiv(v.z * s, SCALE as int)) <= mv * ms,
        v.mul_spec(s).in_bounds(mv * ms),
{
    lemma_prod_bound(v.x as int, s, mv, ms);
    lemma_prod_bound(v.y as int, s, mv, ms);
    lemma_prod_bound(v.z as int, s, mv, ms);
    crate::num::lemma_tdiv_le_num(v.x * s, SCALE as int);
    crate::num::lemma_tdiv_le_num(v.y * s, SCALE as int);
    crate::num::lemma_tdiv_le_num(v.z * s, SCALE as int);
}

/// A nonzero vector has a raw squared length of at least one.
pub proof fn lemma_len2_pos(v: Vec3D)
    requires
        !v.is_zero(),
    ensures
        v.len2_raw() >= 1,
{
    assert(v.x * v.x + v.y * v.y + v.z * v.z >= 1) by (nonlinear_arith)
        requires
            !(v.x == 0 && v.y == 0 && v.z == 0),
    ;
}

/// `0 <= a * a <= m * m` whenever `|a| <= m`.
pub proof fn lemma_square_bound(a: int, m: int)
    by (nonlinear_arith)
    requires
        iabs(a) <= m,
    ensures
        0 <= a * a <= m * m,
{
}

/// Normalization facts: a nonzero vector has a positive length, and its
/// unit vector has components of magnitude at most `SCALE` and is not
/// the zero vector.
pub proof fn lemma_unit_props(v: Vec3D)
    requires
        v.in_bounds(VEC_LIMIT as int),
        !v.is_zero(),
    ensures
        1 <= v.length_spec() <= 2 * VEC_LIMIT as int,
        v.unit_spec().in_bounds(SCALE as int),
        !v.unit_spec().is_zero(),
{
    let n = v.len2_raw();
    lemma_len2_raw_bounds(v, VEC_LIMIT as int);
    assert(n >= 1) by (nonlinear_arith)
        requires
            n == v.x * v.x + v.y * v.y + v.z * v.z,
            !(v.x == 0 && v.y == 0 && v.z == 0),
    ;
    let l = v.length_spec();
    crate::num::lemma_isqrt(n);
    assert(l >= 1);
    assert(l <= 2 * VEC_LIMIT as int) by (nonlinear_arith)
        requires
            is_isqrt(n, l),
            n <= 3 * VEC_LIMIT as int * VEC_LIMIT as int,
    ;
    lemma_unit_comp(v.x as int, v.y as int, v.z as int, n, l);
    lemma_unit_comp(v.y as int, v.x as int, v.z as int, n, l);
    lemma_unit_comp(v.z as int, v.x as int, v.y as int, n, l);
    assert(n == v.x * v.x + v.y * v.y + v.z * v.z);
    assert(v.y * v.y + v.x * v.x + v.z * v.z == n);
    assert(v.z * v.z + v.x * v.x + v.y * v.y == n);
    // Some component has the largest magnitude; its scaled quotient is
    // at least 1, so the unit vector is not zero.
    let m = max3(iabs(v.x as int), iabs(v.y as int), iabs(v.z as int));
    assert(m >= 1);
    assert(n <= 3 * m * m) by (nonlinear_arith)
        requires
            n == v.x * v.x + v.y * v.y + v.z * v.z,
            iabs(v.x as int) <= m,
            iabs(v.y as int) <= m,
            iabs(v.z as int) <= m,
    ;
    assert(l < 2 * m) by (nonlinear_arith)
        requires
            is_isqrt(n, l),
            n <= 3 * m * m,
            m >= 1,
    ;
    if iabs(v.x as int) == m {
        lemma_unit_comp_nonzero(v.x as int, m, l);
    } else if iabs(v.y as int) == m {
        lemma_unit_comp_nonzero(v.y as int, m, l);
    } else {
        lemma_unit_comp_nonzero(v.z as int, m, l);
    }
}

spec fn max3(a: int, b: int, c: int) -> int {
    if a >= b && a >= c {
        a
    } else if b >= c {
        b
    } else {
        c
    }
}

/// One component of a unit vector has magnitude at most `SCALE`.
proof fn lemma_unit_comp(c: int, d: int, e: int, n: int, l: int)
    requires
        n == c * c + d * d + e * e,
        is_isqrt(n, l),
        l >= 1,
    ensures
        iabs(tdiv(c * SCALE, l)) <= SCALE as int,
{
    assert(iabs(c) * iabs(c) <= n) by (nonlinear_arith)
        requires
            n == c * c + d * d + e * e,
    ;
    lemma_isqrt_square(iabs(c));
    lemma_isqrt_ordered(iabs(c) * iabs(c), n);
    crate::num::lemma_isqrt_unique(n, l);
    assert(iabs(c) <= l);
    assert(iabs(c * SCALE) <= SCALE as int * l) by (nonlinear_arith)
        requires
            iabs(c) <= l,
    ;
    lemma_tdiv_bound(c * SCALE, l, SCALE as int);
}

/// The dominant component of a unit vector is nonzero.
proof fn lemma_unit_comp_nonzero(c: int, m: int, l: int)
    requires
        iabs(c) == m,
        m >= 1,
        1 <= l < 2 * m,
    ensures
        tdiv(c * SCALE, l) != 0,
{
    assert(iabs(c * SCALE) == m * SCALE as int) by (nonlinear_arith)
        requires
            iabs(c) == m,
    ;
    assert(m * SCALE as int >= l) by (nonlinear_arith)
        requires
            m >= 1,
            l < 2 * m,
    ;
    lemma_div_is_ordered(l, m * SCALE as int, l);
    lemma_div_by_self(l);
    assert(iabs(c * SCALE) / l >= 1);
}

proof fn lemma_cross_comp_fits(a: Vec3D, b: Vec3D)
    requires
        a.in_bounds(VEC_LIMIT as int),
        b.in_bounds(VEC_LIMIT as int),
    ensures
        iabs(a.y * b.z) <= 2 * VEC_LIMIT as int * VEC_LIMIT as int,
        iabs(a.z * b.y) <= 2 * VEC_LIMIT as int * VEC_LIMIT as int,
        iabs(a.z * b.x) <= 2 * VEC_LIMIT as int * VEC_LIMIT as int,
        iabs(a.x * b.z) <= 2 * VEC_LIMIT as int * VEC_LIMIT as int,
        iabs(a.x * b.y) <= 2 * VEC_LIMIT as int * VEC_LIMIT as int,
        iabs(a.y * b.x) <= 2 * VEC_LIMIT as int * VEC_LIMIT as int,
        iabs(a.y * b.z - a.z * b.y) <= 2 * VEC_LIMIT as int * VEC_LIMIT as int,
        iabs(a.z * b.x - a.x * b.z) <= 2 * VEC_LIMIT as int * VEC_LIMIT as int,
        iabs(a.x * b.y - a.y * b.x) <= 2 * VEC_LIMIT as int * VEC_LIMIT as int,
        iabs(tdiv(a.y * b.z - a.z * b.y, SCALE as int)) <= 2 * VEC_LIMIT as int * VEC_LIMIT as int,
        iabs(tdiv(a.z * b.x - a.x * b.z, SCALE as int)) <= 2 * VEC_LIMIT as int * VEC_LIMIT as int,
        iabs(tdiv(a.x * b.y - a.y * b.x, SCALE as int)) <= 2 * VEC_LIMIT as int * VEC_LIMIT as int,
{
    let vl = VEC_LIMIT as int;
    let lim = 2 * vl * vl;
    lemma_prod_bound(a.y as int, b.z as int, vl, vl);
    lemma_prod_bound(a.z as int, b.y as int, vl, vl);
    lemma_prod_bound(a.z as int, b.x as int, vl, vl);
    lemma_prod_bound(a.x as int, b.z as int, vl, vl);
    lemma_prod_bound(a.x as int, b.y as int, vl, vl);
    lemma_prod_bound(a.y as int, b.x as int, vl, vl);
    assert(lim * SCALE as int == 2000000000000000000000000000000int);
    lemma_tdiv_bound(a.y * b.z - a.z * b.y, SCALE as int, lim);
    lemma_tdiv_bound(a.z * b.x - a.x * b.z, SCALE as int, lim);
    lemma_tdiv_bound(a.x * b.y - a.y * b.x, SCALE as int, lim);
}

} // verus!
