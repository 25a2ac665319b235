//! Three-component fixed-point vectors: points, directions and RGB radiance.
//!
//! The ghost type [`V3`] carries the unbounded integer model of a vector;
//! `Vector3@` is its model. Each operation is specified exactly: the spec
//! functions state, over `int`, precisely which rounded value the executable
//! operation returns.

use crate::fixed::{fmul, sabs, sqrt_floor, tdiv, tdiv128, EPS, SCALE};
use crate::fixed::{
    fixmul, isqrt128, lemma_mul_bound, lemma_mul_le, lemma_sqrt_floor_bounds, lemma_tdiv_bound,
};
use vstd::prelude::*;

verus! {

/// Operand magnitude bound for products (dot, cross, unit).
pub const VEC_MAX: i64 = 0x2000000000;

/// Operand magnitude bound for sums and differences.
pub const ADD_MAX: i64 = 0x2000000000000000;

/// Vector operand bound for `scale`.
pub const SCALE_VEC_MAX: i64 = 0x100000000;

/// Scalar bound for `scale`.
pub const SCALE_K_MAX: i64 = 0x400000000000;

/// Left operand bound for `mul_comp`.
pub const MULC_A_MAX: i64 = 0x10000000000;

/// Right operand bound for `mul_comp`.
pub const MULC_B_MAX: i64 = 0x4000000000;

/// Projected-vector bound for `to_basis`.
pub const BASIS_V_MAX: i64 = 0x1000000000000;

/// Frame-vector bound for `to_basis`.
pub const BASIS_F_MAX: i64 = 0x40000;

/// Mathematical model of a vector: components as unbounded integers.
pub ghost struct V3 {
    pub x: int,
    pub y: int,
    pub z: int,
}

#[derive(Debug, Clone, Copy, PartialEq, Eq, Structural)]
pub struct Vector3 {
    pub x: i64,
    pub y: i64,
    pub z: i64,
}

impl View for Vector3 {
    type V = V3;

    open spec fn view(&self) -> V3 {
        V3 { x: self.x as int, y: self.y as int, z: self.z as int }
    }
}

pub open spec fn vzero() -> V3 {
    V3 { x: 0, y: 0, z: 0 }
}

pub open spec fn in_box(v: V3, m: int) -> bool {
    &&& sabs(v.x) <= m
    &&& sabs(v.y) <= m
    &&& sabs(v.z) <= m
}

pub open spec fn vadd(a: V3, b: V3) -> V3 {
    V3 { x: a.x + b.x, y: a.y + b.y, z: a.z + b.z }
}

pub open spec fn vsub(a: V3, b: V3) -> V3 {
    V3 { x: a.x - b.x, y: a.y - b.y, z: a.z - b.z }
}

pub open spec fn vneg(a: V3) -> V3 {
    V3 { x: -a.x, y: -a.y, z: -a.z }
}

/// Product with a fixed-point scalar, rescaled component by component.
pub open spec fn vscale(a: V3, k: int) -> V3 {
    V3 { x: fmul(a.x, k), y: fmul(a.y, k), z: fmul(a.z, k) }
}

/// Componentwise (Hadamard) product, rescaled.
pub open spec fn vmul(a: V3, b: V3) -> V3 {
    V3 { x: fmul(a.x, b.x), y: fmul(a.y, b.y), z: fmul(a.z, b.z) }
}

/// Inner product before rescaling: carries scale `SCALE * SCALE`.
pub open spec fn dot_raw(a: V3, b: V3) -> int {
    a.x * b.x + a.y * b.y + a.z * b.z
}

/// Inner product as a fixed-point value.
pub open spec fn vdot(a: V3, b: V3) -> int {
    tdiv(dot_raw(a, b), SCALE as int)
}

pub open spec fn vcross(a: V3, b: V3) -> V3 {
    V3 {
        x: tdiv(a.y * b.z - a.z * b.y, SCALE as int),
        y: tdiv(a.z * b.x - a.x * b.z, SCALE as int),
        z: tdiv(a.x * b.y - a.y * b.x, SCALE as int),
    }
}

/// Euclidean length as a fixed-point value (floor of the square root).
pub open spec fn vlength(a: V3) -> int {
    sqrt_floor(dot_raw(a, a))
}

/// Every component is below the comparison tolerance.
pub open spec fn vis_zero(a: V3) -> bool {
    &&& sabs(a.x) < EPS
    &&& sabs(a.y) < EPS
    &&& sabs(a.z) < EPS
}

/// The vector rescaled to (near) unit length.
pub open spec fn vunit(a: V3) -> V3 {
    V3 {
        x: tdiv(a.x * SCALE, vlength(a)),
        y: tdiv(a.y * SCALE, vlength(a)),
        z: tdiv(a.z * SCALE, vlength(a)),
    }
}

/// Components of each vector agree within the tolerance.
pub open spec fn vapprox_eq(a: V3, b: V3) -> bool {
    &&& sabs(a.x - b.x) < EPS
    &&& sabs(a.y - b.y) < EPS
    &&& sabs(a.z - b.z) < EPS
}

/// Coordinates of `v` in the orthonormal frame (`right`, `up`, `normal`).
pub open spec fn vto_basis(v: V3, normal: V3, right: V3, up: V3) -> V3 {
    V3 { x: vdot(v, right), y: vdot(v, up), z: vdot(v, normal) }
}

impl Vector3 {
    pub fn zero_vector() -> (r: Vector3)
        ensures
            r@ == vzero(),
    {
        Vector3 { x: 0, y: 0, z: 0 }
    }

    pub fn add(&self, other: &Vector3) -> (r: Vector3)
        requires
            in_box(self@, ADD_MAX as int),
            in_box(other@, ADD_MAX as int),
        ensures
            r@ == vadd(self@, other@),
    {
        Vector3 { x: self.x + other.x, y: self.y + other.y, z: self.z + other.z }
    }

    pub fn sub(&self, other: &Vector3) -> (r: Vector3)
        requires
            in_box(self@, ADD_MAX as int),
            in_box(other@, ADD_MAX as int),
        ensures
            r@ == vsub(self@, other@),
    {
        Vector3 { x: self.x - other.x, y: self.y - other.y, z: self.z - other.z }
    }

    pub fn neg(&self) -> (r: Vector3)
        requires
            in_box(self@, ADD_MAX as int),
        ensures
            r@ == vneg(self@),
    {
        Vector3 { x: -self.x, y: -self.y, z: -self.z }
    }

    pub fn scale(&self, k: i64) -> (r: Vector3)
        requires
            in_box(self@, SCALE_VEC_MAX as int),
            sabs(k as int) <= SCALE_K_MAX as int,
        ensures
            r@ == vscale(self@, k as int),
    {
        proof {
            lemma_mul_le(sabs(self.x as int), sabs(k as int), SCALE_VEC_MAX as int, SCALE_K_MAX as int);
            lemma_mul_le(sabs(self.y as int), sabs(k as int), SCALE_VEC_MAX as int, SCALE_K_MAX as int);
            lemma_mul_le(sabs(self.z as int), sabs(k as int), SCALE_VEC_MAX as int, SCALE_K_MAX as int);
        }
        Vector3 { x: fixmul(self.x, k), y: fixmul(self.y, k), z: fixmul(self.z, k) }
    }

    pub fn mul_comp(&self, other: &Vector3) -> (r: Vector3)
        requires
            in_box(self@, MULC_A_MAX as int),
            in_box(other@, MULC_B_MAX as int),
        ensures
            r@ == vmul(self@, other@),
    {
        proof {
            lemma_mul_le(sabs(self.x as int), sabs(other.x as int), MULC_A_MAX as int, MULC_B_MAX as int);
            lemma_mul_le(sabs(self.y as int), sabs(other.y as int), MULC_A_MAX as int, MULC_B_MAX as int);
            lemma_mul_le(sabs(self.z as int), sabs(other.z as int), MULC_A_MAX as int, MULC_B_MAX as int);
        }
        Vector3 {
            x: fixmul(self.x, other.x),
            y: fixmul(self.y, other.y),
            z: fixmul(self.z, other.z),
        }
    }

    /// Inner product before rescaling, on a wide intermediate.
    pub fn dot_raw(&self, other: &Vector3) -> (r: i128)
        requires
            in_box(self@, VEC_MAX as int),
            in_box(other@, VEC_MAX as int),
        ensures
            r == dot_raw(self@, other@),
            sabs(r as int) <= 3 * (VEC_MAX as int) * (VEC_MAX as int),
    {
        proof {
            lemma_mul_bound(self.x as int, other.x as int, VEC_MAX as int, VEC_MAX as int);
            lemma_mul_bound(self.y as int, other.y as int, VEC_MAX as int, VEC_MAX as int);
            lemma_mul_bound(self.z as int, other.z as int, VEC_MAX as int, VEC_MAX as int);
        }
        (self.x as i128) * (other.x as i128) + (self.y as i128) * (other.y as i128) + (
        self.z as i128) * (other.z as i128)
    }

    pub fn dot(&self, other: &Vector3) -> (r: i64)
        requires
            in_box(self@, VEC_MAX as int),
            in_box(other@, VEC_MAX as int),
        ensures
            r == vdot(self@, other@),
    {
        let w: i128 = self.dot_raw(other);
        proof {
            lemma_tdiv_bound(w as int, SCALE as int, i64::MAX as int);
        }
        tdiv128(w, SCALE as i128) as i64
    }

    pub fn cross(&self, other: &Vector3) -> (r: Vector3)
        requires
            in_box(self@, VEC_MAX as int),
            in_box(other@, VEC_MAX as int),
        ensures
            r@ == vcross(self@, other@),
    {
        proof {
            lemma_mul_bound(self.y as int, other.z as int, VEC_MAX as int, VEC_MAX as int);
            lemma_mul_bound(self.z as int, other.y as int, VEC_MAX as int, VEC_MAX as int);
            lemma_mul_bound(self.z as int, other.x as int, VEC_MAX as int, VEC_MAX as int);
            lemma_mul_bound(self.x as int, other.z as int, VEC_MAX as int, VEC_MAX as int);
            lemma_mul_bound(self.x as int, other.y as int, VEC_MAX as int, VEC_MAX as int);
            lemma_mul_bound(self.y as int, other.x as int, VEC_MAX as int, VEC_MAX as int);
            lemma_tdiv_bound(
                (self.y as int) * (other.z as int) - (self.z as int) * (other.y as int),
                SCALE as int,
                i64::MAX as int,
            );
            lemma_tdiv_bound(
                (self.z as int) * (other.x as int) - (self.x as int) * (other.z as int),
                SCALE as int,
                i64::MAX as int,
            );
            lemma_tdiv_bound(
                (self.x as int) * (other.y as int) - (self.y as int) * (other.x as int),
                SCALE as int,
                i64::MAX as int,
            );
        }
        let cx: i128 = (self.y as i128) * (other.z as i128) - (self.z as i128) * (other.y as i128);
        let cy: i128 = (self.z as i128) * (other.x as i128) - (self.x as i128) * (other.z as i128);
        let cz: i128 = (self.x as i128) * (other.y as i128) - (self.y as i128) * (other.x as i128);
        Vector3 {
            x: tdiv128(cx, SCALE as i128) as i64,
            y: tdiv128(cy, SCALE as i128) as i64,
            z: tdiv128(cz, SCALE as i128) as i64,
        }
    }

    /// Euclidean length; meaningful only away from the zero vector.
    pub fn length(&self) -> (r: i64)
        requires
            in_box(self@, VEC_MAX as int),
            !vis_zero(self@),
        ensures
            r == vlength(self@),
            EPS <= r,
    {
        let raw: i128 = self.dot_raw(self);
        proof {
            lemma_mul_bound(self.x as int, self.x as int, sabs(self.x as int), sabs(self.x as int));
            lemma_mul_bound(self.y as int, self.y as int, sabs(self.y as int), sabs(self.y as int));
            lemma_mul_bound(self.z as int, self.z as int, sabs(self.z as int), sabs(self.z as int));
            assert(raw as int >= (EPS as int) * (EPS as int)) by (nonlinear_arith)
                requires
                    raw as int == dot_raw(self@, self@),
                    !vis_zero(self@),
            ;
            lemma_sqrt_floor_bounds(raw as int);
            let s = sqrt_floor(raw as int);
            assert(s >= EPS) by (nonlinear_arith)
                requires
                    s >= 0,
                    (s + 1) * (s + 1) > (EPS as int) * (EPS as int),
            ;
            assert(s <= 0x8000000000) by (nonlinear_arith)
                requires
                    s * s <= raw as int,
                    raw as int <= 3 * (VEC_MAX as int) * (VEC_MAX as int),
                    s >= 0,
            ;
        }
        isqrt128(raw as u128) as i64
    }

    /// The vector rescaled to (near) unit length; components end in
    /// `[-SCALE, SCALE]`.
    pub fn unit(&self) -> (r: Vector3)
        requires
            in_box(self@, VEC_MAX as int),
            !vis_zero(self@),
        ensures
            r@ == vunit(self@),
            in_box(r@, SCALE as int),
    {
        let len: i64 = self.length();
        proof {
            lemma_sqrt_floor_bounds(dot_raw(self@, self@));
            lemma_unit_component(self.x as int, self@, len as int);
            lemma_unit_component(self.y as int, self@, len as int);
            lemma_unit_component(self.z as int, self@, len as int);
        }
        Vector3 {
            x: tdiv128((self.x as i128) * (SCALE as i128), len as i128) as i64,
            y: tdiv128((self.y as i128) * (SCALE as i128), len as i128) as i64,
            z: tdiv128((self.z as i128) * (SCALE as i128), len as i128) as i64,
        }
    }

    /// Rescale in place to (near) unit length.
    pub fn normalize(&mut self)
        requires
            in_box(old(self)@, VEC_MAX as int),
            !vis_zero(old(self)@),
        ensures
            final(self)@ == vunit(old(self)@),
            in_box(final(self)@, SCALE as int),
    {
        let u = self.unit();
        self.x = u.x;
        self.y = u.y;
        self.z = u.z;
    }

    /// Every component's magnitude is at most `m`.
    pub fn bounded(&self, m: i64) -> (r: bool)
        requires
            m >= 0,
        ensures
            r == in_box(self@, m as int),
    {
        -m <= self.x && self.x <= m && -m <= self.y && self.y <= m && -m <= self.z && self.z
            <= m
    }

    pub fn is_zero(&self) -> (r: bool)
        ensures
            r == vis_zero(self@),
    {
        let ex: i128 = self.x as i128;
        let ey: i128 = self.y as i128;
        let ez: i128 = self.z as i128;
        let e: i128 = EPS as i128;
        -e < ex && ex < e && -e < ey && ey < e && -e < ez && ez < e
    }

    /// Componentwise equality within the tolerance.
    pub fn approx_eq(&self, other: &Vector3) -> (r: bool)
        ensures
            r == vapprox_eq(self@, other@),
    {
        let e: i128 = EPS as i128;
        let dx: i128 = self.x as i128 - other.x as i128;
        let dy: i128 = self.y as i128 - other.y as i128;
        let dz: i128 = self.z as i128 - other.z as i128;
        -e < dx && dx < e && -e < dy && dy < e && -e < dz && dz < e
    }

    /// Coordinates of `v` in the orthonormal frame (`right`, `up`, `normal`).
    /// The frame vectors are near unit length while `v` may reach far
    /// outside the coordinate box, so the operand bounds differ.
    pub fn to_basis(v: &Vector3, normal: &Vector3, right: &Vector3, up: &Vector3) -> (r: Vector3)
        requires
            in_box(v@, BASIS_V_MAX as int),
            in_box(normal@, BASIS_F_MAX as int),
            in_box(right@, BASIS_F_MAX as int),
            in_box(up@, BASIS_F_MAX as int),
        ensures
            r@ == vto_basis(v@, normal@, right@, up@),
    {
        Vector3 {
            x: dot_wide(v, right),
            y: dot_wide(v, up),
            z: dot_wide(v, normal),
        }
    }
}

/// Inner product with asymmetric operand bounds, on a wide intermediate.
pub(crate) fn dot_wide(a: &Vector3, b: &Vector3) -> (r: i64)
    requires
        in_box(a@, BASIS_V_MAX as int),
        in_box(b@, BASIS_F_MAX as int),
    ensures
        r == vdot(a@, b@),
{
    proof {
        lemma_mul_bound(a.x as int, b.x as int, BASIS_V_MAX as int, BASIS_F_MAX as int);
        lemma_mul_bound(a.y as int, b.y as int, BASIS_V_MAX as int, BASIS_F_MAX as int);
        lemma_mul_bound(a.z as int, b.z as int, BASIS_V_MAX as int, BASIS_F_MAX as int);
        lemma_dot_raw_box(a@, b@, BASIS_V_MAX as int, BASIS_F_MAX as int);
        lemma_tdiv_bound(dot_raw(a@, b@), SCALE as int, i64::MAX as int);
    }
    let w: i128 = (a.x as i128) * (b.x as i128) + (a.y as i128) * (b.y as i128) + (a.z as i128)
        * (b.z as i128);
    tdiv128(w, SCALE as i128) as i64
}

/// The raw inner product of boxed vectors is boxed by three times the
/// product of the bounds.
pub proof fn lemma_dot_raw_box(a: V3, b: V3, m: int, n: int)
    requires
        in_box(a, m),
        in_box(b, n),
    ensures
        sabs(dot_raw(a, b)) <= 3 * (m * n),
{
    lemma_mul_bound(a.x, b.x, m, n);
    lemma_mul_bound(a.y, b.y, m, n);
    lemma_mul_bound(a.z, b.z, m, n);
}

/// The rescaled inner product of boxed vectors is boxed by any `q` whose
/// rescaling covers three times the product of the bounds.
pub proof fn lemma_vdot_box(a: V3, b: V3, m: int, n: int, q: int)
    requires
        in_box(a, m),
        in_box(b, n),
        m >= 0,
        n >= 0,
        q >= 0,
        3 * (m * n) <= q * (SCALE as int),
    ensures
        sabs(vdot(a, b)) <= q,
{
    lemma_dot_raw_box(a, b, m, n);
    lemma_tdiv_bound(dot_raw(a, b), SCALE as int, q);
}

/// A scaled boxed vector is boxed by any `q` whose rescaling covers the
/// product of the bounds.
pub proof fn lemma_vscale_box(a: V3, k: int, m: int, km: int, q: int)
    requires
        in_box(a, m),
        sabs(k) <= km,
        m >= 0,
        km >= 0,
        q >= 0,
        m * km <= q * (SCALE as int),
    ensures
        in_box(vscale(a, k), q),
{
    lemma_mul_bound(a.x, k, m, km);
    lemma_mul_bound(a.y, k, m, km);
    lemma_mul_bound(a.z, k, m, km);
    lemma_tdiv_bound(a.x * k, SCALE as int, q);
    lemma_tdiv_bound(a.y * k, SCALE as int, q);
    lemma_tdiv_bound(a.z * k, SCALE as int, q);
}

/// A component of a vector divided by the vector's length cannot exceed one.
proof fn lemma_unit_component(c: int, v: V3, len: int)
    requires
        c == v.x || c == v.y || c == v.z,
        len == vlength(v),
        len >= 1,
        len * len <= dot_raw(v, v),
        dot_raw(v, v) < (len + 1) * (len + 1),
    ensures
        sabs(tdiv(c * SCALE, len)) <= SCALE as int,
        sabs(c * SCALE) <= (SCALE as int) * sabs(c),
{
    assert(c * c <= dot_raw(v, v)) by (nonlinear_arith)
        requires
            c == v.x || c == v.y || c == v.z,
    ;
    assert(sabs(c) <= len) by (nonlinear_arith)
        requires
            c * c <= dot_raw(v, v),
            dot_raw(v, v) < (len + 1) * (len + 1),
            len >= 1,
    ;
    assert(sabs(c * SCALE) == (SCALE as int) * sabs(c)) by (nonlinear_arith);
    lemma_mul_bound(c, SCALE as int, len, SCALE as int);
    assert(sabs(c * SCALE) <= (SCALE as int) * len) by (nonlinear_arith)
        requires
            sabs(c) <= len,
            sabs(c * SCALE) == (SCALE as int) * sabs(c),
    ;
    lemma_tdiv_bound(c * SCALE, len, SCALE as int);
}

} // verus!
