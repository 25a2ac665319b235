//! Ray-shape intersection geometry: spheres and bounded rectangular planes.
//!
//! A result with `t < 0` means "no intersection"; `t >= 0` is the nearest
//! non-negative hit distance along the ray together with the surface normal
//! there. The contracts state, over the integer model, exactly which rounded
//! distance and normal each routine returns.

use crate::fixed::{
    lemma_mul_bound, lemma_tdiv_bound, sabs, sqrt_floor, tdiv, tdiv128, COORD_MAX, SCALE,
};
use crate::fixed::{isqrt128, lemma_sqrt_floor_square, lemma_tdiv_exact, EPS};
use crate::ray::{ray_point, Ray};
use crate::tools::spec_equal_error;
use crate::vector::{
    dot_raw, in_box, lemma_dot_raw_box, lemma_vdot_box, vcross, vdot, vis_zero, vlength, vneg, vsub,
    vto_basis, vunit, vzero, Vector3, V3,
};
use vstd::prelude::*;

verus! {

/// Far clip for plane hits: a grazing ray whose hit parameter exceeds this
/// bound has left the modeled coordinate range long before, so clipping it
/// rejects nothing whose hit point the model can represent.
pub const T_MAX: i64 = 0x400000000000;

#[derive(Debug, Clone, Copy, PartialEq, Eq, Structural)]
pub struct ShapeIntersection {
    /// Hit distance along the ray; negative means no intersection.
    pub t: i64,
    pub surface_normal: Vector3,
}

impl Default for ShapeIntersection {
    /// The "no intersection" sentinel.
    fn default() -> (result: ShapeIntersection)
        ensures
            result.t == -1,
            result.surface_normal@ == vzero(),
    {
        ShapeIntersection { t: -1, surface_normal: Vector3 { x: 0, y: 0, z: 0 } }
    }
}

#[derive(Debug, Clone, Copy)]
pub struct Sphere {
    pub position: Vector3,
    pub radius: i64,
}

/// Ray origin translated into the sphere's local frame.
pub open spec fn sphere_oc(s: Sphere, r: Ray) -> V3 {
    vsub(r.origin@, s.position@)
}

/// Half the linear coefficient of the intersection quadratic.
pub open spec fn sphere_bq(s: Sphere, r: Ray) -> int {
    vdot(sphere_oc(s, r), r.direction@)
}

/// Quarter discriminant of the intersection quadratic, at squared scale.
pub open spec fn sphere_disc(s: Sphere, r: Ray) -> int {
    sphere_bq(s, r) * sphere_bq(s, r) - dot_raw(sphere_oc(s, r), sphere_oc(s, r)) + s.radius
        * s.radius
}

/// Nearest non-negative root of the quadratic, or -1.
pub open spec fn sphere_t(s: Sphere, r: Ray) -> int {
    if sphere_disc(s, r) < 0 {
        -1
    } else {
        let sq = sqrt_floor(sphere_disc(s, r));
        let t0 = -sphere_bq(s, r) + sq;
        let t1 = -sphere_bq(s, r) - sq;
        if t1 >= 0 {
            if t0 <= t1 {
                t0
            } else {
                t1
            }
        } else if t0 >= 0 {
            t0
        } else {
            -1
        }
    }
}

/// Vector from the sphere's center to the hit point.
pub open spec fn sphere_hit_offset(s: Sphere, r: Ray) -> V3 {
    vsub(ray_point(r, sphere_t(s, r)), s.position@)
}

/// Unit outward normal at the hit point (zero for the degenerate hit that
/// lands within tolerance of the center).
pub open spec fn sphere_normal(s: Sphere, r: Ray) -> V3 {
    if vis_zero(sphere_hit_offset(s, r)) {
        vzero()
    } else {
        vunit(sphere_hit_offset(s, r))
    }
}

impl Sphere {
    pub open spec fn wf(self) -> bool {
        &&& in_box(self.position@, COORD_MAX as int)
        &&& 1 <= self.radius <= COORD_MAX
    }

    /// Nearest-hit test against the sphere: solves the quadratic whose
    /// leading coefficient is one because the direction is near unit length.
    pub fn intersect(&self, ray: &Ray) -> (result: ShapeIntersection)
        requires
            self.wf(),
            ray.wf(),
        ensures
            result.t as int == sphere_t(*self, *ray),
            sphere_t(*self, *ray) >= 0 ==> {
                &&& result.surface_normal@ == sphere_normal(*self, *ray)
                &&& in_box(result.surface_normal@, SCALE as int)
                &&& result.t <= T_MAX
            },
            sphere_t(*self, *ray) < 0 ==> result.t == -1 && result.surface_normal@ == vzero(),
    {
        let mut intersection = ShapeIntersection::default();
        let oc = ray.origin.sub(&self.position);
        proof {
            lemma_vdot_box(oc@, ray.direction@, 0x80000000, 0x20000, 0x300000001);
        }
        let bq: i64 = oc.dot(&ray.direction);
        let oc_raw: i128 = oc.dot_raw(&oc);
        proof {
            lemma_mul_bound(self.radius as int, self.radius as int, COORD_MAX as int, COORD_MAX as int);
            lemma_mul_bound(bq as int, bq as int, 0x300000001, 0x300000001);
            assert(dot_raw(oc@, oc@) >= 0) by (nonlinear_arith);
        }
        let rr: i128 = (self.radius as i128) * (self.radius as i128);
        let disc: i128 = (bq as i128) * (bq as i128) - oc_raw + rr;
        if disc < 0 {
            return intersection;
        }
        let squ: u128 = isqrt128(disc as u128);
        proof {
            assert(squ as int <= 0x400000000) by (nonlinear_arith)
                requires
                    (squ as int) * (squ as int) <= disc as int,
                    disc as int <= 0x91000000600000001,
                    squ as int >= 0,
            ;
        }
        let sq: i64 = squ as i64;
        let t0: i64 = -bq + sq;
        let t1: i64 = -bq - sq;
        if t1 >= 0 {
            intersection.t = if t0 <= t1 {
                t0
            } else {
                t1
            };
        } else if t0 >= 0 {
            intersection.t = t0;
        }
        if intersection.t >= 0 {
            proof {
                lemma_mul_bound(
                    ray.direction@.x,
                    intersection.t as int,
                    2 * SCALE as int,
                    0x700000001,
                );
                lemma_mul_bound(
                    ray.direction@.y,
                    intersection.t as int,
                    2 * SCALE as int,
                    0x700000001,
                );
                lemma_mul_bound(
                    ray.direction@.z,
                    intersection.t as int,
                    2 * SCALE as int,
                    0x700000001,
                );
                lemma_tdiv_bound(
                    ray.direction@.x * intersection.t,
                    SCALE as int,
                    0xE00000002int,
                );
                lemma_tdiv_bound(
                    ray.direction@.y * intersection.t,
                    SCALE as int,
                    0xE00000002int,
                );
                lemma_tdiv_bound(
                    ray.direction@.z * intersection.t,
                    SCALE as int,
                    0xE00000002int,
                );
            }
            let ip = ray.origin.add(&ray.direction.scale(intersection.t));
            let off = ip.sub(&self.position);
            if off.is_zero() {
                intersection.surface_normal = Vector3::zero_vector();
            } else {
                intersection.surface_normal = off.unit();
            }
        }
        intersection
    }
}
/// A ray fired from outside a sphere straight toward its center, along
/// any signed axis direction — the directions the fixed-point grid
/// represents exactly as unit vectors — hits the sphere at a strictly
/// positive distance: the distance to the center minus the radius. The
/// reported normal is exactly the unit outward vector from the center to
/// the hit point, that is, (hit_point - center) divided by the radius,
/// which here is the reversed ray direction, with no rounding slack.
pub proof fn lemma_sphere_axis_hit(s: Sphere, r: Ray)
    requires
        s.wf(),
        EPS <= s.radius,
        (r.direction@ == (V3 { x: SCALE as int, y: 0, z: 0 }) && r.origin@.y == s.position@.y && r.origin@.z
            == s.position@.z && r.origin@.x < s.position@.x - s.radius) || (r.direction@ == (V3 { x: -(SCALE as int), y: 0, z: 0 }) && r.origin@.y == s.position@.y && r.origin@.z
            == s.position@.z && r.origin@.x > s.position@.x + s.radius) || (r.direction@ == (V3 { x: 0, y: SCALE as int, z: 0 }) && r.origin@.x == s.position@.x && r.origin@.z
            == s.position@.z && r.origin@.y < s.position@.y - s.radius) || (r.direction@ == (V3 { x: 0, y: -(SCALE as int), z: 0 }) && r.origin@.x == s.position@.x && r.origin@.z
            == s.position@.z && r.origin@.y > s.position@.y + s.radius) || (r.direction@ == (V3 { x: 0, y: 0, z: SCALE as int }) && r.origin@.x == s.position@.x && r.origin@.y
            == s.position@.y && r.origin@.z < s.position@.z - s.radius) || (r.direction@ == (V3 { x: 0, y: 0, z: -(SCALE as int) }) && r.origin@.x == s.position@.x && r.origin@.y
            == s.position@.y && r.origin@.z > s.position@.z + s.radius),
    ensures
        sphere_t(s, r) == vdot(vsub(s.position@, r.origin@), r.direction@) - s.radius,
        sphere_t(s, r) > 0,
        sphere_normal(s, r) == vneg(r.direction@),
{
    let sp = SCALE as int;
    if r.direction@ == (V3 { x: SCALE as int, y: 0, z: 0 }) {
        let d = s.position@.x - r.origin@.x;
        let oc = sphere_oc(s, r);
        assert(oc == (V3 { x: -d, y: 0, z: 0 }));
        assert(oc.x * r.direction@.x + oc.y * r.direction@.y + oc.z * r.direction@.z == (-d) * sp
            && oc.x * oc.x + oc.y * oc.y + oc.z * oc.z == d * d) by (nonlinear_arith)
            requires
                oc.x == -d,
                oc.y == 0,
                oc.z == 0,
                r.direction@.x == sp,
                r.direction@.y == 0,
                r.direction@.z == 0,
        ;
        assert(dot_raw(oc, r.direction@) == (-d) * sp);
        lemma_tdiv_exact(-d, sp);
        assert(sphere_bq(s, r) == -d);
        assert(dot_raw(oc, oc) == d * d);
        assert((-d) * (-d) == d * d) by (nonlinear_arith);
        assert(sphere_disc(s, r) == s.radius * s.radius);
        assert(s.radius * s.radius >= 0) by (nonlinear_arith);
        lemma_sqrt_floor_square(s.radius as int);
        let t = d - s.radius;
        assert(sphere_t(s, r) == t);
        assert(r.direction@.x * t == t * sp && r.direction@.y * t == 0
            && r.direction@.z * t == 0) by (nonlinear_arith)
            requires
                r.direction@.x == sp,
                r.direction@.y == 0,
                r.direction@.z == 0,
        ;
        lemma_tdiv_exact(t, sp);
        lemma_tdiv_exact(0, sp);
        let off = sphere_hit_offset(s, r);
        assert(off == (V3 { x: -(s.radius as int), y: 0, z: 0 }));
        assert(!vis_zero(off));
        assert(off.x * off.x + off.y * off.y + off.z * off.z == s.radius * s.radius
            && off.x * sp == (-sp) * (s.radius as int) && off.y * sp == 0
            && off.z * sp == 0) by (nonlinear_arith)
            requires
                off.x == -(s.radius as int),
                off.y == 0,
                off.z == 0,
        ;
        assert(vlength(off) == s.radius);
        lemma_tdiv_exact(-sp, s.radius as int);
        lemma_tdiv_exact(0, s.radius as int);
        assert(vunit(off) == vneg(r.direction@));
        assert((s.position@.x - r.origin@.x) * (sp) == d * sp
            && (s.position@.y - r.origin@.y) * 0 == 0
            && (s.position@.z - r.origin@.z) * 0 == 0) by (nonlinear_arith)
            requires
                d == s.position@.x - r.origin@.x,
                s.position@.y == r.origin@.y,
                s.position@.z == r.origin@.z,
        ;
        assert(dot_raw(vsub(s.position@, r.origin@), r.direction@) == d * sp);
        lemma_tdiv_exact(d, sp);
    } else if r.direction@ == (V3 { x: -(SCALE as int), y: 0, z: 0 }) {
        let d = r.origin@.x - s.position@.x;
        let oc = sphere_oc(s, r);
        assert(oc == (V3 { x: d, y: 0, z: 0 }));
        assert(oc.x * r.direction@.x + oc.y * r.direction@.y + oc.z * r.direction@.z == (-d) * sp
            && oc.x * oc.x + oc.y * oc.y + oc.z * oc.z == d * d) by (nonlinear_arith)
            requires
                oc.x == d,
                oc.y == 0,
                oc.z == 0,
                r.direction@.x == -sp,
                r.direction@.y == 0,
                r.direction@.z == 0,
        ;
        assert(dot_raw(oc, r.direction@) == (-d) * sp);
        lemma_tdiv_exact(-d, sp);
        assert(sphere_bq(s, r) == -d);
        assert(dot_raw(oc, oc) == d * d);
        assert((-d) * (-d) == d * d) by (nonlinear_arith);
        assert(sphere_disc(s, r) == s.radius * s.radius);
        assert(s.radius * s.radius >= 0) by (nonlinear_arith);
        lemma_sqrt_floor_square(s.radius as int);
        let t = d - s.radius;
        assert(sphere_t(s, r) == t);
        assert(r.direction@.x * t == (-t) * sp && r.direction@.y * t == 0
            && r.direction@.z * t == 0) by (nonlinear_arith)
            requires
                r.direction@.x == -sp,
                r.direction@.y == 0,
                r.direction@.z == 0,
        ;
        lemma_tdiv_exact(-t, sp);
        lemma_tdiv_exact(0, sp);
        let off = sphere_hit_offset(s, r);
        assert(off == (V3 { x: s.radius as int, y: 0, z: 0 }));
        assert(!vis_zero(off));
        assert(off.x * off.x + off.y * off.y + off.z * off.z == s.radius * s.radius
            && off.x * sp == (sp) * (s.radius as int) && off.y * sp == 0
            && off.z * sp == 0) by (nonlinear_arith)
            requires
                off.x == s.radius as int,
                off.y == 0,
                off.z == 0,
        ;
        assert(vlength(off) == s.radius);
        lemma_tdiv_exact(sp, s.radius as int);
        lemma_tdiv_exact(0, s.radius as int);
        assert(vunit(off) == vneg(r.direction@));
        assert((s.position@.x - r.origin@.x) * (-sp) == d * sp
            && (s.position@.y - r.origin@.y) * 0 == 0
            && (s.position@.z - r.origin@.z) * 0 == 0) by (nonlinear_arith)
            requires
                d == r.origin@.x - s.position@.x,
                s.position@.y == r.origin@.y,
                s.position@.z == r.origin@.z,
        ;
        assert(dot_raw(vsub(s.position@, r.origin@), r.direction@) == d * sp);
        lemma_tdiv_exact(d, sp);
    } else if r.direction@ == (V3 { x: 0, y: SCALE as int, z: 0 }) {
        let d = s.position@.y - r.origin@.y;
        let oc = sphere_oc(s, r);
        assert(oc == (V3 { x: 0, y: -d, z: 0 }));
        assert(oc.x * r.direction@.x + oc.y * r.direction@.y + oc.z * r.direction@.z == (-d) * sp
            && oc.x * oc.x + oc.y * oc.y + oc.z * oc.z == d * d) by (nonlinear_arith)
            requires
                oc.y == -d,
                oc.x == 0,
                oc.z == 0,
                r.direction@.y == sp,
                r.direction@.x == 0,
                r.direction@.z == 0,
        ;
        assert(dot_raw(oc, r.direction@) == (-d) * sp);
        lemma_tdiv_exact(-d, sp);
        assert(sphere_bq(s, r) == -d);
        assert(dot_raw(oc, oc) == d * d);
        assert((-d) * (-d) == d * d) by (nonlinear_arith);
        assert(sphere_disc(s, r) == s.radius * s.radius);
        assert(s.radius * s.radius >= 0) by (nonlinear_arith);
        lemma_sqrt_floor_square(s.radius as int);
        let t = d - s.radius;
        assert(sphere_t(s, r) == t);
        assert(r.direction@.y * t == t * sp && r.direction@.x * t == 0
            && r.direction@.z * t == 0) by (nonlinear_arith)
            requires
                r.direction@.y == sp,
                r.direction@.x == 0,
                r.direction@.z == 0,
        ;
        lemma_tdiv_exact(t, sp);
        lemma_tdiv_exact(0, sp);
        let off = sphere_hit_offset(s, r);
        assert(off == (V3 { x: 0, y: -(s.radius as int), z: 0 }));
        assert(!vis_zero(off));
        assert(off.x * off.x + off.y * off.y + off.z * off.z == s.radius * s.radius
            && off.y * sp == (-sp) * (s.radius as int) && off.x * sp == 0
            && off.z * sp == 0) by (nonlinear_arith)
            requires
                off.y == -(s.radius as int),
                off.x == 0,
                off.z == 0,
        ;
        assert(vlength(off) == s.radius);
        lemma_tdiv_exact(-sp, s.radius as int);
        lemma_tdiv_exact(0, s.radius as int);
        assert(vunit(off) == vneg(r.direction@));
        assert((s.position@.y - r.origin@.y) * (sp) == d * sp
            && (s.position@.x - r.origin@.x) * 0 == 0
            && (s.position@.z - r.origin@.z) * 0 == 0) by (nonlinear_arith)
            requires
                d == s.position@.y - r.origin@.y,
                s.position@.x == r.origin@.x,
                s.position@.z == r.origin@.z,
        ;
        assert(dot_raw(vsub(s.position@, r.origin@), r.direction@) == d * sp);
        lemma_tdiv_exact(d, sp);
    } else if r.direction@ == (V3 { x: 0, y: -(SCALE as int), z: 0 }) {
        let d = r.origin@.y - s.position@.y;
        let oc = sphere_oc(s, r);
        assert(oc == (V3 { x: 0, y: d, z: 0 }));
        assert(oc.x * r.direction@.x + oc.y * r.direction@.y + oc.z * r.direction@.z == (-d) * sp
            && oc.x * oc.x + oc.y * oc.y + oc.z * oc.z == d * d) by (nonlinear_arith)
            requires
                oc.y == d,
                oc.x == 0,
                oc.z == 0,
                r.direction@.y == -sp,
                r.direction@.x == 0,
                r.direction@.z == 0,
        ;
        assert(dot_raw(oc, r.direction@) == (-d) * sp);
        lemma_tdiv_exact(-d, sp);
        assert(sphere_bq(s, r) == -d);
        assert(dot_raw(oc, oc) == d * d);
        assert((-d) * (-d) == d * d) by (nonlinear_arith);
        assert(sphere_disc(s, r) == s.radius * s.radius);
        assert(s.radius * s.radius >= 0) by (nonlinear_arith);
        lemma_sqrt_floor_square(s.radius as int);
        let t = d - s.radius;
        assert(sphere_t(s, r) == t);
        assert(r.direction@.y * t == (-t) * sp && r.direction@.x * t == 0
            && r.direction@.z * t == 0) by (nonlinear_arith)
            requires
                r.direction@.y == -sp,
                r.direction@.x == 0,
                r.direction@.z == 0,
        ;
        lemma_tdiv_exact(-t, sp);
        lemma_tdiv_exact(0, sp);
        let off = sphere_hit_offset(s, r);
        assert(off == (V3 { x: 0, y: s.radius as int, z: 0 }));
        assert(!vis_zero(off));
        assert(off.x * off.x + off.y * off.y + off.z * off.z == s.radius * s.radius
            && off.y * sp == (sp) * (s.radius as int) && off.x * sp == 0
            && off.z * sp == 0) by (nonlinear_arith)
            requires
                off.y == s.radius as int,
                off.x == 0,
                off.z == 0,
        ;
        assert(vlength(off) == s.radius);
        lemma_tdiv_exact(sp, s.radius as int);
        lemma_tdiv_exact(0, s.radius as int);
        assert(vunit(off) == vneg(r.direction@));
        assert((s.position@.y - r.origin@.y) * (-sp) == d * sp
            && (s.position@.x - r.origin@.x) * 0 == 0
            && (s.position@.z - r.origin@.z) * 0 == 0) by (nonlinear_arith)
            requires
                d == r.origin@.y - s.position@.y,
                s.position@.x == r.origin@.x,
                s.position@.z == r.origin@.z,
        ;
        assert(dot_raw(vsub(s.position@, r.origin@), r.direction@) == d * sp);
        lemma_tdiv_exact(d, sp);
    } else if r.direction@ == (V3 { x: 0, y: 0, z: SCALE as int }) {
        let d = s.position@.z - r.origin@.z;
        let oc = sphere_oc(s, r);
        assert(oc == (V3 { x: 0, y: 0, z: -d }));
        assert(oc.x * r.direction@.x + oc.y * r.direction@.y + oc.z * r.direction@.z == (-d) * sp
            && oc.x * oc.x + oc.y * oc.y + oc.z * oc.z == d * d) by (nonlinear_arith)
            requires
                oc.z == -d,
                oc.x == 0,
                oc.y == 0,
                r.direction@.z == sp,
                r.direction@.x == 0,
                r.direction@.y == 0,
        ;
        assert(dot_raw(oc, r.direction@) == (-d) * sp);
        lemma_tdiv_exact(-d, sp);
        assert(sphere_bq(s, r) == -d);
        assert(dot_raw(oc, oc) == d * d);
        assert((-d) * (-d) == d * d) by (nonlinear_arith);
        assert(sphere_disc(s, r) == s.radius * s.radius);
        assert(s.radius * s.radius >= 0) by (nonlinear_arith);
        lemma_sqrt_floor_square(s.radius as int);
        let t = d - s.radius;
        assert(sphere_t(s, r) == t);
        assert(r.direction@.z * t == t * sp && r.direction@.x * t == 0
            && r.direction@.y * t == 0) by (nonlinear_arith)
            requires
                r.direction@.z == sp,
                r.direction@.x == 0,
                r.direction@.y == 0,
        ;
        lemma_tdiv_exact(t, sp);
        lemma_tdiv_exact(0, sp);
        let off = sphere_hit_offset(s, r);
        assert(off == (V3 { x: 0, y: 0, z: -(s.radius as int) }));
        assert(!vis_zero(off));
        assert(off.x * off.x + off.y * off.y + off.z * off.z == s.radius * s.radius
            && off.z * sp == (-sp) * (s.radius as int) && off.x * sp == 0
            && off.y * sp == 0) by (nonlinear_arith)
            requires
                off.z == -(s.radius as int),
                off.x == 0,
                off.y == 0,
        ;
        assert(vlength(off) == s.radius);
        lemma_tdiv_exact(-sp, s.radius as int);
        lemma_tdiv_exact(0, s.radius as int);
        assert(vunit(off) == vneg(r.direction@));
        assert((s.position@.z - r.origin@.z) * (sp) == d * sp
            && (s.position@.x - r.origin@.x) * 0 == 0
            && (s.position@.y - r.origin@.y) * 0 == 0) by (nonlinear_arith)
            requires
                d == s.position@.z - r.origin@.z,
                s.position@.x == r.origin@.x,
                s.position@.y == r.origin@.y,
        ;
        assert(dot_raw(vsub(s.position@, r.origin@), r.direction@) == d * sp);
        lemma_tdiv_exact(d, sp);
    } else if r.direction@ == (V3 { x: 0, y: 0, z: -(SCALE as int) }) {
        let d = r.origin@.z - s.position@.z;
        let oc = sphere_oc(s, r);
        assert(oc == (V3 { x: 0, y: 0, z: d }));
        assert(oc.x * r.direction@.x + oc.y * r.direction@.y + oc.z * r.direction@.z == (-d) * sp
            && oc.x * oc.x + oc.y * oc.y + oc.z * oc.z == d * d) by (nonlinear_arith)
            requires
                oc.z == d,
                oc.x == 0,
                oc.y == 0,
                r.direction@.z == -sp,
                r.direction@.x == 0,
                r.direction@.y == 0,
        ;
        assert(dot_raw(oc, r.direction@) == (-d) * sp);
        lemma_tdiv_exact(-d, sp);
        assert(sphere_bq(s, r) == -d);
        assert(dot_raw(oc, oc) == d * d);
        assert((-d) * (-d) == d * d) by (nonlinear_arith);
        assert(sphere_disc(s, r) == s.radius * s.radius);
        assert(s.radius * s.radius >= 0) by (nonlinear_arith);
        lemma_sqrt_floor_square(s.radius as int);
        let t = d - s.radius;
        assert(sphere_t(s, r) == t);
        assert(r.direction@.z * t == (-t) * sp && r.direction@.x * t == 0
            && r.direction@.y * t == 0) by (nonlinear_arith)
            requires
                r.direction@.z == -sp,
                r.direction@.x == 0,
                r.direction@.y == 0,
        ;
        lemma_tdiv_exact(-t, sp);
        lemma_tdiv_exact(0, sp);
        let off = sphere_hit_offset(s, r);
        assert(off == (V3 { x: 0, y: 0, z: s.radius as int }));
        assert(!vis_zero(off));
        assert(off.x * off.x + off.y * off.y + off.z * off.z == s.radius * s.radius
            && off.z * sp == (sp) * (s.radius as int) && off.x * sp == 0
            && off.y * sp == 0) by (nonlinear_arith)
            requires
                off.z == s.radius as int,
                off.x == 0,
                off.y == 0,
        ;
        assert(vlength(off) == s.radius);
        lemma_tdiv_exact(sp, s.radius as int);
        lemma_tdiv_exact(0, s.radius as int);
        assert(vunit(off) == vneg(r.direction@));
        assert((s.position@.z - r.origin@.z) * (-sp) == d * sp
            && (s.position@.x - r.origin@.x) * 0 == 0
            && (s.position@.y - r.origin@.y) * 0 == 0) by (nonlinear_arith)
            requires
                d == r.origin@.z - s.position@.z,
                s.position@.x == r.origin@.x,
                s.position@.y == r.origin@.y,
        ;
        assert(dot_raw(vsub(s.position@, r.origin@), r.direction@) == d * sp);
        lemma_tdiv_exact(d, sp);
    }
}

#[derive(Debug, Clone, Copy)]
pub struct Plane {
    pub position: Vector3,
    pub normal: Vector3,
    pub up: Vector3,
    pub half_width: i64,
    pub half_height: i64,
    pub right: Vector3,
}

/// Denominator of the plane equation, at squared scale.
pub open spec fn plane_denom(p: Plane, r: Ray) -> int {
    dot_raw(p.normal@, r.direction@)
}

/// Hit point relative to the plane's anchor, in the plane's frame.
pub open spec fn plane_basis(p: Plane, r: Ray, t: int) -> V3 {
    vto_basis(vsub(ray_point(r, t), p.position@), p.normal@, p.right@, p.up@)
}

/// Hit parameter against the bounded patch, or -1.
pub open spec fn plane_t(p: Plane, r: Ray) -> int {
    if plane_denom(p, r) == 0 {
        -1
    } else {
        let t = tdiv(
            dot_raw(p.normal@, vsub(p.position@, r.origin@)) * SCALE,
            plane_denom(p, r),
        );
        if t < 0 || t > T_MAX {
            -1
        } else {
            let pb = plane_basis(p, r, t);
            if sabs(pb.x) <= p.half_width && sabs(pb.y) <= p.half_height {
                t
            } else {
                -1
            }
        }
    }
}

impl Plane {
    /// Anchor in the coordinate box; frame vectors near unit length;
    /// non-negative patch extents.
    pub open spec fn wf(self) -> bool {
        &&& in_box(self.position@, COORD_MAX as int)
        &&& in_box(self.normal@, 2 * SCALE as int)
        &&& in_box(self.up@, 2 * SCALE as int)
        &&& in_box(self.right@, 2 * SCALE as int)
        &&& spec_equal_error(vlength(self.normal@), SCALE as int)
        &&& 0 <= self.half_width <= COORD_MAX
        &&& 0 <= self.half_height <= COORD_MAX
    }

    /// Builds the patch from its anchor, unit normal, unit up vector and
    /// full extents; the right vector completes the orthonormal frame.
    pub fn new(position: Vector3, normal: Vector3, up: Vector3, width: i64, height: i64) -> (result:
        Plane)
        requires
            in_box(position@, COORD_MAX as int),
            in_box(normal@, 2 * SCALE as int),
            in_box(up@, 2 * SCALE as int),
            in_box(vcross(up@, normal@), 2 * SCALE as int),
            spec_equal_error(vlength(normal@), SCALE as int),
            spec_equal_error(vlength(up@), SCALE as int),
            spec_equal_error(vlength(vcross(up@, normal@)), SCALE as int),
            0 <= width <= 2 * COORD_MAX,
            0 <= height <= 2 * COORD_MAX,
        ensures
            result.position == position,
            result.normal == normal,
            result.up == up,
            result.right@ == vcross(up@, normal@),
            result.half_width as int == tdiv(width as int, 2),
            result.half_height as int == tdiv(height as int, 2),
            result.wf(),
    {
        proof {
            lemma_tdiv_bound(width as int, 2, COORD_MAX as int);
            lemma_tdiv_bound(height as int, 2, COORD_MAX as int);
            crate::fixed::lemma_tdiv_mag(width as int, 2);
            crate::fixed::lemma_tdiv_mag(height as int, 2);
        }
        let right = up.cross(&normal);
        let half_width = tdiv128(width as i128, 2) as i64;
        let half_height = tdiv128(height as i128, 2) as i64;
        Plane { position, normal, up, half_width, half_height, right }
    }

    /// Nearest-hit test against the bounded patch: solves the plane
    /// equation, then accepts only hit points whose frame coordinates lie
    /// within the half extents. The reported normal is always the plane's
    /// configured normal; no back-face flip is performed.
    pub fn intersect(&self, ray: &Ray) -> (result: ShapeIntersection)
        requires
            self.wf(),
            ray.wf(),
        ensures
            result.t as int == plane_t(*self, *ray),
            plane_t(*self, *ray) >= 0 ==> {
                &&& result.surface_normal == self.normal
                &&& in_box(result.surface_normal@, 2 * SCALE as int)
                &&& result.t <= T_MAX
                &&& sabs(plane_basis(*self, *ray, result.t as int).x) <= self.half_width
                &&& sabs(plane_basis(*self, *ray, result.t as int).y) <= self.half_height
            },
            plane_t(*self, *ray) < 0 ==> result.t == -1 && result.surface_normal@ == vzero(),
    {
        let mut intersection = ShapeIntersection::default();
        let denom: i128 = self.normal.dot_raw(&ray.direction);
        if denom != 0 {
            let po = self.position.sub(&ray.origin);
            proof {
                lemma_dot_raw_box(self.normal@, po@, 2 * SCALE as int, 2 * COORD_MAX as int);
            }
            let num: i128 = self.normal.dot_raw(&po);
            proof {
                lemma_mul_bound(num as int, SCALE as int, 0x3000000000000, SCALE as int);
            }
            let t128: i128 = tdiv128(num * (SCALE as i128), denom);
            if t128 >= 0 && t128 <= T_MAX as i128 {
                let t: i64 = t128 as i64;
                proof {
                    lemma_mul_bound(ray.direction@.x, t as int, 2 * SCALE as int, T_MAX as int);
                    lemma_mul_bound(ray.direction@.y, t as int, 2 * SCALE as int, T_MAX as int);
                    lemma_mul_bound(ray.direction@.z, t as int, 2 * SCALE as int, T_MAX as int);
                    lemma_tdiv_bound(ray.direction@.x * t, SCALE as int, 2 * T_MAX as int);
                    lemma_tdiv_bound(ray.direction@.y * t, SCALE as int, 2 * T_MAX as int);
                    lemma_tdiv_bound(ray.direction@.z * t, SCALE as int, 2 * T_MAX as int);
                }
                let ip = ray.origin.add(&ray.direction.scale(t)).sub(&self.position);
                proof {
                    lemma_vdot_box(ip@, self.right@, 0x1000000000000, 0x40000, 0xc000000000000);
                    lemma_vdot_box(ip@, self.up@, 0x1000000000000, 0x40000, 0xc000000000000);
                }
                let pb = Vector3::to_basis(&ip, &self.normal, &self.right, &self.up);
                let px: i64 = if pb.x < 0 {
                    -pb.x
                } else {
                    pb.x
                };
                let py: i64 = if pb.y < 0 {
                    -pb.y
                } else {
                    pb.y
                };
                if px <= self.half_width && py <= self.half_height {
                    intersection.t = t;
                    intersection.surface_normal = self.normal;
                }
            }
        }
        intersection
    }
}

/// A scene shape: a closed set of variants dispatched by match, as the
/// hot intersection loop wants.
#[derive(Debug, Clone, Copy)]
pub enum Shape {
    Sphere(Sphere),
    Plane(Plane),
}

pub open spec fn shape_t(s: Shape, r: Ray) -> int {
    match s {
        Shape::Sphere(sp) => sphere_t(sp, r),
        Shape::Plane(pl) => plane_t(pl, r),
    }
}

pub open spec fn shape_normal(s: Shape, r: Ray) -> V3 {
    match s {
        Shape::Sphere(sp) => sphere_normal(sp, r),
        Shape::Plane(pl) => pl.normal@,
    }
}

impl Shape {
    pub open spec fn wf(self) -> bool {
        match self {
            Shape::Sphere(sp) => sp.wf(),
            Shape::Plane(pl) => pl.wf(),
        }
    }

    pub fn intersect(&self, ray: &Ray) -> (result: ShapeIntersection)
        requires
            self.wf(),
            ray.wf(),
        ensures
            result.t as int == shape_t(*self, *ray),
            shape_t(*self, *ray) >= 0 ==> {
                &&& result.surface_normal@ == shape_normal(*self, *ray)
                &&& in_box(result.surface_normal@, 2 * SCALE as int)
                &&& result.t <= T_MAX
            },
            shape_t(*self, *ray) < 0 ==> result.t == -1 && result.surface_normal@ == vzero(),
    {
        match self {
            Shape::Sphere(sp) => sp.intersect(ray),
            Shape::Plane(pl) => pl.intersect(ray),
        }
    }
}

} // verus!
