//! Physically based material sampling: diffuse, mirror-reflective,
//! dielectric-transparent and emissive behaviors.
//!
//! `sample_material` draws an incoming light direction for an outgoing
//! direction `wo` at a surface intersection, and reports the BSDF value and
//! the sample's probability density. The invalid sample (zero BSDF, zero
//! direction, zero density) tells the integrator to end the path. The
//! uniform random draws enter as a [`Sample2D`] argument.

use crate::fixed::{
    fixmul, fmul, isqrt128, lemma_mul_bound, lemma_mul_le, lemma_tdiv_bound, lemma_tdiv_bound_abs,
    lemma_tdiv_exact, lemma_tdiv_mag, sabs, sqrt_floor, tdiv, tdiv128, EPS, SCALE,
};
use crate::shape::ShapeIntersection;
use crate::tools::{
    equal_error, is_negative_error, is_positive_error, less_error, spec_equal_error,
    spec_is_negative_error, spec_is_positive_error, spec_less_error, Sample2D,
};
use crate::vector::{
    dot_raw, dot_wide, in_box, lemma_vdot_box, lemma_vscale_box, vadd, vdot, vneg, vscale, vsub,
    vzero, Vector3, V3,
};
use vstd::prelude::*;

verus! {

/// Fixed-point value of 1/pi: the Lambertian BRDF constant.
pub const ONE_OVER_PI: i64 = 20861;

/// Fixed-point value of 1/(2*pi): density of a hemisphere direction drawn
/// by folding a uniform sphere direction.
pub const HALF_OVER_PI: i64 = 10430;

/// Magnitude bound on emitted radiance accepted by the tracer.
pub const EMISSION_MAX: i64 = 0x4000000000;

/// Range guard on the secondary Fresnel ratio (16.0 in real terms); the
/// physical ratio never exceeds one, and past the guard the routine falls
/// back to full reflection exactly as it does on its degenerate branches.
pub const SEC_MAX: i64 = 0x100000;

/// Half of a full fixed-point turn.
pub const HALF_TURN: i64 = 32768;

/// Quarter of a full fixed-point turn.
pub const QUARTER_TURN: i64 = 16384;

#[derive(Debug, Clone, Copy, PartialEq, Eq, Structural)]
pub struct MaterialSample {
    pub brdf: Vector3,
    pub sample_direction: Vector3,
    pub pdf: i64,
}

/// The sentinel that ends a path: no valid scattering event.
pub open spec fn is_invalid_sample(ms: MaterialSample) -> bool {
    &&& ms.brdf@ == vzero()
    &&& ms.sample_direction@ == vzero()
    &&& ms.pdf == 0
}

impl MaterialSample {
    pub fn invalid_sample() -> (result: MaterialSample)
        ensures
            is_invalid_sample(result),
    {
        MaterialSample {
            brdf: Vector3::zero_vector(),
            sample_direction: Vector3::zero_vector(),
            pdf: 0,
        }
    }
}

/// Rational quarter-wave approximation of `sin(pi * v / SCALE)` on
/// `[0, SCALE]`, always within `[0, SCALE]`.
pub open spec fn spec_sin_half_turn(v: int) -> int {
    let w = tdiv(v * (SCALE - v), SCALE as int);
    tdiv(16 * w * SCALE, 5 * SCALE - 4 * w)
}

/// `sin(2 * pi * u / SCALE)` for `u` in `[0, SCALE)`.
pub open spec fn spec_sin2pi(u: int) -> int {
    if u < HALF_TURN {
        spec_sin_half_turn(2 * u)
    } else {
        -spec_sin_half_turn(2 * (u - HALF_TURN))
    }
}

/// `cos(2 * pi * u / SCALE)` for `u` in `[0, SCALE)`.
pub open spec fn spec_cos2pi(u: int) -> int {
    let v = if u + QUARTER_TURN < SCALE {
        u + QUARTER_TURN
    } else {
        u + QUARTER_TURN - SCALE
    };
    spec_sin2pi(v)
}

pub fn sin_half_turn(v: i64) -> (r: i64)
    requires
        0 <= v <= SCALE,
    ensures
        r == spec_sin_half_turn(v as int),
        0 <= r <= SCALE,
{
    proof {
        assert((v as int) * (SCALE - v as int) >= 0) by (nonlinear_arith)
            requires
                0 <= v as int <= SCALE as int,
        ;
        assert(4 * ((v as int) * (SCALE - v as int)) <= (SCALE as int) * (SCALE as int))
            by (nonlinear_arith)
            requires
                0 <= v as int <= SCALE as int,
        ;
        lemma_tdiv_bound((v as int) * (SCALE - v as int), SCALE as int, 16384);
        lemma_tdiv_mag((v as int) * (SCALE - v as int), SCALE as int);
    }
    let w: i64 = tdiv128((v as i128) * ((SCALE - v) as i128), SCALE as i128) as i64;
    let den: i64 = 5 * SCALE - 4 * w;
    proof {
        assert(16 * (w as int) * (SCALE as int) >= 0) by (nonlinear_arith)
            requires
                0 <= w as int,
        ;
        assert(16 * (w as int) * (SCALE as int) <= (SCALE as int) * (5 * SCALE - 4 * w as int))
            by (nonlinear_arith)
            requires
                0 <= w as int <= 16384,
        ;
        lemma_tdiv_bound(16 * (w as int) * (SCALE as int), den as int, SCALE as int);
        lemma_tdiv_mag(16 * (w as int) * (SCALE as int), den as int);
    }
    tdiv128(16 * (w as i128) * (SCALE as i128), den as i128) as i64
}

pub fn sin2pi(u: i64) -> (r: i64)
    requires
        0 <= u < SCALE,
    ensures
        r == spec_sin2pi(u as int),
        -SCALE <= r <= SCALE,
{
    if u < HALF_TURN {
        sin_half_turn(2 * u)
    } else {
        -sin_half_turn(2 * (u - HALF_TURN))
    }
}

pub fn cos2pi(u: i64) -> (r: i64)
    requires
        0 <= u < SCALE,
    ensures
        r == spec_cos2pi(u as int),
        -SCALE <= r <= SCALE,
{
    let v: i64 = if u + QUARTER_TURN < SCALE {
        u + QUARTER_TURN
    } else {
        u + QUARTER_TURN - SCALE
    };
    sin2pi(v)
}

/// Mirror image of `wo` about the normal, given the cosine `wo_dot_n`.
pub open spec fn spec_reflect(wo: V3, n: V3, wo_dot_n: int) -> V3 {
    vsub(vscale(n, 2 * wo_dot_n), wo)
}

pub fn reflect(wo: &Vector3, n: &Vector3, wo_dot_n: i64) -> (r: Vector3)
    requires
        in_box(wo@, 2 * SCALE as int),
        in_box(n@, 2 * SCALE as int),
        sabs(wo_dot_n as int) <= 0x100000,
    ensures
        r@ == spec_reflect(wo@, n@, wo_dot_n as int),
        in_box(r@, 0x800000),
{
    proof {
        lemma_mul_bound(n@.x, 2 * wo_dot_n as int, 2 * SCALE as int, 0x200000);
        lemma_mul_bound(n@.y, 2 * wo_dot_n as int, 2 * SCALE as int, 0x200000);
        lemma_mul_bound(n@.z, 2 * wo_dot_n as int, 2 * SCALE as int, 0x200000);
        lemma_tdiv_bound(n@.x * (2 * wo_dot_n as int), SCALE as int, 0x400000);
        lemma_tdiv_bound(n@.y * (2 * wo_dot_n as int), SCALE as int, 0x400000);
        lemma_tdiv_bound(n@.z * (2 * wo_dot_n as int), SCALE as int, 0x400000);
    }
    n.scale(2 * wo_dot_n).sub(wo)
}

/// Transmitted direction by Snell's law in vector form; zero when total
/// internal reflection leaves no transmitted ray.
pub open spec fn spec_refract(wo: V3, n: V3, one_over_eta: int, wo_dot_n: int) -> V3 {
    let sin2 = fmul(fmul(one_over_eta, one_over_eta), SCALE - fmul(wo_dot_n, wo_dot_n));
    if !spec_less_error(sin2, SCALE as int) {
        vzero()
    } else {
        let cos_t = sqrt_floor((SCALE - sin2) * SCALE);
        vadd(vscale(vneg(wo), one_over_eta), vscale(n, fmul(one_over_eta, wo_dot_n) - cos_t))
    }
}

pub fn refract(wo: &Vector3, n: &Vector3, one_over_eta: i64, wo_dot_n: i64) -> (r: Vector3)
    requires
        in_box(wo@, 2 * SCALE as int),
        in_box(n@, 2 * SCALE as int),
        1 <= one_over_eta <= 0x100000000,
        sabs(wo_dot_n as int) <= 0x100000,
    ensures
        r@ == spec_refract(wo@, n@, one_over_eta as int, wo_dot_n as int),
        in_box(r@, 0x40000000000),
{
    proof {
        lemma_mul_le(sabs(one_over_eta as int), sabs(one_over_eta as int), 0x100000000,
            0x100000000);
        lemma_tdiv_bound((one_over_eta as int) * (one_over_eta as int), SCALE as int,
            0x1000000000000);
        lemma_mul_le(sabs(wo_dot_n as int), sabs(wo_dot_n as int), 0x100000, 0x100000);
        lemma_mul_bound(wo_dot_n as int, wo_dot_n as int, 0x100000, 0x100000);
        lemma_tdiv_bound((wo_dot_n as int) * (wo_dot_n as int), SCALE as int, 0x1000000);
    }
    let ooe2: i64 = fixmul(one_over_eta, one_over_eta);
    let dd: i64 = fixmul(wo_dot_n, wo_dot_n);
    proof {
        lemma_mul_le(sabs(ooe2 as int), sabs(SCALE - dd as int), 0x1000000000000, 0x2000000);
        lemma_mul_bound(ooe2 as int, SCALE - dd as int, 0x1000000000000, 0x2000000);
        lemma_tdiv_bound((ooe2 as int) * (SCALE - dd as int), SCALE as int, 0x200000000000000);
    }
    let sin2: i64 = fixmul(ooe2, SCALE - dd);
    if !less_error(sin2, SCALE) {
        return Vector3::zero_vector();
    }
    let rad: i128 = ((SCALE as i128) - (sin2 as i128)) * (SCALE as i128);
    let cq: u128 = isqrt128(rad as u128);
    proof {
        assert(cq as int <= 0x4000000000) by (nonlinear_arith)
            requires
                (cq as int) * (cq as int) <= rad as int,
                rad as int <= 0x4000000000000000000,
                cq as int >= 0,
        ;
        lemma_mul_le(sabs(one_over_eta as int), sabs(wo_dot_n as int), 0x100000000, 0x100000);
        lemma_mul_bound(one_over_eta as int, wo_dot_n as int, 0x100000000, 0x100000);
        lemma_tdiv_bound((one_over_eta as int) * (wo_dot_n as int), SCALE as int, 0x10000000000);
    }
    let cos_t: i64 = cq as i64;
    let k: i64 = fixmul(one_over_eta, wo_dot_n) - cos_t;
    proof {
        lemma_vscale_box(vneg(wo@), one_over_eta as int, 0x20000, 0x100000000, 0x200000000);
        lemma_vscale_box(n@, k as int, 0x20000, 0x14000000000, 0x28000000000);
    }
    wo.neg().scale(one_over_eta).add(&n.scale(k))
}

/// Schlick approximation of the Fresnel reflectance, with `r0` the
/// characteristic reflectance at normal incidence.
pub open spec fn spec_fresnel_schlik(r0: V3, cos_theta: int) -> V3 {
    let oct = SCALE - cos_theta;
    let p5 = fmul(fmul(fmul(oct, oct), fmul(oct, oct)), oct);
    vadd(r0, vscale(vsub(V3 { x: SCALE as int, y: SCALE as int, z: SCALE as int }, r0), p5))
}

pub fn fresnel_schlik(r0: &Vector3, cos_theta: i64) -> (r: Vector3)
    requires
        in_box(r0@, SCALE as int),
        sabs(cos_theta as int) <= 0x100000,
    ensures
        r@ == spec_fresnel_schlik(r0@, cos_theta as int),
        in_box(r@, 0x80000000000),
{
    let oct: i64 = SCALE - cos_theta;
    proof {
        lemma_mul_le(sabs(oct as int), sabs(oct as int), 0x200000, 0x200000);
        lemma_mul_bound(oct as int, oct as int, 0x200000, 0x200000);
        lemma_tdiv_bound((oct as int) * (oct as int), SCALE as int, 0x4000000);
    }
    let p2: i64 = fixmul(oct, oct);
    proof {
        lemma_mul_le(sabs(p2 as int), sabs(p2 as int), 0x4000000, 0x4000000);
        lemma_mul_bound(p2 as int, p2 as int, 0x4000000, 0x4000000);
        lemma_tdiv_bound((p2 as int) * (p2 as int), SCALE as int, 0x1000000000);
    }
    let p4: i64 = fixmul(p2, p2);
    proof {
        lemma_mul_le(sabs(p4 as int), sabs(oct as int), 0x1000000000, 0x200000);
        lemma_mul_bound(p4 as int, oct as int, 0x1000000000, 0x200000);
        lemma_tdiv_bound((p4 as int) * (oct as int), SCALE as int, 0x20000000000);
    }
    let p5: i64 = fixmul(p4, oct);
    let ones = Vector3 { x: SCALE, y: SCALE, z: SCALE };
    proof {
        lemma_vscale_box(vsub(ones@, r0@), p5 as int, 0x20000, 0x20000000000, 0x40000000000);
    }
    r0.add(&ones.sub(r0).scale(p5))
}

/// Exact dielectric Fresnel reflectance in closed form, in terms of the
/// relative index of refraction and the incidence cosine; returns full
/// reflection on its degenerate branches.
pub open spec fn spec_fresnel(eta: int, cos_theta: int) -> int {
    let g_sqrt = fmul(eta, eta) + fmul(cos_theta, cos_theta) - SCALE;
    if !spec_is_positive_error(g_sqrt) {
        SCALE as int
    } else {
        let g = sqrt_floor(g_sqrt * SCALE);
        let ratio = tdiv((g - cos_theta) * SCALE, g + cos_theta);
        let first = tdiv(ratio * ratio, 2 * SCALE);
        let denom = fmul(g - cos_theta, cos_theta) + SCALE;
        if spec_equal_error(denom, 0) {
            SCALE as int
        } else {
            let sec_r = tdiv((fmul(g + cos_theta, cos_theta) - SCALE) * SCALE, denom);
            if sabs(sec_r) > SEC_MAX {
                SCALE as int
            } else {
                fmul(first, SCALE + fmul(sec_r, sec_r))
            }
        }
    }
}

pub fn calculate_fresnel(eta: i64, cos_theta: i64) -> (r: i64)
    requires
        1 <= eta <= 0x100000000,
        EPS <= cos_theta <= 0x100000,
    ensures
        r == spec_fresnel(eta as int, cos_theta as int),
        0 <= r <= 0x1000000,
{
    proof {
        lemma_mul_le(eta as int, eta as int, 0x100000000, 0x100000000);
        lemma_tdiv_bound((eta as int) * (eta as int), SCALE as int, 0x1000000000000);
        lemma_tdiv_mag((eta as int) * (eta as int), SCALE as int);
        lemma_mul_le(cos_theta as int, cos_theta as int, 0x100000, 0x100000);
        lemma_tdiv_bound((cos_theta as int) * (cos_theta as int), SCALE as int, 0x1000000);
        lemma_tdiv_mag((cos_theta as int) * (cos_theta as int), SCALE as int);
    }
    let e2: i64 = fixmul(eta, eta);
    let c2: i64 = fixmul(cos_theta, cos_theta);
    let g_sqrt: i64 = e2 + c2 - SCALE;
    if !is_positive_error(g_sqrt) {
        return SCALE;
    }
    let rad: i128 = (g_sqrt as i128) * (SCALE as i128);
    let gq: u128 = isqrt128(rad as u128);
    proof {
        assert(gq as int <= 0x180000000) by (nonlinear_arith)
            requires
                (gq as int) * (gq as int) <= rad as int,
                rad as int <= 0x10001000000000000,
                gq as int >= 0,
        ;
    }
    let g: i64 = gq as i64;
    proof {
        lemma_mul_bound((g - cos_theta) as int, SCALE as int, 0x180100000, SCALE as int);
        assert(sabs(((g - cos_theta) as int) * (SCALE as int)) <= (SCALE as int) * sabs(
            (g + cos_theta) as int)) by (nonlinear_arith)
            requires
                g as int >= 0,
                cos_theta as int >= EPS as int,
        ;
        lemma_tdiv_bound_abs(((g - cos_theta) as int) * (SCALE as int), (g + cos_theta) as int,
            SCALE as int);
    }
    let ratio: i64 = tdiv128(((g as i128) - (cos_theta as i128)) * (SCALE as i128),
        (g as i128) + (cos_theta as i128)) as i64;
    proof {
        lemma_mul_bound(ratio as int, ratio as int, SCALE as int, SCALE as int);
        lemma_tdiv_bound((ratio as int) * (ratio as int), 2 * SCALE as int, HALF_TURN as int);
        assert((ratio as int) * (ratio as int) >= 0) by (nonlinear_arith);
        lemma_tdiv_mag((ratio as int) * (ratio as int), 2 * SCALE as int);
        lemma_mul_bound((g - cos_theta) as int, cos_theta as int, 0x180100000, 0x100000);
        lemma_mul_le(sabs((g - cos_theta) as int), sabs(cos_theta as int), 0x180100000, 0x100000);
        lemma_tdiv_bound(((g - cos_theta) as int) * (cos_theta as int), SCALE as int,
            0x2000000000);
    }
    let first: i64 = tdiv128((ratio as i128) * (ratio as i128), 2 * SCALE as i128) as i64;
    let denom: i64 = fixmul(g - cos_theta, cos_theta) + SCALE;
    if equal_error(denom, 0) {
        return SCALE;
    }
    proof {
        lemma_mul_bound((g + cos_theta) as int, cos_theta as int, 0x180100000, 0x100000);
        lemma_mul_le(sabs((g + cos_theta) as int), sabs(cos_theta as int), 0x180100000, 0x100000);
        lemma_tdiv_bound(((g + cos_theta) as int) * (cos_theta as int), SCALE as int,
            0x2000000000);
    }
    let sec_num: i64 = fixmul(g + cos_theta, cos_theta) - SCALE;
    proof {
        lemma_mul_bound(sec_num as int, SCALE as int, 0x2000010000, SCALE as int);
        assert(sabs((sec_num as int) * (SCALE as int)) <= 0x7fffffffffffffff * sabs(
            denom as int)) by (nonlinear_arith)
            requires
                sabs((sec_num as int) * (SCALE as int)) <= 0x20000100000000,
                sabs(denom as int) >= EPS as int,
        ;
        lemma_tdiv_bound_abs((sec_num as int) * (SCALE as int), denom as int,
            0x7fffffffffffffff);
    }
    let sec_r: i64 = tdiv128((sec_num as i128) * (SCALE as i128), denom as i128) as i64;
    if sec_r > SEC_MAX || sec_r < -SEC_MAX {
        return SCALE;
    }
    proof {
        lemma_mul_le(sabs(sec_r as int), sabs(sec_r as int), SEC_MAX as int, SEC_MAX as int);
        lemma_mul_bound(sec_r as int, sec_r as int, SEC_MAX as int, SEC_MAX as int);
        lemma_tdiv_bound((sec_r as int) * (sec_r as int), SCALE as int, 0x1000000);
        assert((sec_r as int) * (sec_r as int) >= 0) by (nonlinear_arith);
        lemma_tdiv_mag((sec_r as int) * (sec_r as int), SCALE as int);
    }
    let sec: i64 = fixmul(sec_r, sec_r);
    proof {
        lemma_mul_le(sabs(first as int), sabs(SCALE + sec as int), HALF_TURN as int, 0x1010000);
        lemma_mul_bound(first as int, SCALE + sec as int, HALF_TURN as int, 0x1010000);
        lemma_tdiv_bound((first as int) * (SCALE + sec as int), SCALE as int, 0x1000000);
        assert((first as int) * (SCALE + sec as int) >= 0) by (nonlinear_arith)
            requires
                first as int >= 0,
                SCALE + sec as int >= 0,
        ;
        lemma_tdiv_mag((first as int) * (SCALE + sec as int), SCALE as int);
    }
    fixmul(first, SCALE + sec)
}

/// The material that stands in when no intersection exists: it never
/// scatters.
#[derive(Debug, Clone, Copy, PartialEq, Eq, Structural)]
pub struct NoMaterial;

/// A light source: emits constant radiance and never scatters.
#[derive(Debug, Clone, Copy, PartialEq, Eq, Structural)]
pub struct EmissiveMaterial {
    pub emission: Vector3,
}

/// Lambertian surface with constant reflectance `color`.
#[derive(Debug, Clone, Copy, PartialEq, Eq, Structural)]
pub struct DiffuseMaterial {
    pub color: Vector3,
}

/// Perfect mirror with Schlick reflectance `color` at normal incidence.
#[derive(Debug, Clone, Copy, PartialEq, Eq, Structural)]
pub struct ReflectiveMaterial {
    pub color: Vector3,
}

/// Dielectric with tint `color` and fixed-point index of refraction `ior`.
#[derive(Debug, Clone, Copy, PartialEq, Eq, Structural)]
pub struct TransparentMaterial {
    pub color: Vector3,
    pub ior: i64,
}

impl NoMaterial {
    pub fn sample_material(
        &self,
        _wo: &Vector3,
        _intersection: &ShapeIntersection,
        _sample: &Sample2D,
    ) -> (result: MaterialSample)
        ensures
            is_invalid_sample(result),
    {
        MaterialSample::invalid_sample()
    }
}

impl EmissiveMaterial {
    /// Emitted radiance `color * intensity`.
    pub fn new(color: &Vector3, intensity: i64) -> (result: EmissiveMaterial)
        requires
            in_box(color@, SCALE as int),
            0 <= intensity <= EMISSION_MAX,
        ensures
            result.emission@ == vscale(color@, intensity as int),
            in_box(result.emission@, EMISSION_MAX as int),
    {
        proof {
            lemma_mul_bound(color@.x, intensity as int, SCALE as int, intensity as int);
            lemma_mul_bound(color@.y, intensity as int, SCALE as int, intensity as int);
            lemma_mul_bound(color@.z, intensity as int, SCALE as int, intensity as int);
            lemma_tdiv_bound(color@.x * intensity, SCALE as int, intensity as int);
            lemma_tdiv_bound(color@.y * intensity, SCALE as int, intensity as int);
            lemma_tdiv_bound(color@.z * intensity, SCALE as int, intensity as int);
        }
        EmissiveMaterial { emission: color.scale(intensity) }
    }

    pub fn sample_material(
        &self,
        _wo: &Vector3,
        _intersection: &ShapeIntersection,
        _sample: &Sample2D,
    ) -> (result: MaterialSample)
        ensures
            is_invalid_sample(result),
    {
        MaterialSample::invalid_sample()
    }

    pub fn get_emission(&self) -> (r: Vector3)
        ensures
            r == self.emission,
    {
        self.emission
    }
}

/// Hemisphere direction drawn by the inversion method from one 2D sample:
/// `cos(theta) = 1 - 2t`, `phi = 2 pi s`, folded upward along the local
/// vertical axis.
pub open spec fn spec_diffuse_dir(s2: Sample2D) -> V3 {
    let cos_theta = SCALE - 2 * s2.t;
    let ct2 = fmul(cos_theta, cos_theta);
    let sin_theta = sqrt_floor((SCALE - ct2) * SCALE);
    V3 {
        x: fmul(sin_theta, spec_cos2pi(s2.s as int)),
        y: fmul(sin_theta, spec_sin2pi(s2.s as int)),
        z: sabs(cos_theta as int),
    }
}

/// What diffuse sampling returns: the invalid sample on a back-side query,
/// else the Lambertian BRDF `color/pi`, the inversion-method direction and
/// the folded-sphere density, whatever the draw.
pub open spec fn diffuse_post(
    m: DiffuseMaterial,
    wo: V3,
    n: V3,
    s2: Sample2D,
    result: MaterialSample,
) -> bool {
    if spec_is_negative_error(vdot(wo, n)) {
        is_invalid_sample(result)
    } else {
        &&& result.brdf@ == vscale(m.color@, ONE_OVER_PI as int)
        &&& result.sample_direction@ == spec_diffuse_dir(s2)
        &&& result.pdf == HALF_OVER_PI
    }
}

impl DiffuseMaterial {
    /// Samples the hemisphere above the surface uniformly; the returned
    /// direction never points below the local horizon (its vertical
    /// component is non-negative) and the BRDF is `color/pi` exactly,
    /// independent of the random draw.
    pub fn sample_material(
        &self,
        wo: &Vector3,
        intersection: &ShapeIntersection,
        sample: &Sample2D,
    ) -> (result: MaterialSample)
        requires
            in_box(self.color@, SCALE as int),
            in_box(wo@, 2 * SCALE as int),
            in_box(intersection.surface_normal@, 2 * SCALE as int),
            sample.wf(),
        ensures
            diffuse_post(*self, wo@, intersection.surface_normal@, *sample, result),
            !spec_is_negative_error(vdot(wo@, intersection.surface_normal@)) ==> {
                &&& result.sample_direction@.z >= 0
                &&& in_box(result.sample_direction@, SCALE as int)
                &&& result.pdf > EPS
            },
    {
        let wo_dot_n = wo.dot(&intersection.surface_normal);
        if is_negative_error(wo_dot_n) {
            return MaterialSample::invalid_sample();
        }
        let cos_theta: i64 = SCALE - 2 * sample.t;
        proof {
            lemma_mul_le(sabs(cos_theta as int), sabs(cos_theta as int), SCALE as int,
                SCALE as int);
            lemma_mul_bound(cos_theta as int, cos_theta as int, SCALE as int, SCALE as int);
            lemma_tdiv_bound((cos_theta as int) * (cos_theta as int), SCALE as int, SCALE as int);
            assert((cos_theta as int) * (cos_theta as int) >= 0) by (nonlinear_arith);
            lemma_tdiv_mag((cos_theta as int) * (cos_theta as int), SCALE as int);
        }
        let ct2: i64 = fixmul(cos_theta, cos_theta);
        proof {
            lemma_mul_bound(SCALE - ct2 as int, SCALE as int, 0x10000, 0x10000);
        }
        let rad: i128 = ((SCALE - ct2) as i128) * (SCALE as i128);
        let stq: u128 = isqrt128(rad as u128);
        proof {
            assert(stq as int <= SCALE as int) by (nonlinear_arith)
                requires
                    (stq as int) * (stq as int) <= rad as int,
                    rad as int <= (SCALE as int) * (SCALE as int),
                    stq as int >= 0,
            ;
        }
        let sin_theta: i64 = stq as i64;
        let pc: i64 = cos2pi(sample.s);
        let ps: i64 = sin2pi(sample.s);
        proof {
            lemma_mul_le(sabs(sin_theta as int), sabs(pc as int), SCALE as int, SCALE as int);
            lemma_mul_bound(sin_theta as int, pc as int, SCALE as int, SCALE as int);
            lemma_tdiv_bound((sin_theta as int) * (pc as int), SCALE as int, SCALE as int);
            lemma_mul_le(sabs(sin_theta as int), sabs(ps as int), SCALE as int, SCALE as int);
            lemma_mul_bound(sin_theta as int, ps as int, SCALE as int, SCALE as int);
            lemma_tdiv_bound((sin_theta as int) * (ps as int), SCALE as int, SCALE as int);
            lemma_vscale_box(self.color@, ONE_OVER_PI as int, 0x10000, 20861, 20861);
        }
        let dx: i64 = fixmul(sin_theta, pc);
        let dy: i64 = fixmul(sin_theta, ps);
        let dz: i64 = if cos_theta < 0 {
            -cos_theta
        } else {
            cos_theta
        };
        MaterialSample {
            brdf: self.color.scale(ONE_OVER_PI),
            sample_direction: Vector3 { x: dx, y: dy, z: dz },
            pdf: HALF_OVER_PI,
        }
    }
}

/// What reflective sampling returns: the invalid sample on a back-side
/// query, else the Schlick reflectance, the mirror direction about the
/// normal, and the bookkeeping density of one for a perfect specular lobe.
pub open spec fn reflective_post(m: ReflectiveMaterial, wo: V3, n: V3, result: MaterialSample) -> bool {
    let d = vdot(wo, n);
    if spec_is_negative_error(d) {
        is_invalid_sample(result)
    } else {
        &&& result.brdf@ == spec_fresnel_schlik(m.color@, d)
        &&& result.sample_direction@ == spec_reflect(wo, n, d)
        &&& result.pdf == SCALE
    }
}

impl ReflectiveMaterial {
    /// Mirror reflection about the surface normal with Schlick-approximated
    /// Fresnel reflectance.
    pub fn sample_material(
        &self,
        wo: &Vector3,
        intersection: &ShapeIntersection,
        _sample: &Sample2D,
    ) -> (result: MaterialSample)
        requires
            in_box(self.color@, SCALE as int),
            in_box(wo@, 2 * SCALE as int),
            in_box(intersection.surface_normal@, 2 * SCALE as int),
        ensures
            reflective_post(*self, wo@, intersection.surface_normal@, result),
    {
        proof {
            lemma_vdot_box(wo@, intersection.surface_normal@, 0x20000, 0x20000, 0x100000);
        }
        let wo_dot_n = wo.dot(&intersection.surface_normal);
        if is_negative_error(wo_dot_n) {
            return MaterialSample::invalid_sample();
        }
        MaterialSample {
            brdf: fresnel_schlik(&self.color, wo_dot_n),
            sample_direction: reflect(wo, &intersection.surface_normal, wo_dot_n),
            pdf: SCALE,
        }
    }
}

/// What transparent sampling returns: dielectric Fresnel splitting between
/// a mirror lobe and a Snell-transmitted lobe, chosen by one uniform draw
/// against the Fresnel reflectance; grazing queries and vanishing
/// transmitted cosines give the invalid sample.
pub open spec fn transparent_post(
    m: TransparentMaterial,
    wo: V3,
    n: V3,
    s2: Sample2D,
    result: MaterialSample,
) -> bool {
    let d0 = vdot(wo, n);
    if spec_equal_error(d0, 0) {
        is_invalid_sample(result)
    } else {
        let eta = if d0 < 0 {
            m.ior as int
        } else {
            tdiv((SCALE as int) * (SCALE as int), m.ior as int)
        };
        let nn = if d0 < 0 {
            vneg(n)
        } else {
            n
        };
        let d = sabs(d0);
        let f = spec_fresnel(eta, d);
        if s2.s < f {
            &&& result.brdf@ == vscale(m.color@, tdiv(f * SCALE, d))
            &&& result.sample_direction@ == spec_reflect(wo, nn, d)
            &&& result.pdf == f
        } else {
            let wi = spec_refract(wo, nn, tdiv((SCALE as int) * (SCALE as int), eta), d);
            let wi_dot_n = sabs(vdot(wi, n));
            if spec_equal_error(wi_dot_n, 0) {
                is_invalid_sample(result)
            } else {
                &&& result.brdf@ == vscale(
                    m.color@,
                    tdiv(fmul(f, fmul(eta, eta)) * SCALE, wi_dot_n),
                )
                &&& result.sample_direction@ == wi
                &&& result.pdf == SCALE - f
            }
        }
    }
}

impl TransparentMaterial {
    /// Color within unit range and an index of refraction between the
    /// fixed-point resolution and sixteen.
    pub open spec fn wf(self) -> bool {
        &&& in_box(self.color@, SCALE as int)
        &&& 1 <= self.ior <= 0x100000
    }

    /// Russian-roulette choice between the Fresnel-weighted mirror lobe
    /// and the Snell-transmitted lobe, with the working normal flipped so
    /// the incidence cosine is positive.
    pub fn sample_material(
        &self,
        wo: &Vector3,
        intersection: &ShapeIntersection,
        sample: &Sample2D,
    ) -> (result: MaterialSample)
        requires
            self.wf(),
            in_box(wo@, 2 * SCALE as int),
            in_box(intersection.surface_normal@, 2 * SCALE as int),
            sample.wf(),
        ensures
            transparent_post(*self, wo@, intersection.surface_normal@, *sample, result),
    {
        proof {
            lemma_vdot_box(wo@, intersection.surface_normal@, 0x20000, 0x20000, 0x100000);
        }
        let wo_dot_n0 = wo.dot(&intersection.surface_normal);
        if equal_error(wo_dot_n0, 0) {
            return MaterialSample::invalid_sample();
        }
        proof {
            assert(0x100000000int * (self.ior as int) >= 0x100000000) by (nonlinear_arith)
                requires
                    self.ior as int >= 1,
            ;
            lemma_tdiv_bound((SCALE as int) * (SCALE as int), self.ior as int, 0x100000000);
            vstd::arithmetic::div_mod::lemma_div_non_zero((SCALE as int) * (SCALE as int),
                self.ior as int);
        }
        let eta: i64 = if wo_dot_n0 < 0 {
            self.ior
        } else {
            tdiv128((SCALE as i128) * (SCALE as i128), self.ior as i128) as i64
        };
        let mut nvec = intersection.surface_normal;
        let mut d = wo_dot_n0;
        if wo_dot_n0 < 0 {
            d = -wo_dot_n0;
            nvec = intersection.surface_normal.neg();
        }
        let fresnel = calculate_fresnel(eta, d);
        if sample.s < fresnel {
            proof {
                lemma_mul_bound(fresnel as int, SCALE as int, 0x1000000, SCALE as int);
                lemma_tdiv_mag((fresnel as int) * (SCALE as int), d as int);
                lemma_vscale_box(self.color@, tdiv((fresnel as int) * (SCALE as int), d as int),
                    0x10000, 0x10000000000, 0x10000000000);
            }
            let kr: i64 = tdiv128((fresnel as i128) * (SCALE as i128), d as i128) as i64;
            return MaterialSample {
                brdf: self.color.scale(kr),
                sample_direction: reflect(wo, &nvec, d),
                pdf: fresnel,
            };
        }
        proof {
            assert(0x100000000int * (eta as int) >= 0x100000000) by (nonlinear_arith)
                requires
                    eta as int >= 1,
            ;
            lemma_tdiv_bound((SCALE as int) * (SCALE as int), eta as int, 0x100000000);
            vstd::arithmetic::div_mod::lemma_div_non_zero((SCALE as int) * (SCALE as int),
                eta as int);
        }
        let ooe: i64 = tdiv128((SCALE as i128) * (SCALE as i128), eta as i128) as i64;
        let wi = refract(wo, &nvec, ooe, d);
        proof {
            lemma_vdot_box(wi@, intersection.surface_normal@, 0x40000000000, 0x20000, 0x180000000000);
        }
        let wi_dot_n = dot_wide(&wi, &intersection.surface_normal);
        let wi_dot_n_abs: i64 = if wi_dot_n < 0 {
            -wi_dot_n
        } else {
            wi_dot_n
        };
        if equal_error(wi_dot_n_abs, 0) {
            return MaterialSample::invalid_sample();
        }
        proof {
            lemma_mul_le(sabs(eta as int), sabs(eta as int), 0x100000000, 0x100000000);
            lemma_tdiv_bound((eta as int) * (eta as int), SCALE as int, 0x1000000000000);
        }
        let e2: i64 = fixmul(eta, eta);
        proof {
            lemma_mul_le(sabs(fresnel as int), sabs(e2 as int), 0x1000000, 0x1000000000000);
            lemma_mul_bound(fresnel as int, e2 as int, 0x1000000, 0x1000000000000);
            lemma_tdiv_bound((fresnel as int) * (e2 as int), SCALE as int, 0x100000000000000);
        }
        let fe: i64 = fixmul(fresnel, e2);
        proof {
            lemma_mul_bound(fe as int, SCALE as int, 0x100000000000000, SCALE as int);
            assert(sabs((fe as int) * (SCALE as int)) <= 0x7fffffffffffffff * sabs(
                wi_dot_n_abs as int)) by (nonlinear_arith)
                requires
                    sabs((fe as int) * (SCALE as int)) <= 0x1000000000000000000,
                    sabs(wi_dot_n_abs as int) >= EPS as int,
            ;
            lemma_tdiv_bound_abs((fe as int) * (SCALE as int), wi_dot_n_abs as int,
                0x7fffffffffffffff);
        }
        let k: i64 = tdiv128((fe as i128) * (SCALE as i128), wi_dot_n_abs as i128) as i64;
        proof {
            lemma_mul_le(sabs(self.color@.x), sabs(k as int), SCALE as int, 0x7fffffffffffffff);
            lemma_mul_le(sabs(self.color@.y), sabs(k as int), SCALE as int, 0x7fffffffffffffff);
            lemma_mul_le(sabs(self.color@.z), sabs(k as int), SCALE as int, 0x7fffffffffffffff);
        }
        let brdf = Vector3 {
            x: fixmul(self.color.x, k),
            y: fixmul(self.color.y, k),
            z: fixmul(self.color.z, k),
        };
        MaterialSample { brdf, sample_direction: wi, pdf: SCALE - fresnel }
    }
}

/// A scene material: a closed set of variants dispatched by match.
#[derive(Debug, Clone, Copy, PartialEq, Eq, Structural)]
pub enum Material {
    NoMaterial(NoMaterial),
    Emissive(EmissiveMaterial),
    Diffuse(DiffuseMaterial),
    Reflective(ReflectiveMaterial),
    Transparent(TransparentMaterial),
}

/// What `sample_material` returns for each material variant.
pub open spec fn material_post(
    m: Material,
    wo: V3,
    n: V3,
    s2: Sample2D,
    result: MaterialSample,
) -> bool {
    match m {
        Material::NoMaterial(_) => is_invalid_sample(result),
        Material::Emissive(_) => is_invalid_sample(result),
        Material::Diffuse(mm) => diffuse_post(mm, wo, n, s2, result),
        Material::Reflective(mm) => reflective_post(mm, wo, n, result),
        Material::Transparent(mm) => transparent_post(mm, wo, n, s2, result),
    }
}

impl Material {
    pub open spec fn wf(self) -> bool {
        match self {
            Material::NoMaterial(_) => true,
            Material::Emissive(m) => in_box(m.emission@, EMISSION_MAX as int),
            Material::Diffuse(m) => in_box(m.color@, SCALE as int),
            Material::Reflective(m) => in_box(m.color@, SCALE as int),
            Material::Transparent(m) => m.wf(),
        }
    }

    /// Emitted radiance: non-zero only for light sources.
    pub open spec fn spec_emission(self) -> V3 {
        match self {
            Material::Emissive(m) => m.emission@,
            _ => vzero(),
        }
    }

    pub fn get_emission(&self) -> (r: Vector3)
        ensures
            r@ == self.spec_emission(),
    {
        match self {
            Material::Emissive(m) => m.get_emission(),
            _ => Vector3::zero_vector(),
        }
    }

    pub fn sample_material(
        &self,
        wo: &Vector3,
        intersection: &ShapeIntersection,
        sample: &Sample2D,
    ) -> (result: MaterialSample)
        requires
            self.wf(),
            in_box(wo@, 2 * SCALE as int),
            in_box(intersection.surface_normal@, 2 * SCALE as int),
            sample.wf(),
        ensures
            material_post(*self, wo@, intersection.surface_normal@, *sample, result),
    {
        match self {
            Material::NoMaterial(m) => m.sample_material(wo, intersection, sample),
            Material::Emissive(m) => m.sample_material(wo, intersection, sample),
            Material::Diffuse(m) => m.sample_material(wo, intersection, sample),
            Material::Reflective(m) => m.sample_material(wo, intersection, sample),
            Material::Transparent(m) => m.sample_material(wo, intersection, sample),
        }
    }
}

/// Mirror reflection preserves the angle to the normal: for any outgoing
/// direction and any normal the fixed-point grid represents exactly as a
/// signed unit axis vector, the reflected direction's cosine against the
/// normal equals the outgoing direction's, with no rounding slack.
pub proof fn lemma_reflect_preserves_angle(wo: V3, n: V3)
    requires
        n == (V3 { x: SCALE as int, y: 0, z: 0 }) || n == (V3 { x: -(SCALE as int), y: 0, z: 0 })
            || n == (V3 { x: 0, y: SCALE as int, z: 0 }) || n == (
        V3 { x: 0, y: -(SCALE as int), z: 0 }) || n == (V3 { x: 0, y: 0, z: SCALE as int }) || n
            == (V3 { x: 0, y: 0, z: -(SCALE as int) }),
    ensures
        vdot(spec_reflect(wo, n, vdot(wo, n)), n) == vdot(wo, n),
{
    let s = SCALE as int;
    lemma_tdiv_exact(0, s);
    if n.x == s {
        assert(wo.x * n.x + wo.y * n.y + wo.z * n.z == (wo.x) * s) by (nonlinear_arith)
            requires
                n.x == s && n.y == 0 && n.z == 0,
        ;
        assert(dot_raw(wo, n) == (wo.x) * s);
        lemma_tdiv_exact(wo.x, s);
        let d = vdot(wo, n);
        assert(d == wo.x);
        assert(n.x * (2 * d) == (2 * d) * s && n.y * (2 * d) == 0 && n.z * (2 * d) == 0) by (nonlinear_arith)
            requires
                n.x == s && n.y == 0 && n.z == 0,
        ;
        lemma_tdiv_exact(2 * d, s);
        let r = spec_reflect(wo, n, d);
        assert(r == (V3 { x: (2 * d) - wo.x, y: -wo.y, z: -wo.z }));
        assert(r.x * n.x + r.y * n.y + r.z * n.z == (((2 * d) - wo.x)) * s) by (nonlinear_arith)
            requires
                n.x == s && n.y == 0 && n.z == 0,
                r == (V3 { x: (2 * d) - wo.x, y: -wo.y, z: -wo.z }),
        ;
        assert(dot_raw(r, n) == (((2 * d) - wo.x)) * s);
        lemma_tdiv_exact(((2 * d) - wo.x), s);
        assert(vdot(r, n) == d);
    } else if n.x == -s {
        assert(wo.x * n.x + wo.y * n.y + wo.z * n.z == (-wo.x) * s) by (nonlinear_arith)
            requires
                n.x == -s && n.y == 0 && n.z == 0,
        ;
        assert(dot_raw(wo, n) == (-wo.x) * s);
        lemma_tdiv_exact(-wo.x, s);
        let d = vdot(wo, n);
        assert(d == -wo.x);
        assert(n.x * (2 * d) == (-(2 * d)) * s && n.y * (2 * d) == 0 && n.z * (2 * d) == 0) by (nonlinear_arith)
            requires
                n.x == -s && n.y == 0 && n.z == 0,
        ;
        lemma_tdiv_exact(-(2 * d), s);
        let r = spec_reflect(wo, n, d);
        assert(r == (V3 { x: (-(2 * d)) - wo.x, y: -wo.y, z: -wo.z }));
        assert(r.x * n.x + r.y * n.y + r.z * n.z == (-((-(2 * d)) - wo.x)) * s) by (nonlinear_arith)
            requires
                n.x == -s && n.y == 0 && n.z == 0,
                r == (V3 { x: (-(2 * d)) - wo.x, y: -wo.y, z: -wo.z }),
        ;
        assert(dot_raw(r, n) == (-((-(2 * d)) - wo.x)) * s);
        lemma_tdiv_exact(-((-(2 * d)) - wo.x), s);
        assert(vdot(r, n) == d);
    } else if n.y == s {
        assert(wo.x * n.x + wo.y * n.y + wo.z * n.z == (wo.y) * s) by (nonlinear_arith)
            requires
                n.x == 0 && n.y == s && n.z == 0,
        ;
        assert(dot_raw(wo, n) == (wo.y) * s);
        lemma_tdiv_exact(wo.y, s);
        let d = vdot(wo, n);
        assert(d == wo.y);
        assert(n.x * (2 * d) == 0 && n.y * (2 * d) == (2 * d) * s && n.z * (2 * d) == 0) by (nonlinear_arith)
            requires
                n.x == 0 && n.y == s && n.z == 0,
        ;
        lemma_tdiv_exact(2 * d, s);
        let r = spec_reflect(wo, n, d);
        assert(r == (V3 { x: -wo.x, y: (2 * d) - wo.y, z: -wo.z }));
        assert(r.x * n.x + r.y * n.y + r.z * n.z == (((2 * d) - wo.y)) * s) by (nonlinear_arith)
            requires
                n.x == 0 && n.y == s && n.z == 0,
                r == (V3 { x: -wo.x, y: (2 * d) - wo.y, z: -wo.z }),
        ;
        assert(dot_raw(r, n) == (((2 * d) - wo.y)) * s);
        lemma_tdiv_exact(((2 * d) - wo.y), s);
        assert(vdot(r, n) == d);
    } else if n.y == -s {
        assert(wo.x * n.x + wo.y * n.y + wo.z * n.z == (-wo.y) * s) by (nonlinear_arith)
            requires
                n.x == 0 && n.y == -s && n.z == 0,
        ;
        assert(dot_raw(wo, n) == (-wo.y) * s);
        lemma_tdiv_exact(-wo.y, s);
        let d = vdot(wo, n);
        assert(d == -wo.y);
        assert(n.x * (2 * d) == 0 && n.y * (2 * d) == (-(2 * d)) * s && n.z * (2 * d) == 0) by (nonlinear_arith)
            requires
                n.x == 0 && n.y == -s && n.z == 0,
        ;
        lemma_tdiv_exact(-(2 * d), s);
        let r = spec_reflect(wo, n, d);
        assert(r == (V3 { x: -wo.x, y: (-(2 * d)) - wo.y, z: -wo.z }));
        assert(r.x * n.x + r.y * n.y + r.z * n.z == (-((-(2 * d)) - wo.y)) * s) by (nonlinear_arith)
            requires
                n.x == 0 && n.y == -s && n.z == 0,
                r == (V3 { x: -wo.x, y: (-(2 * d)) - wo.y, z: -wo.z }),
        ;
        assert(dot_raw(r, n) == (-((-(2 * d)) - wo.y)) * s);
        lemma_tdiv_exact(-((-(2 * d)) - wo.y), s);
        assert(vdot(r, n) == d);
    } else if n.z == s {
        assert(wo.x * n.x + wo.y * n.y + wo.z * n.z == (wo.z) * s) by (nonlinear_arith)
            requires
                n.x == 0 && n.y == 0 && n.z == s,
        ;
        assert(dot_raw(wo, n) == (wo.z) * s);
        lemma_tdiv_exact(wo.z, s);
        let d = vdot(wo, n);
        assert(d == wo.z);
        assert(n.x * (2 * d) == 0 && n.y * (2 * d) == 0 && n.z * (2 * d) == (2 * d) * s) by (nonlinear_arith)
            requires
                n.x == 0 && n.y == 0 && n.z == s,
        ;
        lemma_tdiv_exact(2 * d, s);
        let r = spec_reflect(wo, n, d);
        assert(r == (V3 { x: -wo.x, y: -wo.y, z: (2 * d) - wo.z }));
        assert(r.x * n.x + r.y * n.y + r.z * n.z == (((2 * d) - wo.z)) * s) by (nonlinear_arith)
            requires
                n.x == 0 && n.y == 0 && n.z == s,
                r == (V3 { x: -wo.x, y: -wo.y, z: (2 * d) - wo.z }),
        ;
        assert(dot_raw(r, n) == (((2 * d) - wo.z)) * s);
        lemma_tdiv_exact(((2 * d) - wo.z), s);
        assert(vdot(r, n) == d);
    } else if n.z == -s {
        assert(wo.x * n.x + wo.y * n.y + wo.z * n.z == (-wo.z) * s) by (nonlinear_arith)
            requires
                n.x == 0 && n.y == 0 && n.z == -s,
        ;
        assert(dot_raw(wo, n) == (-wo.z) * s);
        lemma_tdiv_exact(-wo.z, s);
        let d = vdot(wo, n);
        assert(d == -wo.z);
        assert(n.x * (2 * d) == 0 && n.y * (2 * d) == 0 && n.z * (2 * d) == (-(2 * d)) * s) by (nonlinear_arith)
            requires
                n.x == 0 && n.y == 0 && n.z == -s,
        ;
        lemma_tdiv_exact(-(2 * d), s);
        let r = spec_reflect(wo, n, d);
        assert(r == (V3 { x: -wo.x, y: -wo.y, z: (-(2 * d)) - wo.z }));
        assert(r.x * n.x + r.y * n.y + r.z * n.z == (-((-(2 * d)) - wo.z)) * s) by (nonlinear_arith)
            requires
                n.x == 0 && n.y == 0 && n.z == -s,
                r == (V3 { x: -wo.x, y: -wo.y, z: (-(2 * d)) - wo.z }),
        ;
        assert(dot_raw(r, n) == (-((-(2 * d)) - wo.z)) * s);
        lemma_tdiv_exact(-((-(2 * d)) - wo.z), s);
        assert(vdot(r, n) == d);
    }
}

} // verus!
