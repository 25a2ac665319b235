//! The path integrator: the recursive Monte Carlo estimator, written as a
//! bounded loop over single bounces.
//!
//! A path walks a camera ray through at most [`MAX_DEPTH`] bounces,
//! accumulating throughput by importance sampling. [`trace_bounce`]
//! performs one estimator step under an exact contract; [`trace_ray`]
//! iterates it. A path terminates with the sky radiance when it escapes
//! all geometry, with the emitted radiance when it reaches a light, with
//! zero on an invalid material sample or an exhausted bounce budget, and —
//! specific to the fixed-point model — with zero when a sampled direction,
//! weight, throughput or bounce origin leaves the representable range,
//! which no physical configuration does.

use crate::fixed::{
    lemma_mul_bound, lemma_tdiv_bound, lemma_tdiv_bound_abs, lemma_tdiv_exact, sabs, tdiv, tdiv128,
    COORD_MAX, EPS, SCALE,
};
use crate::material::{material_post, Material, MaterialSample};
use crate::ray::Ray;
use crate::scene::{
    is_winner, lemma_winner_unique, matches_winner, scene_has_hit, winner_index, Scene,
};
use crate::shape::{shape_normal, shape_t};
use crate::tools::{equal_error, spec_equal_error, spec_is_negative_error, Sample2D};
use crate::vector::{
    in_box, lemma_vdot_box, vadd, vdot, vis_zero, vmul, vneg, vscale, vzero, Vector3, V3,
};
use vstd::prelude::*;

verus! {

/// Hard cap on path length: surviving paths contribute nothing past it.
pub const MAX_DEPTH: usize = 8;

/// Offset of each bounce's origin from the hit point along the sampled
/// direction (about 0.001), against self-intersection.
pub const BOUNCE_OFFSET: i64 = 66;

/// Directions entering the next bounce must stay within twice unit scale.
pub const DIR_MAX: i64 = 0x20000;

/// Per-bounce weights the estimator accepts into the running product.
pub const WEIGHT_MAX: i64 = 0x4000000000;

/// Magnitude bound kept on the running throughput.
pub const THROUGHPUT_MAX: i64 = 0x10000000000;

/// Bound accepted on the BSDF value entering the weight product.
pub const BRDF_MAX: i64 = 0x100000000;

/// The three scalars the render loop consumes; all external configuration.
#[derive(Debug, Clone, Copy, PartialEq, Eq, Structural)]
pub struct RenderSettings {
    pub image_width: u32,
    pub image_height: u32,
    pub num_of_samples: u32,
}

/// What one estimator step produces: a terminal radiance, or the ray and
/// throughput the path continues with.
#[derive(Debug, Clone, Copy)]
pub enum BounceOutcome {
    Finish(Vector3),
    Scatter(Ray, Vector3),
}

/// The radiance of the winning entity's light, for a ray that hits.
pub open spec fn first_hit_emission(scene: Scene, ray: Ray) -> V3 {
    scene.entities@[winner_index(scene, ray)].material.spec_emission()
}

/// The first hit of the ray rejects every scattering query, whatever the
/// random draw: the inert and emissive materials never scatter, diffuse
/// and reflective surfaces reject back-side queries, and the dielectric
/// rejects grazing incidence.
pub open spec fn first_scatter_rejects(scene: Scene, ray: Ray) -> bool {
    let e = scene.entities@[winner_index(scene, ray)];
    let n = shape_normal(e.shape, ray);
    let wo = vneg(ray.direction@);
    match e.material {
        Material::NoMaterial(_) => true,
        Material::Emissive(_) => true,
        Material::Diffuse(_) => spec_is_negative_error(vdot(wo, n)),
        Material::Reflective(_) => spec_is_negative_error(vdot(wo, n)),
        Material::Transparent(_) => spec_equal_error(vdot(wo, n), 0),
    }
}

/// What the estimator does with one material sample at a hit with normal
/// `n` and hit parameter `t`: ends the path with zero on an invalid or
/// out-of-range sample, and otherwise multiplies the throughput by the
/// estimator weight `brdf * |wi.n| / pdf` and continues from the hit
/// point nudged along the sampled direction.
pub open spec fn scatter_post(
    ray: Ray,
    throughput: Vector3,
    n: V3,
    t: int,
    ms: MaterialSample,
    out: BounceOutcome,
) -> bool {
    if !in_box(ms.sample_direction@, DIR_MAX as int) {
        out matches BounceOutcome::Finish(r) && r@ == vzero()
    } else {
        let wi_dot_n = sabs(vdot(ms.sample_direction@, n));
        if spec_equal_error(ms.pdf as int, 0) || vis_zero(ms.sample_direction@) {
            out matches BounceOutcome::Finish(r) && r@ == vzero()
        } else {
            let w = tdiv(wi_dot_n * SCALE, ms.pdf as int);
            let weight = vscale(ms.brdf@, w);
            let tp2 = vmul(throughput@, weight);
            let origin2 = vadd(
                vadd(ray.origin@, vscale(ray.direction@, t)),
                vscale(ms.sample_direction@, BOUNCE_OFFSET as int),
            );
            if !in_box(ms.brdf@, BRDF_MAX as int) || !in_box(weight, WEIGHT_MAX as int) || !in_box(
                tp2,
                THROUGHPUT_MAX as int,
            ) || !in_box(origin2, COORD_MAX as int) {
                out matches BounceOutcome::Finish(r) && r@ == vzero()
            } else {
                out matches BounceOutcome::Scatter(r2, tp) && r2.origin@ == origin2
                    && r2.direction == ms.sample_direction && tp@ == tp2
            }
        }
    }
}

/// What one estimator step returns: the sky radiance weighted by the
/// throughput when the ray escapes, the weighted emission when it reaches
/// a light, and otherwise the outcome that [`scatter_post`] describes for
/// the material sample that [`material_post`] pins for this draw.
pub open spec fn bounce_post(
    scene: Scene,
    ray: Ray,
    throughput: Vector3,
    s2: Sample2D,
    out: BounceOutcome,
) -> bool {
    if !scene_has_hit(scene, ray) {
        out matches BounceOutcome::Finish(r) && r@ == vmul(throughput@, scene.sky@)
    } else {
        let e = scene.entities@[winner_index(scene, ray)];
        let em = e.material.spec_emission();
        if !vis_zero(em) {
            out matches BounceOutcome::Finish(r) && r@ == vmul(throughput@, em)
        } else {
            exists|ms: MaterialSample|
                #[trigger] material_post(
                    e.material,
                    vneg(ray.direction@),
                    shape_normal(e.shape, ray),
                    s2,
                    ms,
                ) && scatter_post(
                    ray,
                    throughput,
                    shape_normal(e.shape, ray),
                    shape_t(e.shape, ray),
                    ms,
                    out,
                )
        }
    }
}

/// The estimator's whole behavior, by recursion over the remaining
/// bounce budget: with no budget left the path contributes zero; with
/// budget left, some step outcome satisfies [`bounce_post`] for the draw
/// at position `k`, and the result either is that step's terminal
/// radiance or arises from continuing the path it scattered into.
pub open spec fn trace_from(
    scene: Scene,
    ray: Ray,
    throughput: Vector3,
    samples: Seq<Sample2D>,
    k: int,
    result: Vector3,
) -> bool
    decreases MAX_DEPTH - k,
{
    if k < 0 || k >= MAX_DEPTH {
        result@ == vzero()
    } else {
        exists|out: BounceOutcome|
            #[trigger] bounce_post(scene, ray, throughput, samples[k], out) && match out {
                BounceOutcome::Finish(r) => result == r,
                BounceOutcome::Scatter(r2, tp2) => trace_from(scene, r2, tp2, samples, k + 1, result),
            }
    }
}

/// Componentwise product with the unit throughput is exact.
proof fn lemma_vmul_ones(v: V3)
    ensures
        vmul(V3 { x: SCALE as int, y: SCALE as int, z: SCALE as int }, v) == v,
{
    assert((SCALE as int) * v.x == v.x * (SCALE as int)) by (nonlinear_arith);
    assert((SCALE as int) * v.y == v.y * (SCALE as int)) by (nonlinear_arith);
    assert((SCALE as int) * v.z == v.z * (SCALE as int)) by (nonlinear_arith);
    lemma_tdiv_exact(v.x, SCALE as int);
    lemma_tdiv_exact(v.y, SCALE as int);
    lemma_tdiv_exact(v.z, SCALE as int);
}

/// A step whose first hit rejects scattering outright ends the path with
/// zero radiance.
proof fn lemma_rejects_forces_zero(
    scene: Scene,
    ray: Ray,
    throughput: Vector3,
    s2: Sample2D,
    out: BounceOutcome,
)
    requires
        bounce_post(scene, ray, throughput, s2, out),
        scene_has_hit(scene, ray),
        vis_zero(first_hit_emission(scene, ray)),
        first_scatter_rejects(scene, ray),
    ensures
        out matches BounceOutcome::Finish(r) && r@ == vzero(),
{
    let e = scene.entities@[winner_index(scene, ray)];
    let n = shape_normal(e.shape, ray);
    let wo = vneg(ray.direction@);
    let ms = choose|ms: MaterialSample|
        #[trigger] material_post(e.material, wo, n, s2, ms) && scatter_post(
            ray,
            throughput,
            n,
            shape_t(e.shape, ray),
            ms,
            out,
        );
    assert(crate::material::is_invalid_sample(ms));
    assert(in_box(ms.sample_direction@, DIR_MAX as int));
    assert(spec_equal_error(ms.pdf as int, 0));
}

/// One estimator step: intersects the ray against the scene, terminates
/// on escape, emission or a rejected sample, and otherwise advances the
/// path with the importance-sampling weight folded into the throughput.
pub fn trace_bounce(scene: &Scene, ray: &Ray, throughput: &Vector3, s2: &Sample2D) -> (out:
    BounceOutcome)
    requires
        scene.wf(),
        ray.wf(),
        in_box(throughput@, THROUGHPUT_MAX as int),
        s2.wf(),
    ensures
        bounce_post(*scene, *ray, *throughput, *s2, out),
        out matches BounceOutcome::Scatter(r2, tp2) ==> r2.wf() && in_box(
            tp2@,
            THROUGHPUT_MAX as int,
        ),
{
    let intersection = scene.trace(ray);
    if intersection.shape_intersection.t < 0 {
        return BounceOutcome::Finish(throughput.mul_comp(&scene.sky));
    }
    proof {
        let w = choose|i: int| matches_winner(*scene, *ray, i, intersection);
        assert(matches_winner(*scene, *ray, w, intersection));
        assert(scene.entities@[w].wf());
        assert(is_winner(*scene, *ray, w));
        assert(exists|i: int| is_winner(*scene, *ray, i));
        assert(is_winner(*scene, *ray, winner_index(*scene, *ray)));
        lemma_winner_unique(*scene, *ray, w, winner_index(*scene, *ray));
    }
    let emission = intersection.material.get_emission();
    if !emission.is_zero() {
        return BounceOutcome::Finish(throughput.mul_comp(&emission));
    }
    let wo = ray.direction.neg();
    let material_sample = intersection.material.sample_material(
        &wo,
        &intersection.shape_intersection,
        s2,
    );
    if !material_sample.sample_direction.bounded(DIR_MAX) {
        return BounceOutcome::Finish(Vector3::zero_vector());
    }
    proof {
        lemma_vdot_box(
            material_sample.sample_direction@,
            intersection.shape_intersection.surface_normal@,
            0x20000,
            0x20000,
            0x100000,
        );
    }
    let wi_dot_n_raw = material_sample.sample_direction.dot(
        &intersection.shape_intersection.surface_normal,
    );
    let wi_dot_n: i64 = if wi_dot_n_raw < 0 {
        -wi_dot_n_raw
    } else {
        wi_dot_n_raw
    };
    if equal_error(material_sample.pdf, 0) || material_sample.sample_direction.is_zero() {
        return BounceOutcome::Finish(Vector3::zero_vector());
    }
    proof {
        lemma_mul_bound(wi_dot_n as int, SCALE as int, 0x100000, SCALE as int);
        assert(sabs((wi_dot_n as int) * (SCALE as int)) <= 0x400000000000 * sabs(
            material_sample.pdf as int)) by (nonlinear_arith)
            requires
                sabs((wi_dot_n as int) * (SCALE as int)) <= 0x10000000000,
                sabs(material_sample.pdf as int) >= EPS as int,
        ;
        lemma_tdiv_bound_abs(
            (wi_dot_n as int) * (SCALE as int),
            material_sample.pdf as int,
            0x400000000000,
        );
    }
    let w: i64 = tdiv128(
        (wi_dot_n as i128) * (SCALE as i128),
        material_sample.pdf as i128,
    ) as i64;
    if !material_sample.brdf.bounded(BRDF_MAX) {
        return BounceOutcome::Finish(Vector3::zero_vector());
    }
    let new_throughput = material_sample.brdf.scale(w);
    if !new_throughput.bounded(WEIGHT_MAX) {
        return BounceOutcome::Finish(Vector3::zero_vector());
    }
    let tp = throughput.mul_comp(&new_throughput);
    if !tp.bounded(THROUGHPUT_MAX) {
        return BounceOutcome::Finish(Vector3::zero_vector());
    }
    proof {
        lemma_mul_bound(ray.direction@.x, intersection.shape_intersection.t as int, 0x20000,
            0x400000000000);
        lemma_mul_bound(ray.direction@.y, intersection.shape_intersection.t as int, 0x20000,
            0x400000000000);
        lemma_mul_bound(ray.direction@.z, intersection.shape_intersection.t as int, 0x20000,
            0x400000000000);
        lemma_tdiv_bound(ray.direction@.x * (intersection.shape_intersection.t as int),
            SCALE as int, 0x800000000000);
        lemma_tdiv_bound(ray.direction@.y * (intersection.shape_intersection.t as int),
            SCALE as int, 0x800000000000);
        lemma_tdiv_bound(ray.direction@.z * (intersection.shape_intersection.t as int),
            SCALE as int, 0x800000000000);
        lemma_mul_bound(material_sample.sample_direction@.x, BOUNCE_OFFSET as int, 0x20000, 66);
        lemma_mul_bound(material_sample.sample_direction@.y, BOUNCE_OFFSET as int, 0x20000, 66);
        lemma_mul_bound(material_sample.sample_direction@.z, BOUNCE_OFFSET as int, 0x20000, 66);
        lemma_tdiv_bound(material_sample.sample_direction@.x * (BOUNCE_OFFSET as int),
            SCALE as int, 0x20000);
        lemma_tdiv_bound(material_sample.sample_direction@.y * (BOUNCE_OFFSET as int),
            SCALE as int, 0x20000);
        lemma_tdiv_bound(material_sample.sample_direction@.z * (BOUNCE_OFFSET as int),
            SCALE as int, 0x20000);
    }
    let intersection_point = ray.origin.add(
        &ray.direction.scale(intersection.shape_intersection.t),
    );
    let new_origin = intersection_point.add(
        &material_sample.sample_direction.scale(BOUNCE_OFFSET),
    );
    if !new_origin.bounded(COORD_MAX) {
        return BounceOutcome::Finish(Vector3::zero_vector());
    }
    BounceOutcome::Scatter(
        Ray { origin: new_origin, direction: material_sample.sample_direction },
        tp,
    )
}

/// One-sample radiance estimate for a camera ray: iterates
/// [`trace_bounce`] up to the bounce cap, after which a surviving path
/// contributes zero.
///
/// The contract pins the terminal cases that depend on no random draw: a
/// ray that hits nothing returns exactly the sky radiance, a ray whose
/// first hit is a light returns exactly that light's emission, whatever
/// the draws and the sample count, and a ray whose first hit rejects
/// scattering outright (a back-side or grazing query, or a material that
/// never scatters) contributes nothing.
pub fn trace_ray(camera_ray: &Ray, scene: &Scene, samples: &Vec<Sample2D>) -> (result: Vector3)
    requires
        scene.wf(),
        camera_ray.wf(),
        samples@.len() >= MAX_DEPTH,
        forall|i: int| 0 <= i < samples@.len() ==> (#[trigger] samples@[i]).wf(),
    ensures
        !scene_has_hit(*scene, *camera_ray) ==> result@ == scene.sky@,
        scene_has_hit(*scene, *camera_ray) && !vis_zero(first_hit_emission(*scene, *camera_ray))
            ==> result@ == first_hit_emission(*scene, *camera_ray),
        scene_has_hit(*scene, *camera_ray) && vis_zero(first_hit_emission(*scene, *camera_ray))
            && first_scatter_rejects(*scene, *camera_ray) ==> result@ == vzero(),
        trace_from(
            *scene,
            *camera_ray,
            Vector3 { x: SCALE, y: SCALE, z: SCALE },
            samples@,
            0,
            result,
        ),
{
    let mut ray: Ray = *camera_ray;
    let mut throughput = Vector3 { x: SCALE, y: SCALE, z: SCALE };
    let mut depth: usize = 0;
    while depth < MAX_DEPTH
        invariant
            scene.wf(),
            ray.wf(),
            samples@.len() >= MAX_DEPTH,
            forall|i: int| 0 <= i < samples@.len() ==> (#[trigger] samples@[i]).wf(),
            0 <= depth <= MAX_DEPTH,
            in_box(throughput@, THROUGHPUT_MAX as int),
            depth == 0 ==> ray == *camera_ray && throughput@ == (V3 {
                x: SCALE as int,
                y: SCALE as int,
                z: SCALE as int,
            }),
            depth > 0 ==> scene_has_hit(*scene, *camera_ray) && vis_zero(
                first_hit_emission(*scene, *camera_ray),
            ) && !first_scatter_rejects(*scene, *camera_ray),
            forall|res: Vector3|
                #[trigger] trace_from(*scene, ray, throughput, samples@, depth as int, res)
                    ==> trace_from(
                    *scene,
                    *camera_ray,
                    Vector3 { x: SCALE, y: SCALE, z: SCALE },
                    samples@,
                    0,
                    res,
                ),
        decreases MAX_DEPTH - depth,
    {
        let outcome = trace_bounce(scene, &ray, &throughput, &samples[depth]);
        match outcome {
            BounceOutcome::Finish(radiance) => {
                proof {
                    if depth == 0 {
                        if !scene_has_hit(*scene, ray) {
                            lemma_vmul_ones(scene.sky@);
                        } else if !vis_zero(first_hit_emission(*scene, ray)) {
                            lemma_vmul_ones(first_hit_emission(*scene, ray));
                        } else if first_scatter_rejects(*scene, ray) {
                            lemma_rejects_forces_zero(
                                *scene,
                                ray,
                                throughput,
                                samples@[0],
                                outcome,
                            );
                        }
                    }
                    assert(trace_from(*scene, ray, throughput, samples@, depth as int, radiance));
                }
                return radiance;
            },
            BounceOutcome::Scatter(next_ray, next_throughput) => {
                proof {
                    if depth == 0 && scene_has_hit(*scene, ray) && vis_zero(
                        first_hit_emission(*scene, ray),
                    ) && first_scatter_rejects(*scene, ray) {
                        lemma_rejects_forces_zero(*scene, ray, throughput, samples@[0], outcome);
                    }
                }
                assert forall|res: Vector3|
                    #[trigger] trace_from(
                        *scene,
                        next_ray,
                        next_throughput,
                        samples@,
                        depth as int + 1,
                        res,
                    ) implies trace_from(
                    *scene,
                    *camera_ray,
                    Vector3 { x: SCALE, y: SCALE, z: SCALE },
                    samples@,
                    0,
                    res,
                ) by {
                    assert(trace_from(*scene, ray, throughput, samples@, depth as int, res));
                }
                ray = next_ray;
                throughput = next_throughput;
            },
        }
        depth += 1;
    }
    let result = Vector3::zero_vector();
    proof {
        assert(trace_from(*scene, ray, throughput, samples@, depth as int, result));
    }
    result
}

} // verus!
