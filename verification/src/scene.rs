//! Scene traversal: the exhaustive linear scan for the globally nearest
//! intersection.
//!
//! `trace` intersects the ray against every entity and keeps the smallest
//! non-negative hit distance, pairing it with the winning entity's
//! material; the first entity in storage order wins exact ties. The
//! contract states this as an argmin: some index is a winner, no hit is
//! nearer, and every earlier entity's hit is strictly farther.

use crate::fixed::{COORD_MAX, SCALE};
use crate::material::{Material, NoMaterial, EMISSION_MAX};
use crate::ray::Ray;
use crate::shape::{shape_normal, shape_t, Shape, ShapeIntersection, T_MAX};
use crate::vector::{in_box, vzero, Vector3};
use vstd::prelude::*;

verus! {

/// One scene object: a shape paired with the material on its surface.
#[derive(Debug, Clone, Copy)]
pub struct Entity {
    pub shape: Shape,
    pub material: Material,
}

impl Entity {
    pub open spec fn wf(self) -> bool {
        self.shape.wf() && self.material.wf()
    }
}

/// Result of scene traversal: the nearest shape intersection paired with
/// the winning entity's material (the inert material when nothing is hit).
#[derive(Debug, Clone, Copy)]
pub struct EntityIntersection {
    pub shape_intersection: ShapeIntersection,
    pub material: Material,
}

impl Default for EntityIntersection {
    /// The "no intersection" sentinel with the inert material.
    fn default() -> (result: EntityIntersection)
        ensures
            result.shape_intersection.t == -1,
            result.shape_intersection.surface_normal@ == vzero(),
            result.material == Material::NoMaterial(NoMaterial),
    {
        EntityIntersection {
            shape_intersection: ShapeIntersection::default(),
            material: Material::NoMaterial(NoMaterial),
        }
    }
}

/// The world to render: a sky radiance for escaping rays and an
/// append-only sequence of entities.
pub struct Scene {
    pub sky: Vector3,
    pub entities: Vec<Entity>,
}

/// Entity `i` intersects the ray.
pub open spec fn entity_hits(s: Scene, r: Ray, i: int) -> bool {
    shape_t(s.entities@[i].shape, r) >= 0
}

/// Some entity intersects the ray.
pub open spec fn scene_has_hit(s: Scene, r: Ray) -> bool {
    exists|i: int| 0 <= i < s.entities@.len() && #[trigger] entity_hits(s, r, i)
}

/// Entity `i` wins the scan over the first `n` entities: it hits, no hit
/// among them is nearer, and every earlier hit is strictly farther.
pub open spec fn is_winner_upto(s: Scene, r: Ray, i: int, n: int) -> bool {
    &&& 0 <= i < n
    &&& entity_hits(s, r, i)
    &&& forall|j: int|
        0 <= j < n && #[trigger] entity_hits(s, r, j) ==> shape_t(s.entities@[i].shape, r)
            <= shape_t(s.entities@[j].shape, r)
    &&& forall|j: int|
        0 <= j < i && #[trigger] entity_hits(s, r, j) ==> shape_t(s.entities@[i].shape, r)
            < shape_t(s.entities@[j].shape, r)
}

/// Entity `i` wins the whole scan.
pub open spec fn is_winner(s: Scene, r: Ray, i: int) -> bool {
    is_winner_upto(s, r, i, s.entities@.len() as int)
}

/// The traversal result reports exactly entity `i`'s hit over the first
/// `n` entities.
pub open spec fn matches_winner_upto(
    s: Scene,
    r: Ray,
    i: int,
    n: int,
    result: EntityIntersection,
) -> bool {
    &&& is_winner_upto(s, r, i, n)
    &&& result.shape_intersection.t as int == shape_t(s.entities@[i].shape, r)
    &&& result.shape_intersection.surface_normal@ == shape_normal(s.entities@[i].shape, r)
    &&& result.material == s.entities@[i].material
}

/// The traversal result reports exactly entity `i`'s hit.
pub open spec fn matches_winner(s: Scene, r: Ray, i: int, result: EntityIntersection) -> bool {
    matches_winner_upto(s, r, i, s.entities@.len() as int, result)
}

/// The index of the winning entity (meaningful only when some entity hits).
pub open spec fn winner_index(s: Scene, r: Ray) -> int {
    choose|i: int| is_winner(s, r, i)
}

/// At most one entity wins: the strict tie-break on earlier indices makes
/// the winner unique.
pub proof fn lemma_winner_unique(s: Scene, r: Ray, i: int, j: int)
    requires
        is_winner(s, r, i),
        is_winner(s, r, j),
    ensures
        i == j,
{
    if i < j {
        assert(shape_t(s.entities@[j].shape, r) < shape_t(s.entities@[i].shape, r));
    }
    if j < i {
        assert(shape_t(s.entities@[i].shape, r) < shape_t(s.entities@[j].shape, r));
    }
}

/// A scene with no entities is hit by no ray.
pub proof fn lemma_empty_scene_no_hit(s: Scene, r: Ray)
    requires
        s.entities@.len() == 0,
    ensures
        !scene_has_hit(s, r),
{
}

impl Scene {
    /// Sky radiance in range and every entity well-formed.
    pub open spec fn wf(self) -> bool {
        &&& in_box(self.sky@, EMISSION_MAX as int)
        &&& forall|i: int| 0 <= i < self.entities@.len() ==> (#[trigger] self.entities@[i]).wf()
    }

    pub fn new(sky: Vector3) -> (result: Scene)
        requires
            in_box(sky@, EMISSION_MAX as int),
        ensures
            result.sky == sky,
            result.entities@.len() == 0,
            result.wf(),
    {
        Scene { sky, entities: Vec::new() }
    }

    pub fn add_entity(&mut self, entity: Entity)
        requires
            old(self).wf(),
            entity.wf(),
        ensures
            final(self).wf(),
            final(self).sky == old(self).sky,
            final(self).entities@ == old(self).entities@.push(entity),
    {
        self.entities.push(entity);
    }

    /// Scans every entity and keeps the nearest non-negative hit, first
    /// entity winning ties; the default intersection with the inert
    /// material stands for "nothing was hit".
    pub fn trace(&self, ray: &Ray) -> (result: EntityIntersection)
        requires
            self.wf(),
            ray.wf(),
        ensures
            scene_has_hit(*self, *ray) == (result.shape_intersection.t >= 0),
            result.shape_intersection.t >= 0 ==> {
                &&& exists|i: int| #[trigger] matches_winner(*self, *ray, i, result)
                &&& result.shape_intersection.t <= T_MAX
                &&& in_box(result.shape_intersection.surface_normal@, 2 * SCALE as int)
            },
            result.shape_intersection.t < 0 ==> {
                &&& result.shape_intersection.t == -1
                &&& result.shape_intersection.surface_normal@ == vzero()
                &&& result.material == Material::NoMaterial(NoMaterial)
            },
    {
        let mut t: i64 = i64::MAX;
        let mut entity_intersection = EntityIntersection::default();
        let mut idx: usize = 0;
        while idx < self.entities.len()
            invariant
                self.wf(),
                ray.wf(),
                0 <= idx <= self.entities@.len(),
                (entity_intersection.shape_intersection.t >= 0) == (exists|i: int|
                    0 <= i < idx && #[trigger] entity_hits(*self, *ray, i)),
                entity_intersection.shape_intersection.t >= 0 ==> {
                    &&& t == entity_intersection.shape_intersection.t
                    &&& exists|i: int|
                        #[trigger] matches_winner_upto(
                            *self,
                            *ray,
                            i,
                            idx as int,
                            entity_intersection,
                        )
                    &&& entity_intersection.shape_intersection.t <= T_MAX
                    &&& in_box(
                        entity_intersection.shape_intersection.surface_normal@,
                        2 * SCALE as int,
                    )
                },
                entity_intersection.shape_intersection.t < 0 ==> {
                    &&& t == i64::MAX
                    &&& entity_intersection.shape_intersection.t == -1
                    &&& entity_intersection.shape_intersection.surface_normal@ == vzero()
                    &&& entity_intersection.material == Material::NoMaterial(NoMaterial)
                },
            decreases self.entities@.len() - idx,
        {
            let entity = self.entities[idx];
            proof {
                assert(self.entities@[idx as int].wf());
            }
            let intersection = entity.shape.intersect(ray);
            if intersection.t >= 0 && intersection.t < t {
                let ghost old_ei = entity_intersection;
                t = intersection.t;
                entity_intersection.shape_intersection = intersection;
                entity_intersection.material = entity.material;
                proof {
                    if old_ei.shape_intersection.t >= 0 {
                        let ghost w = choose|i: int|
                            matches_winner_upto(*self, *ray, i, idx as int, old_ei);
                        assert(matches_winner_upto(*self, *ray, w, idx as int, old_ei));
                    }
                    assert(matches_winner_upto(
                        *self,
                        *ray,
                        idx as int,
                        idx as int + 1,
                        entity_intersection,
                    ));
                }
            } else {
                proof {
                    if entity_intersection.shape_intersection.t >= 0 {
                        let ghost w = choose|i: int|
                            matches_winner_upto(*self, *ray, i, idx as int, entity_intersection);
                        assert(matches_winner_upto(*self, *ray, w, idx as int, entity_intersection));
                        assert(matches_winner_upto(
                            *self,
                            *ray,
                            w,
                            idx as int + 1,
                            entity_intersection,
                        ));
                    }
                }
            }
            idx += 1;
        }
        proof {
            if entity_intersection.shape_intersection.t >= 0 {
                let w = choose|i: int|
                    matches_winner_upto(*self, *ray, i, idx as int, entity_intersection);
                assert(matches_winner_upto(*self, *ray, w, idx as int, entity_intersection));
                assert(matches_winner(*self, *ray, w, entity_intersection));
            }
        }
        entity_intersection
    }
}

} // verus!
