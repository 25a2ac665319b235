//! Rays: half-lines spawned by the camera and by every bounce.

use crate::fixed::{COORD_MAX, SCALE};
use crate::vector::{in_box, vadd, vscale, Vector3, V3};
use vstd::prelude::*;

verus! {

/// Half-line from `origin` along `direction`; the direction is kept near
/// unit length by every producer in the tracer.
#[derive(Debug, Clone, Copy)]
pub struct Ray {
    pub origin: Vector3,
    pub direction: Vector3,
}

/// The point `origin + direction * t` for a fixed-point parameter `t`.
pub open spec fn ray_point(r: Ray, t: int) -> V3 {
    vadd(r.origin@, vscale(r.direction@, t))
}

impl Ray {
    /// Origin inside the coordinate box, direction within twice unit scale.
    pub open spec fn wf(self) -> bool {
        &&& in_box(self.origin@, COORD_MAX as int)
        &&& in_box(self.direction@, 2 * SCALE as int)
    }
}

} // verus!
