//! A ray: an origin point and a direction normalized at construction.

use vstd::prelude::*;
use crate::math::vec3d::Vec3D;
use crate::num::{iabs, lemma_tdiv_bound, tdiv, COORD_LIMIT, SCALE, VEC_LIMIT};

verus! {

#[derive(Clone, Copy, Debug, PartialEq, Eq, Structural)]
pub struct Ray {
    pub origin: Vec3D,
    pub dir: Vec3D,
}

impl Ray {
    /// A ray fit for intersection tests: origin within the world bounds,
    /// direction bounded by one unit and not zero.
    pub open spec fn wf(self) -> bool {
        &&& self.origin.in_bounds(COORD_LIMIT as int)
        &&& self.dir.in_bounds(SCALE as int)
        &&& !self.dir.is_zero()
    }

    /// The point reached after travelling `delta` along the direction.
    pub open spec fn at_spec(self, delta: int) -> Vec3D {
        self.origin.add_spec(self.dir.mul_spec(delta))
    }

    /// Builds a ray; the direction is normalized eagerly and never
    /// re-normalized afterward.
    pub fn new(origin: Vec3D, dir: Vec3D) -> (r: Self)
        requires
            origin.in_bounds(COORD_LIMIT as int),
            dir.in_bounds(VEC_LIMIT as int),
            !dir.is_zero(),
        ensures
            r.origin == origin,
            r.dir == dir.unit_spec(),
            r.wf(),
    {
        Self { origin, dir: dir.unit() }
    }

    pub fn at(&self, delta: i64) -> (r: Vec3D)
        requires
            self.wf(),
            iabs(delta as int) <= COORD_LIMIT as int,
        ensures
            r == self.at_spec(delta as int),
            r.in_bounds(2 * COORD_LIMIT as int),
    {
        proof {
            lemma_at_in_bounds(*self, delta as int);
        }
        self.origin.add(self.dir.mul(delta))
    }

    pub fn origin(&self) -> (r: Vec3D)
        ensures
            r == self.origin,
    {
        self.origin
    }

    pub fn dir(&self) -> (r: Vec3D)
        ensures
            r == self.dir,
    {
        self.dir
    }
}

/// Travelling a bounded distance along a bounded direction stays within
/// twice the world bounds.
pub proof fn lemma_at_in_bounds(ray: Ray, delta: int)
    requires
        ray.wf(),
        iabs(delta) <= COORD_LIMIT as int,
    ensures
        iabs(tdiv(ray.dir.x * delta, SCALE as int)) <= COORD_LIMIT as int,
        iabs(tdiv(ray.dir.y * delta, SCALE as int)) <= COORD_LIMIT as int,
        iabs(tdiv(ray.dir.z * delta, SCALE as int)) <= COORD_LIMIT as int,
        ray.dir.mul_spec(delta).in_bounds(COORD_LIMIT as int),
        ray.at_spec(delta).in_bounds(2 * COORD_LIMIT as int),
{
    lemma_step_comp(ray.dir.x as int, delta);
    lemma_step_comp(ray.dir.y as int, delta);
    lemma_step_comp(ray.dir.z as int, delta);
}

proof fn lemma_step_comp(c: int, delta: int)
    requires
        iabs(c) <= SCALE as int,
        iabs(delta) <= COORD_LIMIT as int,
    ensures
        iabs(tdiv(c * delta, SCALE as int)) <= COORD_LIMIT as int,
{
    assert(iabs(c * delta) <= COORD_LIMIT as int * SCALE as int) by (nonlinear_arith)
        requires
            iabs(c) <= SCALE as int,
            iabs(delta) <= COORD_LIMIT as int,
    ;
    lemma_tdiv_bound(c * delta, SCALE as int, COORD_LIMIT as int);
}

/// A ray evaluated at distance zero stands at its origin.
pub proof fn lemma_ray_at_zero(ray: Ray)
    ensures
        ray.at_spec(0) == ray.origin,
{
    assert(ray.dir.x * 0 == 0);
    assert(ray.dir.y * 0 == 0);
    assert(ray.dir.z * 0 == 0);
    crate::num::lemma_tdiv_nonneg(0, SCALE as int);
    vstd::arithmetic::div_mod::lemma_div_of0(SCALE as int);
}

} // verus!
