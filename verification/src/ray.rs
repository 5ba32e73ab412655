//! Rays: an origin with a direction, and point evaluation along the ray.

use vstd::prelude::*;
use crate::fixed::{fx_mul, iabs, lemma_fx_mul_bound};
use crate::vec3::{Vec3, in_range, DOT_LIM};

verus! {

/// Largest origin component magnitude accepted by `point_at`.
pub const ORIGIN_LIM: i64 = 0x1000_0000_0000_0000;

#[derive(Clone, Copy, Debug, PartialEq, Eq, Structural)]
pub struct Ray {
    pub origin: Vec3,
    pub direction: Vec3,
}

impl Ray {
    pub fn new(origin: Vec3, direction: Vec3) -> (r: Ray)
        ensures
            r.origin == origin && r.direction == direction,
    {
        Ray { origin, direction }
    }

    pub fn origin(&self) -> (r: Vec3)
        ensures
            r == self.origin,
    {
        self.origin
    }

    pub fn direction(&self) -> (r: Vec3)
        ensures
            r == self.direction,
    {
        self.direction
    }

    /// The point origin + direction * t, in fixed-point arithmetic.
    pub fn point_at(&self, t: i64) -> (r: Vec3)
        requires
            in_range(self.origin, ORIGIN_LIM as int),
            in_range(self.direction, DOT_LIM as int),
            iabs(t as int) <= DOT_LIM as int,
        ensures
            r.x == self.origin.x + fx_mul(self.direction.x as int, t as int),
            r.y == self.origin.y + fx_mul(self.direction.y as int, t as int),
            r.z == self.origin.z + fx_mul(self.direction.z as int, t as int),
    {
        proof {
            lemma_fx_mul_bound(self.direction.x as int, t as int, DOT_LIM as int, DOT_LIM as int);
            lemma_fx_mul_bound(self.direction.y as int, t as int, DOT_LIM as int, DOT_LIM as int);
            lemma_fx_mul_bound(self.direction.z as int, t as int, DOT_LIM as int, DOT_LIM as int);
        }
        self.origin.plus(self.direction.scaled(t))
    }
}

} // verus!
