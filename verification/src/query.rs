use vstd::prelude::*;

use crate::math::Vec3i;

verus! {

/// Axis-aligned query shape in the current world snapshot.
#[derive(Clone, Copy, Debug, PartialEq, Eq, Structural)]
pub struct Aabb {
    pub center: Vec3i,
    pub half_extents: Vec3i,
}

impl Aabb {
    pub fn new(center: Vec3i, half_extents: Vec3i) -> (aabb: Aabb)
        ensures
            aabb == (Aabb { center, half_extents }),
    {
        Aabb { center, half_extents }
    }
}

/// Parametric ray `origin + direction * t`, where `t` is measured in engine ticks; the direction is
/// deliberately not normalized.
#[derive(Clone, Copy, Debug, PartialEq, Eq, Structural)]
pub struct Ray {
    pub origin: Vec3i,
    pub direction: Vec3i,
}

impl Ray {
    pub fn new(origin: Vec3i, direction: Vec3i) -> (ray: Ray)
        ensures
            ray == (Ray { origin, direction }),
    {
        Ray { origin, direction }
    }
}

#[derive(Clone, Copy, Debug, PartialEq, Eq, Structural)]
pub enum QueryError {
    InvalidHalfExtents,
    NonPositiveTicks(i32),
}

} // verus!
