use vstd::prelude::*;

verus! {

/// Division of `numerator` by a positive `denominator`, rounding half away from zero.
pub open spec fn round_div(numerator: int, denominator: int) -> int {
    if numerator >= 0 {
        (numerator + denominator / 2) / denominator
    } else {
        -((-numerator + denominator / 2) / denominator)
    }
}

/// Integer three-dimensional vector used for public positions, velocities and extents.
#[derive(Clone, Copy, Debug, PartialEq, Eq, Structural, Hash)]
pub struct Vec3i {
    pub x: i32,
    pub y: i32,
    pub z: i32,
}

impl Vec3i {
    /// The origin / zero vector.
    pub open spec fn spec_zero() -> Vec3i {
        Vec3i { x: 0, y: 0, z: 0 }
    }

    pub fn zero() -> (v: Vec3i)
        ensures
            v == Vec3i::spec_zero(),
    {
        Vec3i { x: 0, y: 0, z: 0 }
    }

    pub fn new(x: i32, y: i32, z: i32) -> (v: Vec3i)
        ensures
            v.x == x,
            v.y == y,
            v.z == z,
    {
        Vec3i { x, y, z }
    }

    /// The component selected by `axis` (0 = x, 1 = y, 2 = z).
    pub open spec fn spec_component(self, axis: int) -> i32 {
        if axis == 0 {
            self.x
        } else if axis == 1 {
            self.y
        } else {
            self.z
        }
    }

    pub fn component(self, axis: usize) -> (value: i32)
        requires
            axis < 3,
        ensures
            value == self.spec_component(axis as int),
    {
        if axis == 0 {
            self.x
        } else if axis == 1 {
            self.y
        } else {
            self.z
        }
    }

    pub fn set_component(&mut self, axis: usize, value: i32)
        requires
            axis < 3,
        ensures
            final(self).spec_component(axis as int) == value,
            forall|other: int|
                0 <= other < 3 && other != axis ==> final(self).spec_component(other)
                    == old(self).spec_component(other),
    {
        if axis == 0 {
            self.x = value;
        } else if axis == 1 {
            self.y = value;
        } else {
            self.z = value;
        }
    }
}

impl Default for Vec3i {
    fn default() -> (v: Vec3i)
        ensures
            v == Vec3i::spec_zero(),
    {
        Vec3i { x: 0, y: 0, z: 0 }
    }
}

} // verus!
