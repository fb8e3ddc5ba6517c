use vstd::prelude::*;

use crate::math::Vec3i;

verus! {

/// Fixed-point scale of material coefficients (`MATERIAL_SCALE` means 1.0).
pub const MATERIAL_SCALE: u16 = 1000;

/// Stable engine-local body identifier.
#[derive(Clone, Copy, Debug, PartialEq, Eq, Structural, PartialOrd, Ord, Hash)]
pub struct BodyId(pub u64);

#[derive(Clone, Copy, Debug, PartialEq, Eq, Structural, Hash)]
pub enum BodyKind {
    Fixed,
    Dynamic,
}

/// Surface material: restitution and friction coefficients at [`MATERIAL_SCALE`].
#[derive(Clone, Copy, Debug, PartialEq, Eq, Structural, Hash)]
pub struct Material {
    pub restitution_milli: u16,
    pub friction_milli: u16,
}

impl Material {
    pub fn new(restitution_milli: u16) -> (material: Material)
        ensures
            material.restitution_milli == restitution_milli,
            material.friction_milli == 0,
    {
        Material { restitution_milli, friction_milli: 0 }
    }

    pub fn with_friction(self, friction_milli: u16) -> (material: Material)
        ensures
            material.restitution_milli == self.restitution_milli,
            material.friction_milli == friction_milli,
    {
        Material { restitution_milli: self.restitution_milli, friction_milli }
    }

    pub fn restitution_milli(self) -> (value: u16)
        ensures
            value == self.restitution_milli,
    {
        self.restitution_milli
    }

    pub fn friction_milli(self) -> (value: u16)
        ensures
            value == self.friction_milli,
    {
        self.friction_milli
    }
}

impl Default for Material {
    fn default() -> (material: Material)
        ensures
            material.restitution_milli == 0 && material.friction_milli == 0,
    {
        Material { restitution_milli: 0, friction_milli: 0 }
    }
}

/// Canonical translational and material state of one axis-aligned box body.
#[derive(Clone, Copy, Debug, PartialEq, Eq, Structural, Hash)]
pub struct RigidBody {
    pub id: BodyId,
    pub kind: BodyKind,
    pub position: Vec3i,
    pub velocity: Vec3i,
    pub half_extents: Vec3i,
    pub mass_units: u32,
    pub material: Material,
}

impl RigidBody {
    /// A dynamic body of unit mass and default material.
    pub fn dynamic(id: BodyId, position: Vec3i, velocity: Vec3i, half_extents: Vec3i) -> (body:
        RigidBody)
        ensures
            body.id == id,
            body.kind == BodyKind::Dynamic,
            body.position == position,
            body.velocity == velocity,
            body.half_extents == half_extents,
            body.mass_units == 1,
            body.material == (Material { restitution_milli: 0, friction_milli: 0 }),
    {
        RigidBody {
            id,
            kind: BodyKind::Dynamic,
            position,
            velocity,
            half_extents,
            mass_units: 1,
            material: Material { restitution_milli: 0, friction_milli: 0 },
        }
    }

    /// A fixed (immovable, massless) body at rest.
    pub fn fixed(id: BodyId, position: Vec3i, half_extents: Vec3i) -> (body: RigidBody)
        ensures
            body.id == id,
            body.kind == BodyKind::Fixed,
            body.position == position,
            body.velocity == Vec3i::spec_zero(),
            body.half_extents == half_extents,
            body.mass_units == 0,
            body.material == (Material { restitution_milli: 0, friction_milli: 0 }),
    {
        RigidBody {
            id,
            kind: BodyKind::Fixed,
            position,
            velocity: Vec3i::zero(),
            half_extents,
            mass_units: 0,
            material: Material { restitution_milli: 0, friction_milli: 0 },
        }
    }

    pub fn with_material(self, material: Material) -> (body: RigidBody)
        ensures
            body == (RigidBody { material, ..self }),
    {
        RigidBody { material, ..self }
    }

    pub fn with_mass_units(self, mass_units: u32) -> (body: RigidBody)
        ensures
            body == (RigidBody { mass_units, ..self }),
    {
        RigidBody { mass_units, ..self }
    }

    pub fn id(&self) -> (id: BodyId)
        ensures
            id == self.id,
    {
        self.id
    }

    pub fn kind(&self) -> (kind: BodyKind)
        ensures
            kind == self.kind,
    {
        self.kind
    }

    pub fn position(&self) -> (position: Vec3i)
        ensures
            position == self.position,
    {
        self.position
    }

    pub fn velocity(&self) -> (velocity: Vec3i)
        ensures
            velocity == self.velocity,
    {
        self.velocity
    }

    pub fn half_extents(&self) -> (half_extents: Vec3i)
        ensures
            half_extents == self.half_extents,
    {
        self.half_extents
    }

    pub fn mass_units(&self) -> (mass_units: u32)
        ensures
            mass_units == self.mass_units,
    {
        self.mass_units
    }

    pub fn material(&self) -> (material: Material)
        ensures
            material == self.material,
    {
        self.material
    }
}

} // verus!
