use vstd::prelude::*;

use crate::angular::{
    AngularError3d, AngularState3d, AngularVelocity3d, Orientation3d, components_within_scale,
    norm_squared, normalizes,
};
use crate::body::{BodyId, BodyKind, RigidBody};
use crate::math::Vec3i;
use crate::oriented_box::OrientedBox3d;

verus! {

/// Symmetric collision-layer membership and mask for one rotating body.
///
/// A pair is eligible only when each body's membership intersects the other body's mask.
#[derive(Clone, Copy, Debug, PartialEq, Eq, Structural, Hash)]
pub struct CollisionLayers3d {
    memberships: u32,
    mask: u32,
}

/// Whether two layer assignments accept each other.
pub open spec fn layers_collide(left: CollisionLayers3d, right: CollisionLayers3d) -> bool {
    (left.spec_memberships() & right.spec_mask()) != 0 && (right.spec_memberships()
        & left.spec_mask()) != 0
}

impl CollisionLayers3d {
    pub closed spec fn spec_memberships(self) -> u32 {
        self.memberships
    }

    pub closed spec fn spec_mask(self) -> u32 {
        self.mask
    }

    pub fn new(memberships: u32, mask: u32) -> (layers: CollisionLayers3d)
        ensures
            layers.spec_memberships() == memberships,
            layers.spec_mask() == mask,
    {
        CollisionLayers3d { memberships, mask }
    }

    /// Membership in and interaction with every layer.
    pub closed spec fn spec_all() -> CollisionLayers3d {
        CollisionLayers3d { memberships: u32::MAX, mask: u32::MAX }
    }

    /// Membership in and interaction with every layer.
    pub fn all() -> (layers: CollisionLayers3d)
        ensures
            layers == CollisionLayers3d::spec_all(),
            layers.spec_memberships() == u32::MAX,
            layers.spec_mask() == u32::MAX,
    {
        CollisionLayers3d { memberships: u32::MAX, mask: u32::MAX }
    }

    pub fn memberships(self) -> (memberships: u32)
        ensures
            memberships == self.spec_memberships(),
    {
        self.memberships
    }

    pub fn mask(self) -> (mask: u32)
        ensures
            mask == self.spec_mask(),
    {
        self.mask
    }

    pub fn collides_with(self, other: CollisionLayers3d) -> (collides: bool)
        ensures
            collides == layers_collide(self, other),
    {
        (self.memberships & other.mask) != 0 && (other.memberships & self.mask) != 0
    }
}

impl Default for CollisionLayers3d {
    fn default() -> (layers: CollisionLayers3d)
        ensures
            layers.spec_memberships() == u32::MAX,
            layers.spec_mask() == u32::MAX,
    {
        CollisionLayers3d::all()
    }
}

/// Eligibility is symmetric: two layer assignments accept each other in either order.
pub proof fn lemma_layers_collide_symmetric(left: CollisionLayers3d, right: CollisionLayers3d)
    ensures
        layers_collide(left, right) == layers_collide(right, left),
{
}

/// Optional response policy for externally controlled bodies.
#[derive(Clone, Copy, Debug, PartialEq, Eq, Structural, Hash)]
pub enum ContactMode3d {
    Physical,
    /// Normal-only, inelastic linear pushing with optional one-way support direction.
    LinearPush { support_direction: Vec3i },
}

impl Default for ContactMode3d {
    fn default() -> (mode: ContactMode3d)
        ensures
            mode == ContactMode3d::Physical,
    {
        ContactMode3d::Physical
    }
}

/// Whether a resolved collision is retained as a resting/contact constraint after its impact.
#[derive(Clone, Copy, Debug, PartialEq, Eq, Structural, Hash)]
pub enum ContactPersistence3d {
    Persistent,
    Transient,
}

impl Default for ContactPersistence3d {
    fn default() -> (persistence: ContactPersistence3d)
        ensures
            persistence == ContactPersistence3d::Persistent,
    {
        ContactPersistence3d::Persistent
    }
}

/// Engine-native rotating cuboid state: translational/material body plus rotational state.
#[derive(Clone, Copy, Debug, PartialEq, Eq, Structural, Hash)]
pub struct RigidBox3d {
    pub body: RigidBody,
    pub angular: AngularState3d,
    pub rotation_locked: bool,
    pub contact_mode: ContactMode3d,
    pub contact_persistence: ContactPersistence3d,
    pub collision_layers: CollisionLayers3d,
}

#[derive(Clone, Copy, Debug, PartialEq, Eq, Structural)]
pub enum RigidBoxError3d {
    InvalidHalfExtents(BodyId),
    ZeroMass(BodyId),
    FixedAngularVelocity(BodyId),
    Angular(AngularError3d),
}

impl From<AngularError3d> for RigidBoxError3d {
    fn from(value: AngularError3d) -> (error: RigidBoxError3d)
        ensures
            error == RigidBoxError3d::Angular(value),
    {
        RigidBoxError3d::Angular(value)
    }
}

impl vstd::std_specs::convert::FromSpecImpl<AngularError3d> for RigidBoxError3d {
    open spec fn obeys_from_spec() -> bool {
        true
    }

    open spec fn from_spec(value: AngularError3d) -> RigidBoxError3d {
        RigidBoxError3d::Angular(value)
    }
}

/// Strictly positive half extents on every axis.
pub open spec fn valid_half_extents(half_extents: Vec3i) -> bool {
    half_extents.x > 0 && half_extents.y > 0 && half_extents.z > 0
}

/// A well-formed rotating box: positive extents, positive dynamic mass, a fixed body that does not
/// spin, and a normalized orientation.
pub open spec fn valid_rigid_box(rigid_box: RigidBox3d) -> bool {
    &&& valid_half_extents(rigid_box.body.half_extents)
    &&& rigid_box.body.kind == BodyKind::Dynamic ==> rigid_box.body.mass_units > 0
    &&& rigid_box.body.kind == BodyKind::Fixed ==> rigid_box.angular.angular_velocity.spec_is_zero()
    &&& components_within_scale(rigid_box.angular.orientation)
}

/// The error, if any, that [`RigidBox3d::new`] reports for these inputs, in check order.
pub open spec fn rigid_box_new_error(body: RigidBody, angular: AngularState3d) -> Option<
    RigidBoxError3d,
> {
    if !valid_half_extents(body.half_extents) {
        Some(RigidBoxError3d::InvalidHalfExtents(body.id))
    } else if body.kind == BodyKind::Dynamic && body.mass_units == 0 {
        Some(RigidBoxError3d::ZeroMass(body.id))
    } else if body.kind == BodyKind::Fixed && !angular.angular_velocity.spec_is_zero() {
        Some(RigidBoxError3d::FixedAngularVelocity(body.id))
    } else if norm_squared(angular.orientation) == 0 {
        Some(RigidBoxError3d::Angular(AngularError3d::ZeroOrientation))
    } else {
        None
    }
}

impl RigidBox3d {
    /// Creates a validated rotating cuboid with a normalized orientation and default policies.
    pub fn new(body: RigidBody, angular: AngularState3d) -> (result: Result<
        RigidBox3d,
        RigidBoxError3d,
    >)
        ensures
            match result {
                Ok(rigid_box) => {
                    &&& rigid_box_new_error(body, angular) is None
                    &&& rigid_box.body == body
                    &&& normalizes(angular.orientation, rigid_box.angular.orientation)
                    &&& rigid_box.angular.angular_velocity == angular.angular_velocity
                    &&& !rigid_box.rotation_locked
                    &&& rigid_box.contact_mode == ContactMode3d::Physical
                    &&& rigid_box.contact_persistence == ContactPersistence3d::Persistent
                    &&& rigid_box.collision_layers.spec_memberships() == u32::MAX
                    &&& rigid_box.collision_layers.spec_mask() == u32::MAX
                    &&& valid_rigid_box(rigid_box)
                },
                Err(error) => rigid_box_new_error(body, angular) == Some(error),
            },
    {
        let half_extents = body.half_extents;
        if half_extents.x <= 0 || half_extents.y <= 0 || half_extents.z <= 0 {
            return Err(RigidBoxError3d::InvalidHalfExtents(body.id));
        }
        if body.kind == BodyKind::Dynamic && body.mass_units == 0 {
            return Err(RigidBoxError3d::ZeroMass(body.id));
        }
        if body.kind == BodyKind::Fixed && !angular.angular_velocity.is_zero() {
            return Err(RigidBoxError3d::FixedAngularVelocity(body.id));
        }
        let orientation = match angular.orientation.normalized() {
            Ok(orientation) => orientation,
            Err(error) => return Err(RigidBoxError3d::Angular(error)),
        };
        Ok(
            RigidBox3d {
                body,
                angular: AngularState3d::new(orientation, angular.angular_velocity),
                rotation_locked: false,
                contact_mode: ContactMode3d::Physical,
                contact_persistence: ContactPersistence3d::Persistent,
                collision_layers: CollisionLayers3d::all(),
            },
        )
    }

    /// Prevents collision response and free flight from changing this box's orientation; the
    /// current orientation is kept and angular velocity cleared.
    pub fn with_rotation_locked(self) -> (rigid_box: RigidBox3d)
        ensures
            rigid_box == (RigidBox3d {
                rotation_locked: true,
                angular: AngularState3d {
                    orientation: self.angular.orientation,
                    angular_velocity: AngularVelocity3d { x: 0, y: 0, z: 0 },
                },
                ..self
            }),
    {
        RigidBox3d {
            rotation_locked: true,
            angular: AngularState3d::new(self.angular.orientation, AngularVelocity3d::new(0, 0, 0)),
            ..self
        }
    }

    /// Opts an externally controlled body into linear-only pushing with one-way support; also
    /// locks rotation.
    pub fn with_linear_push(self, support_direction: Vec3i) -> (rigid_box: RigidBox3d)
        ensures
            rigid_box == (RigidBox3d {
                contact_mode: ContactMode3d::LinearPush { support_direction },
                rotation_locked: true,
                angular: AngularState3d {
                    orientation: self.angular.orientation,
                    angular_velocity: AngularVelocity3d { x: 0, y: 0, z: 0 },
                },
                ..self
            }),
    {
        let pushed = RigidBox3d {
            contact_mode: ContactMode3d::LinearPush { support_direction },
            ..self
        };
        pushed.with_rotation_locked()
    }

    /// Marks this body as an impact-only participant in persistent-contact stabilization.
    pub fn with_transient_contacts(self) -> (rigid_box: RigidBox3d)
        ensures
            rigid_box == (RigidBox3d {
                contact_persistence: ContactPersistence3d::Transient,
                ..self
            }),
    {
        RigidBox3d { contact_persistence: ContactPersistence3d::Transient, ..self }
    }

    /// Assigns collision-layer membership and interaction mask.
    pub fn with_collision_layers(self, collision_layers: CollisionLayers3d) -> (rigid_box:
        RigidBox3d)
        ensures
            rigid_box == (RigidBox3d { collision_layers, ..self }),
    {
        RigidBox3d { collision_layers, ..self }
    }

    pub fn contact_mode(&self) -> (mode: ContactMode3d)
        ensures
            mode == self.contact_mode,
    {
        self.contact_mode
    }

    pub fn contact_persistence(&self) -> (persistence: ContactPersistence3d)
        ensures
            persistence == self.contact_persistence,
    {
        self.contact_persistence
    }

    pub fn collision_layers(&self) -> (layers: CollisionLayers3d)
        ensures
            layers == self.collision_layers,
    {
        self.collision_layers
    }

    pub fn body(&self) -> (body: &RigidBody)
        ensures
            *body == self.body,
    {
        &self.body
    }

    pub fn angular(&self) -> (angular: AngularState3d)
        ensures
            angular == self.angular,
    {
        self.angular
    }

    pub fn rotation_locked(&self) -> (locked: bool)
        ensures
            locked == self.rotation_locked,
    {
        self.rotation_locked
    }

    pub open spec fn spec_oriented_box(self) -> OrientedBox3d {
        OrientedBox3d {
            center: self.body.position,
            half_extents: self.body.half_extents,
            orientation: self.angular.orientation,
        }
    }

    pub fn oriented_box(&self) -> (shape: OrientedBox3d)
        ensures
            shape == self.spec_oriented_box(),
    {
        OrientedBox3d {
            center: self.body.position,
            half_extents: self.body.half_extents,
            orientation: self.angular.orientation,
        }
    }

    pub fn into_body(self) -> (body: RigidBody)
        ensures
            body == self.body,
    {
        self.body
    }
}

/// Locking rotation is idempotent and preserves the pose, the body and every policy.
pub proof fn lemma_rotation_lock_preserves_pose(rigid_box: RigidBox3d)
    ensures
        ({
            let locked = RigidBox3d {
                rotation_locked: true,
                angular: AngularState3d {
                    orientation: rigid_box.angular.orientation,
                    angular_velocity: AngularVelocity3d { x: 0, y: 0, z: 0 },
                },
                ..rigid_box
            };
            &&& locked.spec_oriented_box() == rigid_box.spec_oriented_box()
            &&& locked.angular.angular_velocity.spec_is_zero()
            &&& valid_rigid_box(rigid_box) ==> valid_rigid_box(locked)
        }),
{
}

} // verus!
