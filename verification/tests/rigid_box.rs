use physics_engine::{
    AngularError3d, AngularState3d, AngularVelocity3d, BodyId, CollisionLayers3d, ContactMode3d,
    ContactPersistence3d, Orientation3d, RigidBody, RigidBox3d, RigidBoxError3d, Vec3i,
};

#[test]
fn constructor_preserves_engine_body_identity_and_geometry() {
    let body = RigidBody::dynamic(
        BodyId(4),
        Vec3i::new(1, 2, 3),
        Vec3i::new(4, 5, 6),
        Vec3i::new(7, 8, 9),
    );
    let rigid_box = RigidBox3d::new(
        body.clone(),
        AngularState3d::new(Orientation3d::identity(), AngularVelocity3d::default()),
    )
    .expect("valid rotating box");

    assert_eq!(rigid_box.body(), &body);
    assert_eq!(rigid_box.oriented_box().center, body.position());
    assert_eq!(rigid_box.oriented_box().half_extents, body.half_extents());
    assert!(!rigid_box.rotation_locked());
    assert_eq!(rigid_box.collision_layers(), CollisionLayers3d::all());
    assert_eq!(
        rigid_box.contact_persistence(),
        ContactPersistence3d::Persistent
    );
}

#[test]
fn transient_contacts_are_an_explicit_independent_policy() {
    let rigid_box = RigidBox3d::new(
        RigidBody::dynamic(
            BodyId(8),
            Vec3i::new(0, 0, 0),
            Vec3i::new(20, 0, 0),
            Vec3i::new(1, 1, 1),
        ),
        AngularState3d::new(Orientation3d::identity(), AngularVelocity3d::default()),
    )
    .expect("valid rotating box")
    .with_transient_contacts();

    assert_eq!(
        rigid_box.contact_persistence(),
        ContactPersistence3d::Transient
    );
    assert_eq!(rigid_box.contact_mode(), ContactMode3d::Physical);
}

#[test]
fn rotation_lock_preserves_pose_and_clears_spin() {
    let rigid_box = RigidBox3d::new(
        RigidBody::dynamic(
            BodyId(7),
            Vec3i::new(0, 0, 0),
            Vec3i::new(1, 2, 3),
            Vec3i::new(2, 3, 4),
        ),
        AngularState3d::new(
            Orientation3d::identity(),
            AngularVelocity3d::new(100, 200, 300),
        ),
    )
    .expect("valid rotating box")
    .with_rotation_locked();

    assert!(rigid_box.rotation_locked());
    assert_eq!(rigid_box.angular().orientation, Orientation3d::identity());
    assert!(rigid_box.angular().angular_velocity.is_zero());
}

#[test]
fn collision_layers_require_both_masks_to_accept_the_pair() {
    let character = CollisionLayers3d::new(0b0010, 0b0100);
    let crate_body = CollisionLayers3d::new(0b0100, 0b0010);
    let projectile = CollisionLayers3d::new(0b1000, u32::MAX);

    assert!(character.collides_with(crate_body));
    assert!(!character.collides_with(projectile));
}

#[test]
fn fixed_body_rejects_angular_velocity() {
    let body = RigidBody::fixed(BodyId(5), Vec3i::new(0, 0, 0), Vec3i::new(1, 1, 1));
    let result = RigidBox3d::new(
        body,
        AngularState3d::new(Orientation3d::identity(), AngularVelocity3d::new(1, 0, 0)),
    );

    assert_eq!(
        result,
        Err(RigidBoxError3d::FixedAngularVelocity(BodyId(5)))
    );
}

#[test]
fn degenerate_box_is_rejected() {
    let body = RigidBody::dynamic(
        BodyId(6),
        Vec3i::new(0, 0, 0),
        Vec3i::new(0, 0, 0),
        Vec3i::new(1, 0, 1),
    );
    assert_eq!(
        RigidBox3d::new(
            body,
            AngularState3d::new(Orientation3d::identity(), AngularVelocity3d::default()),
        ),
        Err(RigidBoxError3d::InvalidHalfExtents(BodyId(6)))
    );
}

#[test]
fn zero_mass_dynamic_and_zero_orientation_are_rejected_in_order() {
    let massless = RigidBody::dynamic(
        BodyId(3),
        Vec3i::new(0, 0, 0),
        Vec3i::new(0, 0, 0),
        Vec3i::new(1, 1, 1),
    )
    .with_mass_units(0);
    assert_eq!(
        RigidBox3d::new(
            massless,
            AngularState3d::new(Orientation3d::new(0, 0, 0, 0), AngularVelocity3d::default()),
        ),
        Err(RigidBoxError3d::ZeroMass(BodyId(3)))
    );
    let body = RigidBody::dynamic(
        BodyId(3),
        Vec3i::new(0, 0, 0),
        Vec3i::new(0, 0, 0),
        Vec3i::new(1, 1, 1),
    );
    assert_eq!(
        RigidBox3d::new(
            body,
            AngularState3d::new(Orientation3d::new(0, 0, 0, 0), AngularVelocity3d::default()),
        ),
        Err(RigidBoxError3d::Angular(AngularError3d::ZeroOrientation))
    );
}

#[test]
fn constructor_normalizes_orientation_and_linear_push_locks_rotation() {
    let body = RigidBody::dynamic(
        BodyId(9),
        Vec3i::new(0, 0, 0),
        Vec3i::new(0, 0, 0),
        Vec3i::new(1, 1, 1),
    );
    let rigid_box = RigidBox3d::new(
        body,
        AngularState3d::new(Orientation3d::new(0, 0, 0, 5), AngularVelocity3d::new(1, 2, 3)),
    )
    .expect("valid rotating box");
    assert_eq!(rigid_box.angular().orientation, Orientation3d::identity());
    let pushed = rigid_box.with_linear_push(Vec3i::new(0, 1, 0));
    assert_eq!(
        pushed.contact_mode(),
        ContactMode3d::LinearPush {
            support_direction: Vec3i::new(0, 1, 0)
        }
    );
    assert!(pushed.rotation_locked());
    assert!(pushed.angular().angular_velocity.is_zero());
    let layered = pushed.with_collision_layers(CollisionLayers3d::new(1, 2));
    assert_eq!(layered.collision_layers().memberships(), 1);
    assert_eq!(layered.collision_layers().mask(), 2);
    assert_eq!(layered.into_body(), body);
}
