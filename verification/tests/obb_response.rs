use physics_engine::{
    AngularState3d, AngularVelocity3d, BodyId, MATERIAL_SCALE, Material, ObbContactResponseError3d,
    Orientation3d, RigidBody, RigidBox3d, Vec3i, resolve_obb_contact, scale_ratio_vector,
};

fn dynamic(id: u64, position: Vec3i, velocity: Vec3i) -> RigidBox3d {
    RigidBox3d::new(
        RigidBody::dynamic(BodyId(id), position, velocity, Vec3i::new(10, 10, 10)),
        AngularState3d::new(Orientation3d::identity(), AngularVelocity3d::default()),
    )
    .expect("valid dynamic box")
}

#[test]
fn centered_face_impact_equalizes_velocity_without_spin() {
    let left = dynamic(1, Vec3i::zero(), Vec3i::new(60, 0, 0));
    let right = dynamic(2, Vec3i::new(19, 0, 0), Vec3i::zero());
    let response = resolve_obb_contact(left, right, true).expect("valid response");
    let contact = response.contact.expect("contact");

    assert_eq!(contact.axis, [1, 0, 0]);
    assert_eq!(contact.normal_impulse, [30, 0, 0]);
    assert_eq!(response.left.body.velocity.x, 30);
    assert_eq!(response.right.body.velocity.x, 30);
    assert_eq!(
        response.left.angular.angular_velocity,
        AngularVelocity3d::default()
    );
    assert_eq!(
        response.right.angular.angular_velocity,
        AngularVelocity3d::default()
    );
    assert_eq!(
        response.right.body.position.x - response.left.body.position.x,
        20
    );
}

#[test]
fn off_center_face_impact_generates_spin() {
    let left = dynamic(1, Vec3i::new(0, 6, 0), Vec3i::new(90, 0, 0));
    let right = dynamic(2, Vec3i::new(19, 0, 0), Vec3i::zero());
    let response = resolve_obb_contact(left, right, true).expect("valid response");

    assert_ne!(response.left.angular.angular_velocity.z, 0);
    assert_ne!(response.right.angular.angular_velocity.z, 0);
}

#[test]
fn rotation_locked_body_stays_upright_but_transmits_linear_impulse() {
    let left = dynamic(1, Vec3i::new(0, 6, 0), Vec3i::new(90, 0, 0)).with_rotation_locked();
    let right = dynamic(2, Vec3i::new(19, 0, 0), Vec3i::zero());
    let response = resolve_obb_contact(left, right, true).expect("valid locked response");

    assert!(response.left.rotation_locked());
    assert!(response.left.angular.angular_velocity.is_zero());
    assert_eq!(response.left.angular.orientation, Orientation3d::identity());
    assert_ne!(response.left.body.velocity.x, 90);
    assert_ne!(response.right.body.velocity.x, 0);
    assert_ne!(response.right.angular.angular_velocity.z, 0);
}

#[test]
fn tied_zero_depth_corner_impact_makes_progress_without_invented_torque() {
    let left = dynamic(1, Vec3i::zero(), Vec3i::new(10, 10, 0));
    let right = RigidBox3d::new(
        RigidBody::fixed(BodyId(2), Vec3i::new(20, 20, 0), Vec3i::new(10, 10, 10)),
        AngularState3d::new(Orientation3d::identity(), AngularVelocity3d::default()),
    )
    .expect("valid fixed box");
    let response = resolve_obb_contact(left, right, true).expect("valid tied response");
    let contact = response.contact.expect("corner contact");

    assert_eq!(contact.overlap_numerator, 0);
    assert_ne!(contact.normal_impulse, [0; 3]);
    assert_ne!(response.left.body.velocity, Vec3i::new(10, 10, 0));
    assert_eq!(
        response.left.angular.angular_velocity,
        AngularVelocity3d::default()
    );
}

#[test]
fn fractional_scalar_impulse_survives_non_unit_axis_scaling() {
    assert_eq!(
        scale_ratio_vector(2, 5, [2, 1, 0], 1).expect("representable vector"),
        [1, 0, 0]
    );
}

#[test]
fn large_inertia_still_produces_representable_angular_response() {
    let half = Vec3i::new(100_000_000, 100_000_000, 100_000_000);
    let left = RigidBox3d::new(
        RigidBody::dynamic(
            BodyId(1),
            Vec3i::new(0, 50_000_000, 0),
            Vec3i::new(1_000_000, 0, 0),
            half,
        ),
        AngularState3d::new(Orientation3d::identity(), AngularVelocity3d::default()),
    )
    .expect("valid large dynamic box");
    let right = RigidBox3d::new(
        RigidBody::fixed(BodyId(2), Vec3i::new(199_999_999, 0, 0), half),
        AngularState3d::new(Orientation3d::identity(), AngularVelocity3d::default()),
    )
    .expect("valid large fixed box");
    let response = resolve_obb_contact(left, right, true).expect("valid large response");

    assert_ne!(response.left.angular.angular_velocity.z, 0);
}

#[test]
fn fixed_wall_remains_unchanged() {
    let left = RigidBox3d::new(
        RigidBody::dynamic(
            BodyId(1),
            Vec3i::zero(),
            Vec3i::new(60, 0, 0),
            Vec3i::new(10, 10, 10),
        )
        .with_material(Material::new(MATERIAL_SCALE)),
        AngularState3d::new(Orientation3d::identity(), AngularVelocity3d::default()),
    )
    .expect("valid dynamic box");
    let wall = RigidBox3d::new(
        RigidBody::fixed(BodyId(2), Vec3i::new(19, 0, 0), Vec3i::new(10, 10, 10)),
        AngularState3d::new(Orientation3d::identity(), AngularVelocity3d::default()),
    )
    .expect("valid wall");
    let expected_wall = wall.clone();
    let response = resolve_obb_contact(left, wall, true).expect("valid wall response");

    assert_eq!(response.left.body.velocity.x, 0);
    assert_eq!(response.right, expected_wall);
}

#[test]
fn later_solver_pass_can_disable_restitution() {
    let left = RigidBox3d::new(
        RigidBody::dynamic(
            BodyId(1),
            Vec3i::zero(),
            Vec3i::new(60, 0, 0),
            Vec3i::new(10, 10, 10),
        )
        .with_material(Material::new(MATERIAL_SCALE)),
        AngularState3d::new(Orientation3d::identity(), AngularVelocity3d::default()),
    )
    .expect("valid dynamic box");
    let wall = RigidBox3d::new(
        RigidBody::fixed(BodyId(2), Vec3i::new(19, 0, 0), Vec3i::new(10, 10, 10)),
        AngularState3d::new(Orientation3d::identity(), AngularVelocity3d::default()),
    )
    .expect("valid wall");
    let response = resolve_obb_contact(left, wall, false).expect("valid inelastic pass");

    assert_eq!(response.left.body.velocity.x, 0);
}

#[test]
fn non_canonical_pair_fails_closed() {
    let error = resolve_obb_contact(
        dynamic(2, Vec3i::zero(), Vec3i::zero()),
        dynamic(1, Vec3i::new(19, 0, 0), Vec3i::zero()),
        true,
    )
    .expect_err("order must be explicit");

    assert_eq!(
        error,
        ObbContactResponseError3d::NonCanonicalPair(BodyId(2), BodyId(1))
    );
}

#[test]
fn separated_pair_is_returned_unchanged() {
    let left = dynamic(1, Vec3i::zero(), Vec3i::new(60, 0, 0));
    let right = dynamic(2, Vec3i::new(40, 0, 0), Vec3i::zero());
    let response = resolve_obb_contact(left, right, true).expect("valid separated pair");

    assert!(response.contact.is_none());
    assert_eq!(response.left, left);
    assert_eq!(response.right, right);
}

#[test]
fn out_of_range_restitution_is_rejected() {
    let left = RigidBox3d::new(
        RigidBody::dynamic(
            BodyId(1),
            Vec3i::zero(),
            Vec3i::new(60, 0, 0),
            Vec3i::new(10, 10, 10),
        )
        .with_material(Material::new(MATERIAL_SCALE + 1)),
        AngularState3d::new(Orientation3d::identity(), AngularVelocity3d::default()),
    )
    .expect("valid dynamic box");
    let right = dynamic(2, Vec3i::new(19, 0, 0), Vec3i::zero());

    assert_eq!(
        resolve_obb_contact(left, right, true),
        Err(ObbContactResponseError3d::RestitutionOutOfRange(
            BodyId(1),
            MATERIAL_SCALE + 1
        ))
    );
}

#[test]
fn elastic_impact_against_elastic_wall_reverses_velocity() {
    let elastic = Material::new(MATERIAL_SCALE);
    let left = RigidBox3d::new(
        RigidBody::dynamic(
            BodyId(1),
            Vec3i::zero(),
            Vec3i::new(60, 0, 0),
            Vec3i::new(10, 10, 10),
        )
        .with_material(elastic),
        AngularState3d::new(Orientation3d::identity(), AngularVelocity3d::default()),
    )
    .expect("valid dynamic box");
    let wall = RigidBox3d::new(
        RigidBody::fixed(BodyId(2), Vec3i::new(19, 0, 0), Vec3i::new(10, 10, 10))
            .with_material(elastic),
        AngularState3d::new(Orientation3d::identity(), AngularVelocity3d::default()),
    )
    .expect("valid wall");
    let response = resolve_obb_contact(left, wall, true).expect("valid elastic response");

    assert_eq!(response.left.body.velocity.x, -60);
    assert_eq!(response.left.body.position.x, -1);
    assert_eq!(response.right, wall);
}
