use physics_engine::obb_friction::{
    RESPONSE_SCALE, mul_div_round_i128, relative_contact_velocity, resolve_obb_contact,
    scale_ratio_vector, vector_delta,
};
use physics_engine::{
    AngularState3d, AngularVelocity3d, BodyId, MATERIAL_SCALE, Material,
    ObbContactResponseError3d, Orientation3d, RigidBody, RigidBox3d, Vec3i,
};

fn resolve_normal_obb_contact(
    left: RigidBox3d,
    right: RigidBox3d,
    allow_restitution: bool,
) -> Result<physics_engine::ObbContactResponse3d, ObbContactResponseError3d> {
    physics_engine::resolve_obb_contact(left, right, allow_restitution)
}

fn dynamic(id: u64, position: Vec3i, velocity: Vec3i, friction_milli: u16) -> RigidBox3d {
    RigidBox3d::new(
        RigidBody::dynamic(BodyId(id), position, velocity, Vec3i::new(10, 10, 10))
            .with_material(Material::new(0).with_friction(friction_milli)),
        AngularState3d::new(Orientation3d::identity(), AngularVelocity3d::default()),
    )
    .expect("valid dynamic box")
}

#[test]
fn zero_friction_preserves_normal_only_response() {
    let left = dynamic(1, Vec3i::zero(), Vec3i::new(60, 0, 40), 0);
    let right = dynamic(2, Vec3i::new(19, 0, 0), Vec3i::zero(), 0);
    let expected = resolve_normal_obb_contact(left.clone(), right.clone(), true)
        .expect("valid normal-only response");
    let actual = resolve_obb_contact(left, right, true).expect("valid friction wrapper");

    assert_eq!(actual, expected);
}

#[test]
fn sliding_face_impact_reduces_slip_and_generates_spin() {
    let left_start = dynamic(1, Vec3i::zero(), Vec3i::new(60, 0, 40), MATERIAL_SCALE);
    let right_start = dynamic(2, Vec3i::new(19, 0, 0), Vec3i::zero(), 0);
    let response = resolve_obb_contact(left_start.clone(), right_start.clone(), true)
        .expect("valid frictional response");
    let contact = response.contact.expect("overlap should contact");
    let left_offset =
        vector_delta(left_start.body.position, contact.point).expect("valid left offset");
    let right_offset =
        vector_delta(right_start.body.position, contact.point).expect("valid right offset");
    let relative =
        relative_contact_velocity(&response.left, left_offset, &response.right, right_offset)
            .expect("valid relative velocity");

    assert_ne!(contact.normal_impulse, [0; 3]);
    assert!(relative[2].unsigned_abs() < 40);
    assert_ne!(response.left.angular.angular_velocity.y, 0);
    assert_ne!(response.right.angular.angular_velocity.y, 0);
}

#[test]
fn separating_overlap_does_not_inject_friction() {
    let left = dynamic(1, Vec3i::zero(), Vec3i::new(-20, 0, 40), MATERIAL_SCALE);
    let right = dynamic(
        2,
        Vec3i::new(19, 0, 0),
        Vec3i::new(20, 0, 0),
        MATERIAL_SCALE,
    );
    let response =
        resolve_obb_contact(left.clone(), right.clone(), true).expect("valid separating overlap");

    assert_eq!(
        response.contact.expect("contact evidence").normal_impulse,
        [0; 3]
    );
    assert_eq!(response.left.body.velocity, left.body.velocity);
    assert_eq!(response.right.body.velocity, right.body.velocity);
}

#[test]
fn rotation_lock_blocks_friction_spin_but_not_linear_friction() {
    let left =
        dynamic(1, Vec3i::zero(), Vec3i::new(60, 0, 40), MATERIAL_SCALE).with_rotation_locked();
    let right = RigidBox3d::new(
        RigidBody::fixed(BodyId(2), Vec3i::new(19, 0, 0), Vec3i::new(10, 10, 10)),
        AngularState3d::new(Orientation3d::identity(), AngularVelocity3d::default()),
    )
    .expect("valid fixed wall");
    let response = resolve_obb_contact(left, right, true).expect("valid locked friction response");

    assert!(response.left.rotation_locked());
    assert!(response.left.angular.angular_velocity.is_zero());
    assert!(response.left.body.velocity.z.unsigned_abs() < 40);
}

#[test]
fn fractional_scalar_impulse_survives_rotated_tangent_scaling() {
    let tangent = [-110, 167, 0];
    let denominator = RESPONSE_SCALE.checked_mul(3).expect("test denominator fits");
    assert_eq!(
        mul_div_round_i128(1, RESPONSE_SCALE, denominator)
            .expect("legacy scalar calculation is representable"),
        0
    );
    assert_eq!(
        scale_ratio_vector(1, denominator, tangent, RESPONSE_SCALE)
            .expect("vector ratio remains representable"),
        [-37, 56, 0]
    );
}

#[test]
fn invalid_friction_fails_closed() {
    let left = dynamic(1, Vec3i::zero(), Vec3i::new(60, 0, 0), MATERIAL_SCALE + 1);
    let right = dynamic(2, Vec3i::new(19, 0, 0), Vec3i::zero(), 0);
    let error =
        resolve_obb_contact(left, right, true).expect_err("invalid friction must fail closed");

    assert_eq!(error, ObbContactResponseError3d::ArithmeticOverflow);
}

#[test]
fn friction_impulse_stays_within_the_coulomb_cone() {
    let left_start = dynamic(1, Vec3i::zero(), Vec3i::new(60, 0, 400), 100);
    let right_start = dynamic(2, Vec3i::new(19, 0, 0), Vec3i::zero(), 0);
    let normal = resolve_normal_obb_contact(left_start.clone(), right_start.clone(), true)
        .expect("valid normal response");
    let response = resolve_obb_contact(left_start, right_start, true).expect("valid response");
    let normal_impulse = response.contact.expect("contact").normal_impulse;
    let mass = i128::from(response.left.body.mass_units);
    let tangential_change_z = i128::from(normal.left.body.velocity.z)
        - i128::from(response.left.body.velocity.z);
    let normal_length = normal_impulse.iter().map(|c| c.unsigned_abs()).max().unwrap();
    // The friction impulse is at most 0.1 of the normal impulse, so the tangential velocity
    // change of a unit-mass-scaled body stays within that share (plus rounding).
    assert!(tangential_change_z > 0);
    assert!((tangential_change_z * mass).unsigned_abs() <= normal_length / 10 + mass as u128);
}
