use physics_engine::linear_contact::resolve;
use physics_engine::{
    AngularState3d, AngularVelocity3d, BodyId, BodyKind, Orientation3d, RigidBody, RigidBox3d,
    Vec3i, resolve_obb_contact,
};

fn dynamic(id: u64, position: Vec3i, velocity: Vec3i) -> RigidBox3d {
    RigidBox3d::new(
        RigidBody::dynamic(BodyId(id), position, velocity, Vec3i::new(10, 10, 10)),
        AngularState3d::new(Orientation3d::identity(), AngularVelocity3d::default()),
    )
    .expect("valid dynamic box")
}

#[test]
fn pushing_actuator_is_supported_by_its_physical_partner() {
    let actuator = dynamic(1, Vec3i::zero(), Vec3i::new(60, 0, 0)).with_linear_push(Vec3i::new(1, 0, 0));
    let partner = dynamic(2, Vec3i::new(19, 0, 0), Vec3i::zero());

    let response = resolve(actuator, partner).expect("valid linear-push response");
    assert!(response.contact.is_some());
    assert_eq!(response.left.body.velocity, Vec3i::zero());
    assert_eq!(response.right.body.velocity, Vec3i::zero());
    assert_eq!(response.right.body.position, Vec3i::new(19, 0, 0));
    assert_eq!(response.left.body.position.x, -1);
    assert_eq!(response.left.body.kind, BodyKind::Dynamic);
    assert_eq!(response.right.body.kind, BodyKind::Dynamic);
    assert!(response.left.rotation_locked);
    assert!(!response.right.rotation_locked);
    assert_eq!(response.left.angular, actuator.angular);
    assert_eq!(response.right.angular, partner.angular);

    let physical = resolve_obb_contact(
        dynamic(1, Vec3i::zero(), Vec3i::new(60, 0, 0)),
        partner,
        false,
    )
    .expect("valid physical response");
    assert!(physical.right.body.velocity.x > 0);
}

#[test]
fn separated_pair_is_returned_unchanged_under_linear_push() {
    let actuator = dynamic(1, Vec3i::zero(), Vec3i::new(60, 0, 0)).with_linear_push(Vec3i::new(1, 0, 0));
    let partner = dynamic(2, Vec3i::new(40, 0, 0), Vec3i::zero());
    let response = resolve(actuator, partner).expect("valid linear-push response");
    assert!(response.contact.is_none());
    assert_eq!(response.left, actuator);
    assert_eq!(response.right, partner);
}
