use physics_engine::{
    AngularState3d, AngularVelocity3d, BodyId, Orientation3d, RigidBody, RigidBox3d,
    RotationalSweepBounds3d, Vec3i, current_shape_is_passive_support, sweep_is_passive_support,
    uses_linear_response,
};

fn body(id: u64) -> RigidBox3d {
    RigidBox3d::new(
        RigidBody::dynamic(BodyId(id), Vec3i::zero(), Vec3i::zero(), Vec3i::new(1, 1, 1)),
        AngularState3d::new(Orientation3d::identity(), AngularVelocity3d::default()),
    )
    .unwrap()
}

#[test]
fn only_proven_passive_half_spaces_skip_waking() {
    let support = body(2);
    for axis in 0..3 {
        for sign in [-1, 1] {
            let mut components = [0; 3];
            components[axis] = sign;
            let actuator = body(1).with_linear_push(Vec3i::new(
                components[0],
                components[1],
                components[2],
            ));
            let mut envelope = RotationalSweepBounds3d {
                minimum: [-2; 3],
                maximum: [2; 3],
            };
            assert!(!sweep_is_passive_support(&actuator, envelope, &support));
            if sign < 0 {
                envelope.minimum[axis] = 1;
            } else {
                envelope.maximum[axis] = -1;
            }
            assert!(sweep_is_passive_support(&actuator, envelope, &support));
            if sign < 0 {
                envelope.minimum[axis] = 0;
            } else {
                envelope.maximum[axis] = 0;
            }
            assert!(
                !sweep_is_passive_support(&actuator, envelope, &support),
                "centre-level sides must remain pushable"
            );
        }
    }
    let envelope = RotationalSweepBounds3d {
        minimum: [1; 3],
        maximum: [2; 3],
    };
    for direction in [Vec3i::zero(), Vec3i::new(-1, -1, 0)] {
        assert!(!sweep_is_passive_support(
            &body(1).with_linear_push(direction),
            envelope,
            &support
        ));
    }
    assert!(
        !sweep_is_passive_support(&body(1), envelope, &support),
        "physical impacts always use normal waking"
    );
}

#[test]
fn resting_actuator_above_its_support_is_passive() {
    let support = RigidBox3d::new(
        RigidBody::fixed(BodyId(2), Vec3i::zero(), Vec3i::new(4, 1, 4)),
        AngularState3d::new(Orientation3d::identity(), AngularVelocity3d::default()),
    )
    .unwrap();
    let above = RigidBox3d::new(
        RigidBody::dynamic(BodyId(1), Vec3i::new(0, 3, 0), Vec3i::zero(), Vec3i::new(1, 1, 1)),
        AngularState3d::new(Orientation3d::identity(), AngularVelocity3d::default()),
    )
    .unwrap()
    .with_linear_push(Vec3i::new(0, -1, 0));
    assert_eq!(current_shape_is_passive_support(&above, &support), Ok(true));
    let level = RigidBox3d::new(
        RigidBody::dynamic(BodyId(1), Vec3i::new(0, 1, 0), Vec3i::zero(), Vec3i::new(1, 1, 1)),
        AngularState3d::new(Orientation3d::identity(), AngularVelocity3d::default()),
    )
    .unwrap()
    .with_linear_push(Vec3i::new(0, -1, 0));
    assert_eq!(current_shape_is_passive_support(&level, &support), Ok(false));
    assert_eq!(current_shape_is_passive_support(&body(3), &support), Ok(false));
    assert!(uses_linear_response(&above, &support));
    assert!(!uses_linear_response(&body(3), &support));
}
