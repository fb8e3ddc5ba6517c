use physics_engine::{
    ANGULAR_VELOCITY_SCALE, AngularState3d, AngularVelocity3d, BodyId, Orientation3d, RigidBody,
    RigidBox3d, RigidBoxFreeFlightConfig3d, RigidBoxFreeFlightError3d, Vec3i,
    oriented_box_vertices, rigid_box_free_flight_sweep_bounds, rotational_sweep_bounds,
    sample_rigid_box_free_flight,
};

fn spinning_box(body: RigidBody, angular_velocity: AngularVelocity3d) -> RigidBox3d {
    RigidBox3d::new(
        body,
        AngularState3d::new(Orientation3d::identity(), angular_velocity),
    )
    .expect("valid rotating box")
}

fn rotating_box(body: RigidBody) -> RigidBox3d {
    RigidBox3d::new(
        body,
        AngularState3d::new(Orientation3d::identity(), AngularVelocity3d::default()),
    )
    .expect("valid rotating box")
}

#[test]
fn accelerated_bounds_cover_an_interior_reversal() {
    // |v| + t|a| = 100 + 200 bounds the speed, so the center moves at most 300 each way; the
    // circumscribed radius of a unit-half-extent box is ceil(sqrt(3)) = 2.
    let rigid_box = rotating_box(RigidBody::dynamic(
        BodyId(3),
        Vec3i::zero(),
        Vec3i::new(100, 0, 0),
        Vec3i::new(1, 1, 1),
    ));
    let config = RigidBoxFreeFlightConfig3d::new(Vec3i::new(-200, 0, 0), 1, 1);
    let bounds = rigid_box_free_flight_sweep_bounds(&rigid_box, config).expect("valid sweep");

    assert_eq!(bounds.minimum, [-302, -2, -2]);
    assert_eq!(bounds.maximum, [302, 2, 2]);
}

#[test]
fn fractional_timestep_rounds_outward() {
    // t = 1/60: the speed bound is 10 + ceil(3/60) = 11, the displacement ceil(11/60) = 1.
    let rigid_box = rotating_box(RigidBody::dynamic(
        BodyId(4),
        Vec3i::new(5, 0, 0),
        Vec3i::new(-10, 0, 0),
        Vec3i::new(2, 2, 1),
    ));
    let config = RigidBoxFreeFlightConfig3d::new(Vec3i::new(3, 0, 0), 1, 60);
    let bounds = rigid_box_free_flight_sweep_bounds(&rigid_box, config).expect("valid sweep");

    assert_eq!(bounds.minimum, [1, -3, -3]);
    assert_eq!(bounds.maximum, [9, 3, 3]);
}

#[test]
fn fixed_bodies_keep_their_current_center() {
    let rigid_box = rotating_box(RigidBody::fixed(
        BodyId(5),
        Vec3i::new(3, 0, -2),
        Vec3i::new(2, 2, 2),
    ));
    let config = RigidBoxFreeFlightConfig3d::new(Vec3i::new(0, -3_600, 0), 1, 60);
    let bounds = rigid_box_free_flight_sweep_bounds(&rigid_box, config).expect("valid sweep");

    assert_eq!(bounds.minimum, [-1, -4, -6]);
    assert_eq!(bounds.maximum, [7, 4, 2]);
}

#[test]
fn malformed_timesteps_fail_closed() {
    let rigid_box = rotating_box(RigidBody::dynamic(
        BodyId(6),
        Vec3i::zero(),
        Vec3i::zero(),
        Vec3i::new(1, 1, 1),
    ));

    assert_eq!(
        rigid_box_free_flight_sweep_bounds(
            &rigid_box,
            RigidBoxFreeFlightConfig3d::new(Vec3i::zero(), -1, 1)
        ),
        Err(RigidBoxFreeFlightError3d::NegativeTimestepNumerator(-1))
    );
    assert_eq!(
        rigid_box_free_flight_sweep_bounds(
            &rigid_box,
            RigidBoxFreeFlightConfig3d::new(Vec3i::zero(), 1, 0)
        ),
        Err(RigidBoxFreeFlightError3d::NonPositiveTimestepDenominator(0))
    );
}

#[test]
fn unbounded_displacement_reports_the_body() {
    let rigid_box = rotating_box(RigidBody::dynamic(
        BodyId(7),
        Vec3i::zero(),
        Vec3i::new(i32::MAX, 0, 0),
        Vec3i::new(1, 1, 1),
    ));
    let config = RigidBoxFreeFlightConfig3d::new(Vec3i::new(i32::MIN, 0, 0), i32::MAX, 1);

    assert_eq!(
        rigid_box_free_flight_sweep_bounds(&rigid_box, config),
        Err(RigidBoxFreeFlightError3d::ArithmeticOverflow(BodyId(7)))
    );
}

#[test]
fn rotation_locked_box_translates_without_changing_orientation() {
    let rigid_box = spinning_box(
        RigidBody::dynamic(
            BodyId(7),
            Vec3i::zero(),
            Vec3i::new(60, 0, 0),
            Vec3i::new(2, 3, 4),
        ),
        AngularVelocity3d::new(0, 0, ANGULAR_VELOCITY_SCALE),
    )
    .with_rotation_locked();
    let sampled = sample_rigid_box_free_flight(
        &rigid_box,
        RigidBoxFreeFlightConfig3d::new(Vec3i::zero(), 1, 60),
        1,
        1,
    )
    .expect("valid locked free flight");

    assert!(sampled.body().position().x > rigid_box.body().position().x);
    assert_eq!(
        sampled.angular().orientation,
        rigid_box.angular().orientation
    );
    assert!(sampled.angular().angular_velocity.is_zero());
    assert!(sampled.rotation_locked());
}

#[test]
fn direct_fraction_sampling_is_repeatable() {
    let rigid_box = spinning_box(
        RigidBody::dynamic(
            BodyId(2),
            Vec3i::zero(),
            Vec3i::new(90, 12, -5),
            Vec3i::new(2, 2, 2),
        ),
        AngularVelocity3d::new(100_000, 200_000, 300_000),
    );
    let config = RigidBoxFreeFlightConfig3d::new(Vec3i::new(0, -10, 0), 1, 1);

    let first = sample_rigid_box_free_flight(&rigid_box, config, 7, 16)
        .expect("valid fractional sample");
    let second = sample_rigid_box_free_flight(&rigid_box, config, 7, 16)
        .expect("same valid fractional sample");
    assert_eq!(first, second);
}

#[test]
fn composed_sample_ratio_can_exceed_i32_without_failing() {
    let rigid_box = spinning_box(
        RigidBody::dynamic(
            BodyId(6),
            Vec3i::zero(),
            Vec3i::new(1, 0, 0),
            Vec3i::new(1, 1, 1),
        ),
        AngularVelocity3d::new(0, 0, ANGULAR_VELOCITY_SCALE),
    );
    let config = RigidBoxFreeFlightConfig3d::new(Vec3i::zero(), 1_000_000_007, 1_500_000_000);

    let sampled = sample_rigid_box_free_flight(&rigid_box, config, 1, 512)
        .expect("wide composed sample ratio should remain representable internally");

    assert_ne!(sampled.angular().orientation, Orientation3d::identity());
}

#[test]
fn accelerated_sweep_contains_reversal_samples_missed_by_endpoint_bounds() {
    let rigid_box = spinning_box(
        RigidBody::dynamic(
            BodyId(3),
            Vec3i::zero(),
            Vec3i::new(100, 0, 0),
            Vec3i::new(1, 1, 1),
        ),
        AngularVelocity3d::default(),
    );
    let config = RigidBoxFreeFlightConfig3d::new(Vec3i::new(-200, 0, 0), 1, 1);
    let end =
        sample_rigid_box_free_flight(&rigid_box, config, 1, 1).expect("valid endpoint sample");
    let endpoint_only = rotational_sweep_bounds(rigid_box.oriented_box(), end.oriented_box())
        .expect("valid endpoint sweep");
    let quarter =
        sample_rigid_box_free_flight(&rigid_box, config, 1, 4).expect("valid interior sample");
    assert!(
        oriented_box_vertices(quarter.oriented_box())
            .expect("valid quarter OBB")
            .into_iter()
            .any(|vertex| !endpoint_only.contains([
                i64::from(vertex.x),
                i64::from(vertex.y),
                i64::from(vertex.z),
            ]))
    );

    let conservative = rigid_box_free_flight_sweep_bounds(&rigid_box, config)
        .expect("valid accelerated sweep");
    for numerator in 0..=16 {
        let sample = sample_rigid_box_free_flight(&rigid_box, config, numerator, 16)
            .expect("valid bounded sample");
        for vertex in oriented_box_vertices(sample.oriented_box()).expect("valid sampled OBB") {
            assert!(conservative.contains([
                i64::from(vertex.x),
                i64::from(vertex.y),
                i64::from(vertex.z),
            ]));
        }
    }
}

#[test]
fn fixed_body_is_unchanged() {
    let rigid_box = spinning_box(
        RigidBody::fixed(BodyId(4), Vec3i::new(10, 20, 30), Vec3i::new(2, 2, 2)),
        AngularVelocity3d::default(),
    );
    let sampled = sample_rigid_box_free_flight(
        &rigid_box,
        RigidBoxFreeFlightConfig3d::new(Vec3i::new(0, -100, 0), 3, 2),
        1,
        2,
    )
    .expect("valid fixed-body sample");
    assert_eq!(sampled, rigid_box);
}

#[test]
fn malformed_fraction_fails_closed() {
    let rigid_box = spinning_box(
        RigidBody::dynamic(BodyId(5), Vec3i::zero(), Vec3i::zero(), Vec3i::new(1, 1, 1)),
        AngularVelocity3d::default(),
    );
    let config = RigidBoxFreeFlightConfig3d::new(Vec3i::zero(), 1, 1);

    assert_eq!(
        sample_rigid_box_free_flight(&rigid_box, config, 1, 0),
        Err(RigidBoxFreeFlightError3d::ZeroFractionDenominator)
    );
    assert_eq!(
        sample_rigid_box_free_flight(&rigid_box, config, 2, 1),
        Err(RigidBoxFreeFlightError3d::FractionOutOfRange {
            numerator: 2,
            denominator: 1,
        })
    );
}

#[test]
fn semi_implicit_sample_applies_gravity_before_moving() {
    let rigid_box = spinning_box(
        RigidBody::dynamic(BodyId(1), Vec3i::new(5, 0, 0), Vec3i::new(10, 0, 0), Vec3i::new(1, 1, 1)),
        AngularVelocity3d::default(),
    );
    let config = RigidBoxFreeFlightConfig3d::new(Vec3i::new(0, -6, 0), 1, 1);
    let half = sample_rigid_box_free_flight(&rigid_box, config, 1, 2).expect("valid half sample");
    // velocity y: -6 / 2 = -3; position y: round(-3 / 2) = -2 (half away from zero).
    assert_eq!(half.body().velocity(), Vec3i::new(10, -3, 0));
    assert_eq!(half.body().position(), Vec3i::new(10, -2, 0));
    assert_eq!(half.angular().orientation, Orientation3d::identity());
    assert_eq!(
        sample_rigid_box_free_flight(&rigid_box, config, 0, 2),
        Ok(rigid_box)
    );
}

#[test]
fn every_sample_center_of_a_reversing_body_stays_in_the_sweep_bounds() {
    let rigid_box = rotating_box(RigidBody::dynamic(
        BodyId(5),
        Vec3i::new(7, -3, 2),
        Vec3i::new(-45, 30, 0),
        Vec3i::new(1, 2, 3),
    ));
    let config = RigidBoxFreeFlightConfig3d::new(Vec3i::new(90, -60, 0), 3, 2);
    let bounds = rigid_box_free_flight_sweep_bounds(&rigid_box, config).expect("bounds");
    for numerator in 0..=16 {
        let sample =
            sample_rigid_box_free_flight(&rigid_box, config, numerator, 16).expect("sample");
        let center = sample.body.position;
        assert!(bounds.contains([center.x as i64, center.y as i64, center.z as i64]));
        // The farthest point of the enclosing sphere along each axis stays inside too.
        assert!(bounds.contains([center.x as i64 + 4, center.y as i64, center.z as i64]));
        assert!(bounds.contains([center.x as i64, center.y as i64 - 4, center.z as i64]));
    }
}
