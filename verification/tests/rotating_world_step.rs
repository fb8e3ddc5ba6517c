use physics_engine::{
    AngularState3d, AngularVelocity3d, BodyId, Orientation3d, RigidBody, RigidBox3d,
    RotatingWorld3d, RotatingWorldConfig3d, RotatingWorldError3d, Vec3i,
};

fn dynamic(id: u64, position: Vec3i, velocity: Vec3i, half: Vec3i) -> RigidBox3d {
    RigidBox3d::new(
        RigidBody::dynamic(BodyId(id), position, velocity, half),
        AngularState3d::new(Orientation3d::identity(), AngularVelocity3d::default()),
    )
    .expect("valid dynamic box")
}

fn fixed(id: u64, position: Vec3i, half: Vec3i) -> RigidBox3d {
    RigidBox3d::new(
        RigidBody::fixed(BodyId(id), position, half),
        AngularState3d::new(Orientation3d::identity(), AngularVelocity3d::default()),
    )
    .expect("valid fixed box")
}

fn world(gravity: Vec3i) -> RotatingWorld3d {
    RotatingWorld3d::new(RotatingWorldConfig3d {
        gravity,
        sample_count: 32,
        refinement_steps: 4,
        solver_passes: 8,
        max_events: 16,
    })
}

fn floor_world(gravity: Vec3i, position: Vec3i, velocity: Vec3i, half: Vec3i) -> RotatingWorld3d {
    let mut world = world(gravity);
    world
        .add_box(fixed(1, Vec3i::new(0, -1, 0), Vec3i::new(20, 1, 20)))
        .expect("floor");
    world
        .add_box(dynamic(2, position, velocity, half))
        .expect("box");
    world
}

#[test]
fn persistent_floor_contact_cannot_tunnel_across_a_large_tail() {
    let mut world = floor_world(
        Vec3i::new(0, -100, 0),
        Vec3i::new(0, 1, 0),
        Vec3i::zero(),
        Vec3i::new(1, 1, 1),
    );

    world
        .step(1, 1)
        .expect("persistent tail must remain constrained");

    let body = world.box_by_id(BodyId(2)).expect("box remains").body();
    assert!(
        body.position().y >= 1,
        "box tunneled through a time-zero floor contact: {body:?}"
    );
}

#[test]
fn resting_floor_contact_consumes_the_full_frame() {
    let mut world = floor_world(
        Vec3i::new(0, -3_600, 0),
        Vec3i::new(0, 1, 0),
        Vec3i::zero(),
        Vec3i::new(1, 1, 1),
    );

    for _ in 0..8 {
        world.step(1, 60).expect("stable frame");
    }

    let body = world.box_by_id(BodyId(2)).expect("box remains").body();
    assert!(
        body.position().y >= 1,
        "box sank through the floor: {body:?}"
    );
    assert!(
        body.velocity().y >= 0,
        "resting box kept downward velocity: {body:?}"
    );
}

#[test]
fn off_center_projectile_impact_generates_spin() {
    let mut world = world(Vec3i::zero());
    world
        .add_box(dynamic(10, Vec3i::zero(), Vec3i::zero(), Vec3i::new(3, 3, 3)))
        .expect("target");
    world
        .add_box(dynamic(
            20,
            Vec3i::new(-12, 2, 0),
            Vec3i::new(720, 0, 0),
            Vec3i::new(1, 1, 1),
        ))
        .expect("projectile");

    world.step(1, 60).expect("impact frame");

    let target = world.box_by_id(BodyId(10)).expect("target remains");
    assert!(
        !target.angular().angular_velocity.is_zero(),
        "off-center impact did not generate angular velocity"
    );
}

#[test]
fn identical_steps_are_bit_for_bit_repeatable() {
    let build = || {
        floor_world(
            Vec3i::new(0, -3_600, 0),
            Vec3i::new(0, 8, 0),
            Vec3i::new(120, 0, 0),
            Vec3i::new(2, 2, 2),
        )
    };
    let mut first = build();
    let mut second = build();

    for _ in 0..12 {
        first.step(1, 60).expect("first frame");
        second.step(1, 60).expect("second frame");
    }

    assert_eq!(first.boxes().to_vec(), second.boxes().to_vec());
}

#[test]
fn invalid_timesteps_are_refused_and_change_nothing() {
    let mut world = floor_world(
        Vec3i::new(0, -10, 0),
        Vec3i::new(0, 5, 0),
        Vec3i::zero(),
        Vec3i::new(1, 1, 1),
    );
    let before = world.boxes().to_vec();
    assert_eq!(
        world.step(-1, 60),
        Err(RotatingWorldError3d::NegativeTimestepNumerator(-1))
    );
    assert_eq!(
        world.step(1, 0),
        Err(RotatingWorldError3d::NonPositiveTimestepDenominator(0))
    );
    assert_eq!(world.boxes().to_vec(), before);
}

#[test]
fn zero_step_changes_nothing_and_counts_the_bodies() {
    let mut world = floor_world(
        Vec3i::new(0, -10, 0),
        Vec3i::new(0, 5, 0),
        Vec3i::new(3, 0, 0),
        Vec3i::new(1, 1, 1),
    );
    let before = world.boxes().to_vec();
    let report = world.step(0, 60).expect("zero step");
    assert!(report.changed_body_ids.is_empty());
    assert_eq!(report.stats.body_count, 2);
    assert_eq!(report.stats.response_authority_body_count, 1);
    assert_eq!(report.stats.solver_body_count, 2);
    assert_eq!(report.stats.sampled_events, 0);
    assert_eq!(world.boxes().to_vec(), before);
}

#[test]
fn falling_box_is_reported_changed_and_the_floor_is_not() {
    let mut world = floor_world(
        Vec3i::new(0, -10, 0),
        Vec3i::new(0, 50, 0),
        Vec3i::zero(),
        Vec3i::new(1, 1, 1),
    );
    let report = world.step(1, 1).expect("free fall");
    assert_eq!(report.changed_body_ids, vec![BodyId(2)]);
    assert_eq!(report.stats.sampled_events, 0);
    let body = world.box_by_id(BodyId(2)).expect("box remains").body();
    assert!(body.position().y < 50);
    assert_eq!(body.velocity().y, -10);
    assert_eq!(world.box_by_id(BodyId(1)).expect("floor").body().position(), Vec3i::new(0, -1, 0));
}

#[test]
fn world_of_fixed_bodies_does_not_move() {
    let mut world = world(Vec3i::new(0, -10, 0));
    world
        .add_box(fixed(1, Vec3i::zero(), Vec3i::new(1, 1, 1)))
        .expect("fixed");
    let report = world.step(1, 1).expect("static step");
    assert!(report.changed_body_ids.is_empty());
    assert_eq!(report.stats.response_authority_body_count, 0);
    assert_eq!(report.stats.solver_body_count, 0);
    assert_eq!(report.stats.solver_bypassed_body_count, 1);
}

#[test]
fn tail_of_a_resting_box_is_consumed_in_slices_without_replay() {
    let mut world = floor_world(
        Vec3i::new(0, -3_600, 0),
        Vec3i::new(0, 1, 0),
        Vec3i::zero(),
        Vec3i::new(1, 1, 1),
    );
    let report = world.step(1, 60).expect("resting frame");
    assert!(report.stats.tail_slices > 0);
    assert_eq!(report.stats.tail_replays, 0);
    let body = world.box_by_id(BodyId(2)).expect("box remains").body();
    assert!(body.position().y >= 1);
}

#[test]
fn changed_ids_are_ascending_and_omit_untouched_bodies() {
    let mut world = world(Vec3i::zero());
    world
        .add_box(dynamic(9, Vec3i::new(0, 100, 0), Vec3i::new(5, 0, 0), Vec3i::new(1, 1, 1)))
        .expect("mover");
    world
        .add_box(dynamic(3, Vec3i::new(0, -100, 0), Vec3i::new(0, 5, 0), Vec3i::new(1, 1, 1)))
        .expect("second mover");
    world
        .add_box(dynamic(5, Vec3i::new(100, 0, 0), Vec3i::zero(), Vec3i::new(1, 1, 1)))
        .expect("resting body");
    let report = world.step(1, 1).expect("step");
    assert_eq!(report.changed_body_ids, vec![BodyId(3), BodyId(9)]);
    assert_eq!(world.box_by_id(BodyId(9)).expect("mover").body().position(), Vec3i::new(5, 100, 0));
    assert_eq!(world.box_by_id(BodyId(3)).expect("second").body().position(), Vec3i::new(0, -95, 0));
    assert_eq!(world.box_by_id(BodyId(5)).expect("rest").body().position(), Vec3i::new(100, 0, 0));
}
