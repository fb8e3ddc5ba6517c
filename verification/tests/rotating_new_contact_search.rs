use physics_engine::{
    AngularState3d, AngularVelocity3d, BodyId, Orientation3d, RigidBody, RigidBox3d,
    RigidBoxFreeFlightConfig3d, RotatingContactSearchConfig3d, RotatingContactSearchError3d,
    Vec3i, sampled_new_rotating_contact_search,
};

fn dynamic(id: u64, position: Vec3i, velocity: Vec3i) -> RigidBox3d {
    RigidBox3d::new(
        RigidBody::dynamic(BodyId(id), position, velocity, Vec3i::new(1, 1, 1)),
        AngularState3d::new(Orientation3d::identity(), AngularVelocity3d::default()),
    )
    .expect("valid dynamic box")
}

fn fixed(id: u64, position: Vec3i) -> RigidBox3d {
    RigidBox3d::new(
        RigidBody::fixed(BodyId(id), position, Vec3i::new(1, 1, 1)),
        AngularState3d::new(Orientation3d::identity(), AngularVelocity3d::default()),
    )
    .expect("valid fixed box")
}

fn config(gravity: Vec3i) -> RotatingContactSearchConfig3d {
    RotatingContactSearchConfig3d::new(RigidBoxFreeFlightConfig3d::new(gravity, 1, 1), 4, 3)
}

#[test]
fn persistent_start_contact_is_not_a_new_event() {
    let boxes = [
        dynamic(1, Vec3i::zero(), Vec3i::zero()),
        fixed(2, Vec3i::new(2, 0, 0)),
    ];

    assert_eq!(
        sampled_new_rotating_contact_search(&boxes, config(Vec3i::zero()))
            .expect("valid positive-progress search"),
        None
    );
}

#[test]
fn start_contact_can_clear_and_recontact_at_positive_sampled_time() {
    let boxes = [
        dynamic(1, Vec3i::zero(), Vec3i::new(8, 0, 0)),
        fixed(2, Vec3i::new(-2, 0, 0)),
    ];
    let hit = sampled_new_rotating_contact_search(&boxes, config(Vec3i::new(-16, 0, 0)))
        .expect("valid positive-progress search")
        .expect("body should clear and return to the initial contact");

    assert!(hit.time.numerator > 0);
    assert!(hit.time.numerator <= hit.time.denominator);
    assert_eq!(hit.pair.left, BodyId(1));
    assert_eq!(hit.pair.right, BodyId(2));
}

#[test]
fn pair_that_starts_clear_keeps_later_positive_impact() {
    let boxes = [
        dynamic(1, Vec3i::new(-10, 0, 0), Vec3i::new(20, 0, 0)),
        fixed(2, Vec3i::zero()),
    ];
    let hit = sampled_new_rotating_contact_search(&boxes, config(Vec3i::zero()))
        .expect("valid positive-progress search")
        .expect("moving body should reach the obstacle");

    assert!(hit.time.numerator > 0);
    assert!(hit.time.numerator < hit.time.denominator);
}

#[test]
fn overflowing_refined_denominator_fails_before_pair_search() {
    let boxes = [
        dynamic(1, Vec3i::zero(), Vec3i::zero()),
        fixed(2, Vec3i::new(2, 0, 0)),
    ];
    let config = RotatingContactSearchConfig3d::new(
        RigidBoxFreeFlightConfig3d::new(Vec3i::zero(), 1, 1),
        32_768,
        17,
    );

    assert_eq!(
        sampled_new_rotating_contact_search(&boxes, config),
        Err(RotatingContactSearchError3d::ResolutionTooFine {
            sample_count: 32_768,
            refinement_steps: 17,
        })
    );
}

#[test]
fn positive_progress_search_is_repeatable() {
    let boxes = [
        dynamic(1, Vec3i::new(-10, 0, 0), Vec3i::new(20, 0, 0)),
        fixed(2, Vec3i::zero()),
    ];
    let search = || sampled_new_rotating_contact_search(&boxes, config(Vec3i::zero()));

    assert_eq!(
        search().expect("first search"),
        search().expect("second search")
    );
}

#[test]
fn clear_start_matches_the_refined_first_contact() {
    let boxes = [
        dynamic(2, Vec3i::new(-10, 0, 0), Vec3i::new(20, 0, 0)),
        fixed(8, Vec3i::zero()),
    ];
    let hit = sampled_new_rotating_contact_search(&boxes, config(Vec3i::zero()))
        .expect("valid positive-progress search")
        .expect("moving body should reach the obstacle");
    assert_eq!(hit.time.numerator, 3);
    assert_eq!(hit.time.denominator, 8);
}
