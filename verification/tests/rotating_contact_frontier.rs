use physics_engine::{
    AngularState3d, AngularVelocity3d, BodyId, Orientation3d, RigidBody, RigidBox3d,
    RigidBoxFreeFlightConfig3d, RotatingContactSearchConfig3d, SampledContactTime3d, Vec3i,
    earliest_rotating_contact_frontier, next_rotating_contact_frontier,
};

fn dynamic(id: u64, position: Vec3i, velocity: Vec3i) -> RigidBox3d {
    RigidBox3d::new(
        RigidBody::dynamic(BodyId(id), position, velocity, Vec3i::new(1, 1, 1)),
        AngularState3d::new(Orientation3d::identity(), AngularVelocity3d::default()),
    )
    .expect("valid dynamic box")
}

fn fixed(id: u64, position: Vec3i) -> RigidBox3d {
    RigidBox3d::new(
        RigidBody::fixed(BodyId(id), position, Vec3i::new(1, 1, 1)),
        AngularState3d::new(Orientation3d::identity(), AngularVelocity3d::default()),
    )
    .expect("valid fixed box")
}

fn config() -> RotatingContactSearchConfig3d {
    RotatingContactSearchConfig3d::new(
        RigidBoxFreeFlightConfig3d::new(Vec3i::zero(), 1, 1),
        4,
        3,
    )
}

#[test]
fn earliest_frontier_collects_shared_time_contacts() {
    let moving = dynamic(10, Vec3i::new(-10, 0, 0), Vec3i::new(20, 0, 0));
    let first = fixed(1, Vec3i::zero());
    let second = fixed(2, Vec3i::zero());
    let frontier = earliest_rotating_contact_frontier(&[moving, first, second], config())
        .expect("valid frontier")
        .expect("shared frontier");
    assert_eq!(frontier.contacts.len(), 2);
    assert_eq!(frontier.contacts[0].time, frontier.contacts[1].time);
}

#[test]
fn next_frontier_skips_persistent_zero_time_contacts() {
    let persistent = dynamic(1, Vec3i::zero(), Vec3i::zero());
    let persistent_fixed = fixed(2, Vec3i::new(2, 0, 0));
    let moving = dynamic(10, Vec3i::new(-10, 4, 0), Vec3i::new(20, 0, 0));
    let obstacle = fixed(11, Vec3i::new(0, 4, 0));
    let frontier = next_rotating_contact_frontier(
        &[persistent, persistent_fixed, moving, obstacle],
        config(),
    )
    .expect("valid recontact frontier")
    .expect("positive frontier");
    assert!(frontier.time.numerator > 0);
}

#[test]
fn frontier_samples_every_body_at_the_shared_time() {
    let moving = dynamic(10, Vec3i::new(-10, 0, 0), Vec3i::new(20, 0, 0));
    let wall = fixed(1, Vec3i::zero());
    let frontier = earliest_rotating_contact_frontier(&[moving, wall], config())
        .expect("valid frontier")
        .expect("frontier");
    assert_eq!(
        frontier.time,
        SampledContactTime3d {
            numerator: 3,
            denominator: 8,
        }
    );
    assert_eq!(frontier.remaining_numerator, 5);
    assert_eq!(frontier.boxes[0].body().position(), Vec3i::new(-2, 0, 0));
    assert_eq!(frontier.boxes[1], wall);
    assert_eq!(frontier.contacts.len(), 1);
}

#[test]
fn separated_world_has_no_frontier() {
    let moving = dynamic(10, Vec3i::new(-100, 0, 0), Vec3i::zero());
    let wall = fixed(1, Vec3i::zero());
    assert_eq!(
        earliest_rotating_contact_frontier(&[moving, wall], config()),
        Ok(None)
    );
}
