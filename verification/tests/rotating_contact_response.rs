use physics_engine::{
    AngularState3d, AngularVelocity3d, BodyId, Orientation3d, RigidBody, RigidBox3d,
    RigidBoxFreeFlightConfig3d, RotatingContactFrontier3d, RotatingContactResponseError3d,
    RotatingContactResponseScratch3d, RotatingContactSearchConfig3d, RotatingContactSearchHit3d,
    RotationalSweepPair3d, SampledContactTime3d, Vec3i, earliest_rotating_contact_frontier,
    obb_contact_seed, resolve_rotating_contact_frontier,
    resolve_rotating_contact_frontier_with_scratch,
};

fn dynamic(id: u64, position: Vec3i, velocity: Vec3i, half_extents: Vec3i) -> RigidBox3d {
    RigidBox3d::new(
        RigidBody::dynamic(BodyId(id), position, velocity, half_extents),
        AngularState3d::new(Orientation3d::identity(), AngularVelocity3d::default()),
    )
    .expect("valid dynamic box")
}

fn fixed(id: u64, position: Vec3i, half_extents: Vec3i) -> RigidBox3d {
    RigidBox3d::new(
        RigidBody::fixed(BodyId(id), position, half_extents),
        AngularState3d::new(Orientation3d::identity(), AngularVelocity3d::default()),
    )
    .expect("valid fixed box")
}

fn config() -> RotatingContactSearchConfig3d {
    RotatingContactSearchConfig3d::new(RigidBoxFreeFlightConfig3d::new(Vec3i::zero(), 1, 1), 4, 3)
}

#[test]
fn one_contact_frontier_applies_engine_native_response() {
    let extent = Vec3i::new(10, 10, 10);
    let mut boxes = vec![
        dynamic(1, Vec3i::zero(), Vec3i::new(60, 0, 0), extent),
        fixed(2, Vec3i::new(19, 0, 0), extent),
    ];
    let fixed_before = boxes[1].clone();
    let frontier = earliest_rotating_contact_frontier(&boxes, config())
        .expect("valid frontier")
        .expect("contact frontier");
    let response =
        resolve_rotating_contact_frontier(&mut boxes, &frontier, 4).expect("valid response");

    assert!(response.passes_used > 0);
    assert_eq!(boxes[0].body.velocity.x, 0);
    assert_eq!(boxes[1], fixed_before);
    assert_eq!(response.remaining_numerator, 1);
}

#[test]
fn nonzero_frontier_advances_authoritative_motion_before_response() {
    let mut boxes = vec![
        dynamic(
            1,
            Vec3i::new(-10, 0, 0),
            Vec3i::new(20, 0, 0),
            Vec3i::new(1, 1, 1),
        ),
        fixed(2, Vec3i::zero(), Vec3i::new(1, 1, 1)),
    ];
    let frontier = earliest_rotating_contact_frontier(&boxes, config())
        .expect("valid frontier")
        .expect("contact frontier");
    assert!(frontier.time.numerator > 0);

    resolve_rotating_contact_frontier(&mut boxes, &frontier, 4).expect("valid response");
    assert_ne!(boxes[0].body.position, Vec3i::new(-10, 0, 0));
}

#[test]
fn partitioned_wall_does_not_double_a_stopping_impulse() {
    let mut boxes = vec![
        dynamic(1, Vec3i::zero(), Vec3i::new(60, 0, 0), Vec3i::new(10, 10, 10)),
        fixed(2, Vec3i::new(19, -5, 0), Vec3i::new(10, 5, 10)),
        fixed(3, Vec3i::new(19, 5, 0), Vec3i::new(10, 5, 10)),
    ];
    let frontier = earliest_rotating_contact_frontier(&boxes, config())
        .expect("valid frontier")
        .expect("partitioned wall contacts");
    assert!(frontier.contacts.len() >= 2);

    resolve_rotating_contact_frontier(&mut boxes, &frontier, 4).expect("valid response");
    assert_eq!(boxes[0].body.velocity.x, 0);
    assert!(boxes[0].body.velocity.x >= 0);
}

#[test]
fn symmetric_simultaneous_projection_is_not_pair_order_owned() {
    let extent = Vec3i::new(10, 10, 10);
    let mut boxes = vec![
        fixed(1, Vec3i::new(-19, 0, 0), extent),
        dynamic(2, Vec3i::zero(), Vec3i::zero(), extent),
        fixed(3, Vec3i::new(19, 0, 0), extent),
    ];
    let fixed_left = boxes[0].clone();
    let fixed_right = boxes[2].clone();
    let frontier = earliest_rotating_contact_frontier(&boxes, config())
        .expect("valid frontier")
        .expect("simultaneous contacts");
    assert_eq!(frontier.contacts.len(), 2);

    resolve_rotating_contact_frontier(&mut boxes, &frontier, 4).expect("valid response");
    assert_eq!(boxes[1].body.position, Vec3i::zero());
    assert_eq!(boxes[0], fixed_left);
    assert_eq!(boxes[2], fixed_right);
}

#[test]
fn frontier_response_is_repeatable() {
    let extent = Vec3i::new(10, 10, 10);
    let initial = vec![
        dynamic(1, Vec3i::zero(), Vec3i::new(60, 0, 0), extent),
        fixed(2, Vec3i::new(19, 0, 0), extent),
    ];
    let frontier = earliest_rotating_contact_frontier(&initial, config())
        .expect("valid frontier")
        .expect("contact frontier");
    let mut first_boxes = initial.clone();
    let mut second_boxes = initial;

    let first =
        resolve_rotating_contact_frontier(&mut first_boxes, &frontier, 4).expect("first response");
    let second = resolve_rotating_contact_frontier(&mut second_boxes, &frontier, 4)
        .expect("second response");
    assert_eq!(first, second);
    assert_eq!(first_boxes, second_boxes);
}

#[test]
fn sparse_world_stages_only_contact_island_bodies() {
    let mut boxes = vec![
        dynamic(1, Vec3i::zero(), Vec3i::new(10, 0, 0), Vec3i::new(5, 5, 5)),
        fixed(2, Vec3i::new(9, 0, 0), Vec3i::new(5, 5, 5)),
    ];
    for id in 3..=128 {
        boxes.push(fixed(
            id,
            Vec3i::new(10_000 + i32::try_from(id).expect("small id") * 20, 0, 0),
            Vec3i::new(2, 2, 2),
        ));
    }
    let frontier = earliest_rotating_contact_frontier(&boxes, config())
        .expect("frontier query")
        .expect("contact frontier");
    let mut scratch = RotatingContactResponseScratch3d::default();
    resolve_rotating_contact_frontier_with_scratch(&mut boxes, &frontier, 4, &mut scratch)
        .expect("island response");
    assert_eq!(scratch.island.len(), 2);
}

fn box3d(body: RigidBody) -> RigidBox3d {
    RigidBox3d::new(
        body,
        AngularState3d::new(Orientation3d::identity(), AngularVelocity3d::default()),
    )
    .expect("valid box")
}

#[test]
fn reusable_scratch_preserves_response_semantics() {
    let left = box3d(RigidBody::dynamic(
        BodyId(1),
        Vec3i::zero(),
        Vec3i::new(10, 0, 0),
        Vec3i::new(5, 5, 5),
    ));
    let right = box3d(RigidBody::fixed(
        BodyId(2),
        Vec3i::new(9, 0, 0),
        Vec3i::new(5, 5, 5),
    ));
    let contact = obb_contact_seed(left.oriented_box(), right.oriented_box())
        .expect("valid boxes")
        .expect("overlap");
    let frontier = RotatingContactFrontier3d {
        free_flight: RigidBoxFreeFlightConfig3d::new(Vec3i::zero(), 0, 1),
        boxes: Vec::new(),
        time: SampledContactTime3d::zero(),
        contacts: vec![RotatingContactSearchHit3d {
            time: SampledContactTime3d::zero(),
            pair: RotationalSweepPair3d {
                left: BodyId(1),
                right: BodyId(2),
            },
            contact,
        }],
        remaining_numerator: 0,
    };
    let initial = vec![left, right];
    let mut expected_boxes = initial.clone();
    let expected =
        resolve_rotating_contact_frontier(&mut expected_boxes, &frontier, 4).expect("response");
    let mut scratch = RotatingContactResponseScratch3d::default();
    let mut first_boxes = initial.clone();
    let first =
        resolve_rotating_contact_frontier_with_scratch(&mut first_boxes, &frontier, 4, &mut scratch)
            .expect("scratch response");
    let mut second_boxes = initial;
    let second =
        resolve_rotating_contact_frontier_with_scratch(&mut second_boxes, &frontier, 4, &mut scratch)
            .expect("reused scratch response");
    assert_eq!(first, expected);
    assert_eq!(second, expected);
    assert_eq!(first_boxes, expected_boxes);
    assert_eq!(second_boxes, expected_boxes);
}

#[test]
fn zero_solver_passes_fail_and_leave_bodies_untouched() {
    let extent = Vec3i::new(10, 10, 10);
    let initial = vec![
        dynamic(1, Vec3i::zero(), Vec3i::new(60, 0, 0), extent),
        fixed(2, Vec3i::new(19, 0, 0), extent),
    ];
    let frontier = earliest_rotating_contact_frontier(&initial, config())
        .expect("valid frontier")
        .expect("contact frontier");
    let mut boxes = initial.clone();
    let error = resolve_rotating_contact_frontier(&mut boxes, &frontier, 0)
        .expect_err("zero passes must fail");
    assert_eq!(error, RotatingContactResponseError3d::ZeroSolverPasses);
    assert_eq!(boxes, initial);
}

#[test]
fn missing_contact_body_fails_without_moving_bodies() {
    let extent = Vec3i::new(10, 10, 10);
    let initial = vec![
        dynamic(1, Vec3i::zero(), Vec3i::new(60, 0, 0), extent),
        fixed(2, Vec3i::new(19, 0, 0), extent),
    ];
    let frontier = earliest_rotating_contact_frontier(&initial, config())
        .expect("valid frontier")
        .expect("contact frontier");
    let mut boxes = vec![initial[0].clone()];
    let error = resolve_rotating_contact_frontier(&mut boxes, &frontier, 4)
        .expect_err("missing body must fail");
    assert_eq!(error, RotatingContactResponseError3d::MissingBody(BodyId(2)));
    assert_eq!(boxes, vec![initial[0].clone()]);
}
