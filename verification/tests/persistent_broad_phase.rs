use physics_engine::{
    AngularState3d, AngularVelocity3d, BodyId, Orientation3d, RigidBody, RigidBox3d,
    RigidBoxFreeFlightConfig3d, RotatingBroadPhase3d, RotatingBroadPhaseError3d, Vec3i,
    rotational_sweep_candidate_pairs,
};

fn dynamic(id: u64, position: Vec3i, velocity: Vec3i) -> RigidBox3d {
    RigidBox3d::new(
        RigidBody::dynamic(BodyId(id), position, velocity, Vec3i::new(1, 1, 1)),
        AngularState3d::new(Orientation3d::identity(), AngularVelocity3d::default()),
    )
    .expect("valid dynamic box")
}

#[test]
fn persistent_broad_phase_reuses_envelopes_and_updates_escaped_bodies() {
    let config = RigidBoxFreeFlightConfig3d::new(Vec3i::zero(), 1, 1);
    let mut boxes = vec![
        dynamic(1, Vec3i::zero(), Vec3i::new(4, 0, 0)),
        dynamic(2, Vec3i::new(5, 0, 0), Vec3i::zero()),
        dynamic(3, Vec3i::new(40, 0, 0), Vec3i::zero()),
    ];
    let mut broad_phase = RotatingBroadPhase3d::new();
    let expected = rotational_sweep_candidate_pairs(&boxes, config).expect("pairs");
    assert_eq!(broad_phase.candidate_pairs(&boxes, config), Ok(expected.clone()));
    assert_eq!(broad_phase.candidate_pairs(&boxes, config), Ok(expected));
    let stats = broad_phase.stats();
    assert_eq!((stats.queries, stats.rebuilds, stats.reuses), (2, 1, 1));

    // Moving inside the retained envelope is still a reuse.
    boxes[0].body.position = Vec3i::new(1, 0, 0);
    let nudged = rotational_sweep_candidate_pairs(&boxes, config).expect("pairs");
    assert_eq!(broad_phase.candidate_pairs(&boxes, config), Ok(nudged));
    let stats = broad_phase.stats();
    assert_eq!((stats.queries, stats.rebuilds, stats.reuses), (3, 1, 2));

    // One of three bodies leaving its envelope is an incremental update.
    boxes[2].body.position = Vec3i::new(7, 0, 0);
    let moved = rotational_sweep_candidate_pairs(&boxes, config).expect("pairs");
    assert_eq!(broad_phase.candidate_pairs(&boxes, config), Ok(moved.clone()));
    assert_eq!(moved.len(), 3);
    let stats = broad_phase.stats();
    assert_eq!(
        (stats.queries, stats.rebuilds, stats.reuses, stats.incremental_updates, stats.reinserts),
        (4, 1, 2, 1, 1)
    );

    // A membership change rebuilds; a failure changes no counter but the query count.
    boxes.pop();
    broad_phase.candidate_pairs(&boxes, config).expect("pairs");
    assert_eq!(broad_phase.stats().rebuilds, 2);
    boxes[1].body.id = BodyId(1);
    assert!(matches!(
        broad_phase.candidate_pairs(&boxes, config),
        Err(RotatingBroadPhaseError3d::DuplicateBodyId(_))
    ));
    let stats = broad_phase.stats();
    assert_eq!((stats.queries, stats.rebuilds), (6, 2));
}

fn box3d(body: RigidBody) -> RigidBox3d {
    RigidBox3d::new(
        body,
        AngularState3d::new(Orientation3d::identity(), AngularVelocity3d::default()),
    )
    .expect("valid box")
}

#[test]
fn partial_current_query_updates_only_supplied_bodies_and_matches_full_truth() {
    let mut boxes = vec![
        box3d(RigidBody::dynamic(
            BodyId(1),
            Vec3i::new(0, 0, 0),
            Vec3i::zero(),
            Vec3i::new(5, 5, 5),
        )),
        box3d(RigidBody::dynamic(
            BodyId(2),
            Vec3i::new(30, 0, 0),
            Vec3i::zero(),
            Vec3i::new(5, 5, 5),
        )),
        box3d(RigidBody::fixed(
            BodyId(3),
            Vec3i::new(60, 0, 0),
            Vec3i::new(5, 5, 5),
        )),
    ];
    let current = RigidBoxFreeFlightConfig3d::new(Vec3i::zero(), 0, 1);
    let mut partial = RotatingBroadPhase3d::new();
    partial
        .candidate_pairs(&boxes, current)
        .expect("initial sync");

    boxes[0].body.position = Vec3i::new(25, 0, 0);
    let partial_pairs = partial
        .candidate_pairs_for_changed_current_bodies(&[boxes[0]])
        .expect("partial query");

    let mut full = RotatingBroadPhase3d::new();
    let full_pairs = full.candidate_pairs(&boxes, current).expect("full query");
    let expected = full_pairs
        .into_iter()
        .filter(|pair| pair.left == BodyId(1) || pair.right == BodyId(1))
        .collect::<Vec<_>>();
    assert_eq!(partial_pairs, expected);
    assert_eq!(partial.stats().partial_queries, 1);
    assert_eq!(partial.stats().partial_body_updates, 1);
}

#[test]
fn transient_changed_body_is_not_reintroduced_as_a_resting_contact() {
    let boxes = vec![
        box3d(RigidBody::dynamic(
            BodyId(1),
            Vec3i::zero(),
            Vec3i::new(10, 0, 0),
            Vec3i::new(5, 5, 5),
        ))
        .with_transient_contacts(),
        box3d(RigidBody::fixed(
            BodyId(2),
            Vec3i::new(9, 0, 0),
            Vec3i::new(5, 5, 5),
        )),
    ];
    let current = RigidBoxFreeFlightConfig3d::new(Vec3i::zero(), 0, 1);
    let mut broad_phase = RotatingBroadPhase3d::new();
    assert_eq!(
        broad_phase
            .candidate_pairs(&boxes, current)
            .expect("ordinary current query still discovers the impact pair")
            .len(),
        1
    );
    assert!(
        broad_phase
            .candidate_pairs_for_changed_current_bodies(&[boxes[0]])
            .expect("stabilization query")
            .is_empty(),
        "transient impact must not become a persistent stabilization constraint"
    );
    assert_eq!(
        broad_phase
            .candidate_pairs_for_changed_current_query_bodies(&[boxes[0]])
            .expect("contact query")
            .len(),
        1
    );
}

#[test]
fn partial_query_of_an_unsynchronized_body_fails() {
    let boxes = vec![box3d(RigidBody::dynamic(
        BodyId(1),
        Vec3i::zero(),
        Vec3i::zero(),
        Vec3i::new(5, 5, 5),
    ))];
    let stranger = box3d(RigidBody::dynamic(
        BodyId(9),
        Vec3i::zero(),
        Vec3i::zero(),
        Vec3i::new(5, 5, 5),
    ));
    let mut broad_phase = RotatingBroadPhase3d::new();
    broad_phase
        .candidate_pairs(&boxes, RigidBoxFreeFlightConfig3d::new(Vec3i::zero(), 0, 1))
        .expect("sync");
    assert_eq!(
        broad_phase.candidate_pairs_for_changed_current_bodies(&[stranger]),
        Err(RotatingBroadPhaseError3d::IncrementalQueryUnsynchronized(BodyId(9)))
    );
}
