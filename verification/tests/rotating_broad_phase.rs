use physics_engine::{
    AngularState3d, AngularVelocity3d, BodyId, BodyKind, CollisionLayers3d, Orientation3d,
    RigidBody, RigidBox3d, RigidBoxFreeFlightConfig3d, RotatingBroadPhaseError3d,
    RotationalSweepBounds3d, RotationalSweepPair3d, Vec3i, rigid_box_free_flight_sweep_bounds,
    rotational_sweep_candidate_pairs,
};

fn dynamic(id: u64, position: Vec3i, velocity: Vec3i) -> RigidBox3d {
    RigidBox3d::new(
        RigidBody::dynamic(BodyId(id), position, velocity, Vec3i::new(1, 1, 1)),
        AngularState3d::new(Orientation3d::identity(), AngularVelocity3d::default()),
    )
    .expect("valid dynamic box")
}

fn fixed(id: u64, position: Vec3i) -> RigidBox3d {
    RigidBox3d::new(
        RigidBody::fixed(BodyId(id), position, Vec3i::new(1, 1, 1)),
        AngularState3d::new(Orientation3d::identity(), AngularVelocity3d::default()),
    )
    .expect("valid fixed box")
}

fn bounds_overlap(left: RotationalSweepBounds3d, right: RotationalSweepBounds3d) -> bool {
    (0..3).all(|axis| {
        left.minimum[axis] <= right.maximum[axis] && right.minimum[axis] <= left.maximum[axis]
    })
}

fn brute_force_candidate_pairs(
    boxes: &[RigidBox3d],
    config: RigidBoxFreeFlightConfig3d,
) -> Vec<RotationalSweepPair3d> {
    let bounds = boxes
        .iter()
        .map(|rigid_box| {
            rigid_box_free_flight_sweep_bounds(rigid_box, config)
                .expect("valid brute-force sweep bounds")
        })
        .collect::<Vec<_>>();
    let mut pairs = Vec::new();
    for left_index in 0..boxes.len() {
        for right_index in left_index + 1..boxes.len() {
            let left = &boxes[left_index];
            let right = &boxes[right_index];
            if left.body.kind == BodyKind::Fixed && right.body.kind == BodyKind::Fixed {
                continue;
            }
            if !bounds_overlap(bounds[left_index], bounds[right_index]) {
                continue;
            }
            let (pair_left, pair_right) = if left.body.id < right.body.id {
                (left.body.id, right.body.id)
            } else {
                (right.body.id, left.body.id)
            };
            pairs.push(RotationalSweepPair3d {
                left: pair_left,
                right: pair_right,
            });
        }
    }
    pairs.sort_unstable();
    pairs
}

#[test]
fn moving_sweeps_produce_stable_pair_independent_of_input_order() {
    let left = dynamic(9, Vec3i::new(-20, 0, 0), Vec3i::new(20, 0, 0));
    let right = dynamic(2, Vec3i::new(20, 0, 0), Vec3i::new(-20, 0, 0));
    let config = RigidBoxFreeFlightConfig3d::new(Vec3i::zero(), 1, 1);
    let expected = vec![RotationalSweepPair3d {
        left: BodyId(2),
        right: BodyId(9),
    }];

    assert_eq!(
        rotational_sweep_candidate_pairs(&[left.clone(), right.clone()], config)
            .expect("valid candidates"),
        expected
    );
    assert_eq!(
        rotational_sweep_candidate_pairs(&[right, left], config).expect("valid candidates"),
        expected
    );
}

#[test]
fn separated_and_fixed_fixed_pairs_are_omitted() {
    let config = RigidBoxFreeFlightConfig3d::new(Vec3i::zero(), 1, 1);
    assert!(
        rotational_sweep_candidate_pairs(
            &[
                dynamic(1, Vec3i::new(-100, 0, 0), Vec3i::zero()),
                dynamic(2, Vec3i::new(100, 0, 0), Vec3i::zero()),
            ],
            config,
        )
        .expect("valid separated candidates")
        .is_empty()
    );
    assert!(
        rotational_sweep_candidate_pairs(
            &[fixed(3, Vec3i::zero()), fixed(4, Vec3i::new(1, 0, 0))],
            config,
        )
        .expect("valid fixed candidates")
        .is_empty()
    );
}

#[test]
fn acceleration_reversal_keeps_interior_candidate() {
    let moving = dynamic(5, Vec3i::zero(), Vec3i::new(100, 0, 0));
    let obstacle = fixed(6, Vec3i::new(13, 0, 0));
    let config = RigidBoxFreeFlightConfig3d::new(Vec3i::new(-200, 0, 0), 1, 1);

    assert_eq!(
        rotational_sweep_candidate_pairs(&[moving, obstacle], config)
            .expect("valid reversal candidates"),
        vec![RotationalSweepPair3d {
            left: BodyId(5),
            right: BodyId(6),
        }]
    );
}

#[test]
fn indexed_bvh_matches_brute_force_and_input_permutation() {
    let mut boxes = (0..48_u64)
        .map(|id| {
            let position = Vec3i::new(
                i32::try_from(id % 8).expect("small x") * 5,
                i32::try_from(id / 8).expect("small y") * 4,
                i32::try_from(id % 3).expect("small z") * 3,
            );
            if id % 7 == 0 {
                fixed(id + 1, position)
            } else {
                dynamic(
                    id + 1,
                    position,
                    Vec3i::new(
                        if id % 2 == 0 { 4 } else { -3 },
                        i32::try_from(id % 3).expect("small velocity") - 1,
                        0,
                    ),
                )
            }
        })
        .collect::<Vec<_>>();
    let config = RigidBoxFreeFlightConfig3d::new(Vec3i::new(0, -2, 0), 2, 1);
    let expected = brute_force_candidate_pairs(&boxes, config);

    assert_eq!(
        rotational_sweep_candidate_pairs(&boxes, config).expect("valid BVH candidates"),
        expected
    );
    boxes.reverse();
    assert_eq!(
        rotational_sweep_candidate_pairs(&boxes, config).expect("valid permuted BVH candidates"),
        expected
    );
}

#[test]
fn duplicate_ids_fail_closed() {
    let config = RigidBoxFreeFlightConfig3d::new(Vec3i::zero(), 1, 1);
    assert_eq!(
        rotational_sweep_candidate_pairs(
            &[
                dynamic(7, Vec3i::zero(), Vec3i::zero()),
                dynamic(7, Vec3i::new(10, 0, 0), Vec3i::zero()),
            ],
            config,
        ),
        Err(RotatingBroadPhaseError3d::DuplicateBodyId(BodyId(7)))
    );
}

#[test]
fn rejecting_collision_layers_remove_an_overlapping_pair() {
    let config = RigidBoxFreeFlightConfig3d::new(Vec3i::zero(), 1, 1);
    let left = dynamic(1, Vec3i::zero(), Vec3i::zero())
        .with_collision_layers(CollisionLayers3d::new(0b01, 0b01));
    let right = dynamic(2, Vec3i::new(1, 0, 0), Vec3i::zero())
        .with_collision_layers(CollisionLayers3d::new(0b10, 0b10));

    assert!(
        rotational_sweep_candidate_pairs(&[left, right], config)
            .expect("valid layered query")
            .is_empty()
    );
}

#[test]
fn malformed_timestep_fails_before_any_body() {
    let config = RigidBoxFreeFlightConfig3d::new(Vec3i::zero(), 1, 0);
    assert!(matches!(
        rotational_sweep_candidate_pairs(&[dynamic(1, Vec3i::zero(), Vec3i::zero())], config),
        Err(RotatingBroadPhaseError3d::FreeFlight(_))
    ));
}
