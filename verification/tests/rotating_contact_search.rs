use physics_engine::{
    AngularState3d, AngularVelocity3d, BodyId, CoarseSampleCache3d, MAX_CACHED_COARSE_SAMPLES,
    Orientation3d, RigidBody, RigidBox3d, RigidBoxFreeFlightConfig3d,
    RotatingContactSearchConfig3d, RotatingContactSearchError3d, RotationalSweepPair3d,
    SampledContactTime3d, Vec3i, obb_contact_seed, sample_rigid_box_free_flight,
    sampled_rotating_contact_search,
};

fn dynamic(id: u64, position: Vec3i, velocity: Vec3i) -> RigidBox3d {
    RigidBox3d::new(
        RigidBody::dynamic(BodyId(id), position, velocity, Vec3i::new(1, 1, 1)),
        AngularState3d::new(Orientation3d::identity(), AngularVelocity3d::default()),
    )
    .expect("valid dynamic box")
}

fn fixed(id: u64, position: Vec3i) -> RigidBox3d {
    RigidBox3d::new(
        RigidBody::fixed(BodyId(id), position, Vec3i::new(1, 1, 1)),
        AngularState3d::new(Orientation3d::identity(), AngularVelocity3d::default()),
    )
    .expect("valid fixed box")
}

fn config(sample_count: u16, refinement_steps: u8) -> RotatingContactSearchConfig3d {
    RotatingContactSearchConfig3d::new(
        RigidBoxFreeFlightConfig3d::new(Vec3i::zero(), 1, 1),
        sample_count,
        refinement_steps,
    )
}

#[test]
fn initial_contact_returns_zero_time() {
    let hit = sampled_rotating_contact_search(
        &[
            dynamic(4, Vec3i::zero(), Vec3i::zero()),
            fixed(9, Vec3i::new(2, 0, 0)),
        ],
        config(4, 3),
    )
    .expect("valid sampled search")
    .expect("initial touching contact");

    assert_eq!(hit.time, SampledContactTime3d::zero());
    assert_eq!(
        hit.pair,
        RotationalSweepPair3d {
            left: BodyId(4),
            right: BodyId(9),
        }
    );
}

#[test]
fn linear_contact_is_refined_to_known_contact_side() {
    let moving = dynamic(2, Vec3i::new(-10, 0, 0), Vec3i::new(20, 0, 0));
    let obstacle = fixed(8, Vec3i::zero());
    let hit = sampled_rotating_contact_search(&[moving.clone(), obstacle.clone()], config(4, 3))
        .expect("valid sampled search")
        .expect("linear path should contact");

    assert_eq!(
        hit.time,
        SampledContactTime3d {
            numerator: 3,
            denominator: 8,
        }
    );
    let sampled_moving = sample_rigid_box_free_flight(
        &moving,
        RigidBoxFreeFlightConfig3d::new(Vec3i::zero(), 1, 1),
        hit.time.numerator,
        hit.time.denominator,
    )
    .expect("valid returned sample");
    assert!(
        obb_contact_seed(sampled_moving.oriented_box(), obstacle.oriented_box())
            .expect("valid returned OBBs")
            .is_some()
    );
}

#[test]
fn rotating_contact_search_shared_body_pair_ties_keep_stable_pair_order() {
    let moving = dynamic(11, Vec3i::new(-10, 0, 0), Vec3i::new(20, 0, 0));
    let first = fixed(3, Vec3i::zero());
    let second = fixed(8, Vec3i::zero());
    let hit = sampled_rotating_contact_search(&[second, moving, first], config(8, 2))
        .expect("valid shared-body search")
        .expect("shared body should contact both obstacles");

    assert_eq!(
        hit.pair,
        RotationalSweepPair3d {
            left: BodyId(3),
            right: BodyId(11),
        }
    );
}

#[test]
fn rotating_contact_search_coarse_sample_cache_is_bounded_and_reuses_geometry() {
    let rigid_box = fixed(1, Vec3i::zero());
    let free_flight = RigidBoxFreeFlightConfig3d::new(Vec3i::zero(), 1, 1);
    let mut cache = CoarseSampleCache3d::new(1, 32);

    let first = cache
        .sample_oriented_box(0, &rigid_box, free_flight, 1)
        .expect("first coarse sample");
    let repeated = cache
        .sample_oriented_box(0, &rigid_box, free_flight, 1)
        .expect("repeated coarse sample");
    assert_eq!(first, repeated);
    assert_eq!(cache.len(), 1);

    let denominator = u32::try_from(MAX_CACHED_COARSE_SAMPLES + 2).expect("small cache bound");
    let mut bounded_cache = CoarseSampleCache3d::new(1, denominator);
    for numerator in 1..=denominator {
        bounded_cache
            .sample_oriented_box(0, &rigid_box, free_flight, numerator)
            .expect("bounded coarse sample");
    }
    assert_eq!(bounded_cache.len(), MAX_CACHED_COARSE_SAMPLES);
}

#[test]
fn search_result_is_stable_across_input_order() {
    let moving = dynamic(11, Vec3i::new(-10, 0, 0), Vec3i::new(20, 0, 0));
    let obstacle = fixed(3, Vec3i::zero());
    let forward =
        sampled_rotating_contact_search(&[moving.clone(), obstacle.clone()], config(8, 2))
            .expect("valid forward search");
    let reverse = sampled_rotating_contact_search(&[obstacle, moving], config(8, 2))
        .expect("valid reverse search");

    assert_eq!(forward, reverse);
}

#[test]
fn separated_motion_returns_no_hit() {
    assert_eq!(
        sampled_rotating_contact_search(
            &[
                dynamic(1, Vec3i::new(-100, 0, 0), Vec3i::zero()),
                fixed(2, Vec3i::new(100, 0, 0)),
            ],
            config(8, 2),
        )
        .expect("valid separated search"),
        None
    );
}

#[test]
fn zero_samples_and_unrepresentable_refinement_fail_closed() {
    let boxes = [
        dynamic(1, Vec3i::zero(), Vec3i::zero()),
        fixed(2, Vec3i::new(2, 0, 0)),
    ];
    assert_eq!(
        sampled_rotating_contact_search(&boxes, config(0, 0)),
        Err(RotatingContactSearchError3d::ZeroSampleCount)
    );
    assert_eq!(
        sampled_rotating_contact_search(&boxes, config(u16::MAX, 17)),
        Err(RotatingContactSearchError3d::ResolutionTooFine {
            sample_count: u16::MAX,
            refinement_steps: 17,
        })
    );
}

#[test]
fn resolution_whose_finest_grid_wraps_u64_is_still_refused() {
    let boxes: [RigidBox3d; 0] = [];
    assert_eq!(
        sampled_rotating_contact_search(&boxes, config(2, 63)),
        Err(RotatingContactSearchError3d::ResolutionTooFine {
            sample_count: 2,
            refinement_steps: 63,
        })
    );
    assert_eq!(
        sampled_rotating_contact_search(&boxes, config(1, 40)),
        Err(RotatingContactSearchError3d::ResolutionTooFine {
            sample_count: 1,
            refinement_steps: 40,
        })
    );
    assert_eq!(sampled_rotating_contact_search(&boxes, config(1, 31)), Ok(None));
}

#[test]
fn duplicate_ids_fail_through_the_broad_phase() {
    let boxes = [
        dynamic(1, Vec3i::zero(), Vec3i::zero()),
        fixed(1, Vec3i::new(2, 0, 0)),
    ];
    assert!(matches!(
        sampled_rotating_contact_search(&boxes, config(4, 2)),
        Err(RotatingContactSearchError3d::BroadPhase(_))
    ));
}

#[test]
fn coarse_contact_without_refinement_reports_the_coarse_sample() {
    let moving = dynamic(2, Vec3i::new(-10, 0, 0), Vec3i::new(20, 0, 0));
    let obstacle = fixed(8, Vec3i::zero());
    let hit = sampled_rotating_contact_search(&[moving, obstacle], config(4, 0))
        .expect("valid sampled search")
        .expect("linear path should contact");
    assert_eq!(
        hit.time,
        SampledContactTime3d {
            numerator: 1,
            denominator: 2,
        }
    );
}

#[test]
fn search_hit_carries_the_contact_observed_at_its_time() {
    let boxes = [
        dynamic(1, Vec3i::new(-10, 0, 0), Vec3i::new(20, 0, 0)),
        fixed(2, Vec3i::zero()),
    ];
    let search = config(16, 5);
    let hit = sampled_rotating_contact_search(&boxes, search)
        .expect("valid search")
        .expect("the moving box reaches the fixed one");
    assert!(hit.time.numerator > 0);
    let left = sample_rigid_box_free_flight(
        &boxes[0],
        search.free_flight,
        hit.time.numerator,
        hit.time.denominator,
    )
    .expect("sample at the hit time");
    let right = sample_rigid_box_free_flight(
        &boxes[1],
        search.free_flight,
        hit.time.numerator,
        hit.time.denominator,
    )
    .expect("sample at the hit time");
    assert_eq!(
        obb_contact_seed(left.oriented_box(), right.oriented_box()).expect("valid contact"),
        Some(hit.contact)
    );
}
