use std::collections::BTreeSet;

use physics_engine::{
    AngularState3d, AngularVelocity3d, BodyId, CoarseSampleCache3d, MAX_CACHED_COARSE_SAMPLES,
    Orientation3d, RigidBody, RigidBox3d, RigidBoxFreeFlightConfig3d,
    RotatingContactSearchConfig3d, RotatingContactSearchError3d, RotationalSweepPair3d,
    SampledContactTime3d, Vec3i, obb_contact_seed, sample_rigid_box_free_flight,
    sampled_rotating_recontact_search, sampled_rotating_recontact_search_with_persistent_pairs,
};

fn dynamic(id: u64, position: Vec3i, velocity: Vec3i) -> RigidBox3d {
    RigidBox3d::new(
        RigidBody::dynamic(BodyId(id), position, velocity, Vec3i::new(1, 1, 1)),
        AngularState3d::new(Orientation3d::identity(), AngularVelocity3d::default()),
    )
    .expect("valid dynamic box")
}

fn fixed(id: u64, position: Vec3i) -> RigidBox3d {
    RigidBox3d::new(
        RigidBody::fixed(BodyId(id), position, Vec3i::new(1, 1, 1)),
        AngularState3d::new(Orientation3d::identity(), AngularVelocity3d::default()),
    )
    .expect("valid fixed box")
}

fn config(gravity: Vec3i, sample_count: u16, refinement_steps: u8) -> RotatingContactSearchConfig3d {
    RotatingContactSearchConfig3d::new(
        RigidBoxFreeFlightConfig3d::new(gravity, 1, 1),
        sample_count,
        refinement_steps,
    )
}

#[test]
fn persistent_time_zero_contact_is_not_rediscovered() {
    let boxes = [
        dynamic(1, Vec3i::new(-2, 0, 0), Vec3i::zero()),
        fixed(2, Vec3i::zero()),
    ];

    assert_eq!(
        sampled_rotating_recontact_search(&boxes, config(Vec3i::zero(), 8, 3))
            .expect("valid persistent-contact search"),
        None
    );
}

#[test]
fn historical_contact_does_not_treat_interval_start_separation_as_clear() {
    let moving = dynamic(1, Vec3i::new(-3, 0, 0), Vec3i::new(4, 0, 0));
    let obstacle = fixed(2, Vec3i::zero());
    let pair = (1, 2);
    let mut persistent_pairs = BTreeSet::from([pair]);

    assert_eq!(
        sampled_rotating_recontact_search_with_persistent_pairs(
            &[moving, obstacle],
            config(Vec3i::zero(), 4, 0),
            &mut persistent_pairs,
        )
        .expect("valid history-aware recontact search"),
        None
    );
    assert!(persistent_pairs.contains(&pair));
}

#[test]
fn historical_contact_recontacts_after_positive_clear_sample() {
    let moving = dynamic(1, Vec3i::new(-3, 0, 0), Vec3i::new(1, 0, 0));
    let obstacle = fixed(2, Vec3i::zero());
    let pair = (1, 2);
    let mut persistent_pairs = BTreeSet::from([pair]);
    let hit = sampled_rotating_recontact_search_with_persistent_pairs(
        &[moving, obstacle],
        config(Vec3i::zero(), 4, 0),
        &mut persistent_pairs,
    )
    .expect("valid history-aware recontact search")
    .expect("positive clear sample should admit later recontact");

    assert_eq!(hit.time.numerator, 1);
    assert_eq!(hit.time.denominator, 2);
    assert!(!persistent_pairs.contains(&pair));
}

#[test]
fn positive_clear_before_unrelated_frontier_releases_contact_history() {
    let historical = (1, 2);
    let selector = RotationalSweepPair3d {
        left: BodyId(3),
        right: BodyId(4),
    };
    let boxes = [
        dynamic(1, Vec3i::new(-5, 0, 0), Vec3i::new(8, 0, 0)),
        fixed(2, Vec3i::zero()),
        dynamic(3, Vec3i::new(-4, 10, 0), Vec3i::new(8, 0, 0)),
        fixed(4, Vec3i::new(0, 10, 0)),
    ];
    let mut persistent_pairs = BTreeSet::from([historical]);
    let hit = sampled_rotating_recontact_search_with_persistent_pairs(
        &boxes,
        config(Vec3i::zero(), 8, 0),
        &mut persistent_pairs,
    )
    .expect("valid history-aware recontact search")
    .expect("unrelated pair should select the earlier frontier");

    assert_eq!(hit.pair, selector);
    assert_eq!(
        hit.time,
        SampledContactTime3d {
            numerator: 1,
            denominator: 4,
        }
    );
    assert!(!persistent_pairs.contains(&historical));
}

#[test]
fn touching_pair_must_clear_before_later_recontact_is_admitted() {
    let moving = dynamic(1, Vec3i::new(-2, 0, 0), Vec3i::new(-8, 0, 0));
    let obstacle = fixed(2, Vec3i::zero());
    let search = config(Vec3i::new(16, 0, 0), 8, 3);
    let hit = sampled_rotating_recontact_search(&[moving.clone(), obstacle.clone()], search)
        .expect("valid recontact search")
        .expect("clear then recontact should be found");

    assert!(hit.time.numerator > 0);
    let sampled = sample_rigid_box_free_flight(
        &moving,
        search.free_flight,
        hit.time.numerator,
        hit.time.denominator,
    )
    .expect("valid returned-time sample");
    assert!(
        obb_contact_seed(sampled.oriented_box(), obstacle.oriented_box())
            .expect("valid returned OBBs")
            .is_some()
    );
}

#[test]
fn pair_that_starts_clear_keeps_first_contact_behavior() {
    let moving = dynamic(1, Vec3i::new(-10, 0, 0), Vec3i::new(20, 0, 0));
    let obstacle = fixed(2, Vec3i::zero());
    let hit = sampled_rotating_recontact_search(&[moving, obstacle], config(Vec3i::zero(), 4, 3))
        .expect("valid initial-clear search")
        .expect("first contact should be found");

    assert!(hit.time.numerator > 0);
}

#[test]
fn rotating_recontact_search_shared_body_pair_ties_keep_stable_pair_order() {
    let moving = dynamic(11, Vec3i::new(-10, 0, 0), Vec3i::new(20, 0, 0));
    let first = fixed(3, Vec3i::zero());
    let second = fixed(8, Vec3i::zero());
    let hit =
        sampled_rotating_recontact_search(&[second, moving, first], config(Vec3i::zero(), 8, 2))
            .expect("valid shared-body recontact search")
            .expect("shared body should contact both obstacles");

    assert_eq!(hit.pair.left, BodyId(3));
    assert_eq!(hit.pair.right, BodyId(11));
}

#[test]
fn rotating_recontact_search_coarse_sample_cache_is_bounded_and_reuses_geometry() {
    let rigid_box = fixed(1, Vec3i::zero());
    let search = config(Vec3i::zero(), 32, 0);
    let mut cache = CoarseSampleCache3d::new(1, 32);

    let first = cache
        .sample_geometry(0, &rigid_box, search, 1)
        .expect("first coarse sample");
    let repeated = cache
        .sample_geometry(0, &rigid_box, search, 1)
        .expect("repeated coarse sample");
    assert_eq!(first, repeated);
    assert_eq!(cache.len(), 1);

    let denominator = u32::try_from(MAX_CACHED_COARSE_SAMPLES + 2).expect("small cache bound");
    let mut bounded_cache = CoarseSampleCache3d::new(1, denominator);
    for numerator in 1..=denominator {
        bounded_cache
            .sample_geometry(0, &rigid_box, search, numerator)
            .expect("bounded coarse sample");
    }
    assert_eq!(bounded_cache.len(), MAX_CACHED_COARSE_SAMPLES);
    assert!(bounded_cache.latest_geometry(0).is_some());
    assert_eq!(bounded_cache.preparations(), 1);
}

#[test]
fn result_is_stable_across_input_order() {
    let moving = dynamic(11, Vec3i::new(-10, 0, 0), Vec3i::new(20, 0, 0));
    let obstacle = fixed(3, Vec3i::zero());
    let search = config(Vec3i::zero(), 8, 2);
    let forward = sampled_rotating_recontact_search(&[moving.clone(), obstacle.clone()], search)
        .expect("valid forward search");
    let reverse = sampled_rotating_recontact_search(&[obstacle, moving], search)
        .expect("valid reverse search");

    assert_eq!(forward, reverse);
}

#[test]
fn duplicate_ids_fail_closed_through_the_shared_broad_phase() {
    let boxes = [
        dynamic(7, Vec3i::zero(), Vec3i::zero()),
        dynamic(7, Vec3i::new(10, 0, 0), Vec3i::zero()),
    ];
    assert!(matches!(
        sampled_rotating_recontact_search(&boxes, config(Vec3i::zero(), 4, 2)),
        Err(RotatingContactSearchError3d::BroadPhase(_))
    ));
}

#[test]
fn invalid_resolution_matches_the_existing_search_contract() {
    let boxes = [
        dynamic(1, Vec3i::zero(), Vec3i::zero()),
        fixed(2, Vec3i::new(2, 0, 0)),
    ];
    assert_eq!(
        sampled_rotating_recontact_search(&boxes, config(Vec3i::zero(), 0, 0)),
        Err(RotatingContactSearchError3d::ZeroSampleCount)
    );
}

#[test]
fn history_without_any_clear_sample_stays_persistent_and_reports_nothing() {
    let resting = dynamic(1, Vec3i::new(-2, 0, 0), Vec3i::zero());
    let floor = fixed(2, Vec3i::zero());
    let mut persistent_pairs = BTreeSet::from([(1, 2), (5, 6)]);
    assert_eq!(
        sampled_rotating_recontact_search_with_persistent_pairs(
            &[resting, floor],
            config(Vec3i::zero(), 4, 1),
            &mut persistent_pairs,
        ),
        Ok(None)
    );
    assert_eq!(persistent_pairs, BTreeSet::from([(1, 2), (5, 6)]));
}
