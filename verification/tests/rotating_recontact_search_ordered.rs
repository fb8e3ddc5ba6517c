use physics_engine::rotating_recontact_search_ordered::sampled_rotating_recontact_search_profiled;
use physics_engine::{
    AngularState3d, AngularVelocity3d, BodyId, Orientation3d, RigidBody, RigidBox3d,
    RigidBoxFreeFlightConfig3d, RotatingContactSearchConfig3d, Vec3i,
    sampled_rotating_recontact_search as reference_search,
};

fn dynamic(id: u64, position: Vec3i, velocity: Vec3i) -> RigidBox3d {
    RigidBox3d::new(
        RigidBody::dynamic(BodyId(id), position, velocity, Vec3i::new(1, 1, 1)),
        AngularState3d::new(Orientation3d::identity(), AngularVelocity3d::default()),
    )
    .expect("valid dynamic box")
}

fn fixed(id: u64, position: Vec3i) -> RigidBox3d {
    RigidBox3d::new(
        RigidBody::fixed(BodyId(id), position, Vec3i::new(1, 1, 1)),
        AngularState3d::new(Orientation3d::identity(), AngularVelocity3d::default()),
    )
    .expect("valid fixed box")
}

fn config(samples: u16) -> RotatingContactSearchConfig3d {
    RotatingContactSearchConfig3d::new(
        RigidBoxFreeFlightConfig3d::new(Vec3i::zero(), 1, 1),
        samples,
        4,
    )
}

fn assert_matches_reference(boxes: &[RigidBox3d], config: RotatingContactSearchConfig3d) {
    let expected = reference_search(boxes, config).expect("reference re-contact search");
    let (actual, _) =
        sampled_rotating_recontact_search_profiled(boxes, config).expect("ordered re-contact search");
    assert_eq!(actual, expected);
}

#[test]
fn ordered_search_matches_reference_for_clear_and_persistent_pairs() {
    let boxes = [
        dynamic(1, Vec3i::new(-2, 0, 0), Vec3i::zero()),
        fixed(2, Vec3i::zero()),
        dynamic(3, Vec3i::new(-12, 6, 0), Vec3i::new(24, 0, 0)),
        fixed(4, Vec3i::new(0, 6, 0)),
        fixed(5, Vec3i::new(6, 6, 0)),
    ];
    assert_matches_reference(&boxes, config(16));
}

#[test]
fn rotating_recontact_search_ordered_ordered_search_matches_reference_across_deterministic_matrix() {
    for offset in [-4, -2, 0, 2, 4] {
        for velocity in [8, 16, 24, 32] {
            let boxes = [
                dynamic(11, Vec3i::new(-12, offset, 0), Vec3i::new(velocity, 0, 0)),
                fixed(3, Vec3i::new(-2, 0, 0)),
                fixed(7, Vec3i::new(2, 2, 0)),
                dynamic(13, Vec3i::new(8, -offset, 0), Vec3i::new(-velocity, 0, 0)),
            ];
            assert_matches_reference(&boxes, config(8));
        }
    }
}

#[test]
fn thirty_six_body_front_loaded_fixture_stops_on_first_hit_row() {
    let mut boxes = Vec::new();
    boxes.push(dynamic(1, Vec3i::new(-24, 0, 0), Vec3i::new(64, 0, 0)));
    for id in 2..=35_u64 {
        let x = 10 + i32::try_from(id).expect("small id");
        boxes.push(fixed(id, Vec3i::new(x, 0, 0)));
    }
    boxes.push(fixed(36, Vec3i::new(-8, 0, 0)));

    let (hit, work) =
        sampled_rotating_recontact_search_profiled(&boxes, config(64)).expect("ordered stress search");
    let hit = hit.expect("front-loaded fixture has a contact");
    assert_eq!(hit.pair.right, BodyId(36));
    assert!(
        work.candidate_pairs >= 30,
        "stress fixture should retain a large broad-phase candidate set: {work:?}"
    );
    assert!(
        work.coarse_rows < 32,
        "global row bound should stop before half the grid: {work:?}"
    );
    assert!(
        work.coarse_pair_evaluations < work.candidate_pairs.saturating_mul(32),
        "sample-major traversal should stop all pairs together: {work:?}"
    );
    assert_matches_reference(&boxes, config(64));
}

#[test]
fn stationary_pairs_reuse_their_exact_contact() {
    let boxes = [
        dynamic(1, Vec3i::new(-2, 0, 0), Vec3i::zero()),
        fixed(2, Vec3i::zero()),
    ];
    let (hit, work) =
        sampled_rotating_recontact_search_profiled(&boxes, config(8)).expect("ordered search");
    assert_eq!(hit, None);
    assert_eq!(work.candidate_pairs, 1);
    assert_eq!(work.coarse_rows, 8);
    assert_eq!(work.coarse_pair_evaluations, 8);
    // The start evaluation is reused at every unchanged grid point.
    assert_eq!(work.exact_contact_evaluations, 1);
}
