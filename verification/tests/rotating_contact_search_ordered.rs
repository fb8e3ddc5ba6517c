use physics_engine::rotating_contact_search_ordered::{
    sampled_rotating_contact_search as ordered_search, sampled_rotating_contact_search_profiled,
};
use physics_engine::{
    AngularState3d, AngularVelocity3d, BodyId, Orientation3d, RigidBody, RigidBox3d,
    RigidBoxFreeFlightConfig3d, RotatingContactSearchConfig3d, Vec3i,
    sampled_rotating_contact_search as reference_search,
};

fn dynamic(id: u64, position: Vec3i, velocity: Vec3i) -> RigidBox3d {
    RigidBox3d::new(
        RigidBody::dynamic(BodyId(id), position, velocity, Vec3i::new(1, 1, 1)),
        AngularState3d::new(Orientation3d::identity(), AngularVelocity3d::default()),
    )
    .expect("valid dynamic box")
}

fn fixed(id: u64, position: Vec3i) -> RigidBox3d {
    RigidBox3d::new(
        RigidBody::fixed(BodyId(id), position, Vec3i::new(1, 1, 1)),
        AngularState3d::new(Orientation3d::identity(), AngularVelocity3d::default()),
    )
    .expect("valid fixed box")
}

fn config(samples: u16) -> RotatingContactSearchConfig3d {
    RotatingContactSearchConfig3d::new(
        RigidBoxFreeFlightConfig3d::new(Vec3i::zero(), 1, 1),
        samples,
        4,
    )
}

fn search_config(samples: u16, refinement_steps: u8) -> RotatingContactSearchConfig3d {
    RotatingContactSearchConfig3d::new(
        RigidBoxFreeFlightConfig3d::new(Vec3i::zero(), 1, 1),
        samples,
        refinement_steps,
    )
}

fn assert_matches_reference(boxes: &[RigidBox3d], config: RotatingContactSearchConfig3d) {
    let expected = reference_search(boxes, config).expect("reference first-contact search");
    let (actual, _) =
        sampled_rotating_contact_search_profiled(boxes, config).expect("ordered first-contact search");
    assert_eq!(actual, expected);
}

fn assert_exact_reference_result(boxes: &[RigidBox3d], config: RotatingContactSearchConfig3d) {
    let reference = reference_search(boxes, config);
    let ordered = ordered_search(boxes, config);
    assert_eq!(ordered, reference);
}

#[test]
fn rotating_contact_search_ordered_ordered_search_matches_reference_across_deterministic_matrix() {
    for offset in [-4, -2, 0, 2, 4] {
        for velocity in [8, 16, 24, 32] {
            let boxes = [
                dynamic(11, Vec3i::new(-12, offset, 0), Vec3i::new(velocity, 0, 0)),
                fixed(3, Vec3i::new(-2, 0, 0)),
                fixed(7, Vec3i::new(2, 2, 0)),
                dynamic(13, Vec3i::new(8, -offset, 0), Vec3i::new(-velocity, 0, 0)),
            ];
            assert_matches_reference(&boxes, config(8));
        }
    }
}

#[test]
fn global_time_order_stops_after_the_first_contact_row() {
    let moving = dynamic(50, Vec3i::new(-6, 0, 0), Vec3i::new(32, 0, 0));
    let boxes = [
        moving,
        fixed(1, Vec3i::new(-2, 0, 0)),
        fixed(2, Vec3i::new(2, 0, 0)),
        fixed(3, Vec3i::new(6, 0, 0)),
        fixed(4, Vec3i::new(10, 0, 0)),
    ];
    let (hit, work) =
        sampled_rotating_contact_search_profiled(&boxes, config(32)).expect("ordered first-contact search");
    assert!(hit.is_some());
    assert!(
        work.coarse_rows < 32,
        "search should not scan the full time grid"
    );
    assert_eq!(
        work.coarse_pair_evaluations,
        work.candidate_pairs * work.coarse_rows,
        "every candidate is visited exactly once per completed coarse row"
    );
    assert_matches_reference(&boxes, config(32));
}

#[test]
fn ordered_search_exactly_matches_reference_when_later_pair_refines_earlier() {
    let moving = dynamic(10, Vec3i::new(-10, 0, 0), Vec3i::new(20, 0, 0));
    let later_hit_first_pair = fixed(1, Vec3i::zero());
    let earlier_hit_later_pair = fixed(2, Vec3i::new(-1, 0, 0));

    assert_exact_reference_result(
        &[moving, later_hit_first_pair, earlier_hit_later_pair],
        search_config(4, 3),
    );
}

#[test]
fn ordered_search_exactly_matches_reference_for_resolution_failures() {
    let boxes = [
        dynamic(1, Vec3i::zero(), Vec3i::zero()),
        fixed(2, Vec3i::new(2, 0, 0)),
    ];

    assert_exact_reference_result(&boxes, search_config(0, 0));
    assert_exact_reference_result(&boxes, search_config(u16::MAX, 17));
}

#[test]
fn ordered_search_exactly_matches_reference_for_duplicate_identity_failure() {
    let boxes = [
        dynamic(7, Vec3i::new(-4, 0, 0), Vec3i::new(8, 0, 0)),
        fixed(7, Vec3i::new(4, 0, 0)),
    ];

    assert_exact_reference_result(&boxes, search_config(8, 2));
}

#[test]
fn ordered_work_counts_initial_contacts_without_rows() {
    let boxes = [
        dynamic(1, Vec3i::zero(), Vec3i::zero()),
        fixed(2, Vec3i::new(2, 0, 0)),
    ];
    let (hit, work) =
        sampled_rotating_contact_search_profiled(&boxes, config(8)).expect("ordered search");
    assert_eq!(hit.expect("start contact").time.numerator, 0);
    assert_eq!(work.candidate_pairs, 1);
    assert_eq!(work.initial_pair_evaluations, 1);
    assert_eq!(work.coarse_rows, 0);
    assert_eq!(work.exact_contact_evaluations, 1);
}
