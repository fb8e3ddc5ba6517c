use physics_engine::{
    AngularState3d, AngularVelocity3d, BodyId, MATERIAL_SCALE, Material, Orientation3d,
    RepeatedRotatingEventConfig3d, RepeatedRotatingEventError3d, RigidBody, RigidBox3d,
    RigidBoxFreeFlightConfig3d, RigidBoxFreeFlightError3d, RotatingContactSearchConfig3d,
    SampledContactTime3d, Vec3i, advance_repeated_rotating_events, MAX_REPEATED_ROTATING_EVENTS,
};

fn dynamic(id: u64, position: Vec3i, velocity: Vec3i, material: Material) -> RigidBox3d {
    RigidBox3d::new(
        RigidBody::dynamic(BodyId(id), position, velocity, Vec3i::new(1, 1, 1))
            .with_material(material),
        AngularState3d::new(Orientation3d::identity(), AngularVelocity3d::default()),
    )
    .expect("valid dynamic box")
}

fn fixed(id: u64, position: Vec3i, material: Material) -> RigidBox3d {
    RigidBox3d::new(
        RigidBody::fixed(BodyId(id), position, Vec3i::new(1, 1, 1)).with_material(material),
        AngularState3d::new(Orientation3d::identity(), AngularVelocity3d::default()),
    )
    .expect("valid fixed box")
}

fn config(max_events: u16) -> RepeatedRotatingEventConfig3d {
    RepeatedRotatingEventConfig3d::new(
        RotatingContactSearchConfig3d::new(
            RigidBoxFreeFlightConfig3d::new(Vec3i::zero(), 1, 1),
            32,
            4,
        ),
        8,
        max_events,
    )
}

fn walls() -> Vec<RigidBox3d> {
    let elastic = Material::new(MATERIAL_SCALE);
    vec![
        fixed(1, Vec3i::new(-20, 0, 0), elastic),
        dynamic(2, Vec3i::zero(), Vec3i::new(100, 0, 0), elastic),
        fixed(3, Vec3i::new(20, 0, 0), elastic),
    ]
}

#[test]
fn no_event_leaves_the_full_tail_unconsumed() {
    let boxes = [
        dynamic(1, Vec3i::new(-100, 0, 0), Vec3i::zero(), Material::new(0)),
        fixed(2, Vec3i::new(100, 0, 0), Material::new(0)),
    ];
    let advance =
        advance_repeated_rotating_events(&boxes, config(8)).expect("valid no-event advance");

    assert_eq!(advance.boxes, boxes);
    assert!(advance.events.is_empty());
    assert_eq!(advance.remaining, config(8).search.free_flight);
}

#[test]
fn time_zero_event_is_resolved_without_consuming_the_tail() {
    let boxes = [
        dynamic(1, Vec3i::zero(), Vec3i::new(60, 0, 0), Material::new(0)),
        fixed(2, Vec3i::new(2, 0, 0), Material::new(0)),
    ];
    let advance = advance_repeated_rotating_events(&boxes, config(8))
        .expect("valid initial-contact advance");

    assert_eq!(advance.events.len(), 1);
    assert_eq!(advance.events[0].time, SampledContactTime3d::zero());
    assert_eq!(advance.boxes[0].body().velocity().x, 0);
    assert_eq!(advance.remaining, config(8).search.free_flight);
}

#[test]
fn multiple_wall_impacts_are_resolved_in_one_requested_interval() {
    let boxes = walls();
    let advance = advance_repeated_rotating_events(&boxes, config(8))
        .expect("valid repeated impact advance");

    assert!(advance.events.len() >= 2);
    assert_eq!(advance.events[0].contacts[0].pair.left, BodyId(2));
    assert_eq!(advance.events[0].contacts[0].pair.right, BodyId(3));
    assert_eq!(advance.events[1].contacts[0].pair.left, BodyId(1));
    assert_eq!(advance.events[1].contacts[0].pair.right, BodyId(2));
}

#[test]
fn event_limit_fails_only_when_a_real_additional_event_exists() {
    let boxes = walls();

    assert_eq!(
        advance_repeated_rotating_events(&boxes, config(1)),
        Err(RepeatedRotatingEventError3d::EventLimit(1))
    );
}

#[test]
fn exact_remaining_time_reduction_preserves_rational_value() {
    let current = RigidBoxFreeFlightConfig3d::new(Vec3i::new(0, -10, 0), 2, 3);
    assert_eq!(
        current
            .scaled_fraction(5, 8)
            .expect("representable scaled remainder"),
        RigidBoxFreeFlightConfig3d::new(Vec3i::new(0, -10, 0), 5, 12)
    );
    assert_eq!(
        current.scaled_fraction(0, 1).expect("zero remainder"),
        RigidBoxFreeFlightConfig3d::new(Vec3i::new(0, -10, 0), 0, 1)
    );
}

#[test]
fn repeated_event_advance_is_bit_for_bit_repeatable() {
    let boxes = walls();

    let first = advance_repeated_rotating_events(&boxes, config(8)).expect("first advance");
    let second = advance_repeated_rotating_events(&boxes, config(8)).expect("second advance");
    assert_eq!(first, second);
}

#[test]
fn zero_event_limit_fails_closed() {
    let boxes = [
        dynamic(1, Vec3i::zero(), Vec3i::zero(), Material::new(0)),
        fixed(2, Vec3i::new(2, 0, 0), Material::new(0)),
    ];
    assert_eq!(
        advance_repeated_rotating_events(&boxes, config(0)),
        Err(RepeatedRotatingEventError3d::ZeroEventLimit)
    );
}

#[test]
fn event_limit_above_the_cap_is_refused() {
    let boxes = walls();
    assert_eq!(
        advance_repeated_rotating_events(&boxes, config(MAX_REPEATED_ROTATING_EVENTS + 1)),
        Err(RepeatedRotatingEventError3d::EventLimit(MAX_REPEATED_ROTATING_EVENTS))
    );
}

#[test]
fn invalid_timestep_is_refused_before_any_search() {
    let mut bad = config(8);
    bad.search.free_flight = RigidBoxFreeFlightConfig3d::new(Vec3i::zero(), -1, 1);
    assert_eq!(
        advance_repeated_rotating_events(&walls(), bad),
        Err(RepeatedRotatingEventError3d::NegativeTimestepNumerator(-1))
    );
    bad.search.free_flight = RigidBoxFreeFlightConfig3d::new(Vec3i::zero(), 1, 0);
    assert_eq!(
        advance_repeated_rotating_events(&walls(), bad),
        Err(RepeatedRotatingEventError3d::NonPositiveTimestepDenominator(0))
    );
}

#[test]
fn wall_impacts_consume_part_of_the_interval_and_reverse_the_body() {
    let advance = advance_repeated_rotating_events(&walls(), config(8)).expect("valid advance");
    assert!(advance.work.event_response_passes >= advance.events.len() as u64);
    for event in &advance.events {
        assert!(event.time.denominator > 0);
        assert!(event.time.numerator <= event.time.denominator);
        assert!(!event.contacts.is_empty());
    }
    assert_ne!(advance.remaining, config(8).search.free_flight);
}

#[test]
fn scaled_fraction_rejects_fractions_above_one() {
    let current = RigidBoxFreeFlightConfig3d::new(Vec3i::zero(), 1, 2);
    assert_eq!(
        current.scaled_fraction(3, 2),
        Err(RigidBoxFreeFlightError3d::FractionOutOfRange { numerator: 3, denominator: 2 })
    );
    assert_eq!(
        current.scaled_fraction(1, 0),
        Err(RigidBoxFreeFlightError3d::ZeroFractionDenominator)
    );
    assert_eq!(
        RigidBoxFreeFlightConfig3d::new(Vec3i::zero(), 1, i32::MAX).scaled_fraction(1, 2),
        Err(RigidBoxFreeFlightError3d::RatioTooLarge)
    );
}
