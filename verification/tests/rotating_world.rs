use physics_engine::{
    AngularState3d, AngularVelocity3d, BodyId, InteractionCategory3d, Orientation3d,
    OrientedBox3d, RigidBody, RigidBox3d, RotatingWorld3d, RotatingWorldConfig3d,
    RotatingWorldError3d, Vec3i,
};

fn dynamic(id: u64, position: Vec3i, velocity: Vec3i, half: Vec3i) -> RigidBox3d {
    RigidBox3d::new(
        RigidBody::dynamic(BodyId(id), position, velocity, half),
        AngularState3d::new(Orientation3d::identity(), AngularVelocity3d::default()),
    )
    .expect("valid dynamic box")
}

fn fixed(id: u64, position: Vec3i, half: Vec3i) -> RigidBox3d {
    RigidBox3d::new(
        RigidBody::fixed(BodyId(id), position, half),
        AngularState3d::new(Orientation3d::identity(), AngularVelocity3d::default()),
    )
    .expect("valid fixed box")
}

fn world(gravity: Vec3i) -> RotatingWorld3d {
    RotatingWorld3d::new(RotatingWorldConfig3d {
        gravity,
        sample_count: 32,
        refinement_steps: 4,
        solver_passes: 8,
        max_events: 16,
    })
}

#[test]
fn controlled_velocity_and_overlap_queries_preserve_stable_identity() {
    let empty_world = world(Vec3i::zero());
    assert!(
        empty_world
            .overlap_query(OrientedBox3d::new(
                Vec3i::zero(),
                Vec3i::new(1, 0, 1),
                Orientation3d::identity(),
            ))
            .is_err(),
        "empty-world queries must still validate their geometry"
    );

    let mut world = world(Vec3i::zero());
    world
        .add_box(dynamic(1, Vec3i::zero(), Vec3i::zero(), Vec3i::new(2, 2, 2)))
        .expect("dynamic");
    world
        .add_box(fixed(2, Vec3i::new(5, 0, 0), Vec3i::new(2, 2, 2)))
        .expect("fixed");
    world
        .set_linear_velocity(BodyId(1), Vec3i::new(60, 0, 0))
        .expect("controlled velocity");
    assert_eq!(
        world
            .box_by_id(BodyId(1))
            .expect("dynamic")
            .body()
            .velocity(),
        Vec3i::new(60, 0, 0)
    );
    assert_eq!(
        world.set_linear_velocity(BodyId(2), Vec3i::new(1, 0, 0)),
        Err(RotatingWorldError3d::FixedBodyVelocity(BodyId(2)))
    );

    let hits = world
        .overlap_query(OrientedBox3d::new(
            Vec3i::new(2, 0, 0),
            Vec3i::new(1, 1, 1),
            Orientation3d::identity(),
        ))
        .expect("valid overlap query");
    assert_eq!(hits, vec![BodyId(1), BodyId(2)]);
}

#[test]
fn removing_body_clears_its_interaction_category_before_id_reuse() {
    let id = BodyId(1);
    let category = InteractionCategory3d::new(9);
    let mut world = world(Vec3i::zero());
    world
        .add_box(dynamic(id.0, Vec3i::zero(), Vec3i::zero(), Vec3i::new(1, 1, 1)))
        .expect("add categorized body");
    world
        .set_body_interaction_category(id, category)
        .expect("categorize body");
    assert_eq!(world.body_interaction_category(id), category);

    world.remove_box(id).expect("remove categorized body");
    world
        .add_box(dynamic(id.0, Vec3i::zero(), Vec3i::zero(), Vec3i::new(1, 1, 1)))
        .expect("reuse body id");

    assert_eq!(
        world.body_interaction_category(id),
        InteractionCategory3d::default_category()
    );
}

#[test]
fn boxes_stay_in_id_order_and_removal_returns_the_body() {
    let mut world = world(Vec3i::new(0, -10, 0));
    let third = dynamic(3, Vec3i::new(30, 0, 0), Vec3i::zero(), Vec3i::new(1, 1, 1));
    world.add_box(third).expect("third");
    world
        .add_box(dynamic(1, Vec3i::new(10, 0, 0), Vec3i::zero(), Vec3i::new(1, 1, 1)))
        .expect("first");
    world
        .add_box(fixed(2, Vec3i::new(20, 0, 0), Vec3i::new(1, 1, 1)))
        .expect("second");
    let ids: Vec<BodyId> = world.boxes().iter().map(|b| b.body().id()).collect();
    assert_eq!(ids, vec![BodyId(1), BodyId(2), BodyId(3)]);
    assert_eq!(
        world.add_box(fixed(2, Vec3i::zero(), Vec3i::new(1, 1, 1))),
        Err(RotatingWorldError3d::DuplicateBody(BodyId(2)))
    );

    assert_eq!(world.remove_box(BodyId(3)), Some(third));
    assert_eq!(world.remove_box(BodyId(3)), None);
    let ids: Vec<BodyId> = world.boxes().iter().map(|b| b.body().id()).collect();
    assert_eq!(ids, vec![BodyId(1), BodyId(2)]);
}

#[test]
fn orientation_batches_are_all_or_nothing() {
    let mut world = world(Vec3i::zero());
    world
        .add_box(dynamic(1, Vec3i::zero(), Vec3i::zero(), Vec3i::new(2, 1, 1)))
        .expect("dynamic");
    world
        .add_box(fixed(2, Vec3i::new(10, 0, 0), Vec3i::new(1, 1, 1)))
        .expect("fixed");
    let quarter_turn = Orientation3d::new(0, 0, 7071, 7071);
    assert_eq!(
        world.set_orientations(&[(BodyId(1), quarter_turn), (BodyId(2), quarter_turn)]),
        Err(RotatingWorldError3d::FixedBodyOrientation(BodyId(2)))
    );
    assert_eq!(
        world.box_by_id(BodyId(1)).expect("dynamic").angular().orientation,
        Orientation3d::identity()
    );
    assert_eq!(
        world.set_orientations(&[(BodyId(7), quarter_turn)]),
        Err(RotatingWorldError3d::MissingBody(BodyId(7)))
    );

    world
        .set_orientations(&[(BodyId(1), quarter_turn)])
        .expect("valid batch");
    assert_eq!(
        world.box_by_id(BodyId(1)).expect("dynamic").angular().orientation,
        quarter_turn.normalized().expect("nonzero orientation")
    );
}

#[test]
fn body_overlaps_and_contacts_report_touching_neighbours() {
    let mut world = world(Vec3i::zero());
    world
        .add_box(dynamic(1, Vec3i::zero(), Vec3i::zero(), Vec3i::new(2, 2, 2)))
        .expect("dynamic");
    world
        .add_box(fixed(2, Vec3i::new(3, 0, 0), Vec3i::new(2, 2, 2)))
        .expect("touching fixed");
    world
        .add_box(fixed(3, Vec3i::new(40, 0, 0), Vec3i::new(2, 2, 2)))
        .expect("distant fixed");

    assert_eq!(world.body_overlaps(BodyId(1)), Ok(vec![BodyId(2)]));
    assert_eq!(
        world.body_overlaps(BodyId(9)),
        Err(RotatingWorldError3d::MissingBody(BodyId(9)))
    );

    let contacts = world.body_contacts(BodyId(1)).expect("contacts");
    assert_eq!(contacts.len(), 1);
    assert_eq!(contacts[0].other, BodyId(2));
    assert!(contacts[0].axis[0] > 0);
    assert_eq!(contacts[0].axis[1], 0);
    assert_eq!(contacts[0].axis[2], 0);
    assert_eq!(
        world.body_contacts(BodyId(9)),
        Err(RotatingWorldError3d::MissingBody(BodyId(9)))
    );
}
