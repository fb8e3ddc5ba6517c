use physics_engine::{
    AngularState3d, AngularVelocity3d, BodyId, EcsRotatingWorld3d,
    FixedGeometryPreparationMode3d, InteractionCategory3d, Orientation3d, OrientedBox3d,
    RigidBody, RigidBox3d, RotatingWorldConfig3d, RotatingWorldError3d, Vec3i,
};

fn world() -> EcsRotatingWorld3d {
    EcsRotatingWorld3d::new(RotatingWorldConfig3d {
        gravity: Vec3i::zero(),
        sample_count: 8,
        refinement_steps: 2,
        solver_passes: 4,
        max_events: 8,
    })
}

fn dynamic(id: u64, position: Vec3i, velocity: Vec3i) -> RigidBox3d {
    RigidBox3d::new(
        RigidBody::dynamic(BodyId(id), position, velocity, Vec3i::new(1, 1, 1)),
        AngularState3d::new(Orientation3d::identity(), AngularVelocity3d::default()),
    )
    .expect("valid ECS physics component")
}

fn fixed(id: u64, position: Vec3i) -> RigidBox3d {
    RigidBox3d::new(
        RigidBody::fixed(BodyId(id), position, Vec3i::new(4, 1, 4)),
        AngularState3d::new(Orientation3d::identity(), AngularVelocity3d::default()),
    )
    .expect("valid fixed physics component")
}

#[test]
fn entity_lifecycle_owns_the_physics_component() {
    let mut world = world();
    let body = dynamic(7, Vec3i::new(1, 2, 3), Vec3i::zero());
    world.add_box(body.clone()).expect("spawn entity");

    assert_eq!(world.entity_count(), 1);
    assert_eq!(world.entities(), vec![BodyId(7)]);
    assert_eq!(world.box_by_id(BodyId(7)), Some(&body));

    assert_eq!(world.remove_box(BodyId(7)), Some(body));
    assert_eq!(world.entity_count(), 0);
    assert!(world.box_by_id(BodyId(7)).is_none());
}

#[test]
fn controlled_velocity_mutates_the_authoritative_body_once() {
    let mut world = world();
    world
        .add_box(dynamic(5, Vec3i::zero(), Vec3i::zero()))
        .expect("spawn controlled entity");

    world
        .set_linear_velocity(BodyId(5), Vec3i::new(120, 0, 0))
        .expect("set physics velocity");

    assert_eq!(
        world
            .box_by_id(BodyId(5))
            .expect("updated authoritative body")
            .body()
            .velocity(),
        Vec3i::new(120, 0, 0)
    );
}

#[test]
fn prepare_at_load_tracks_only_scene_fixed_bodies_and_invalidates_removal() {
    let mut world = world();
    world.add_box(fixed(1, Vec3i::zero())).expect("fixed floor");
    world
        .add_box(dynamic(2, Vec3i::new(0, 2, 0), Vec3i::zero()))
        .expect("dynamic crate");
    world.set_fixed_geometry_preparation_mode(FixedGeometryPreparationMode3d::PrepareAtLoad);
    let prepared = world.fixed_geometry_preparation_stats();
    assert_eq!(prepared.prepared_body_count, 1);
    assert_eq!(prepared.total_preparations, 1);

    world.remove_box(BodyId(1)).expect("remove fixed floor");
    assert_eq!(
        world.fixed_geometry_preparation_stats().prepared_body_count,
        0
    );
}

#[test]
fn runtime_mode_retains_no_fixed_preparation() {
    let mut world = world();
    world.add_box(fixed(1, Vec3i::zero())).expect("fixed floor");
    assert_eq!(
        world.fixed_geometry_preparation_stats().prepared_body_count,
        0
    );
}

#[test]
fn fixed_bodies_added_in_prepare_at_load_mode_are_retained() {
    let mut world = world();
    world.set_fixed_geometry_preparation_mode(FixedGeometryPreparationMode3d::PrepareAtLoad);
    world.add_box(fixed(1, Vec3i::zero())).expect("fixed floor");
    world
        .add_box(dynamic(2, Vec3i::new(0, 5, 0), Vec3i::zero()))
        .expect("dynamic crate");
    let stats = world.fixed_geometry_preparation_stats();
    assert_eq!(stats.mode, FixedGeometryPreparationMode3d::PrepareAtLoad);
    assert_eq!(stats.prepared_body_count, 1);
    assert_eq!(stats.total_preparations, 1);
}

#[test]
fn duplicate_entities_and_fixed_velocity_are_refused() {
    let mut world = world();
    world.add_box(fixed(1, Vec3i::zero())).expect("fixed floor");
    assert_eq!(
        world.add_box(dynamic(1, Vec3i::new(0, 9, 0), Vec3i::zero())),
        Err(RotatingWorldError3d::DuplicateBody(BodyId(1)))
    );
    assert_eq!(
        world.set_linear_velocity(BodyId(1), Vec3i::new(1, 0, 0)),
        Err(RotatingWorldError3d::FixedBodyVelocity(BodyId(1)))
    );
    assert_eq!(
        world.set_linear_velocity(BodyId(9), Vec3i::new(1, 0, 0)),
        Err(RotatingWorldError3d::MissingBody(BodyId(9)))
    );
    assert_eq!(world.entity_count(), 1);
}

#[test]
fn entities_are_listed_in_id_order_and_categories_follow_them() {
    let mut world = world();
    world
        .add_box(dynamic(9, Vec3i::new(50, 0, 0), Vec3i::zero()))
        .expect("first");
    world
        .add_box(dynamic(3, Vec3i::new(-50, 0, 0), Vec3i::zero()))
        .expect("second");
    assert_eq!(world.entities(), vec![BodyId(3), BodyId(9)]);
    world
        .set_body_interaction_category(BodyId(9), InteractionCategory3d::new(4))
        .expect("categorize");
    assert_eq!(
        world.body_interaction_category(BodyId(9)),
        InteractionCategory3d::new(4)
    );
    assert_eq!(
        world.body_interaction_category(BodyId(3)),
        InteractionCategory3d::default_category()
    );
    let hits = world
        .overlap_query(OrientedBox3d::new(
            Vec3i::new(50, 0, 0),
            Vec3i::new(1, 1, 1),
            Orientation3d::identity(),
        ))
        .expect("valid query");
    assert_eq!(hits, vec![BodyId(9)]);
}

#[test]
fn physics_system_mutates_the_authoritative_body_directly() {
    let mut world = world();
    world
        .add_box(dynamic(3, Vec3i::zero(), Vec3i::new(60, 0, 0)))
        .expect("spawn moving entity");

    world.step(1, 60).expect("physics system step");

    assert_eq!(
        world
            .box_by_id(BodyId(3))
            .expect("authoritative body")
            .body()
            .position(),
        Vec3i::new(1, 0, 0)
    );
}

#[test]
fn step_delta_names_only_observably_changed_entities() {
    let mut world = world();
    world
        .add_box(dynamic(1, Vec3i::zero(), Vec3i::new(60, 0, 0)))
        .expect("moving entity");
    for id in 2..=66 {
        world
            .add_box(dynamic(
                id,
                Vec3i::new(i32::try_from(id).expect("small id") * 16, 0, 0),
                Vec3i::zero(),
            ))
            .expect("unrelated stationary entity");
    }

    let report = world.step(1, 60).expect("precise delta step");

    assert_eq!(report.changed_body_ids, vec![BodyId(1)]);
    assert_eq!(
        world
            .box_by_id(BodyId(1))
            .expect("moving entity")
            .body()
            .position(),
        Vec3i::new(1, 0, 0)
    );
    assert_eq!(
        world
            .box_by_id(BodyId(66))
            .expect("stationary entity")
            .body()
            .position(),
        Vec3i::new(66 * 16, 0, 0)
    );
}
