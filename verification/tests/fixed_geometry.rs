use physics_engine::{
    AngularState3d, AngularVelocity3d, BodyId, FIXED_GEOMETRY_PREPARATION_VERSION,
    FixedGeometryPreparationCache3d, FixedGeometryPreparationMode3d, Orientation3d,
    OrientedBox3d, RigidBody, RigidBox3d, RotationalSweepBounds3d, Vec3i, exact_bounds,
};

fn fixed(id: u64, position: Vec3i) -> RigidBox3d {
    RigidBox3d::new(
        RigidBody::fixed(BodyId(id), position, Vec3i::new(2, 2, 2)),
        AngularState3d::new(Orientation3d::identity(), AngularVelocity3d::default()),
    )
    .expect("valid fixed box")
}

fn dynamic(id: u64, position: Vec3i) -> RigidBox3d {
    RigidBox3d::new(
        RigidBody::dynamic(BodyId(id), position, Vec3i::zero(), Vec3i::new(2, 2, 2)),
        AngularState3d::new(Orientation3d::identity(), AngularVelocity3d::default()),
    )
    .expect("valid dynamic box")
}

#[test]
fn prepare_at_load_retains_only_genuine_fixed_inputs() {
    let floor = fixed(1, Vec3i::zero());
    let crate_box = dynamic(2, Vec3i::new(0, 4, 0));
    let mut cache = FixedGeometryPreparationCache3d::default();
    cache.set_mode(FixedGeometryPreparationMode3d::PrepareAtLoad, &[floor, crate_box]);

    let stats = cache.stats();
    assert_eq!(stats.prepared_body_count, 1);
    assert_eq!(stats.total_preparations, 1);
    assert!(stats.retained_bytes > 0);
}

#[test]
fn removal_and_readdition_refresh_changed_fixed_geometry() {
    let first = fixed(1, Vec3i::zero());
    let moved = fixed(1, Vec3i::new(3, 0, 0));
    let mut cache = FixedGeometryPreparationCache3d::default();
    cache.set_mode(FixedGeometryPreparationMode3d::PrepareAtLoad, &[first]);
    cache.unregister(BodyId(1));
    assert_eq!(cache.stats().prepared_body_count, 0);
    cache.register_fixed(&moved);
    assert_eq!(cache.stats().prepared_body_count, 1);
    assert_eq!(cache.stats().total_preparations, 2);
}

#[test]
fn runtime_cache_retains_nothing() {
    let floor = fixed(1, Vec3i::zero());
    let mut cache = FixedGeometryPreparationCache3d::new();
    cache.register_fixed(&floor);
    let stats = cache.stats();
    assert_eq!(stats.mode, FixedGeometryPreparationMode3d::Runtime);
    assert_eq!(stats.representation_version, FIXED_GEOMETRY_PREPARATION_VERSION);
    assert_eq!(stats.prepared_body_count, 0);
    assert_eq!(stats.total_preparations, 0);
    assert_eq!(stats.retained_bytes, 0);
}

#[test]
fn re_registering_unchanged_geometry_is_not_a_new_preparation() {
    let floor = fixed(1, Vec3i::zero());
    let mut cache = FixedGeometryPreparationCache3d::new();
    cache.set_mode(FixedGeometryPreparationMode3d::PrepareAtLoad, &[floor]);
    cache.register_fixed(&floor);
    assert_eq!(cache.stats().prepared_body_count, 1);
    assert_eq!(cache.stats().total_preparations, 1);
    cache.set_mode(FixedGeometryPreparationMode3d::Runtime, &[floor]);
    assert_eq!(cache.stats().prepared_body_count, 0);
    assert_eq!(cache.stats().total_preparations, 1);
}

#[test]
fn exact_bounds_of_an_axis_aligned_box_are_its_extent() {
    let shape = OrientedBox3d::new(
        Vec3i::new(3, -1, 5),
        Vec3i::new(2, 1, 4),
        Orientation3d::identity(),
    );
    assert_eq!(
        exact_bounds(shape),
        Ok(RotationalSweepBounds3d {
            minimum: [1, -2, 1],
            maximum: [5, 0, 9],
        })
    );
}
