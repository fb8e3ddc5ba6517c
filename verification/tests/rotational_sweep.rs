use physics_engine::{
    ORIENTATION_SCALE, Orientation3d, OrientedBox3d, RotationalSweepBounds3d,
    RotationalSweepError3d, Vec3i, oriented_box_vertices, rotational_sweep_bounds,
    rotational_sweep_bounds_for_center_interval,
};

fn box_at(center: Vec3i, orientation: Orientation3d) -> OrientedBox3d {
    OrientedBox3d::new(center, Vec3i::new(20, 3, 2), orientation)
}

fn assert_contains_vertices(bounds: RotationalSweepBounds3d, box_shape: OrientedBox3d) {
    for vertex in oriented_box_vertices(box_shape).expect("valid oriented box") {
        assert!(bounds.contains([
            i64::from(vertex.x),
            i64::from(vertex.y),
            i64::from(vertex.z),
        ]));
    }
}

#[test]
fn sweep_contains_endpoint_vertices_for_arbitrary_rotation() {
    let start = box_at(Vec3i::new(-12, 5, 4), Orientation3d::identity());
    let end_orientation = Orientation3d::new(0, 0, ORIENTATION_SCALE / 2, ORIENTATION_SCALE)
        .normalized()
        .expect("valid endpoint orientation");
    let end = box_at(Vec3i::new(17, 9, -6), end_orientation);
    let bounds = rotational_sweep_bounds(start, end).expect("valid conservative sweep");

    assert_contains_vertices(bounds, start);
    assert_contains_vertices(bounds, end);
}

#[test]
fn sweep_contains_rotated_midpoint_box() {
    let start = box_at(Vec3i::new(-20, 0, 0), Orientation3d::identity());
    let end = box_at(Vec3i::new(20, 10, 0), Orientation3d::identity());
    let midpoint_orientation = Orientation3d::new(0, 0, ORIENTATION_SCALE, ORIENTATION_SCALE)
        .normalized()
        .expect("valid midpoint orientation");
    let midpoint = box_at(Vec3i::new(0, 5, 0), midpoint_orientation);
    let bounds = rotational_sweep_bounds(start, end).expect("valid conservative sweep");

    assert_contains_vertices(bounds, midpoint);
}

#[test]
fn shape_drift_fails_closed() {
    let start = box_at(Vec3i::zero(), Orientation3d::identity());
    let end = OrientedBox3d::new(
        Vec3i::new(10, 0, 0),
        Vec3i::new(21, 3, 2),
        Orientation3d::identity(),
    );

    assert_eq!(
        rotational_sweep_bounds(start, end),
        Err(RotationalSweepError3d::ShapeMismatch)
    );
}

#[test]
fn invalid_shape_and_orientation_fail_closed() {
    let invalid_shape =
        OrientedBox3d::new(Vec3i::zero(), Vec3i::new(1, 0, 1), Orientation3d::identity());
    assert_eq!(
        rotational_sweep_bounds(invalid_shape, invalid_shape),
        Err(RotationalSweepError3d::InvalidHalfExtents)
    );

    let invalid_orientation = box_at(Vec3i::zero(), Orientation3d::new(0, 0, 0, 0));
    assert!(matches!(
        rotational_sweep_bounds(invalid_orientation, invalid_orientation),
        Err(RotationalSweepError3d::Angular(_))
    ));
}

#[test]
fn sweep_radius_is_the_ceiling_of_the_extent_norm() {
    // |(20, 3, 2)| = sqrt(413), whose ceiling is 21.
    let start = box_at(Vec3i::new(-12, 5, 4), Orientation3d::identity());
    let end = box_at(Vec3i::new(17, 9, -6), Orientation3d::identity());
    let bounds = rotational_sweep_bounds(start, end).expect("valid sweep");

    assert_eq!(bounds.minimum, [-33, -16, -27]);
    assert_eq!(bounds.maximum, [38, 30, 25]);
}

#[test]
fn perfect_square_norm_needs_no_rounding() {
    // |(2, 3, 6)| = 7 exactly.
    let bounds = rotational_sweep_bounds_for_center_interval(
        Vec3i::new(2, 3, 6),
        [0, 0, 0],
        [10, 0, 0],
    )
    .expect("valid interval");

    assert_eq!(bounds.minimum, [-7, -7, -7]);
    assert_eq!(bounds.maximum, [17, 7, 7]);
}

#[test]
fn overflowing_interval_fails_closed() {
    assert_eq!(
        rotational_sweep_bounds_for_center_interval(
            Vec3i::new(1, 1, 1),
            [i64::MIN, 0, 0],
            [0, 0, 0],
        ),
        Err(RotationalSweepError3d::ArithmeticOverflow)
    );
}

#[test]
fn bounds_contain_their_boundary() {
    let bounds = RotationalSweepBounds3d {
        minimum: [-1, -2, -3],
        maximum: [1, 2, 3],
    };

    assert!(bounds.contains([1, -2, 3]));
    assert!(!bounds.contains([2, 0, 0]));
}

#[test]
fn a_quantized_vertex_can_leave_the_enclosing_radius() {
    // The sweep bounds enclose the sphere of radius ceil(|half extents|) = 2; rounding the
    // fixed-point rotation can place a quantized vertex at distance 3 along an axis.
    let shape = OrientedBox3d::new(
        Vec3i::zero(),
        Vec3i::new(1, 1, 1),
        Orientation3d::new(-557, 984, -136, 486),
    );
    let bounds = rotational_sweep_bounds(shape, shape).expect("valid bounds");
    assert_eq!(bounds.minimum, [-2, -2, -2]);
    assert_eq!(bounds.maximum, [2, 2, 2]);
    let vertices = oriented_box_vertices(shape).expect("valid vertices");
    assert!(vertices.iter().any(|vertex| {
        !bounds.contains([vertex.x as i64, vertex.y as i64, vertex.z as i64])
    }));
}
