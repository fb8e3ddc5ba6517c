use std::cmp::Ordering;

use physics_engine::{
    ObbAxisFeature3d, Orientation3d, OrientedBox3d, OrientedBoxError3d, Vec3i,
    compare_squared_ratios, obb_contact_seed, oriented_box_vertices, wide_product,
};

fn cube(center: Vec3i) -> OrientedBox3d {
    OrientedBox3d::new(center, Vec3i::new(1, 1, 1), Orientation3d::identity())
}

#[test]
fn identity_vertices_preserve_stable_corner_order() {
    let vertices = oriented_box_vertices(cube(Vec3i::new(0, 0, 0))).expect("valid cube");
    assert_eq!(vertices[0], Vec3i::new(-1, -1, -1));
    assert_eq!(vertices[1], Vec3i::new(1, -1, -1));
    assert_eq!(vertices[7], Vec3i::new(1, 1, 1));
}

#[test]
fn aligned_face_touch_has_stable_four_vertex_supports() {
    let contact = obb_contact_seed(cube(Vec3i::new(0, 0, 0)), cube(Vec3i::new(2, 0, 0)))
        .expect("valid OBB pair")
        .expect("touching cubes should contact");

    assert_eq!(contact.axis, [1, 0, 0]);
    assert_eq!(contact.overlap_numerator, 0);
    assert_eq!(contact.axis_length_squared, 1);
    assert_eq!(contact.feature, ObbAxisFeature3d::LeftFace(0));
    assert_eq!(contact.left_support_mask, 0b1010_1010);
    assert_eq!(contact.right_support_mask, 0b0101_0101);
    assert_eq!(contact.tested_axes, 3);
    assert_eq!(contact.minimum_axis_ties, 1);
}

#[test]
fn aligned_edge_and_corner_touch_preserve_minimum_axis_ties() {
    let edge = obb_contact_seed(cube(Vec3i::new(0, 0, 0)), cube(Vec3i::new(2, 2, 0)))
        .expect("valid OBB pair")
        .expect("edge-touching cubes should contact");
    assert_eq!(edge.minimum_axis_ties, 2);

    let corner = obb_contact_seed(cube(Vec3i::new(0, 0, 0)), cube(Vec3i::new(2, 2, 2)))
        .expect("valid OBB pair")
        .expect("corner-touching cubes should contact");
    assert_eq!(corner.minimum_axis_ties, 3);
}

#[test]
fn separated_boxes_return_no_contact() {
    assert_eq!(
        obb_contact_seed(cube(Vec3i::new(0, 0, 0)), cube(Vec3i::new(3, 0, 0)))
            .expect("valid OBB pair"),
        None
    );
}

#[test]
fn normalized_overlap_comparison_keeps_exact_products_wider_than_u128() {
    let numerator = 373_263_717_518_u128;
    let other_denominator = 2_687_465_820_327_019_u128;

    assert_eq!(
        wide_product([numerator, numerator, other_denominator]),
        Ok([
            0,
            0,
            0,
            1,
            1_851_327_578_378_911_237,
            16_547_754_579_345_353_708,
        ])
    );
    assert_eq!(
        compare_squared_ratios(numerator, 1, 1, other_denominator),
        Ok(Ordering::Greater)
    );
}

#[test]
fn differently_rotated_boxes_use_non_aabb_sat_axes() {
    let left_orientation = Orientation3d::new(0, 0, 410_903_207, 992_008_094)
        .normalized()
        .expect("valid Z-axis orientation");
    let right_orientation = Orientation3d::new(410_903_207, 0, 0, 992_008_094)
        .normalized()
        .expect("valid X-axis orientation");
    let left = OrientedBox3d::new(Vec3i::new(0, 0, 0), Vec3i::new(4, 1, 1), left_orientation);
    let right = OrientedBox3d::new(Vec3i::new(0, 0, 0), Vec3i::new(4, 1, 1), right_orientation);

    let contact = obb_contact_seed(left, right)
        .expect("valid rotated OBB pair")
        .expect("co-centered boxes should overlap");
    assert!(contact.tested_axes > 3);
}

#[test]
fn swapping_boxes_reorients_contact_axis() {
    let left = cube(Vec3i::new(0, 0, 0));
    let right = cube(Vec3i::new(2, 0, 0));
    let forward = obb_contact_seed(left, right)
        .expect("valid OBB pair")
        .expect("touching cubes should contact");
    let reverse = obb_contact_seed(right, left)
        .expect("valid reversed OBB pair")
        .expect("touching cubes should contact");

    assert_eq!(forward.axis, reverse.axis.map(|component| -component));
    assert_eq!(forward.overlap_numerator, reverse.overlap_numerator);
    assert_eq!(forward.axis_length_squared, reverse.axis_length_squared);
}

#[test]
fn invalid_dimensions_and_zero_orientation_fail_closed() {
    let invalid = OrientedBox3d::new(
        Vec3i::new(0, 0, 0),
        Vec3i::new(1, 0, 1),
        Orientation3d::identity(),
    );
    assert_eq!(
        obb_contact_seed(invalid, cube(Vec3i::new(0, 0, 0))),
        Err(OrientedBoxError3d::InvalidHalfExtents)
    );

    let invalid_orientation = OrientedBox3d::new(
        Vec3i::new(0, 0, 0),
        Vec3i::new(1, 1, 1),
        Orientation3d::new(0, 0, 0, 0),
    );
    assert!(matches!(
        obb_contact_seed(invalid_orientation, cube(Vec3i::new(0, 0, 0))),
        Err(OrientedBoxError3d::Angular(_))
    ));
}

#[test]
fn overlapping_cubes_report_penetration_depth_on_the_face_axis() {
    let contact = obb_contact_seed(cube(Vec3i::new(0, 0, 0)), cube(Vec3i::new(0, 1, 0)))
        .expect("valid OBB pair")
        .expect("overlapping cubes should contact");
    assert_eq!(contact.axis, [0, 1, 0]);
    assert_eq!(contact.overlap_numerator, 1);
    assert_eq!(contact.feature, ObbAxisFeature3d::LeftFace(1));
}

#[test]
fn vertices_outside_the_coordinate_range_overflow() {
    let far = OrientedBox3d::new(
        Vec3i::new(i32::MAX, 0, 0),
        Vec3i::new(1, 1, 1),
        Orientation3d::identity(),
    );
    assert_eq!(
        oriented_box_vertices(far),
        Err(OrientedBoxError3d::ArithmeticOverflow)
    );
}

#[test]
fn ratio_comparison_orders_equal_and_smaller_ratios() {
    assert_eq!(compare_squared_ratios(2, 4, 1, 1), Ok(Ordering::Equal));
    assert_eq!(compare_squared_ratios(1, 4, 1, 1), Ok(Ordering::Less));
    assert_eq!(
        compare_squared_ratios(1, 0, 1, 1),
        Err(OrientedBoxError3d::DegenerateGeometry)
    );
}
