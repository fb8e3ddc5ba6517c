use vstd::prelude::*;

use crate::angular::{
    AngularError3d, ORIENTATION_SCALE, Orientation3d, components_within_scale, norm_squared,
    spec_normalized,
};
use crate::math::{Vec3i, round_div};
use crate::wide::{RatioOrder, order_of, ratio_order};

verus! {

/// Oriented box geometry independent of world ownership.
#[derive(Clone, Copy, Debug, PartialEq, Eq, Structural, Hash)]
pub struct OrientedBox3d {
    pub center: Vec3i,
    pub half_extents: Vec3i,
    pub orientation: Orientation3d,
}

impl OrientedBox3d {
    pub fn new(center: Vec3i, half_extents: Vec3i, orientation: Orientation3d) -> (shape:
        OrientedBox3d)
        ensures
            shape == (OrientedBox3d { center, half_extents, orientation }),
    {
        OrientedBox3d { center, half_extents, orientation }
    }
}

/// Stable SAT feature that supplied the minimum-penetration axis.
#[derive(Clone, Copy, Debug, PartialEq, Eq, Structural, Hash)]
pub enum ObbAxisFeature3d {
    LeftFace(u8),
    RightFace(u8),
    EdgeEdge { left_axis: u8, right_axis: u8 },
}

/// Exact bounded contact evidence produced by oriented-box SAT.
#[derive(Clone, Copy, Debug, PartialEq, Eq)]
pub struct ObbContactSeed3d {
    /// Primitive SAT axis oriented from the left box toward the right box.
    pub axis: [i128; 3],
    /// Projection overlap along `axis`; divide by the axis length for world-space depth.
    pub overlap_numerator: u128,
    pub axis_length_squared: u128,
    /// Earliest stable feature that produced the minimum-penetration axis.
    pub feature: ObbAxisFeature3d,
    /// Bitmasks over the stable eight-vertex order returned by [`oriented_box_vertices`].
    pub left_support_mask: u8,
    pub right_support_mask: u8,
    /// Number of unique non-degenerate SAT axes that were evaluated.
    pub tested_axes: u8,
    /// Number of unique axes tied for the exact minimum normalized overlap.
    pub minimum_axis_ties: u8,
}

#[derive(Clone, Copy, Debug, PartialEq, Eq, Structural)]
pub enum OrientedBoxError3d {
    InvalidHalfExtents,
    DegenerateGeometry,
    Angular(AngularError3d),
    ArithmeticOverflow,
}

impl From<AngularError3d> for OrientedBoxError3d {
    fn from(value: AngularError3d) -> (error: OrientedBoxError3d)
        ensures
            error == OrientedBoxError3d::Angular(value),
    {
        OrientedBoxError3d::Angular(value)
    }
}

impl vstd::std_specs::convert::FromSpecImpl<AngularError3d> for OrientedBoxError3d {
    open spec fn obeys_from_spec() -> bool {
        true
    }

    open spec fn from_spec(value: AngularError3d) -> OrientedBoxError3d {
        OrientedBoxError3d::Angular(value)
    }
}

// ---------------------------------------------------------------------------------------------
// Rotation and vertices
// ---------------------------------------------------------------------------------------------

/// `round(2 * value / ORIENTATION_SCALE)`.
pub open spec fn scaled_twice(value: int) -> int {
    round_div(2 * value, ORIENTATION_SCALE as int)
}

/// Entry `(row, col)` of the fixed-point rotation matrix of quaternion `q`.
pub open spec fn matrix_entry(q: Orientation3d, row: int, col: int) -> int {
    let x = q.x as int;
    let y = q.y as int;
    let z = q.z as int;
    let w = q.w as int;
    let s = ORIENTATION_SCALE as int;
    if row == 0 {
        if col == 0 {
            s - scaled_twice(y * y + z * z)
        } else if col == 1 {
            scaled_twice(x * y - z * w)
        } else {
            scaled_twice(x * z + y * w)
        }
    } else if row == 1 {
        if col == 0 {
            scaled_twice(x * y + z * w)
        } else if col == 1 {
            s - scaled_twice(x * x + z * z)
        } else {
            scaled_twice(y * z - x * w)
        }
    } else {
        if col == 0 {
            scaled_twice(x * z - y * w)
        } else if col == 1 {
            scaled_twice(y * z + x * w)
        } else {
            s - scaled_twice(x * x + y * y)
        }
    }
}

/// Component `row` of the rotated local basis vector `col` scaled by half extent `half`.
pub open spec fn basis_component(q: Orientation3d, row: int, col: int, half: int) -> int {
    round_div(matrix_entry(q, row, col) * half, ORIENTATION_SCALE as int)
}

/// Sign of local axis `col` at corner `corner` (bit `col` of the corner index selects `+`).
pub open spec fn corner_sign(corner: int, col: int) -> int {
    let bit = if col == 0 {
        corner % 2
    } else if col == 1 {
        (corner / 2) % 2
    } else {
        (corner / 4) % 2
    };
    if bit == 1 {
        1
    } else {
        -1
    }
}

/// Offset of corner `corner` from the center along world axis `row`.
pub open spec fn corner_offset(q: Orientation3d, half_extents: Vec3i, corner: int, row: int) -> int {
    corner_sign(corner, 0) * basis_component(q, row, 0, half_extents.x as int) + corner_sign(
        corner,
        1,
    ) * basis_component(q, row, 1, half_extents.y as int) + corner_sign(corner, 2)
        * basis_component(q, row, 2, half_extents.z as int)
}

/// World coordinate `row` of vertex `corner` of `shape` (before the `i32` range check).
pub open spec fn vertex_coordinate(shape: OrientedBox3d, corner: int, row: int) -> int {
    shape.center.spec_component(row) + corner_offset(
        spec_normalized(shape.orientation),
        shape.half_extents,
        corner,
        row,
    )
}

pub open spec fn fits_i32(value: int) -> bool {
    i32::MIN <= value <= i32::MAX
}

/// Every vertex coordinate of `shape` is representable by the engine's `i32` coordinates.
pub open spec fn vertices_fit(shape: OrientedBox3d) -> bool {
    forall|corner: int, row: int|
        0 <= corner < 8 && 0 <= row < 3 ==> fits_i32(#[trigger] vertex_coordinate(shape, corner, row))
}

pub open spec fn positive_extents(half_extents: Vec3i) -> bool {
    half_extents.x > 0 && half_extents.y > 0 && half_extents.z > 0
}

/// The error that [`oriented_box_vertices`] reports, if any.
pub open spec fn vertices_error(shape: OrientedBox3d) -> Option<OrientedBoxError3d> {
    if !positive_extents(shape.half_extents) {
        Some(OrientedBoxError3d::InvalidHalfExtents)
    } else if norm_squared(shape.orientation) == 0 {
        Some(OrientedBoxError3d::Angular(AngularError3d::ZeroOrientation))
    } else if !vertices_fit(shape) {
        Some(OrientedBoxError3d::ArithmeticOverflow)
    } else {
        None
    }
}

/// `vertices` are exactly the eight quantized corners of `shape` in stable order.
pub open spec fn are_vertices_of(shape: OrientedBox3d, vertices: Seq<Vec3i>) -> bool {
    &&& vertices.len() == 8
    &&& forall|corner: int, row: int|
        0 <= corner < 8 && 0 <= row < 3 ==> (#[trigger] vertices[corner].spec_component(row))
            == vertex_coordinate(shape, corner, row)
}

proof fn lemma_round_div_bounded(n: int, d: int, m: int)
    requires
        d > 0,
        m >= 0,
        -m <= n <= m,
    ensures
        -(m / d + 1) <= round_div(n, d) <= m / d + 1,
{
    vstd::arithmetic::div_mod::lemma_hoist_over_denominator(m, 1, d as nat);
    if n >= 0 {
        vstd::arithmetic::div_mod::lemma_div_is_ordered(n + d / 2, m + d, d);
        vstd::arithmetic::div_mod::lemma_div_pos_is_pos(n + d / 2, d);
    } else {
        vstd::arithmetic::div_mod::lemma_div_is_ordered(-n + d / 2, m + d, d);
        vstd::arithmetic::div_mod::lemma_div_pos_is_pos(-n + d / 2, d);
    }
}

fn div_round_nearest(numerator: i128, denominator: i128) -> (quotient: i128)
    requires
        denominator > 0,
        -0x4000_0000_0000_0000_0000_0000_0000_0000 <= numerator
            <= 0x4000_0000_0000_0000_0000_0000_0000_0000,
        denominator <= 0x4000_0000_0000_0000_0000_0000_0000_0000,
    ensures
        quotient == round_div(numerator as int, denominator as int),
{
    let half = denominator / 2;
    if numerator >= 0 {
        (numerator + half) / denominator
    } else {
        -((-numerator + half) / denominator)
    }
}

proof fn lemma_product_bound(a: int, b: int, ma: int, mb: int)
    requires
        -ma <= a <= ma,
        -mb <= b <= mb,
        ma >= 0,
        mb >= 0,
    ensures
        -(ma * mb) <= a * b <= ma * mb,
{
    assert(-(ma * mb) <= a * b <= ma * mb) by (nonlinear_arith)
        requires
            -ma <= a <= ma,
            -mb <= b <= mb,
            ma >= 0,
            mb >= 0,
    ;
}

fn scaled_twice_exec(value: i128) -> (result: i128)
    requires
        -0x2000_0000_0000_0000 <= value <= 0x2000_0000_0000_0000,
    ensures
        result == scaled_twice(value as int),
        -0x1_0000_0001 <= result <= 0x1_0000_0001,
{
    proof {
        lemma_round_div_bounded(2 * value, ORIENTATION_SCALE as int, 0x4000_0000_0000_0000);
    }
    div_round_nearest(value * 2, ORIENTATION_SCALE as i128)
}

/// The fixed-point rotation matrix of a normalized quaternion; entries are bounded by `2^33`.
pub(crate) fn rotation_matrix(q: Orientation3d) -> (matrix: [[i128; 3]; 3])
    requires
        components_within_scale(q),
    ensures
        forall|row: int, col: int|
            0 <= row < 3 && 0 <= col < 3 ==> (#[trigger] matrix[row][col]) == matrix_entry(
                q,
                row,
                col,
            ) && -0x2_0000_0000 <= matrix[row][col] <= 0x2_0000_0000,
{
    let x = q.x as i128;
    let y = q.y as i128;
    let z = q.z as i128;
    let w = q.w as i128;
    let s = ORIENTATION_SCALE as i128;
    proof {
        let m = 0x4000_0000int;
        lemma_product_bound(x as int, x as int, m, m);
        lemma_product_bound(y as int, y as int, m, m);
        lemma_product_bound(z as int, z as int, m, m);
        lemma_product_bound(x as int, y as int, m, m);
        lemma_product_bound(x as int, z as int, m, m);
        lemma_product_bound(y as int, z as int, m, m);
        lemma_product_bound(x as int, w as int, m, m);
        lemma_product_bound(y as int, w as int, m, m);
        lemma_product_bound(z as int, w as int, m, m);
    }
    let xx = x * x;
    let yy = y * y;
    let zz = z * z;
    let xy = x * y;
    let xz = x * z;
    let yz = y * z;
    let xw = x * w;
    let yw = y * w;
    let zw = z * w;
    [
        [s - scaled_twice_exec(yy + zz), scaled_twice_exec(xy - zw), scaled_twice_exec(xz + yw)],
        [scaled_twice_exec(xy + zw), s - scaled_twice_exec(xx + zz), scaled_twice_exec(yz - xw)],
        [scaled_twice_exec(xz - yw), scaled_twice_exec(yz + xw), s - scaled_twice_exec(xx + yy)],
    ]
}

fn basis_component_exec(entry: i128, half: i32) -> (component: i64)
    requires
        -0x2_0000_0000 <= entry <= 0x2_0000_0000,
    ensures
        component == round_div(entry * half, ORIENTATION_SCALE as int),
        -0x4_0000_0001 <= component <= 0x4_0000_0001,
{
    proof {
        lemma_product_bound(entry as int, half as int, 0x2_0000_0000, 0x8000_0000);
        lemma_round_div_bounded(
            entry * half,
            ORIENTATION_SCALE as int,
            0x2_0000_0000int * 0x8000_0000int,
        );
    }
    div_round_nearest(entry * (half as i128), ORIENTATION_SCALE as i128) as i64
}

fn corner_sign_exec(corner: usize, col: usize) -> (sign: i64)
    requires
        corner < 8,
        col < 3,
    ensures
        sign == corner_sign(corner as int, col as int),
{
    let bit = if col == 0 {
        corner % 2
    } else if col == 1 {
        (corner / 2) % 2
    } else {
        (corner / 4) % 2
    };
    if bit == 1 {
        1
    } else {
        -1
    }
}

fn oriented_box_offsets(half_extents: Vec3i, orientation: Orientation3d) -> (result: Result<
    [[i64; 3]; 8],
    OrientedBoxError3d,
>)
    ensures
        match result {
            Ok(offsets) => {
                &&& positive_extents(half_extents)
                &&& norm_squared(orientation) > 0
                &&& forall|corner: int, row: int|
                    0 <= corner < 8 && 0 <= row < 3 ==> (#[trigger] offsets[corner][row])
                        == corner_offset(spec_normalized(orientation), half_extents, corner, row)
                        && -0x10_0000_0000 <= offsets[corner][row] <= 0x10_0000_0000
            },
            Err(e) => if !positive_extents(half_extents) {
                e == OrientedBoxError3d::InvalidHalfExtents
            } else {
                norm_squared(orientation) == 0 && e == OrientedBoxError3d::Angular(
                    AngularError3d::ZeroOrientation,
                )
            },
        },
{
    if half_extents.x <= 0 || half_extents.y <= 0 || half_extents.z <= 0 {
        return Err(OrientedBoxError3d::InvalidHalfExtents);
    }
    let q = match orientation.normalized() {
        Ok(q) => q,
        Err(error) => return Err(OrientedBoxError3d::Angular(error)),
    };
    let matrix = rotation_matrix(q);
    let halves = [half_extents.x, half_extents.y, half_extents.z];
    let mut basis: [[i64; 3]; 3] = [[0i64; 3]; 3];
    let mut col: usize = 0;
    while col < 3
        invariant
            0 <= col <= 3,
            halves@ == seq![half_extents.x, half_extents.y, half_extents.z],
            forall|r: int, c: int|
                0 <= r < 3 && 0 <= c < 3 ==> (#[trigger] matrix[r][c]) == matrix_entry(q, r, c)
                    && -0x2_0000_0000 <= matrix[r][c] <= 0x2_0000_0000,
            forall|c: int, r: int|
                0 <= c < col && 0 <= r < 3 ==> (#[trigger] basis[c][r]) == basis_component(
                    q,
                    r,
                    c,
                    halves[c] as int,
                ) && -0x4_0000_0001 <= basis[c][r] <= 0x4_0000_0001,
        decreases 3 - col,
    {
        let mut row: usize = 0;
        let mut vector: [i64; 3] = [0i64; 3];
        while row < 3
            invariant
                0 <= row <= 3,
                col < 3,
                forall|r: int, c: int|
                    0 <= r < 3 && 0 <= c < 3 ==> (#[trigger] matrix[r][c]) == matrix_entry(q, r, c)
                        && -0x2_0000_0000 <= matrix[r][c] <= 0x2_0000_0000,
                forall|r: int|
                    0 <= r < row ==> (#[trigger] vector[r]) == basis_component(
                        q,
                        r,
                        col as int,
                        halves[col as int] as int,
                    ) && -0x4_0000_0001 <= vector[r] <= 0x4_0000_0001,
            decreases 3 - row,
        {
            vector[row] = basis_component_exec(matrix[row][col], halves[col]);
            row = row + 1;
        }
        basis[col] = vector;
        col = col + 1;
    }
    let mut offsets: [[i64; 3]; 8] = [[0i64; 3]; 8];
    let mut corner: usize = 0;
    while corner < 8
        invariant
            0 <= corner <= 8,
            halves@ == seq![half_extents.x, half_extents.y, half_extents.z],
            forall|c: int, r: int|
                0 <= c < 3 && 0 <= r < 3 ==> (#[trigger] basis[c][r]) == basis_component(
                    q,
                    r,
                    c,
                    halves[c] as int,
                ) && -0x4_0000_0001 <= basis[c][r] <= 0x4_0000_0001,
            forall|k: int, r: int|
                0 <= k < corner && 0 <= r < 3 ==> (#[trigger] offsets[k][r]) == corner_offset(
                    q,
                    half_extents,
                    k,
                    r,
                ) && -0x10_0000_0000 <= offsets[k][r] <= 0x10_0000_0000,
        decreases 8 - corner,
    {
        let mut offset: [i64; 3] = [0i64; 3];
        let mut row: usize = 0;
        while row < 3
            invariant
                0 <= row <= 3,
                corner < 8,
                halves@ == seq![half_extents.x, half_extents.y, half_extents.z],
                forall|c: int, r: int|
                    0 <= c < 3 && 0 <= r < 3 ==> (#[trigger] basis[c][r]) == basis_component(
                        q,
                        r,
                        c,
                        halves[c] as int,
                    ) && -0x4_0000_0001 <= basis[c][r] <= 0x4_0000_0001,
                forall|r: int|
                    0 <= r < row ==> (#[trigger] offset[r]) == corner_offset(
                        q,
                        half_extents,
                        corner as int,
                        r,
                    ) && -0x10_0000_0000 <= offset[r] <= 0x10_0000_0000,
            decreases 3 - row,
        {
            let s0 = corner_sign_exec(corner, 0);
            let s1 = corner_sign_exec(corner, 1);
            let s2 = corner_sign_exec(corner, 2);
            let t0 = if s0 == 1 {
                basis[0][row]
            } else {
                -basis[0][row]
            };
            let t1 = if s1 == 1 {
                basis[1][row]
            } else {
                -basis[1][row]
            };
            let t2 = if s2 == 1 {
                basis[2][row]
            } else {
                -basis[2][row]
            };
            offset[row] = t0 + t1 + t2;
            row = row + 1;
        }
        offsets[corner] = offset;
        corner = corner + 1;
    }
    Ok(offsets)
}

/// Returns the eight quantized world-space vertices of an oriented box in stable local-corner
/// order (corner bit `k` selects the positive half extent along local axis `k`).
pub fn oriented_box_vertices(box_shape: OrientedBox3d) -> (result: Result<
    [Vec3i; 8],
    OrientedBoxError3d,
>)
    ensures
        match result {
            Ok(vertices) => vertices_error(box_shape) is None && are_vertices_of(
                box_shape,
                vertices@,
            ),
            Err(e) => vertices_error(box_shape) == Some(e),
        },
{
    let offsets = match oriented_box_offsets(box_shape.half_extents, box_shape.orientation) {
        Ok(offsets) => offsets,
        Err(e) => return Err(e),
    };
    let center = box_shape.center;
    let mut vertices: [Vec3i; 8] = [center;8];
    let mut corner: usize = 0;
    while corner < 8
        invariant
            0 <= corner <= 8,
            center == box_shape.center,
            positive_extents(box_shape.half_extents),
            norm_squared(box_shape.orientation) > 0,
            forall|k: int, r: int|
                0 <= k < 8 && 0 <= r < 3 ==> (#[trigger] offsets[k][r]) == corner_offset(
                    spec_normalized(box_shape.orientation),
                    box_shape.half_extents,
                    k,
                    r,
                ) && -0x10_0000_0000 <= offsets[k][r] <= 0x10_0000_0000,
            forall|k: int, r: int|
                0 <= k < corner && 0 <= r < 3 ==> (#[trigger] vertices[k].spec_component(r))
                    == vertex_coordinate(box_shape, k, r),
        decreases 8 - corner,
    {
        let x = (center.x as i64) + offsets[corner][0];
        let y = (center.y as i64) + offsets[corner][1];
        let z = (center.z as i64) + offsets[corner][2];
        if x < i32::MIN as i64 || x > i32::MAX as i64 || y < i32::MIN as i64 || y > i32::MAX as i64
            || z < i32::MIN as i64 || z > i32::MAX as i64 {
            proof {
                if x < i32::MIN as i64 || x > i32::MAX as i64 {
                    assert(!fits_i32(vertex_coordinate(box_shape, corner as int, 0)));
                } else if y < i32::MIN as i64 || y > i32::MAX as i64 {
                    assert(!fits_i32(vertex_coordinate(box_shape, corner as int, 1)));
                } else {
                    assert(!fits_i32(vertex_coordinate(box_shape, corner as int, 2)));
                }
            }
            return Err(OrientedBoxError3d::ArithmeticOverflow);
        }
        vertices[corner] = Vec3i { x: x as i32, y: y as i32, z: z as i32 };
        corner = corner + 1;
    }
    proof {
        assert forall|k: int, r: int| 0 <= k < 8 && 0 <= r < 3 implies fits_i32(
            #[trigger] vertex_coordinate(box_shape, k, r),
        ) by {
            assert(vertices[k].spec_component(r) == vertex_coordinate(box_shape, k, r));
        }
    }
    Ok(vertices)
}


// ---------------------------------------------------------------------------------------------
// Separating-axis evaluation
// ---------------------------------------------------------------------------------------------

/// The maximum number of unique SAT axes: three faces per box and nine edge-edge crosses.
pub const MAX_SAT_AXES: usize = 15;

/// The vertices of `shape` as exact integers (meaningful when `vertices_error(shape)` is `None`).
pub open spec fn spec_vertices(shape: OrientedBox3d) -> Seq<Vec3i> {
    Seq::new(
        8,
        |corner: int|
            Vec3i {
                x: vertex_coordinate(shape, corner, 0) as i32,
                y: vertex_coordinate(shape, corner, 1) as i32,
                z: vertex_coordinate(shape, corner, 2) as i32,
            },
    )
}

pub proof fn lemma_vertices_are_spec(shape: OrientedBox3d, vertices: Seq<Vec3i>)
    requires
        are_vertices_of(shape, vertices),
    ensures
        vertices == spec_vertices(shape),
{
    assert forall|corner: int| 0 <= corner < 8 implies vertices[corner] == spec_vertices(
        shape,
    )[corner] by {
        assert(vertices[corner].spec_component(0) == vertex_coordinate(shape, corner, 0));
        assert(vertices[corner].spec_component(1) == vertex_coordinate(shape, corner, 1));
        assert(vertices[corner].spec_component(2) == vertex_coordinate(shape, corner, 2));
    }
    assert(vertices =~= spec_vertices(shape));
}

pub open spec fn axis_of(a: [i128; 3]) -> (int, int, int) {
    (a[0] as int, a[1] as int, a[2] as int)
}

pub open spec fn abs(value: int) -> int {
    if value < 0 {
        -value
    } else {
        value
    }
}

pub open spec fn axis_bounded(a: (int, int, int), bound: int) -> bool {
    abs(a.0) <= bound && abs(a.1) <= bound && abs(a.2) <= bound
}

pub open spec fn vector_delta(from: Vec3i, to: Vec3i) -> (int, int, int) {
    (to.x - from.x, to.y - from.y, to.z - from.z)
}

/// Target corner of box edge `k` (edges leave corner 0 along local x, y and z).
pub open spec fn edge_target(k: int) -> int {
    if k == 0 {
        1
    } else if k == 1 {
        2
    } else {
        4
    }
}

pub open spec fn box_edge(vertices: Seq<Vec3i>, k: int) -> (int, int, int) {
    vector_delta(vertices[0], vertices[edge_target(k)])
}

pub open spec fn cross(a: (int, int, int), b: (int, int, int)) -> (int, int, int) {
    (a.1 * b.2 - a.2 * b.1, a.2 * b.0 - a.0 * b.2, a.0 * b.1 - a.1 * b.0)
}

/// Face normal `k` of a box, perpendicular to the other two edges.
pub open spec fn face_axis(vertices: Seq<Vec3i>, k: int) -> (int, int, int) {
    if k == 0 {
        cross(box_edge(vertices, 1), box_edge(vertices, 2))
    } else if k == 1 {
        cross(box_edge(vertices, 2), box_edge(vertices, 0))
    } else {
        cross(box_edge(vertices, 0), box_edge(vertices, 1))
    }
}

/// Greatest common divisor (Euclid); `gcd(0, 0) == 0`.
pub open spec fn gcd(a: nat, b: nat) -> nat
    decreases b,
{
    if b == 0 {
        a
    } else {
        gcd(b, a % b)
    }
}

pub open spec fn axis_gcd(a: (int, int, int)) -> nat {
    gcd(gcd(abs(a.0) as nat, abs(a.1) as nat), abs(a.2) as nat)
}

pub open spec fn reduce_component(component: int, divisor: int) -> int {
    if component < 0 {
        -((-component) / divisor)
    } else {
        component / divisor
    }
}

pub open spec fn leading_negative(a: (int, int, int)) -> bool {
    a.0 < 0 || (a.0 == 0 && (a.1 < 0 || (a.1 == 0 && a.2 < 0)))
}

pub open spec fn negate(a: (int, int, int)) -> (int, int, int) {
    (-a.0, -a.1, -a.2)
}

/// The primitive direction of `a`: divided by the gcd of its components and oriented so that the
/// first non-zero component is positive; `None` for the zero vector.
pub open spec fn primitive_axis(a: (int, int, int)) -> Option<(int, int, int)> {
    let g = axis_gcd(a) as int;
    if g == 0 {
        None
    } else {
        let reduced = (
            reduce_component(a.0, g),
            reduce_component(a.1, g),
            reduce_component(a.2, g),
        );
        Some(
            if leading_negative(reduced) {
                negate(reduced)
            } else {
                reduced
            },
        )
    }
}

/// SAT axis source `index`: three left faces, three right faces, then the nine ordered
/// left-edge x right-edge crosses. The flag marks the face axes, which must be non-degenerate.
pub open spec fn candidate_source(left: Seq<Vec3i>, right: Seq<Vec3i>, index: int) -> (
    (int, int, int),
    ObbAxisFeature3d,
    bool,
) {
    if index < 3 {
        (face_axis(left, index), ObbAxisFeature3d::LeftFace(index as u8), true)
    } else if index < 6 {
        (face_axis(right, index - 3), ObbAxisFeature3d::RightFace((index - 3) as u8), true)
    } else {
        let k = index - 6;
        (
            cross(box_edge(left, k / 3), box_edge(right, k % 3)),
            ObbAxisFeature3d::EdgeEdge { left_axis: (k / 3) as u8, right_axis: (k % 3) as u8 },
            false,
        )
    }
}

pub open spec fn has_axis(axes: Seq<((int, int, int), ObbAxisFeature3d)>, a: (int, int, int)) -> bool {
    exists|i: int| 0 <= i < axes.len() && (#[trigger] axes[i]).0 == a
}

/// The unique candidate axes after the first `count` sources, in first-seen order.
pub open spec fn candidate_axes(left: Seq<Vec3i>, right: Seq<Vec3i>, count: nat) -> Result<
    Seq<((int, int, int), ObbAxisFeature3d)>,
    OrientedBoxError3d,
>
    decreases count,
{
    if count == 0 {
        Ok(Seq::empty())
    } else {
        match candidate_axes(left, right, (count - 1) as nat) {
            Err(e) => Err(e),
            Ok(axes) => {
                let source = candidate_source(left, right, count - 1);
                match primitive_axis(source.0) {
                    None => if source.2 {
                        Err(OrientedBoxError3d::DegenerateGeometry)
                    } else {
                        Ok(axes)
                    },
                    Some(a) => if has_axis(axes, a) {
                        Ok(axes)
                    } else if axes.len() >= MAX_SAT_AXES {
                        Err(OrientedBoxError3d::ArithmeticOverflow)
                    } else {
                        Ok(axes.push((a, source.1)))
                    },
                }
            },
        }
    }
}

pub open spec fn dot(v: Vec3i, a: (int, int, int)) -> int {
    v.x * a.0 + v.y * a.1 + v.z * a.2
}

pub open spec fn max(a: int, b: int) -> int {
    if a >= b {
        a
    } else {
        b
    }
}

pub open spec fn min(a: int, b: int) -> int {
    if a <= b {
        a
    } else {
        b
    }
}

/// Largest projection of the first `count` vertices onto `a`.
pub open spec fn projection_max(vertices: Seq<Vec3i>, a: (int, int, int), count: nat) -> int
    decreases count,
{
    if count <= 1 {
        dot(vertices[0], a)
    } else {
        max(projection_max(vertices, a, (count - 1) as nat), dot(vertices[count - 1], a))
    }
}

/// Smallest projection of the first `count` vertices onto `a`.
pub open spec fn projection_min(vertices: Seq<Vec3i>, a: (int, int, int), count: nat) -> int
    decreases count,
{
    if count <= 1 {
        dot(vertices[0], a)
    } else {
        min(projection_min(vertices, a, (count - 1) as nat), dot(vertices[count - 1], a))
    }
}

/// Axis `a` separates the two vertex sets (touching is not separation).
pub open spec fn separates(left: Seq<Vec3i>, right: Seq<Vec3i>, a: (int, int, int)) -> bool {
    projection_max(left, a, 8) < projection_min(right, a, 8) || projection_max(right, a, 8)
        < projection_min(left, a, 8)
}

/// Overlap of the two projection intervals on `a`.
pub open spec fn projection_overlap(left: Seq<Vec3i>, right: Seq<Vec3i>, a: (int, int, int)) -> int {
    min(projection_max(left, a, 8), projection_max(right, a, 8)) - max(
        projection_min(left, a, 8),
        projection_min(right, a, 8),
    )
}

pub open spec fn length_squared(a: (int, int, int)) -> int {
    a.0 * a.0 + a.1 * a.1 + a.2 * a.2
}

/// Normalized overlap on `a` is strictly smaller than on `b`
/// (`overlap_a^2 / |a|^2 < overlap_b^2 / |b|^2`).
pub open spec fn overlap_less(left: Seq<Vec3i>, right: Seq<Vec3i>, a: (int, int, int), b: (
    int,
    int,
    int,
)) -> bool {
    let oa = projection_overlap(left, right, a);
    let ob = projection_overlap(left, right, b);
    oa * oa * length_squared(b) < ob * ob * length_squared(a)
}

pub open spec fn overlap_equal(left: Seq<Vec3i>, right: Seq<Vec3i>, a: (int, int, int), b: (
    int,
    int,
    int,
)) -> bool {
    let oa = projection_overlap(left, right, a);
    let ob = projection_overlap(left, right, b);
    oa * oa * length_squared(b) == ob * ob * length_squared(a)
}

/// State of the in-order scan of candidate axes.
pub enum SatScan {
    /// A candidate axis separates the boxes.
    Separated,
    /// A candidate axis length overflowed before any separation was found.
    Overflow,
    /// Every scanned axis overlaps; `best` is the first axis of minimum normalized overlap
    /// (`-1` before any axis) and `ties` counts the scanned axes equal to it.
    Overlapping { best: int, ties: int },
}

pub open spec fn sat_scan(
    left: Seq<Vec3i>,
    right: Seq<Vec3i>,
    axes: Seq<((int, int, int), ObbAxisFeature3d)>,
    count: nat,
) -> SatScan
    decreases count,
{
    if count == 0 {
        SatScan::Overlapping { best: -1, ties: 0 }
    } else {
        match sat_scan(left, right, axes, (count - 1) as nat) {
            SatScan::Overlapping { best, ties } => {
                let index = count - 1;
                let a = axes[index].0;
                if separates(left, right, a) {
                    SatScan::Separated
                } else if length_squared(a) > u128::MAX {
                    SatScan::Overflow
                } else if best < 0 || overlap_less(left, right, a, axes[best].0) {
                    SatScan::Overlapping { best: index, ties: 1 }
                } else if overlap_equal(left, right, a, axes[best].0) {
                    SatScan::Overlapping { best, ties: ties + 1 }
                } else {
                    SatScan::Overlapping { best, ties }
                }
            },
            other => other,
        }
    }
}

/// `a` turned, if needed, so that it points from the left center toward the right center.
pub open spec fn orient_toward(left_center: Vec3i, right_center: Vec3i, a: (int, int, int)) -> (
    int,
    int,
    int,
) {
    let delta = vector_delta(left_center, right_center);
    if delta.0 * a.0 + delta.1 * a.1 + delta.2 * a.2 < 0 {
        negate(a)
    } else {
        a
    }
}

pub open spec fn bit(index: int) -> int {
    vstd::arithmetic::power2::pow2(index as nat) as int
}

/// Bitmask over the first `count` vertices whose projection onto `a` equals `target`.
pub open spec fn support_mask_of(vertices: Seq<Vec3i>, a: (int, int, int), target: int, count: nat) -> int
    decreases count,
{
    if count == 0 {
        0
    } else {
        support_mask_of(vertices, a, target, (count - 1) as nat) + if dot(vertices[count - 1], a)
            == target {
            bit(count - 1)
        } else {
            0
        }
    }
}

/// The SAT outcome for two boxes.
pub enum SatOutcome {
    Failure(OrientedBoxError3d),
    Separated,
    Contact {
        axes: Seq<((int, int, int), ObbAxisFeature3d)>,
        best: int,
        ties: int,
        axis: (int, int, int),
        left_mask: int,
        right_mask: int,
    },
}

pub open spec fn sat_outcome(left: OrientedBox3d, right: OrientedBox3d) -> SatOutcome {
    if vertices_error(left) is Some {
        SatOutcome::Failure(vertices_error(left)->Some_0)
    } else if vertices_error(right) is Some {
        SatOutcome::Failure(vertices_error(right)->Some_0)
    } else {
        let lv = spec_vertices(left);
        let rv = spec_vertices(right);
        match candidate_axes(lv, rv, 15) {
            Err(e) => SatOutcome::Failure(e),
            Ok(axes) => if axes.len() < 3 || axes.len() > MAX_SAT_AXES {
                SatOutcome::Failure(OrientedBoxError3d::DegenerateGeometry)
            } else {
                match sat_scan(lv, rv, axes, axes.len()) {
                    SatScan::Separated => SatOutcome::Separated,
                    SatScan::Overflow => SatOutcome::Failure(OrientedBoxError3d::ArithmeticOverflow),
                    SatScan::Overlapping { best, ties } => {
                        let axis = orient_toward(left.center, right.center, axes[best].0);
                        let left_mask = support_mask_of(lv, axis, projection_max(lv, axis, 8), 8);
                        let right_mask = support_mask_of(rv, axis, projection_min(rv, axis, 8), 8);
                        if left_mask == 0 || right_mask == 0 {
                            SatOutcome::Failure(OrientedBoxError3d::DegenerateGeometry)
                        } else {
                            SatOutcome::Contact { axes, best, ties, axis, left_mask, right_mask }
                        }
                    },
                }
            },
        }
    }
}

/// `seed` reports the SAT contact `outcome` between the two boxes.
pub open spec fn seed_matches(
    left: OrientedBox3d,
    right: OrientedBox3d,
    outcome: SatOutcome,
    seed: ObbContactSeed3d,
) -> bool {
    match outcome {
        SatOutcome::Contact { axes, best, ties, axis, left_mask, right_mask } => {
            let lv = spec_vertices(left);
            let rv = spec_vertices(right);
            &&& axis_of(seed.axis) == axis
            &&& seed.overlap_numerator == projection_overlap(lv, rv, axes[best].0)
            &&& seed.axis_length_squared == length_squared(axes[best].0)
            &&& seed.feature == axes[best].1
            &&& seed.left_support_mask == left_mask
            &&& seed.right_support_mask == right_mask
            &&& seed.tested_axes == axes.len()
            &&& seed.minimum_axis_ties == ties
        },
        _ => false,
    }
}

// ---------------------------------------------------------------------------------------------
// Executable SAT
// ---------------------------------------------------------------------------------------------

pub(crate) proof fn lemma_gcd_bounded(a: nat, b: nat)
    ensures
        a > 0 ==> 0 < gcd(a, b) <= a,
        b > 0 ==> 0 < gcd(a, b) <= b,
        a == 0 && b == 0 ==> gcd(a, b) == 0,
    decreases b,
{
    if b > 0 {
        let r = a % b;
        vstd::arithmetic::div_mod::lemma_mod_bound(a as int, b as int);
        lemma_gcd_bounded(b, r);
        if a > 0 {
            if r == 0 {
                if a < b {
                    vstd::arithmetic::div_mod::lemma_small_mod(a, b);
                }
            } else {
                vstd::arithmetic::div_mod::lemma_mod_is_mod_recursive(a as int, b as int);
                if a < b {
                    vstd::arithmetic::div_mod::lemma_small_mod(a, b);
                } else {
                    vstd::arithmetic::div_mod::lemma_mod_bound(a as int, b as int);
                }
            }
        }
    }
}

pub(crate) proof fn lemma_axis_gcd_bounded(a: (int, int, int))
    ensures
        axis_gcd(a) == 0 <==> (a.0 == 0 && a.1 == 0 && a.2 == 0),
        a.0 != 0 ==> axis_gcd(a) <= abs(a.0),
        a.1 != 0 ==> axis_gcd(a) <= abs(a.1),
        a.2 != 0 ==> axis_gcd(a) <= abs(a.2),
{
    let x = abs(a.0) as nat;
    let y = abs(a.1) as nat;
    let z = abs(a.2) as nat;
    lemma_gcd_bounded(x, y);
    lemma_gcd_bounded(gcd(x, y), z);
}

pub(crate) proof fn lemma_reduce_bounds(c: int, g: int)
    requires
        g >= 1,
        c != 0 ==> g <= abs(c),
    ensures
        abs(reduce_component(c, g)) <= abs(c),
        c != 0 ==> reduce_component(c, g) != 0,
        c > 0 ==> reduce_component(c, g) > 0,
        c < 0 ==> reduce_component(c, g) < 0,
        c == 0 ==> reduce_component(c, g) == 0,
{
    let m = abs(c);
    vstd::arithmetic::div_mod::lemma_div_is_ordered_by_denominator(m, 1, g);
    vstd::arithmetic::div_mod::lemma_div_basics(m);
    vstd::arithmetic::div_mod::lemma_div_pos_is_pos(m, g);
    if c != 0 {
        vstd::arithmetic::div_mod::lemma_div_is_ordered(g, m, g);
        vstd::arithmetic::div_mod::lemma_div_basics(g);
    }
}

/// A primitive axis is non-zero, no larger than its source, and has positive length.
proof fn lemma_primitive_axis_bounds(a: (int, int, int), bound: int)
    requires
        axis_bounded(a, bound),
        primitive_axis(a) is Some,
    ensures
        axis_bounded(primitive_axis(a)->Some_0, bound),
        length_squared(primitive_axis(a)->Some_0) > 0,
{
    lemma_axis_gcd_bounded(a);
    let g = axis_gcd(a) as int;
    lemma_reduce_bounds(a.0, g);
    lemma_reduce_bounds(a.1, g);
    lemma_reduce_bounds(a.2, g);
    let p = primitive_axis(a)->Some_0;
    assert(p.0 * p.0 >= 0 && p.1 * p.1 >= 0 && p.2 * p.2 >= 0) by (nonlinear_arith);
    if p.0 != 0 {
        assert(p.0 * p.0 > 0) by (nonlinear_arith)
            requires
                p.0 != 0,
        ;
    } else if p.1 != 0 {
        assert(p.1 * p.1 > 0) by (nonlinear_arith)
            requires
                p.1 != 0,
        ;
    } else {
        assert(p.2 * p.2 > 0) by (nonlinear_arith)
            requires
                p.2 != 0,
        ;
    }
}

pub(crate) fn greatest_common_divisor(a: u128, b: u128) -> (divisor: u128)
    ensures
        divisor == gcd(a as nat, b as nat),
{
    let mut left = a;
    let mut right = b;
    while right != 0
        invariant
            gcd(left as nat, right as nat) == gcd(a as nat, b as nat),
        decreases right,
    {
        let remainder = left % right;
        left = right;
        right = remainder;
    }
    left
}

fn magnitude(value: i128) -> (result: u128)
    requires
        value > i128::MIN,
    ensures
        result == abs(value as int),
{
    if value < 0 {
        (-value) as u128
    } else {
        value as u128
    }
}

pub(crate) fn reduce_exec(component: i128, divisor: i128) -> (result: i128)
    requires
        divisor >= 1,
        component > i128::MIN,
    ensures
        result == reduce_component(component as int, divisor as int),
{
    if component < 0 {
        -((-component) / divisor)
    } else {
        component / divisor
    }
}

fn primitive_axis_exec(axis: [i128; 3]) -> (result: Option<[i128; 3]>)
    requires
        axis_bounded(axis_of(axis), 0x4_0000_0000_0000_0000),
    ensures
        match result {
            Some(p) => primitive_axis(axis_of(axis)) == Some(axis_of(p)) && axis_bounded(
                axis_of(p),
                0x4_0000_0000_0000_0000,
            ) && length_squared(axis_of(p)) > 0,
            None => primitive_axis(axis_of(axis)) is None,
        },
{
    let divisor = greatest_common_divisor(
        greatest_common_divisor(magnitude(axis[0]), magnitude(axis[1])),
        magnitude(axis[2]),
    );
    if divisor == 0 {
        return None;
    }
    proof {
        lemma_axis_gcd_bounded(axis_of(axis));
    }
    let g = divisor as i128;
    let reduced = [reduce_exec(axis[0], g), reduce_exec(axis[1], g), reduce_exec(axis[2], g)];
    proof {
        lemma_reduce_bounds(axis[0] as int, g as int);
        lemma_reduce_bounds(axis[1] as int, g as int);
        lemma_reduce_bounds(axis[2] as int, g as int);
    }
    let result = if reduced[0] < 0 || (reduced[0] == 0 && (reduced[1] < 0 || (reduced[1] == 0
        && reduced[2] < 0))) {
        [-reduced[0], -reduced[1], -reduced[2]]
    } else {
        reduced
    };
    proof {
        lemma_primitive_axis_bounds(axis_of(axis), 0x4_0000_0000_0000_0000);
    }
    Some(result)
}

fn position_delta(from: Vec3i, to: Vec3i) -> (delta: [i128; 3])
    ensures
        axis_of(delta) == vector_delta(from, to),
        axis_bounded(axis_of(delta), 0x1_0000_0000),
{
    [
        (to.x as i128) - (from.x as i128),
        (to.y as i128) - (from.y as i128),
        (to.z as i128) - (from.z as i128),
    ]
}

fn cross_exec(a: [i128; 3], b: [i128; 3]) -> (result: [i128; 3])
    requires
        axis_bounded(axis_of(a), 0x1_0000_0000),
        axis_bounded(axis_of(b), 0x1_0000_0000),
    ensures
        axis_of(result) == cross(axis_of(a), axis_of(b)),
        axis_bounded(axis_of(result), 0x4_0000_0000_0000_0000),
{
    proof {
        let m = 0x1_0000_0000int;
        lemma_product_bound(a[1] as int, b[2] as int, m, m);
        lemma_product_bound(a[2] as int, b[1] as int, m, m);
        lemma_product_bound(a[2] as int, b[0] as int, m, m);
        lemma_product_bound(a[0] as int, b[2] as int, m, m);
        lemma_product_bound(a[0] as int, b[1] as int, m, m);
        lemma_product_bound(a[1] as int, b[0] as int, m, m);
    }
    [a[1] * b[2] - a[2] * b[1], a[2] * b[0] - a[0] * b[2], a[0] * b[1] - a[1] * b[0]]
}

fn box_edges(vertices: &[Vec3i; 8]) -> (edges: [[i128; 3]; 3])
    ensures
        forall|k: int|
            0 <= k < 3 ==> axis_of(#[trigger] edges[k]) == box_edge(vertices@, k) && axis_bounded(
                axis_of(edges[k]),
                0x1_0000_0000,
            ),
{
    [
        position_delta(vertices[0], vertices[1]),
        position_delta(vertices[0], vertices[2]),
        position_delta(vertices[0], vertices[4]),
    ]
}

fn face_axes(edges: [[i128; 3]; 3]) -> (faces: [[i128; 3]; 3])
    requires
        forall|k: int| 0 <= k < 3 ==> axis_bounded(axis_of(#[trigger] edges[k]), 0x1_0000_0000),
    ensures
        axis_of(faces[0]) == cross(axis_of(edges[1]), axis_of(edges[2])),
        axis_of(faces[1]) == cross(axis_of(edges[2]), axis_of(edges[0])),
        axis_of(faces[2]) == cross(axis_of(edges[0]), axis_of(edges[1])),
        forall|k: int|
            0 <= k < 3 ==> axis_bounded(axis_of(#[trigger] faces[k]), 0x4_0000_0000_0000_0000),
{
    let e0 = edges[0];
    let e1 = edges[1];
    let e2 = edges[2];
    [cross_exec(e1, e2), cross_exec(e2, e0), cross_exec(e0, e1)]
}

#[derive(Clone, Copy, Debug, PartialEq, Eq)]
struct AxisSeed {
    axis: [i128; 3],
    feature: ObbAxisFeature3d,
}

spec fn seeds_view(seeds: Seq<AxisSeed>) -> Seq<((int, int, int), ObbAxisFeature3d)> {
    seeds.map_values(|seed: AxisSeed| (axis_of(seed.axis), seed.feature))
}

spec fn seeds_bounded(seeds: Seq<AxisSeed>) -> bool {
    forall|i: int|
        0 <= i < seeds.len() ==> axis_bounded(axis_of(#[trigger] seeds[i].axis), 0x4_0000_0000_0000_0000)
            && length_squared(axis_of(seeds[i].axis)) > 0
}

fn push_unique_axis(
    candidate_axes: &mut Vec<AxisSeed>,
    direction: [i128; 3],
    feature: ObbAxisFeature3d,
) -> (result: Result<(), OrientedBoxError3d>)
    ensures
        has_axis(seeds_view(old(candidate_axes)@), axis_of(direction)) ==> result is Ok
            && final(candidate_axes)@ == old(candidate_axes)@,
        !has_axis(seeds_view(old(candidate_axes)@), axis_of(direction)) ==> if old(
            candidate_axes,
        )@.len() >= MAX_SAT_AXES {
            result == Err::<(), OrientedBoxError3d>(OrientedBoxError3d::ArithmeticOverflow)
                && final(candidate_axes)@ == old(candidate_axes)@
        } else {
            result is Ok && final(candidate_axes)@ == old(candidate_axes)@.push(
                AxisSeed { axis: direction, feature },
            )
        },
{
    let mut i: usize = 0;
    while i < candidate_axes.len()
        invariant
            0 <= i <= candidate_axes@.len(),
            candidate_axes@ == old(candidate_axes)@,
            forall|j: int| 0 <= j < i ==> axis_of(#[trigger] candidate_axes@[j].axis) != axis_of(direction),
        decreases candidate_axes@.len() - i,
    {
        let existing = candidate_axes[i].axis;
        if existing[0] == direction[0] && existing[1] == direction[1] && existing[2]
            == direction[2] {
            proof {
                assert(seeds_view(candidate_axes@)[i as int].0 == axis_of(direction));
            }
            return Ok(());
        }
        i = i + 1;
    }
    proof {
        if has_axis(seeds_view(candidate_axes@), axis_of(direction)) {
            let j = choose|j: int|
                0 <= j < seeds_view(candidate_axes@).len() && (#[trigger] seeds_view(
                    candidate_axes@,
                )[j]).0 == axis_of(direction);
            assert(axis_of(candidate_axes@[j].axis) == axis_of(direction));
        }
    }
    if candidate_axes.len() >= MAX_SAT_AXES {
        return Err(OrientedBoxError3d::ArithmeticOverflow);
    }
    candidate_axes.push(AxisSeed { axis: direction, feature });
    Ok(())
}


fn candidate_axes_exec(left_vertices: &[Vec3i; 8], right_vertices: &[Vec3i; 8]) -> (result: Result<
    Vec<AxisSeed>,
    OrientedBoxError3d,
>)
    ensures
        match result {
            Ok(seeds) => candidate_axes(left_vertices@, right_vertices@, 15) == Ok::<
                Seq<((int, int, int), ObbAxisFeature3d)>,
                OrientedBoxError3d,
            >(seeds_view(seeds@)) && seeds_bounded(seeds@),
            Err(e) => candidate_axes(left_vertices@, right_vertices@, 15) == Err::<
                Seq<((int, int, int), ObbAxisFeature3d)>,
                OrientedBoxError3d,
            >(e),
        },
{
    let left_edges = box_edges(left_vertices);
    let right_edges = box_edges(right_vertices);
    let left_faces = face_axes(left_edges);
    let right_faces = face_axes(right_edges);
    let mut seeds: Vec<AxisSeed> = Vec::new();
    let mut index: usize = 0;
    assert(seeds_view(seeds@) =~= Seq::<((int, int, int), ObbAxisFeature3d)>::empty());
    while index < 15
        invariant
            0 <= index <= 15,
            forall|k: int|
                0 <= k < 3 ==> axis_of(#[trigger] left_edges[k]) == box_edge(left_vertices@, k)
                    && axis_bounded(axis_of(left_edges[k]), 0x1_0000_0000),
            forall|k: int|
                0 <= k < 3 ==> axis_of(#[trigger] right_edges[k]) == box_edge(right_vertices@, k)
                    && axis_bounded(axis_of(right_edges[k]), 0x1_0000_0000),
            forall|k: int|
                0 <= k < 3 ==> axis_of(#[trigger] left_faces[k]) == face_axis(left_vertices@, k)
                    && axis_bounded(axis_of(left_faces[k]), 0x4_0000_0000_0000_0000),
            forall|k: int|
                0 <= k < 3 ==> axis_of(#[trigger] right_faces[k]) == face_axis(right_vertices@, k)
                    && axis_bounded(axis_of(right_faces[k]), 0x4_0000_0000_0000_0000),
            candidate_axes(left_vertices@, right_vertices@, index as nat) == Ok::<
                Seq<((int, int, int), ObbAxisFeature3d)>,
                OrientedBoxError3d,
            >(seeds_view(seeds@)),
            seeds_bounded(seeds@),
        decreases 15 - index,
    {
        let (direction, feature, required) = if index < 3 {
            (left_faces[index], ObbAxisFeature3d::LeftFace(index as u8), true)
        } else if index < 6 {
            (right_faces[index - 3], ObbAxisFeature3d::RightFace((index - 3) as u8), true)
        } else {
            let k = index - 6;
            (
                cross_exec(left_edges[k / 3], right_edges[k % 3]),
                ObbAxisFeature3d::EdgeEdge { left_axis: (k / 3) as u8, right_axis: (k % 3) as u8 },
                false,
            )
        };
        proof {
            let source = candidate_source(left_vertices@, right_vertices@, index as int);
            assert(axis_of(direction) == source.0);
            assert(feature == source.1);
            assert(required == source.2);
        }
        let ghost before = seeds@;
        match primitive_axis_exec(direction) {
            None => {
                if required {
                    proof {
                        assert(candidate_axes(left_vertices@, right_vertices@, (index + 1) as nat)
                            == Err::<Seq<((int, int, int), ObbAxisFeature3d)>, OrientedBoxError3d>(
                            OrientedBoxError3d::DegenerateGeometry,
                        ));
                        lemma_candidates_error_persists(
                            left_vertices@,
                            right_vertices@,
                            (index + 1) as nat,
                            15,
                        );
                    }
                    return Err(OrientedBoxError3d::DegenerateGeometry);
                }
            },
            Some(axis) => {
                match push_unique_axis(&mut seeds, axis, feature) {
                    Ok(()) => {},
                    Err(e) => {
                        proof {
                            assert(seeds_view(before).len() == before.len());
                            assert(candidate_axes(
                                left_vertices@,
                                right_vertices@,
                                (index + 1) as nat,
                            ) == Err::<Seq<((int, int, int), ObbAxisFeature3d)>, OrientedBoxError3d>(
                                e,
                            ));
                            lemma_candidates_error_persists(
                                left_vertices@,
                                right_vertices@,
                                (index + 1) as nat,
                                15,
                            );
                        }
                        return Err(e);
                    },
                }
                proof {
                    if seeds@ != before {
                        assert(seeds_view(seeds@) =~= seeds_view(before).push(
                            (axis_of(axis), feature),
                        ));
                    }
                }
            },
        }
        index = index + 1;
    }
    Ok(seeds)
}

fn dot_position(position: Vec3i, axis: [i128; 3]) -> (value: i128)
    requires
        axis_bounded(axis_of(axis), 0x4_0000_0000_0000_0000),
    ensures
        value == dot(position, axis_of(axis)),
        -0x8_0000_0000_0000_0000_0000_0000 <= value <= 0x8_0000_0000_0000_0000_0000_0000,
{
    proof {
        let m = 0x8000_0000int;
        let n = 0x4_0000_0000_0000_0000int;
        lemma_product_bound(position.x as int, axis[0] as int, m, n);
        lemma_product_bound(position.y as int, axis[1] as int, m, n);
        lemma_product_bound(position.z as int, axis[2] as int, m, n);
    }
    (position.x as i128) * axis[0] + (position.y as i128) * axis[1] + (position.z as i128)
        * axis[2]
}

fn projection(vertices: &[Vec3i; 8], axis: [i128; 3]) -> (range: (i128, i128))
    requires
        axis_bounded(axis_of(axis), 0x4_0000_0000_0000_0000),
    ensures
        range.0 == projection_min(vertices@, axis_of(axis), 8),
        range.1 == projection_max(vertices@, axis_of(axis), 8),
        -0x8_0000_0000_0000_0000_0000_0000 <= range.0 <= 0x8_0000_0000_0000_0000_0000_0000,
        -0x8_0000_0000_0000_0000_0000_0000 <= range.1 <= 0x8_0000_0000_0000_0000_0000_0000,
{
    let first = dot_position(vertices[0], axis);
    let mut low = first;
    let mut high = first;
    let mut i: usize = 1;
    while i < 8
        invariant
            1 <= i <= 8,
            axis_bounded(axis_of(axis), 0x4_0000_0000_0000_0000),
            low == projection_min(vertices@, axis_of(axis), i as nat),
            high == projection_max(vertices@, axis_of(axis), i as nat),
            -0x8_0000_0000_0000_0000_0000_0000 <= low <= 0x8_0000_0000_0000_0000_0000_0000,
            -0x8_0000_0000_0000_0000_0000_0000 <= high <= 0x8_0000_0000_0000_0000_0000_0000,
        decreases 8 - i,
    {
        let value = dot_position(vertices[i], axis);
        if value < low {
            low = value;
        }
        if value > high {
            high = value;
        }
        i = i + 1;
    }
    (low, high)
}

fn squared_length(axis: [i128; 3]) -> (result: Option<u128>)
    requires
        axis_bounded(axis_of(axis), 0x4_0000_0000_0000_0000),
    ensures
        match result {
            Some(length) => length == length_squared(axis_of(axis)),
            None => length_squared(axis_of(axis)) > u128::MAX,
        },
{
    let x = magnitude(axis[0]);
    let y = magnitude(axis[1]);
    let z = magnitude(axis[2]);
    proof {
        assert(x * x == axis[0] * axis[0]) by (nonlinear_arith)
            requires
                x == axis[0] || x == -axis[0],
        ;
        assert(y * y == axis[1] * axis[1]) by (nonlinear_arith)
            requires
                y == axis[1] || y == -axis[1],
        ;
        assert(z * z == axis[2] * axis[2]) by (nonlinear_arith)
            requires
                z == axis[2] || z == -axis[2],
        ;
        assert(x * x >= 0 && y * y >= 0 && z * z >= 0) by (nonlinear_arith);
    }
    let xx = match x.checked_mul(x) {
        Some(value) => value,
        None => return None,
    };
    let yy = match y.checked_mul(y) {
        Some(value) => value,
        None => return None,
    };
    let zz = match z.checked_mul(z) {
        Some(value) => value,
        None => return None,
    };
    let partial = match xx.checked_add(yy) {
        Some(value) => value,
        None => return None,
    };
    partial.checked_add(zz)
}

fn orient_toward_right(left: Vec3i, right: Vec3i, axis: [i128; 3]) -> (result: [i128; 3])
    requires
        axis_bounded(axis_of(axis), 0x4_0000_0000_0000_0000),
    ensures
        axis_of(result) == orient_toward(left, right, axis_of(axis)),
        axis_bounded(axis_of(result), 0x4_0000_0000_0000_0000),
{
    let delta = position_delta(left, right);
    proof {
        let m = 0x1_0000_0000int;
        let n = 0x4_0000_0000_0000_0000int;
        lemma_product_bound(delta[0] as int, axis[0] as int, m, n);
        lemma_product_bound(delta[1] as int, axis[1] as int, m, n);
        lemma_product_bound(delta[2] as int, axis[2] as int, m, n);
    }
    if delta[0] * axis[0] + delta[1] * axis[1] + delta[2] * axis[2] < 0 {
        [-axis[0], -axis[1], -axis[2]]
    } else {
        axis
    }
}

proof fn lemma_support_mask_bound(vertices: Seq<Vec3i>, a: (int, int, int), target: int, count: nat)
    requires
        count <= 8,
    ensures
        0 <= support_mask_of(vertices, a, target, count) < bit(count as int),
    decreases count,
{
    vstd::arithmetic::power2::lemma2_to64();
    if count > 0 {
        lemma_support_mask_bound(vertices, a, target, (count - 1) as nat);
    }
}

fn support_mask(vertices: &[Vec3i; 8], axis: [i128; 3], maximum: bool) -> (mask: u8)
    requires
        axis_bounded(axis_of(axis), 0x4_0000_0000_0000_0000),
    ensures
        mask == support_mask_of(
            vertices@,
            axis_of(axis),
            if maximum {
                projection_max(vertices@, axis_of(axis), 8)
            } else {
                projection_min(vertices@, axis_of(axis), 8)
            },
            8,
        ),
{
    let range = projection(vertices, axis);
    let target = if maximum {
        range.1
    } else {
        range.0
    };
    let bits: [u8; 8] = [1, 2, 4, 8, 16, 32, 64, 128];
    let mut mask: u8 = 0;
    let mut i: usize = 0;
    proof {
        vstd::arithmetic::power2::lemma2_to64();
    }
    while i < 8
        invariant
            0 <= i <= 8,
            axis_bounded(axis_of(axis), 0x4_0000_0000_0000_0000),
            bits@ == seq![1u8, 2u8, 4u8, 8u8, 16u8, 32u8, 64u8, 128u8],
            mask == support_mask_of(vertices@, axis_of(axis), target as int, i as nat),
        decreases 8 - i,
    {
        proof {
            vstd::arithmetic::power2::lemma2_to64();
            lemma_support_mask_bound(vertices@, axis_of(axis), target as int, i as nat);
            assert(bits[i as int] == bit(i as int));
        }
        if dot_position(vertices[i], axis) == target {
            mask = mask + bits[i];
        }
        i = i + 1;
    }
    mask
}

/// Evaluates exact integer SAT for the quantized vertices of two oriented boxes.
///
/// Tests each box's three face normals and all nine edge-cross-edge axes (primitive, deduplicated in
/// stable feature order); touching counts as contact. The minimum-penetration axis is the first axis
/// of least normalized overlap, oriented from the left box toward the right box, and the support
/// masks name the tied extreme vertices on it.
pub fn obb_contact_seed(left: OrientedBox3d, right: OrientedBox3d) -> (result: Result<
    Option<ObbContactSeed3d>,
    OrientedBoxError3d,
>)
    ensures
        match result {
            Err(e) => sat_outcome(left, right) == SatOutcome::Failure(e),
            Ok(None) => sat_outcome(left, right) == SatOutcome::Separated,
            Ok(Some(seed)) => seed_matches(left, right, sat_outcome(left, right), seed),
        },
{
    let left_vertices = match oriented_box_vertices(left) {
        Ok(vertices) => vertices,
        Err(e) => return Err(e),
    };
    let right_vertices = match oriented_box_vertices(right) {
        Ok(vertices) => vertices,
        Err(e) => return Err(e),
    };
    proof {
        lemma_vertices_are_spec(left, left_vertices@);
        lemma_vertices_are_spec(right, right_vertices@);
    }
    let ghost lv = left_vertices@;
    let ghost rv = right_vertices@;
    let seeds = match candidate_axes_exec(&left_vertices, &right_vertices) {
        Ok(seeds) => seeds,
        Err(e) => return Err(e),
    };
    let ghost axes = seeds_view(seeds@);
    if seeds.len() < 3 || seeds.len() > MAX_SAT_AXES {
        return Err(OrientedBoxError3d::DegenerateGeometry);
    }
    let mut best: usize = 0;
    let mut best_overlap: u128 = 0;
    let mut best_length: u128 = 0;
    let mut ties: u8 = 0;
    let mut k: usize = 0;
    while k < seeds.len()
        invariant
            0 <= k <= seeds@.len(),
            3 <= seeds@.len() <= 15,
            axes == seeds_view(seeds@),
            seeds_bounded(seeds@),
            lv == left_vertices@,
            rv == right_vertices@,
            lv == spec_vertices(left),
            rv == spec_vertices(right),
            vertices_error(left) is None,
            vertices_error(right) is None,
            candidate_axes(lv, rv, 15) == Ok::<
                Seq<((int, int, int), ObbAxisFeature3d)>,
                OrientedBoxError3d,
            >(axes),
            ties <= k,
            k == 0 ==> sat_scan(lv, rv, axes, k as nat) == (SatScan::Overlapping { best: -1, ties: 0 }),
            k > 0 ==> {
                &&& best < k
                &&& sat_scan(lv, rv, axes, k as nat) == (SatScan::Overlapping {
                    best: best as int,
                    ties: ties as int,
                })
                &&& best_overlap == projection_overlap(lv, rv, axes[best as int].0)
                &&& best_length == length_squared(axes[best as int].0)
            },
        decreases seeds@.len() - k,
    {
        let seed = seeds[k];
        proof {
            assert(axes[k as int].0 == axis_of(seed.axis));
            assert(axis_bounded(axis_of(seeds@[k as int].axis), 0x4_0000_0000_0000_0000));
        }
        let left_range = projection(&left_vertices, seed.axis);
        let right_range = projection(&right_vertices, seed.axis);
        if left_range.1 < right_range.0 || right_range.1 < left_range.0 {
            proof {
                assert(sat_scan(lv, rv, axes, (k + 1) as nat) == SatScan::Separated);
                lemma_scan_stays_separated(lv, rv, axes, (k + 1) as nat, axes.len());
                assert(axes.len() == seeds@.len());
                assert(lv == spec_vertices(left));
                assert(rv == spec_vertices(right));
                assert(vertices_error(left) is None);
                assert(vertices_error(right) is None);
                assert(candidate_axes(lv, rv, 15) == Ok::<
                    Seq<((int, int, int), ObbAxisFeature3d)>,
                    OrientedBoxError3d,
                >(axes));
            }
            return Ok(None);
        }
        let overlap_start = if left_range.0 > right_range.0 {
            left_range.0
        } else {
            right_range.0
        };
        let overlap_end = if left_range.1 < right_range.1 {
            left_range.1
        } else {
            right_range.1
        };
        let overlap = (overlap_end - overlap_start) as u128;
        let length = match squared_length(seed.axis) {
            Some(length) => length,
            None => {
                proof {
                    assert(sat_scan(lv, rv, axes, (k + 1) as nat) == SatScan::Overflow);
                    lemma_scan_stays_overflow(lv, rv, axes, (k + 1) as nat, axes.len());
                }
                return Err(OrientedBoxError3d::ArithmeticOverflow);
            },
        };
        if k == 0 {
            best = 0;
            best_overlap = overlap;
            best_length = length;
            ties = 1;
        } else {
            match ratio_order(overlap, length, best_overlap, best_length) {
                Ok(RatioOrder::Less) => {
                    best = k;
                    best_overlap = overlap;
                    best_length = length;
                    ties = 1;
                },
                Ok(RatioOrder::Equal) => {
                    ties = ties + 1;
                },
                Ok(RatioOrder::Greater) => {},
                Err(e) => {
                    proof {
                        assert(length_squared(axis_of(seeds@[best as int].axis)) > 0);
                    }
                    return Err(e);
                },
            }
        }
        k = k + 1;
    }
    let contact_axis = orient_toward_right(left.center, right.center, seeds[best].axis);
    let left_mask = support_mask(&left_vertices, contact_axis, true);
    let right_mask = support_mask(&right_vertices, contact_axis, false);
    if left_mask == 0 || right_mask == 0 {
        return Err(OrientedBoxError3d::DegenerateGeometry);
    }
    Ok(
        Some(
            ObbContactSeed3d {
                axis: contact_axis,
                overlap_numerator: best_overlap,
                axis_length_squared: best_length,
                feature: seeds[best].feature,
                left_support_mask: left_mask,
                right_support_mask: right_mask,
                tested_axes: seeds.len() as u8,
                minimum_axis_ties: ties,
            },
        ),
    )
}

proof fn lemma_candidates_error_persists(left: Seq<Vec3i>, right: Seq<Vec3i>, from: nat, to: nat)
    requires
        from <= to,
        candidate_axes(left, right, from) is Err,
    ensures
        candidate_axes(left, right, to) == candidate_axes(left, right, from),
    decreases to - from,
{
    if from < to {
        lemma_candidates_error_persists(left, right, from, (to - 1) as nat);
    }
}

proof fn lemma_scan_stays_separated(
    left: Seq<Vec3i>,
    right: Seq<Vec3i>,
    axes: Seq<((int, int, int), ObbAxisFeature3d)>,
    from: nat,
    to: nat,
)
    requires
        from <= to,
        sat_scan(left, right, axes, from) == SatScan::Separated,
    ensures
        sat_scan(left, right, axes, to) == SatScan::Separated,
    decreases to - from,
{
    if from < to {
        lemma_scan_stays_separated(left, right, axes, from, (to - 1) as nat);
    }
}

proof fn lemma_scan_stays_overflow(
    left: Seq<Vec3i>,
    right: Seq<Vec3i>,
    axes: Seq<((int, int, int), ObbAxisFeature3d)>,
    from: nat,
    to: nat,
)
    requires
        from <= to,
        sat_scan(left, right, axes, from) == SatScan::Overflow,
    ensures
        sat_scan(left, right, axes, to) == SatScan::Overflow,
    decreases to - from,
{
    if from < to {
        lemma_scan_stays_overflow(left, right, axes, from, (to - 1) as nat);
    }
}


/// The exact SAT contact of two shapes: the failure, no contact, or the one matching seed.
pub open spec fn contact_of(left: OrientedBox3d, right: OrientedBox3d) -> Result<
    Option<ObbContactSeed3d>,
    OrientedBoxError3d,
> {
    let outcome = sat_outcome(left, right);
    match outcome {
        SatOutcome::Failure(error) => Err(error),
        SatOutcome::Separated => Ok(None),
        SatOutcome::Contact { .. } => Ok(
            Some(choose|seed: ObbContactSeed3d| seed_matches(left, right, outcome, seed)),
        ),
    }
}

/// A SAT outcome determines its contact seed.
pub proof fn lemma_seed_unique(
    left: OrientedBox3d,
    right: OrientedBox3d,
    outcome: SatOutcome,
    a: ObbContactSeed3d,
    b: ObbContactSeed3d,
)
    requires
        seed_matches(left, right, outcome, a),
        seed_matches(left, right, outcome, b),
    ensures
        a == b,
{
    assert(a.axis =~= b.axis);
}

/// [`obb_contact_seed`] stated as the unique value [`contact_of`].
pub fn contact_seed(left: OrientedBox3d, right: OrientedBox3d) -> (result: Result<
    Option<ObbContactSeed3d>,
    OrientedBoxError3d,
>)
    ensures
        result == contact_of(left, right),
{
    let result = obb_contact_seed(left, right);
    proof {
        if let Ok(Some(seed)) = result {
            let outcome = sat_outcome(left, right);
            let chosen = choose|other: ObbContactSeed3d| seed_matches(left, right, outcome, other);
            lemma_seed_unique(left, right, outcome, seed, chosen);
        }
    }
    result
}

} // verus!
