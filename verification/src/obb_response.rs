use vstd::prelude::*;

use crate::angular::{
    ANGULAR_VELOCITY_SCALE, AngularError3d, AngularVelocity3d, BoxInertia3d, ORIENTATION_SCALE,
    Orientation3d, box_inertia, inertia_numerator, norm_squared, spec_normalized,
};
use crate::body::{BodyId, BodyKind, MATERIAL_SCALE, Material, RigidBody};
use crate::math::{Vec3i, round_div};
use crate::oriented_box::{
    ObbAxisFeature3d, ObbContactSeed3d, OrientedBoxError3d, SatOutcome, contact_of,
    lemma_seed_unique, lemma_vertices_are_spec,
    matrix_entry, obb_contact_seed, oriented_box_vertices, rotation_matrix, sat_outcome,
    seed_matches, spec_vertices, vertices_error,
};
use crate::rigid_box::RigidBox3d;

verus! {

/// Fixed-point scale of the effective inverse mass used by normal response.
pub const RESPONSE_SCALE: i128 = 0x4_0000_0000_0000;

/// A three-component integer vector in specifications.
pub type Vector3 = (int, int, int);

#[derive(Clone, Copy, Debug, PartialEq, Eq, Structural)]
pub enum ObbContactResponseError3d {
    NonCanonicalPair(BodyId, BodyId),
    RestitutionOutOfRange(BodyId, u16),
    Angular(AngularError3d),
    Geometry(OrientedBoxError3d),
    ArithmeticOverflow,
}

impl From<AngularError3d> for ObbContactResponseError3d {
    fn from(value: AngularError3d) -> (error: ObbContactResponseError3d)
        ensures
            error == ObbContactResponseError3d::Angular(value),
    {
        ObbContactResponseError3d::Angular(value)
    }
}

impl vstd::std_specs::convert::FromSpecImpl<AngularError3d> for ObbContactResponseError3d {
    open spec fn obeys_from_spec() -> bool {
        true
    }

    open spec fn from_spec(value: AngularError3d) -> ObbContactResponseError3d {
        ObbContactResponseError3d::Angular(value)
    }
}

impl From<OrientedBoxError3d> for ObbContactResponseError3d {
    fn from(value: OrientedBoxError3d) -> (error: ObbContactResponseError3d)
        ensures
            error == ObbContactResponseError3d::Geometry(value),
    {
        ObbContactResponseError3d::Geometry(value)
    }
}

impl vstd::std_specs::convert::FromSpecImpl<OrientedBoxError3d> for ObbContactResponseError3d {
    open spec fn obeys_from_spec() -> bool {
        true
    }

    open spec fn from_spec(value: OrientedBoxError3d) -> ObbContactResponseError3d {
        ObbContactResponseError3d::Geometry(value)
    }
}

// ---------------------------------------------------------------------------------------------
// Checked arithmetic
// ---------------------------------------------------------------------------------------------

pub open spec fn fits_i128(value: int) -> bool {
    i128::MIN <= value <= i128::MAX
}

pub open spec fn fits_i64(value: int) -> bool {
    i64::MIN <= value <= i64::MAX
}

pub open spec fn fits_i32(value: int) -> bool {
    i32::MIN <= value <= i32::MAX
}

/// `value` when it is representable as `i128`.
pub open spec fn checked(value: int) -> Option<int> {
    if fits_i128(value) {
        Some(value)
    } else {
        None
    }
}

/// Round-half-away-from-zero division whose half-denominator adjustment stays within `i128`.
pub open spec fn checked_round_div(numerator: int, denominator: int) -> Option<int> {
    if denominator > 0 && fits_i128(
        if numerator >= 0 {
            numerator + denominator / 2
        } else {
            numerator - denominator / 2
        },
    ) {
        Some(round_div(numerator, denominator))
    } else {
        None
    }
}

/// `round(left * right / denominator)` where the product is representable as `u128`.
pub open spec fn checked_mul_div_u128(left: int, right: int, denominator: int) -> Option<int> {
    if denominator > 0 && left * right <= u128::MAX {
        Some(round_div(left * right, denominator))
    } else {
        None
    }
}

/// `round(left * right / denominator)` where the product is representable as `i128`.
pub open spec fn checked_mul_div_i128(left: int, right: int, denominator: int) -> Option<int> {
    if denominator > 0 && fits_i128(left * right) {
        Some(round_div(left * right, denominator))
    } else {
        None
    }
}

/// An executable outcome agrees with a specified checked value.
pub open spec fn agrees(result: Result<i128, ObbContactResponseError3d>, expected: Option<int>) -> bool {
    match result {
        Ok(value) => expected == Some(value as int),
        Err(error) => expected is None && error == ObbContactResponseError3d::ArithmeticOverflow,
    }
}

pub open spec fn agrees3(
    result: Result<[i128; 3], ObbContactResponseError3d>,
    expected: Option<Vector3>,
) -> bool {
    match result {
        Ok(value) => expected == Some(
            (value[0] as int, value[1] as int, value[2] as int),
        ),
        Err(error) => expected is None && error == ObbContactResponseError3d::ArithmeticOverflow,
    }
}

pub(crate) fn checked_mul(left: i128, right: i128) -> (result: Result<i128, ObbContactResponseError3d>)
    ensures
        agrees(result, checked(left * right)),
{
    match left.checked_mul(right) {
        Some(value) => Ok(value),
        None => Err(ObbContactResponseError3d::ArithmeticOverflow),
    }
}

pub(crate) fn checked_add(left: i128, right: i128) -> (result: Result<i128, ObbContactResponseError3d>)
    ensures
        agrees(result, checked(left + right)),
{
    match left.checked_add(right) {
        Some(value) => Ok(value),
        None => Err(ObbContactResponseError3d::ArithmeticOverflow),
    }
}

pub(crate) fn checked_sub(left: i128, right: i128) -> (result: Result<i128, ObbContactResponseError3d>)
    ensures
        agrees(result, checked(left - right)),
{
    match left.checked_sub(right) {
        Some(value) => Ok(value),
        None => Err(ObbContactResponseError3d::ArithmeticOverflow),
    }
}

pub(crate) fn checked_neg(value: i128) -> (result: Result<i128, ObbContactResponseError3d>)
    ensures
        agrees(result, checked(-value)),
{
    if value == i128::MIN {
        Err(ObbContactResponseError3d::ArithmeticOverflow)
    } else {
        Ok(-value)
    }
}

fn to_i32(value: i128) -> (result: Result<i32, ObbContactResponseError3d>)
    ensures
        match result {
            Ok(narrow) => fits_i32(value as int) && narrow == value,
            Err(error) => !fits_i32(value as int) && error
                == ObbContactResponseError3d::ArithmeticOverflow,
        },
{
    if value < i32::MIN as i128 || value > i32::MAX as i128 {
        Err(ObbContactResponseError3d::ArithmeticOverflow)
    } else {
        Ok(value as i32)
    }
}

fn to_i64(value: i128) -> (result: Result<i64, ObbContactResponseError3d>)
    ensures
        match result {
            Ok(narrow) => fits_i64(value as int) && narrow == value,
            Err(error) => !fits_i64(value as int) && error
                == ObbContactResponseError3d::ArithmeticOverflow,
        },
{
    if value < i64::MIN as i128 || value > i64::MAX as i128 {
        Err(ObbContactResponseError3d::ArithmeticOverflow)
    } else {
        Ok(value as i64)
    }
}

/// The magnitude of a signed value.
pub(crate) fn magnitude(value: i128) -> (result: u128)
    ensures
        result == if value < 0 {
            -value
        } else {
            value as int
        },
{
    if value < 0 {
        ((-(value + 1)) as u128) + 1
    } else {
        value as u128
    }
}

/// A non-negative quotient never exceeds its dividend.
proof fn lemma_quotient_bounded(x: int, d: int)
    requires
        x >= 0,
        d >= 1,
    ensures
        0 <= x / d <= x,
{
    vstd::arithmetic::div_mod::lemma_fundamental_div_mod(x, d);
    vstd::arithmetic::div_mod::lemma_div_pos_is_pos(x, d);
    let q = x / d;
    let r = x % d;
    vstd::arithmetic::div_mod::lemma_mod_bound(x, d);
    assert(q <= x) by (nonlinear_arith)
        requires
            x == d * q + r,
            r >= 0,
            q >= 0,
            d >= 1,
    ;
}

/// `round(magnitude / denominator)` with halves rounded up, free of intermediate overflow.
fn round_div_magnitude(magnitude: u128, denominator: u128) -> (quotient: u128)
    requires
        denominator > 0,
    ensures
        quotient == (magnitude + denominator / 2) / (denominator as int),
{
    let half = denominator / 2;
    let quotient = magnitude / denominator;
    let remainder = magnitude % denominator;
    proof {
        let m = magnitude as int;
        let q = quotient as int;
        let r = remainder as int;
        let d = denominator as int;
        let h = half as int;
        vstd::arithmetic::div_mod::lemma_fundamental_div_mod(m, d);
        vstd::arithmetic::div_mod::lemma_mod_bound(m, d);
        assert(m == q * d + r) by (nonlinear_arith)
            requires
                m == d * q + r,
        ;
        if r >= d - h {
            assert(d >= 2);
            assert(q <= u128::MAX / 2) by (nonlinear_arith)
                requires
                    m == q * d + r,
                    m <= u128::MAX,
                    r >= 0,
                    q >= 0,
                    d >= 2,
            ;
            assert(m + h == (q + 1) * d + (r + h - d)) by (nonlinear_arith)
                requires
                    m == q * d + r,
            ;
            vstd::arithmetic::div_mod::lemma_div_multiples_vanish_fancy(q + 1, r + h - d, d);
        } else {
            assert(m + h == q * d + (r + h)) by (nonlinear_arith)
                requires
                    m == q * d + r,
            ;
            vstd::arithmetic::div_mod::lemma_div_multiples_vanish_fancy(q, r + h, d);
        }
    }
    if remainder >= denominator - half {
        quotient + 1
    } else {
        quotient
    }
}

/// Division rounding half away from zero; fails when the half-denominator adjustment of the
/// numerator leaves `i128`, and for a non-positive denominator.
pub(crate) fn div_round_nearest(numerator: i128, denominator: i128) -> (result: Result<
    i128,
    ObbContactResponseError3d,
>)
    ensures
        agrees(result, checked_round_div(numerator as int, denominator as int)),
{
    if denominator <= 0 {
        return Err(ObbContactResponseError3d::ArithmeticOverflow);
    }
    let half = denominator / 2;
    if numerator >= 0 {
        if numerator > i128::MAX - half {
            return Err(ObbContactResponseError3d::ArithmeticOverflow);
        }
        let quotient = round_div_magnitude(numerator as u128, denominator as u128);
        proof {
            lemma_quotient_bounded(numerator + half, denominator as int);
        }
        Ok(quotient as i128)
    } else {
        if numerator < i128::MIN + half {
            return Err(ObbContactResponseError3d::ArithmeticOverflow);
        }
        let quotient = round_div_magnitude(magnitude(numerator), denominator as u128);
        proof {
            lemma_quotient_bounded(-numerator + half, denominator as int);
        }
        if quotient == 0 {
            Ok(0)
        } else {
            Ok(-((quotient - 1) as i128) - 1)
        }
    }
}

/// `round_div(numerator, denominator)` computed without intermediate overflow.
pub(crate) fn signed_round_div(numerator: i128, denominator: i128) -> (quotient: i128)
    requires
        denominator > 0,
    ensures
        quotient == round_div(numerator as int, denominator as int),
{
    if numerator >= 0 {
        let quotient = round_div_magnitude(numerator as u128, denominator as u128);
        proof {
            lemma_quotient_bounded(numerator + denominator / 2, denominator as int);
            assert((numerator + denominator / 2) / (denominator as int) <= numerator) by {
                vstd::arithmetic::div_mod::lemma_fundamental_div_mod(
                    numerator + denominator / 2,
                    denominator as int,
                );
                vstd::arithmetic::div_mod::lemma_mod_bound(
                    numerator + denominator / 2,
                    denominator as int,
                );
                lemma_rounded_quotient_bounded(numerator as int, denominator as int);
            }
        }
        quotient as i128
    } else {
        let quotient = round_div_magnitude(magnitude(numerator), denominator as u128);
        proof {
            lemma_rounded_quotient_bounded(-numerator, denominator as int);
        }
        if quotient == 0 {
            0
        } else {
            -((quotient - 1) as i128) - 1
        }
    }
}

/// Rounding a non-negative quotient never exceeds the dividend.
pub(crate) proof fn lemma_rounded_quotient_bounded(x: int, d: int)
    requires
        x >= 0,
        d >= 1,
    ensures
        0 <= (x + d / 2) / d <= x,
{
    let h = d / 2;
    vstd::arithmetic::div_mod::lemma_div_pos_is_pos(x + h, d);
    if x == 0 {
        vstd::arithmetic::div_mod::lemma_basic_div(h, d);
    } else {
        vstd::arithmetic::div_mod::lemma_fundamental_div_mod(x + h, d);
        vstd::arithmetic::div_mod::lemma_mod_bound(x + h, d);
        let q = (x + h) / d;
        let r = (x + h) % d;
        assert(q <= x) by (nonlinear_arith)
            requires
                x + h == d * q + r,
                r >= 0,
                q >= 0,
                d >= 1,
                h <= d / 2,
                x >= 1,
                2 * h <= d,
        ;
    }
}

/// `round(left * right / denominator)` for unsigned operands whose product fits `u128`.
pub(crate) fn mul_div_round_u128(left: u128, right: u128, denominator: u128) -> (result: Result<
    u128,
    ObbContactResponseError3d,
>)
    ensures
        match result {
            Ok(value) => checked_mul_div_u128(left as int, right as int, denominator as int)
                == Some(value as int),
            Err(error) => checked_mul_div_u128(left as int, right as int, denominator as int) is None
                && error == ObbContactResponseError3d::ArithmeticOverflow,
        },
{
    if denominator == 0 {
        return Err(ObbContactResponseError3d::ArithmeticOverflow);
    }
    match left.checked_mul(right) {
        Some(product) => Ok(round_div_magnitude(product, denominator)),
        None => Err(ObbContactResponseError3d::ArithmeticOverflow),
    }
}

/// `round(left * right / denominator)` (half away from zero) for signed operands whose product
/// fits `i128`.
pub fn mul_div_round_i128(left: i128, right: i128, denominator: i128) -> (result: Result<
    i128,
    ObbContactResponseError3d,
>)
    ensures
        agrees(result, checked_mul_div_i128(left as int, right as int, denominator as int)),
{
    if denominator <= 0 {
        return Err(ObbContactResponseError3d::ArithmeticOverflow);
    }
    let product = checked_mul(left, right)?;
    Ok(signed_round_div(product, denominator))
}

// ---------------------------------------------------------------------------------------------
// Vector arithmetic
// ---------------------------------------------------------------------------------------------

pub open spec fn vector_of(value: [i128; 3]) -> Vector3 {
    (value[0] as int, value[1] as int, value[2] as int)
}

pub open spec fn position_of(value: Vec3i) -> Vector3 {
    (value.x as int, value.y as int, value.z as int)
}

/// Dot product whose every partial product and sum stays within `i128`.
pub open spec fn checked_dot(left: Vector3, right: Vector3) -> Option<int> {
    let a = left.0 * right.0;
    let b = left.1 * right.1;
    let c = left.2 * right.2;
    if fits_i128(a) && fits_i128(b) && fits_i128(a + b) && fits_i128(c) && fits_i128(a + b + c) {
        Some(a + b + c)
    } else {
        None
    }
}

pub open spec fn checked_cross_component(left_a: int, right_a: int, left_b: int, right_b: int) -> Option<
    int,
> {
    let p = left_a * right_a;
    let q = left_b * right_b;
    if fits_i128(p) && fits_i128(q) && fits_i128(p - q) {
        Some(p - q)
    } else {
        None
    }
}

/// Cross product whose every partial product and difference stays within `i128`.
pub open spec fn checked_cross(left: Vector3, right: Vector3) -> Option<Vector3> {
    let x = checked_cross_component(left.1, right.2, left.2, right.1);
    let y = checked_cross_component(left.2, right.0, left.0, right.2);
    let z = checked_cross_component(left.0, right.1, left.1, right.0);
    if x is Some && y is Some && z is Some {
        Some((x->Some_0, y->Some_0, z->Some_0))
    } else {
        None
    }
}

pub(crate) fn checked_dot_exec(left: [i128; 3], right: [i128; 3]) -> (result: Result<
    i128,
    ObbContactResponseError3d,
>)
    ensures
        agrees(result, checked_dot(vector_of(left), vector_of(right))),
{
    let a = checked_mul(left[0], right[0])?;
    let b = checked_mul(left[1], right[1])?;
    let ab = checked_add(a, b)?;
    let c = checked_mul(left[2], right[2])?;
    checked_add(ab, c)
}

pub(crate) fn dot_vec(vector: Vec3i, axis: [i128; 3]) -> (result: Result<i128, ObbContactResponseError3d>)
    ensures
        agrees(result, checked_dot(position_of(vector), vector_of(axis))),
{
    checked_dot_exec([vector.x as i128, vector.y as i128, vector.z as i128], axis)
}

fn cross_component(left_a: i128, right_a: i128, left_b: i128, right_b: i128) -> (result: Result<
    i128,
    ObbContactResponseError3d,
>)
    ensures
        agrees(
            result,
            checked_cross_component(left_a as int, right_a as int, left_b as int, right_b as int),
        ),
{
    let p = checked_mul(left_a, right_a)?;
    let q = checked_mul(left_b, right_b)?;
    checked_sub(p, q)
}

fn cross_i64_i128(left: [i64; 3], right: [i128; 3]) -> (result: Result<
    [i128; 3],
    ObbContactResponseError3d,
>)
    ensures
        agrees3(
            result,
            checked_cross((left[0] as int, left[1] as int, left[2] as int), vector_of(right)),
        ),
{
    let l = [left[0] as i128, left[1] as i128, left[2] as i128];
    let x = cross_component(l[1], right[2], l[2], right[1])?;
    let y = cross_component(l[2], right[0], l[0], right[2])?;
    let z = cross_component(l[0], right[1], l[1], right[0])?;
    Ok([x, y, z])
}

/// Row `row` of a fixed-point matrix product `matrix * vector / ORIENTATION_SCALE`, with every
/// product and partial sum within `i128`.
pub open spec fn checked_matrix_row(m0: int, m1: int, m2: int, vector: Vector3) -> Option<int> {
    let a = m0 * vector.0;
    let b = m1 * vector.1;
    let c = m2 * vector.2;
    if fits_i128(a) && fits_i128(b) && fits_i128(a + b) && fits_i128(c) && fits_i128(a + b + c) {
        checked_round_div(a + b + c, ORIENTATION_SCALE as int)
    } else {
        None
    }
}

/// Entry `(row, col)` of the rotation of `orientation`, or of its transpose (the inverse
/// rotation) when `inverse` holds.
pub open spec fn rotation_entry(orientation: Orientation3d, row: int, col: int, inverse: bool) -> int {
    if inverse {
        matrix_entry(spec_normalized(orientation), col, row)
    } else {
        matrix_entry(spec_normalized(orientation), row, col)
    }
}

/// The fixed-point rotation of `vector` by `orientation` (or by its inverse).
pub open spec fn checked_rotate(orientation: Orientation3d, vector: Vector3, inverse: bool) -> Option<
    Vector3,
> {
    let x = checked_matrix_row(
        rotation_entry(orientation, 0, 0, inverse),
        rotation_entry(orientation, 0, 1, inverse),
        rotation_entry(orientation, 0, 2, inverse),
        vector,
    );
    let y = checked_matrix_row(
        rotation_entry(orientation, 1, 0, inverse),
        rotation_entry(orientation, 1, 1, inverse),
        rotation_entry(orientation, 1, 2, inverse),
        vector,
    );
    let z = checked_matrix_row(
        rotation_entry(orientation, 2, 0, inverse),
        rotation_entry(orientation, 2, 1, inverse),
        rotation_entry(orientation, 2, 2, inverse),
        vector,
    );
    if x is Some && y is Some && z is Some {
        Some((x->Some_0, y->Some_0, z->Some_0))
    } else {
        None
    }
}

fn rotate_row(row: [i128; 3], vector: [i128; 3]) -> (result: Result<i128, ObbContactResponseError3d>)
    ensures
        agrees(
            result,
            checked_matrix_row(row[0] as int, row[1] as int, row[2] as int, vector_of(vector)),
        ),
{
    let a = checked_mul(row[0], vector[0])?;
    let b = checked_mul(row[1], vector[1])?;
    let ab = checked_add(a, b)?;
    let c = checked_mul(row[2], vector[2])?;
    let sum = checked_add(ab, c)?;
    div_round_nearest(sum, ORIENTATION_SCALE as i128)
}

fn rotate_with_matrix(matrix: [[i128; 3]; 3], vector: [i128; 3]) -> (result: Result<
    [i128; 3],
    ObbContactResponseError3d,
>)
    ensures
        agrees3(
            result,
            ({
                let x = checked_matrix_row(
                    matrix[0][0] as int,
                    matrix[0][1] as int,
                    matrix[0][2] as int,
                    vector_of(vector),
                );
                let y = checked_matrix_row(
                    matrix[1][0] as int,
                    matrix[1][1] as int,
                    matrix[1][2] as int,
                    vector_of(vector),
                );
                let z = checked_matrix_row(
                    matrix[2][0] as int,
                    matrix[2][1] as int,
                    matrix[2][2] as int,
                    vector_of(vector),
                );
                if x is Some && y is Some && z is Some {
                    Some((x->Some_0, y->Some_0, z->Some_0))
                } else {
                    None
                }
            }),
        ),
{
    let x = rotate_row(matrix[0], vector)?;
    let y = rotate_row(matrix[1], vector)?;
    let z = rotate_row(matrix[2], vector)?;
    Ok([x, y, z])
}

fn rotate_inverse(orientation: Orientation3d, vector: [i128; 3]) -> (result: Result<
    [i128; 3],
    ObbContactResponseError3d,
>)
    requires
        norm_squared(orientation) > 0,
    ensures
        agrees3(result, checked_rotate(orientation, vector_of(vector), true)),
{
    let normalized = match orientation.normalized() {
        Ok(q) => q,
        Err(error) => return Err(ObbContactResponseError3d::Angular(error)),
    };
    let matrix = rotation_matrix(normalized);
    rotate_with_matrix(
        [
            [matrix[0][0], matrix[1][0], matrix[2][0]],
            [matrix[0][1], matrix[1][1], matrix[2][1]],
            [matrix[0][2], matrix[1][2], matrix[2][2]],
        ],
        vector,
    )
}

fn rotate_forward(orientation: Orientation3d, vector: [i128; 3]) -> (result: Result<
    [i128; 3],
    ObbContactResponseError3d,
>)
    requires
        norm_squared(orientation) > 0,
    ensures
        agrees3(result, checked_rotate(orientation, vector_of(vector), false)),
{
    let normalized = match orientation.normalized() {
        Ok(q) => q,
        Err(error) => return Err(ObbContactResponseError3d::Angular(error)),
    };
    rotate_with_matrix(rotation_matrix(normalized), vector)
}

// ---------------------------------------------------------------------------------------------
// Mass, impulse and projection
// ---------------------------------------------------------------------------------------------

/// Numerator of the principal inertia about local axis `axis` (the denominator is 3).
pub open spec fn principal_inertia(body: RigidBody, axis: int) -> int {
    let mass = body.mass_units as int;
    let half = body.half_extents;
    if axis == 0 {
        inertia_numerator(mass, half.y as int, half.z as int)
    } else if axis == 1 {
        inertia_numerator(mass, half.x as int, half.z as int)
    } else {
        inertia_numerator(mass, half.x as int, half.y as int)
    }
}

pub open spec fn positive_half_extents(body: RigidBody) -> bool {
    body.half_extents.x > 0 && body.half_extents.y > 0 && body.half_extents.z > 0
}

/// One rotational inverse-inertia term `round(c^2 * scale / principal)`.
pub open spec fn inertia_term(component: int, scale: int, principal: int) -> Option<int> {
    if fits_i128(component * component) {
        let term = checked_mul_div_u128(component * component, scale, principal);
        if term is Some && term->Some_0 <= i128::MAX {
            term
        } else {
            None
        }
    } else {
        None
    }
}

/// The scaled effective inverse mass of one body along `axis` at `offset` from its center.
pub open spec fn checked_inverse_mass(
    rigid_box: RigidBox3d,
    offset: Vector3,
    axis: Vector3,
    length_squared: int,
    include_angular: bool,
) -> Option<int> {
    if rigid_box.body.kind == BodyKind::Fixed {
        Some(0)
    } else {
        let translational = checked_mul_div_u128(
            length_squared,
            RESPONSE_SCALE as int,
            rigid_box.body.mass_units as int,
        );
        if translational is None || translational->Some_0 > i128::MAX {
            None
        } else if !include_angular || rigid_box.rotation_locked {
            translational
        } else {
            let linear = translational->Some_0;
            let arm = checked_cross(offset, axis);
            let local = if arm is Some {
                checked_rotate(rigid_box.angular.orientation, arm->Some_0, true)
            } else {
                None
            };
            if local is None {
                None
            } else {
                let l = local->Some_0;
                let scale = RESPONSE_SCALE * 3;
                let t0 = inertia_term(l.0, scale, principal_inertia(rigid_box.body, 0));
                let t1 = inertia_term(l.1, scale, principal_inertia(rigid_box.body, 1));
                let t2 = inertia_term(l.2, scale, principal_inertia(rigid_box.body, 2));
                if t0 is Some && t1 is Some && t2 is Some {
                    let a = t0->Some_0;
                    let b = t1->Some_0;
                    let c = t2->Some_0;
                    if fits_i128(a + b) && fits_i128(a + b + c) && fits_i128(linear + (a + b + c)) {
                        Some(linear + (a + b + c))
                    } else {
                        None
                    }
                } else {
                    None
                }
            }
        }
    }
}

pub(crate) fn body_effective_inverse_mass_scaled(
    rigid_box: &RigidBox3d,
    contact_offset: [i64; 3],
    axis: [i128; 3],
    axis_length_squared: u128,
    include_angular: bool,
) -> (result: Result<i128, ObbContactResponseError3d>)
    requires
        positive_half_extents(rigid_box.body),
        norm_squared(rigid_box.angular.orientation) > 0,
    ensures
        agrees(
            result,
            checked_inverse_mass(
                *rigid_box,
                (contact_offset[0] as int, contact_offset[1] as int, contact_offset[2] as int),
                vector_of(axis),
                axis_length_squared as int,
                include_angular,
            ),
        ),
{
    if rigid_box.body.kind == BodyKind::Fixed {
        return Ok(0);
    }
    let translational = mul_div_round_u128(
        axis_length_squared,
        RESPONSE_SCALE as u128,
        rigid_box.body.mass_units as u128,
    )?;
    if translational > i128::MAX as u128 {
        return Err(ObbContactResponseError3d::ArithmeticOverflow);
    }
    let translational = translational as i128;
    if !include_angular || rigid_box.rotation_locked {
        return Ok(translational);
    }
    let angular_impulse = cross_i64_i128(contact_offset, axis)?;
    let local = rotate_inverse(rigid_box.angular.orientation, angular_impulse)?;
    let inertia = match box_inertia(&rigid_box.body) {
        Ok(inertia) => inertia,
        Err(error) => {
            proof {
                lemma_inertia_positive(rigid_box.body);
            }
            return Err(ObbContactResponseError3d::Angular(error));
        },
    };
    let scale = (RESPONSE_SCALE as u128) * (inertia.denominator as u128);
    let t0 = inertia_term_exec(local[0], scale, inertia.principal_numerators[0])?;
    let t1 = inertia_term_exec(local[1], scale, inertia.principal_numerators[1])?;
    let t2 = inertia_term_exec(local[2], scale, inertia.principal_numerators[2])?;
    let mut rotational: i128 = 0;
    rotational = checked_add(rotational, t0)?;
    rotational = checked_add(rotational, t1)?;
    rotational = checked_add(rotational, t2)?;
    checked_add(translational, rotational)
}

fn inertia_term_exec(component: i128, scale: u128, principal: u128) -> (result: Result<
    i128,
    ObbContactResponseError3d,
>)
    ensures
        agrees(result, inertia_term(component as int, scale as int, principal as int)),
{
    let squared = checked_mul(component, component)?;
    proof {
        assert(squared >= 0) by (nonlinear_arith)
            requires
                squared == component * component,
        ;
    }
    let term = mul_div_round_u128(squared as u128, scale, principal)?;
    if term > i128::MAX as u128 {
        return Err(ObbContactResponseError3d::ArithmeticOverflow);
    }
    Ok(term as i128)
}

proof fn lemma_numerator_bounded(m: int, a: int, b: int)
    requires
        0 <= m < 0x1_0000_0000,
        -0x8000_0000 <= a < 0x8000_0000,
        -0x8000_0000 <= b < 0x8000_0000,
    ensures
        0 <= m * (a * a + b * b) <= 0x1_0000_0000_0000_0000_0000_0000,
{
    assert(0 <= a * a <= 0x4000_0000_0000_0000) by (nonlinear_arith)
        requires
            -0x8000_0000 <= a < 0x8000_0000,
    ;
    assert(0 <= b * b <= 0x4000_0000_0000_0000) by (nonlinear_arith)
        requires
            -0x8000_0000 <= b < 0x8000_0000,
    ;
    assert(0 <= m * (a * a + b * b) <= 0x1_0000_0000 * 0x8000_0000_0000_0000int) by (
    nonlinear_arith)
        requires
            0 <= m < 0x1_0000_0000,
            0 <= a * a + b * b <= 0x8000_0000_0000_0000int,
    ;
}

/// Principal inertia numerators of `i32` extents and `u32` mass stay far below `2^96`.
proof fn lemma_inertia_bounded(body: RigidBody)
    ensures
        0 <= principal_inertia(body, 0) <= 0x1_0000_0000_0000_0000_0000_0000,
        0 <= principal_inertia(body, 1) <= 0x1_0000_0000_0000_0000_0000_0000,
        0 <= principal_inertia(body, 2) <= 0x1_0000_0000_0000_0000_0000_0000,
{
    let m = body.mass_units as int;
    let x = body.half_extents.x as int;
    let y = body.half_extents.y as int;
    let z = body.half_extents.z as int;
    lemma_numerator_bounded(m, y, z);
    lemma_numerator_bounded(m, x, z);
    lemma_numerator_bounded(m, x, y);
    assert(0 <= m * (y * y + z * z) <= 0x1_0000_0000_0000_0000_0000_0000);
    assert(0 <= m * (x * x + z * z) <= 0x1_0000_0000_0000_0000_0000_0000);
    assert(0 <= m * (x * x + y * y) <= 0x1_0000_0000_0000_0000_0000_0000);
}

/// A box with positive half extents and positive mass has positive principal inertia.
pub(crate) proof fn lemma_inertia_positive(body: RigidBody)
    requires
        positive_half_extents(body),
        body.mass_units > 0,
    ensures
        principal_inertia(body, 0) > 0,
        principal_inertia(body, 1) > 0,
        principal_inertia(body, 2) > 0,
{
    let m = body.mass_units as int;
    let x = body.half_extents.x as int;
    let y = body.half_extents.y as int;
    let z = body.half_extents.z as int;
    assert(m * (y * y + z * z) > 0) by (nonlinear_arith)
        requires
            m > 0,
            y > 0,
            z > 0,
    ;
    assert(m * (x * x + z * z) > 0) by (nonlinear_arith)
        requires
            m > 0,
            x > 0,
            z > 0,
    ;
    assert(m * (x * x + y * y) > 0) by (nonlinear_arith)
        requires
            m > 0,
            x > 0,
            y > 0,
    ;
}

/// `current + round(impulse / mass)` as an `i32` velocity component.
pub open spec fn checked_linear_axis(current: int, impulse: int, mass: int) -> Option<int> {
    let delta = checked_round_div(impulse, mass);
    if delta is Some && fits_i32(current + delta->Some_0) {
        Some(current + delta->Some_0)
    } else {
        None
    }
}

/// `current + delta` as an `i32` angular-velocity component.
pub open spec fn checked_angular_axis(current: int, delta: int) -> Option<int> {
    if fits_i32(current + delta) {
        Some(current + delta)
    } else {
        None
    }
}

/// `rigid_box` with its linear velocity replaced.
pub open spec fn with_velocity(rigid_box: RigidBox3d, velocity: Vec3i) -> RigidBox3d {
    RigidBox3d { body: RigidBody { velocity, ..rigid_box.body }, ..rigid_box }
}

/// `rigid_box` with its angular velocity replaced.
pub open spec fn with_angular_velocity(rigid_box: RigidBox3d, omega: AngularVelocity3d) -> RigidBox3d {
    RigidBox3d {
        angular: crate::angular::AngularState3d { angular_velocity: omega, ..rigid_box.angular },
        ..rigid_box
    }
}

/// `rigid_box` with its position replaced.
pub open spec fn with_position(rigid_box: RigidBox3d, position: Vec3i) -> RigidBox3d {
    RigidBox3d { body: RigidBody { position, ..rigid_box.body }, ..rigid_box }
}

/// One body after receiving `impulse` at `offset`: linear velocity changes by the impulse over
/// the mass; unless angular response is excluded or rotation is locked, angular velocity changes
/// by the inverse inertia applied (in the body frame) to the angular impulse `offset x impulse`.
/// Fixed bodies are unchanged.
pub open spec fn checked_apply_impulse(
    rigid_box: RigidBox3d,
    offset: Vector3,
    impulse: Vector3,
    include_angular: bool,
) -> Option<RigidBox3d> {
    if rigid_box.body.kind == BodyKind::Fixed {
        Some(rigid_box)
    } else {
        let mass = rigid_box.body.mass_units as int;
        let velocity = rigid_box.body.velocity;
        let vx = checked_linear_axis(velocity.x as int, impulse.0, mass);
        let vy = checked_linear_axis(velocity.y as int, impulse.1, mass);
        let vz = checked_linear_axis(velocity.z as int, impulse.2, mass);
        if vx is Some && vy is Some && vz is Some {
            let moved = with_velocity(
                rigid_box,
                Vec3i { x: vx->Some_0 as i32, y: vy->Some_0 as i32, z: vz->Some_0 as i32 },
            );
            if !include_angular || rigid_box.rotation_locked {
                Some(moved)
            } else {
                let orientation = rigid_box.angular.orientation;
                let arm = checked_cross(offset, impulse);
                let local = if arm is Some {
                    checked_rotate(orientation, arm->Some_0, true)
                } else {
                    None
                };
                if local is None {
                    None
                } else {
                    let l = local->Some_0;
                    let scale = 3 * ANGULAR_VELOCITY_SCALE as int;
                    let dx = checked_mul_div_i128(l.0, scale, principal_inertia(rigid_box.body, 0));
                    let dy = checked_mul_div_i128(l.1, scale, principal_inertia(rigid_box.body, 1));
                    let dz = checked_mul_div_i128(l.2, scale, principal_inertia(rigid_box.body, 2));
                    let world = if dx is Some && dy is Some && dz is Some {
                        checked_rotate(orientation, (dx->Some_0, dy->Some_0, dz->Some_0), false)
                    } else {
                        None
                    };
                    if world is None {
                        None
                    } else {
                        let w = world->Some_0;
                        let omega = rigid_box.angular.angular_velocity;
                        let wx = checked_angular_axis(omega.x as int, w.0);
                        let wy = checked_angular_axis(omega.y as int, w.1);
                        let wz = checked_angular_axis(omega.z as int, w.2);
                        if wx is Some && wy is Some && wz is Some {
                            Some(
                                with_angular_velocity(
                                    moved,
                                    AngularVelocity3d {
                                        x: wx->Some_0 as i32,
                                        y: wy->Some_0 as i32,
                                        z: wz->Some_0 as i32,
                                    },
                                ),
                            )
                        } else {
                            None
                        }
                    }
                }
            }
        } else {
            None
        }
    }
}

fn add_linear_impulse_axis(current: i32, impulse: i128, mass_units: u32) -> (result: Result<
    i32,
    ObbContactResponseError3d,
>)
    ensures
        match result {
            Ok(value) => checked_linear_axis(current as int, impulse as int, mass_units as int)
                == Some(value as int),
            Err(error) => checked_linear_axis(current as int, impulse as int, mass_units as int) is None
                && error == ObbContactResponseError3d::ArithmeticOverflow,
        },
{
    let delta = div_round_nearest(impulse, mass_units as i128)?;
    let sum = checked_add(current as i128, delta)?;
    to_i32(sum)
}

fn add_angular_axis(current: i32, delta: i128) -> (result: Result<i32, ObbContactResponseError3d>)
    ensures
        match result {
            Ok(value) => checked_angular_axis(current as int, delta as int) == Some(value as int),
            Err(error) => checked_angular_axis(current as int, delta as int) is None && error
                == ObbContactResponseError3d::ArithmeticOverflow,
        },
{
    let sum = checked_add(current as i128, delta)?;
    to_i32(sum)
}

pub(crate) fn apply_body_impulse(
    rigid_box: &mut RigidBox3d,
    contact_offset: [i64; 3],
    impulse: [i128; 3],
    include_angular: bool,
) -> (result: Result<(), ObbContactResponseError3d>)
    requires
        positive_half_extents(old(rigid_box).body),
        norm_squared(old(rigid_box).angular.orientation) > 0,
    ensures
        match result {
            Ok(()) => checked_apply_impulse(
                *old(rigid_box),
                (contact_offset[0] as int, contact_offset[1] as int, contact_offset[2] as int),
                vector_of(impulse),
                include_angular,
            ) == Some(*final(rigid_box)),
            Err(error) => checked_apply_impulse(
                *old(rigid_box),
                (contact_offset[0] as int, contact_offset[1] as int, contact_offset[2] as int),
                vector_of(impulse),
                include_angular,
            ) is None && error == ObbContactResponseError3d::ArithmeticOverflow,
        },
{
    if rigid_box.body.kind == BodyKind::Fixed {
        return Ok(());
    }
    let ghost initial = *rigid_box;
    let mass_units = rigid_box.body.mass_units;
    let vx = add_linear_impulse_axis(rigid_box.body.velocity.x, impulse[0], mass_units)?;
    let vy = add_linear_impulse_axis(rigid_box.body.velocity.y, impulse[1], mass_units)?;
    let vz = add_linear_impulse_axis(rigid_box.body.velocity.z, impulse[2], mass_units)?;
    rigid_box.body.velocity = Vec3i::new(vx, vy, vz);
    assert(*rigid_box == with_velocity(initial, Vec3i { x: vx, y: vy, z: vz }));
    if !include_angular || rigid_box.rotation_locked {
        return Ok(());
    }
    let angular_impulse = cross_i64_i128(contact_offset, impulse)?;
    let local_impulse = rotate_inverse(rigid_box.angular.orientation, angular_impulse)?;
    let inertia = match box_inertia(&rigid_box.body) {
        Ok(inertia) => inertia,
        Err(error) => {
            proof {
                assert(mass_units > 0);
                lemma_inertia_positive(rigid_box.body);
            }
            return Err(ObbContactResponseError3d::Angular(error));
        },
    };
    proof {
        lemma_inertia_bounded(rigid_box.body);
    }
    let angular_scale = (inertia.denominator as i128) * (ANGULAR_VELOCITY_SCALE as i128);
    let dx = mul_div_round_i128(
        local_impulse[0],
        angular_scale,
        inertia.principal_numerators[0] as i128,
    )?;
    let dy = mul_div_round_i128(
        local_impulse[1],
        angular_scale,
        inertia.principal_numerators[1] as i128,
    )?;
    let dz = mul_div_round_i128(
        local_impulse[2],
        angular_scale,
        inertia.principal_numerators[2] as i128,
    )?;
    let world_delta = rotate_forward(rigid_box.angular.orientation, [dx, dy, dz])?;
    let wx = add_angular_axis(rigid_box.angular.angular_velocity.x, world_delta[0])?;
    let wy = add_angular_axis(rigid_box.angular.angular_velocity.y, world_delta[1])?;
    let wz = add_angular_axis(rigid_box.angular.angular_velocity.z, world_delta[2])?;
    rigid_box.angular.angular_velocity = AngularVelocity3d::new(wx, wy, wz);
    Ok(())
}

pub open spec fn abs(value: int) -> int {
    if value < 0 {
        -value
    } else {
        value
    }
}

pub open spec fn component3(vector: Vector3, index: int) -> int {
    if index == 0 {
        vector.0
    } else if index == 1 {
        vector.1
    } else {
        vector.2
    }
}

/// The first axis of largest magnitude; fails for a zero axis or an `i128::MIN` component.
pub open spec fn checked_dominant_axis(axis: Vector3) -> Option<int> {
    if axis.0 == i128::MIN || axis.1 == i128::MIN || axis.2 == i128::MIN {
        None
    } else {
        let first = if abs(axis.1) > abs(axis.0) {
            1int
        } else {
            0int
        };
        let first_magnitude = if abs(axis.1) > abs(axis.0) {
            abs(axis.1)
        } else {
            abs(axis.0)
        };
        let best = if abs(axis.2) > first_magnitude {
            2int
        } else {
            first
        };
        let magnitude = if abs(axis.2) > first_magnitude {
            abs(axis.2)
        } else {
            first_magnitude
        };
        if magnitude == 0 {
            None
        } else {
            Some(best)
        }
    }
}

/// `ceil(numerator / denominator)` for a non-negative numerator and positive denominator, whose
/// intermediate `numerator + denominator - 1` stays within `i128`.
pub open spec fn checked_div_ceil(numerator: int, denominator: int) -> Option<int> {
    if numerator >= 0 && denominator > 0 && fits_i128(numerator + denominator - 1) {
        Some((numerator + denominator - 1) / denominator)
    } else {
        None
    }
}

pub open spec fn all_fit_i64(vector: Vector3) -> bool {
    fits_i64(vector.0) && fits_i64(vector.1) && fits_i64(vector.2)
}

/// Rounded projection of the overlap along the axis, grown on the dominant axis when rounding
/// fell short of the exact overlap.
pub open spec fn checked_translation(axis: Vector3, overlap: int, length_squared: int) -> Option<
    Vector3,
> {
    if !(overlap <= i128::MAX && length_squared <= i128::MAX && overlap > 0 && length_squared > 0) {
        None
    } else {
        let c0 = if fits_i128(overlap * axis.0) {
            checked_round_div(overlap * axis.0, length_squared)
        } else {
            None
        };
        let c1 = if fits_i128(overlap * axis.1) {
            checked_round_div(overlap * axis.1, length_squared)
        } else {
            None
        };
        let c2 = if fits_i128(overlap * axis.2) {
            checked_round_div(overlap * axis.2, length_squared)
        } else {
            None
        };
        if !(c0 is Some && c1 is Some && c2 is Some) {
            None
        } else {
            let rounded = (c0->Some_0, c1->Some_0, c2->Some_0);
            let achieved = checked_dot(rounded, axis);
            if achieved is None {
                None
            } else if achieved->Some_0 < overlap {
                let dominant = checked_dominant_axis(axis);
                if dominant is None || !fits_i128(overlap - achieved->Some_0) {
                    None
                } else {
                    let d = dominant->Some_0;
                    let extra = checked_div_ceil(
                        overlap - achieved->Some_0,
                        abs(component3(axis, d)),
                    );
                    if extra is None {
                        None
                    } else {
                        let signed = if component3(axis, d) < 0 {
                            -extra->Some_0
                        } else {
                            extra->Some_0
                        };
                        let grown = component3(rounded, d) + signed;
                        let result = if d == 0 {
                            (grown, rounded.1, rounded.2)
                        } else if d == 1 {
                            (rounded.0, grown, rounded.2)
                        } else {
                            (rounded.0, rounded.1, grown)
                        };
                        if fits_i128(grown) && all_fit_i64(result) {
                            Some(result)
                        } else {
                            None
                        }
                    }
                }
            } else if all_fit_i64(rounded) {
                Some(rounded)
            } else {
                None
            }
        }
    }
}

fn checked_abs(value: i128) -> (result: Result<i128, ObbContactResponseError3d>)
    ensures
        agrees(result, checked(abs(value as int))),
{
    if value == i128::MIN {
        Err(ObbContactResponseError3d::ArithmeticOverflow)
    } else if value < 0 {
        Ok(-value)
    } else {
        Ok(value)
    }
}

fn dominant_axis(axis: [i128; 3]) -> (result: Result<usize, ObbContactResponseError3d>)
    ensures
        match result {
            Ok(index) => checked_dominant_axis(vector_of(axis)) == Some(index as int),
            Err(error) => checked_dominant_axis(vector_of(axis)) is None && error
                == ObbContactResponseError3d::ArithmeticOverflow,
        },
{
    let mut best: usize = 0;
    let mut magnitude = checked_abs(axis[0])?;
    let candidate = checked_abs(axis[1])?;
    if candidate > magnitude {
        best = 1;
        magnitude = candidate;
    }
    let candidate = checked_abs(axis[2])?;
    if candidate > magnitude {
        best = 2;
        magnitude = candidate;
    }
    if magnitude == 0 {
        return Err(ObbContactResponseError3d::ArithmeticOverflow);
    }
    Ok(best)
}

fn div_ceil_positive(numerator: i128, denominator: i128) -> (result: Result<
    i128,
    ObbContactResponseError3d,
>)
    ensures
        agrees(result, checked_div_ceil(numerator as int, denominator as int)),
{
    if numerator < 0 || denominator <= 0 {
        return Err(ObbContactResponseError3d::ArithmeticOverflow);
    }
    match numerator.checked_add(denominator - 1) {
        Some(value) => Ok(value / denominator),
        None => Err(ObbContactResponseError3d::ArithmeticOverflow),
    }
}

fn minimum_translation_vector(
    axis: [i128; 3],
    overlap_numerator: u128,
    axis_length_squared: u128,
) -> (result: Result<[i64; 3], ObbContactResponseError3d>)
    ensures
        match result {
            Ok(correction) => checked_translation(
                vector_of(axis),
                overlap_numerator as int,
                axis_length_squared as int,
            ) == Some((correction[0] as int, correction[1] as int, correction[2] as int)),
            Err(error) => checked_translation(
                vector_of(axis),
                overlap_numerator as int,
                axis_length_squared as int,
            ) is None && error == ObbContactResponseError3d::ArithmeticOverflow,
        },
{
    if overlap_numerator > i128::MAX as u128 || axis_length_squared > i128::MAX as u128 {
        return Err(ObbContactResponseError3d::ArithmeticOverflow);
    }
    let overlap = overlap_numerator as i128;
    let length_squared = axis_length_squared as i128;
    if overlap <= 0 || length_squared <= 0 {
        return Err(ObbContactResponseError3d::ArithmeticOverflow);
    }
    let c0 = div_round_nearest(checked_mul(overlap, axis[0])?, length_squared)?;
    let c1 = div_round_nearest(checked_mul(overlap, axis[1])?, length_squared)?;
    let c2 = div_round_nearest(checked_mul(overlap, axis[2])?, length_squared)?;
    let mut correction = [c0, c1, c2];
    let achieved = checked_dot_exec(correction, axis)?;
    if achieved < overlap {
        let dominant = dominant_axis(axis)?;
        let magnitude = checked_abs(axis[dominant])?;
        let residual = checked_sub(overlap, achieved)?;
        let extra = div_ceil_positive(residual, magnitude)?;
        let signed = if axis[dominant] < 0 {
            -extra
        } else {
            extra
        };
        correction.set(dominant, checked_add(correction[dominant], signed)?);
    }
    let x = to_i64(correction[0])?;
    let y = to_i64(correction[1])?;
    let z = to_i64(correction[2])?;
    Ok([x, y, z])
}

/// `position + delta` when every coordinate stays within `i32`.
pub open spec fn checked_offset_position(position: Vec3i, delta: Vector3) -> Option<Vec3i> {
    let x = position.x + delta.0;
    let y = position.y + delta.1;
    let z = position.z + delta.2;
    if fits_i32(x) && fits_i32(y) && fits_i32(z) {
        Some(Vec3i { x: x as i32, y: y as i32, z: z as i32 })
    } else {
        None
    }
}

/// One axis of the mass-weighted split of `correction` between two dynamic bodies:
/// `(left move, right move)`, the left body moving back by `round(c * m_right / (m_left + m_right))`.
pub open spec fn checked_split(correction: int, left_mass: int, right_mass: int) -> Option<(int, int)> {
    let share = checked_round_div(correction * right_mass, left_mass + right_mass);
    if share is Some && fits_i64(-share->Some_0) && fits_i64(correction - share->Some_0) {
        Some((-share->Some_0, correction - share->Some_0))
    } else {
        None
    }
}

/// Penetration projection: the translation moves the right body along the correction and the
/// left body against it, all on a dynamic body facing a fixed one, split by mass between two
/// dynamic bodies; two fixed bodies stay put.
pub open spec fn checked_project_pair(
    left: RigidBox3d,
    right: RigidBox3d,
    correction: Vector3,
) -> Option<(RigidBox3d, RigidBox3d)> {
    match (left.body.kind, right.body.kind) {
        (BodyKind::Fixed, BodyKind::Fixed) => Some((left, right)),
        (BodyKind::Fixed, BodyKind::Dynamic) => {
            let moved = checked_offset_position(right.body.position, correction);
            if moved is Some {
                Some((left, with_position(right, moved->Some_0)))
            } else {
                None
            }
        },
        (BodyKind::Dynamic, BodyKind::Fixed) => {
            if correction.0 == i64::MIN || correction.1 == i64::MIN || correction.2 == i64::MIN {
                None
            } else {
                let moved = checked_offset_position(
                    left.body.position,
                    (-correction.0, -correction.1, -correction.2),
                );
                if moved is Some {
                    Some((with_position(left, moved->Some_0), right))
                } else {
                    None
                }
            }
        },
        (BodyKind::Dynamic, BodyKind::Dynamic) => {
            let lm = left.body.mass_units as int;
            let rm = right.body.mass_units as int;
            let sx = checked_split(correction.0, lm, rm);
            let sy = checked_split(correction.1, lm, rm);
            let sz = checked_split(correction.2, lm, rm);
            if sx is Some && sy is Some && sz is Some {
                let l = checked_offset_position(
                    left.body.position,
                    (sx->Some_0.0, sy->Some_0.0, sz->Some_0.0),
                );
                let r = checked_offset_position(
                    right.body.position,
                    (sx->Some_0.1, sy->Some_0.1, sz->Some_0.1),
                );
                if l is Some && r is Some {
                    Some((with_position(left, l->Some_0), with_position(right, r->Some_0)))
                } else {
                    None
                }
            } else {
                None
            }
        },
    }
}

fn offset_position(position: Vec3i, delta: [i64; 3]) -> (result: Result<
    Vec3i,
    ObbContactResponseError3d,
>)
    ensures
        match result {
            Ok(moved) => checked_offset_position(
                position,
                (delta[0] as int, delta[1] as int, delta[2] as int),
            ) == Some(moved),
            Err(error) => checked_offset_position(
                position,
                (delta[0] as int, delta[1] as int, delta[2] as int),
            ) is None && error == ObbContactResponseError3d::ArithmeticOverflow,
        },
{
    let x = to_i32(checked_add(position.x as i128, delta[0] as i128)?)?;
    let y = to_i32(checked_add(position.y as i128, delta[1] as i128)?)?;
    let z = to_i32(checked_add(position.z as i128, delta[2] as i128)?)?;
    Ok(Vec3i::new(x, y, z))
}

fn negate_i64_vector(vector: [i64; 3]) -> (result: Result<[i64; 3], ObbContactResponseError3d>)
    ensures
        match result {
            Ok(negated) => vector[0] != i64::MIN && vector[1] != i64::MIN && vector[2] != i64::MIN
                && negated[0] == -vector[0] && negated[1] == -vector[1] && negated[2]
                == -vector[2],
            Err(error) => (vector[0] == i64::MIN || vector[1] == i64::MIN || vector[2]
                == i64::MIN) && error == ObbContactResponseError3d::ArithmeticOverflow,
        },
{
    if vector[0] == i64::MIN || vector[1] == i64::MIN || vector[2] == i64::MIN {
        return Err(ObbContactResponseError3d::ArithmeticOverflow);
    }
    Ok([-vector[0], -vector[1], -vector[2]])
}

pub(crate) fn negate_axis(vector: [i128; 3]) -> (result: Result<[i128; 3], ObbContactResponseError3d>)
    ensures
        agrees3(
            result,
            if vector[0] == i128::MIN || vector[1] == i128::MIN || vector[2] == i128::MIN {
                None
            } else {
                Some((-vector[0], -vector[1], -vector[2]))
            },
        ),
{
    if vector[0] == i128::MIN || vector[1] == i128::MIN || vector[2] == i128::MIN {
        return Err(ObbContactResponseError3d::ArithmeticOverflow);
    }
    Ok([-vector[0], -vector[1], -vector[2]])
}

fn split_axis(correction: i64, left_mass: u32, right_mass: u32) -> (result: Result<
    (i64, i64),
    ObbContactResponseError3d,
>)
    ensures
        match result {
            Ok((left_move, right_move)) => checked_split(
                correction as int,
                left_mass as int,
                right_mass as int,
            ) == Some((left_move as int, right_move as int)),
            Err(error) => checked_split(correction as int, left_mass as int, right_mass as int)
                is None && error == ObbContactResponseError3d::ArithmeticOverflow,
        },
{
    let total_mass = left_mass as u64 + right_mass as u64;
    proof {
        assert(-0x8000_0000_0000_0000int * 0x1_0000_0000 <= correction * right_mass
            <= 0x8000_0000_0000_0000int * 0x1_0000_0000) by (nonlinear_arith)
            requires
                i64::MIN <= correction <= i64::MAX,
                0 <= right_mass < 0x1_0000_0000,
        ;
    }
    let weighted = checked_mul(correction as i128, right_mass as i128)?;
    let share = div_round_nearest(weighted, total_mass as i128)?;
    let left_move = to_i64(checked_neg(share)?)?;
    match correction.checked_add(left_move) {
        Some(right_move) => Ok((left_move, right_move)),
        None => Err(ObbContactResponseError3d::ArithmeticOverflow),
    }
}

fn project_pair(left: &mut RigidBox3d, right: &mut RigidBox3d, correction: [i64; 3]) -> (result:
    Result<(), ObbContactResponseError3d>)
    ensures
        match result {
            Ok(()) => checked_project_pair(
                *old(left),
                *old(right),
                (correction[0] as int, correction[1] as int, correction[2] as int),
            ) == Some((*final(left), *final(right))),
            Err(error) => checked_project_pair(
                *old(left),
                *old(right),
                (correction[0] as int, correction[1] as int, correction[2] as int),
            ) is None && error == ObbContactResponseError3d::ArithmeticOverflow,
        },
{
    match (left.body.kind, right.body.kind) {
        (BodyKind::Fixed, BodyKind::Fixed) => Ok(()),
        (BodyKind::Fixed, BodyKind::Dynamic) => {
            right.body.position = offset_position(right.body.position, correction)?;
            Ok(())
        },
        (BodyKind::Dynamic, BodyKind::Fixed) => {
            let back = negate_i64_vector(correction)?;
            left.body.position = offset_position(left.body.position, back)?;
            Ok(())
        },
        (BodyKind::Dynamic, BodyKind::Dynamic) => {
            let (lx, rx) = split_axis(correction[0], left.body.mass_units, right.body.mass_units)?;
            let (ly, ry) = split_axis(correction[1], left.body.mass_units, right.body.mass_units)?;
            let (lz, rz) = split_axis(correction[2], left.body.mass_units, right.body.mass_units)?;
            let left_position = offset_position(left.body.position, [lx, ly, lz])?;
            let right_position = offset_position(right.body.position, [rx, ry, rz])?;
            left.body.position = left_position;
            right.body.position = right_position;
            Ok(())
        },
    }
}

/// `round(numerator * axis_i * axis_scale / denominator)` on every axis component: the impulse
/// vector `numerator / denominator * axis` without first rounding the scalar.
pub open spec fn checked_scale_ratio(
    numerator: int,
    denominator: int,
    axis: Vector3,
    axis_scale: int,
) -> Option<Vector3> {
    if numerator < 0 || denominator <= 0 || axis_scale <= 0 {
        None
    } else {
        let x = if fits_i128(axis.0 * axis_scale) {
            checked_mul_div_i128(numerator, axis.0 * axis_scale, denominator)
        } else {
            None
        };
        let y = if fits_i128(axis.1 * axis_scale) {
            checked_mul_div_i128(numerator, axis.1 * axis_scale, denominator)
        } else {
            None
        };
        let z = if fits_i128(axis.2 * axis_scale) {
            checked_mul_div_i128(numerator, axis.2 * axis_scale, denominator)
        } else {
            None
        };
        if x is Some && y is Some && z is Some {
            Some((x->Some_0, y->Some_0, z->Some_0))
        } else {
            None
        }
    }
}

/// The restitution used for one impact: the smaller of the two materials, or none.
pub open spec fn combined_restitution(left: RigidBox3d, right: RigidBox3d, allow_restitution: bool) -> int {
    if allow_restitution {
        if left.body.material.restitution_milli <= right.body.material.restitution_milli {
            left.body.material.restitution_milli as int
        } else {
            right.body.material.restitution_milli as int
        }
    } else {
        0
    }
}

/// The normal impulse vector that removes (and, with restitution, reverses) the closing speed
/// `-normal_velocity` along `axis`: `j = v (1 + e) / K * axis` with `K` the summed scaled effective
/// inverse masses; zero when neither body can respond.
pub open spec fn checked_normal_impulse(
    left: RigidBox3d,
    left_offset: Vector3,
    right: RigidBox3d,
    right_offset: Vector3,
    axis: Vector3,
    axis_length_squared: int,
    normal_velocity: int,
    allow_restitution: bool,
    include_angular: bool,
) -> Option<Vector3> {
    let l = checked_inverse_mass(left, left_offset, axis, axis_length_squared, include_angular);
    let r = checked_inverse_mass(right, right_offset, axis, axis_length_squared, include_angular);
    if !(l is Some && r is Some && fits_i128(l->Some_0 + r->Some_0)) {
        None
    } else {
        let effective = l->Some_0 + r->Some_0;
        if effective <= 0 {
            Some((0, 0, 0))
        } else {
            let closing = -normal_velocity;
            let bounce = MATERIAL_SCALE as int + combined_restitution(left, right, allow_restitution);
            if fits_i128(closing) && fits_i128(closing * bounce) && fits_i128(
                MATERIAL_SCALE as int * effective,
            ) {
                checked_scale_ratio(
                    closing * bounce,
                    MATERIAL_SCALE as int * effective,
                    axis,
                    RESPONSE_SCALE as int,
                )
            } else {
                None
            }
        }
    }
}

/// Scales `axis` by the exact ratio `numerator / denominator` and the fixed-point `axis_scale`,
/// rounding each component once.
pub fn scale_ratio_vector(numerator: i128, denominator: i128, axis: [i128; 3], axis_scale: i128) -> (result:
    Result<[i128; 3], ObbContactResponseError3d>)
    ensures
        agrees3(
            result,
            checked_scale_ratio(
                numerator as int,
                denominator as int,
                vector_of(axis),
                axis_scale as int,
            ),
        ),
{
    if numerator < 0 || denominator <= 0 || axis_scale <= 0 {
        return Err(ObbContactResponseError3d::ArithmeticOverflow);
    }
    let x = mul_div_round_i128(numerator, checked_mul(axis[0], axis_scale)?, denominator)?;
    let y = mul_div_round_i128(numerator, checked_mul(axis[1], axis_scale)?, denominator)?;
    let z = mul_div_round_i128(numerator, checked_mul(axis[2], axis_scale)?, denominator)?;
    Ok([x, y, z])
}

fn normal_impulse_vector(
    left: &RigidBox3d,
    left_offset: [i64; 3],
    right: &RigidBox3d,
    right_offset: [i64; 3],
    axis: [i128; 3],
    axis_length_squared: u128,
    normal_velocity: i128,
    allow_restitution: bool,
    include_angular: bool,
) -> (result: Result<[i128; 3], ObbContactResponseError3d>)
    requires
        positive_half_extents(left.body),
        positive_half_extents(right.body),
        norm_squared(left.angular.orientation) > 0,
        norm_squared(right.angular.orientation) > 0,
    ensures
        agrees3(
            result,
            checked_normal_impulse(
                *left,
                (left_offset[0] as int, left_offset[1] as int, left_offset[2] as int),
                *right,
                (right_offset[0] as int, right_offset[1] as int, right_offset[2] as int),
                vector_of(axis),
                axis_length_squared as int,
                normal_velocity as int,
                allow_restitution,
                include_angular,
            ),
        ),
{
    let left_mass = body_effective_inverse_mass_scaled(
        left,
        left_offset,
        axis,
        axis_length_squared,
        include_angular,
    )?;
    let right_mass = body_effective_inverse_mass_scaled(
        right,
        right_offset,
        axis,
        axis_length_squared,
        include_angular,
    )?;
    let effective_inverse_mass = checked_add(left_mass, right_mass)?;
    if effective_inverse_mass <= 0 {
        return Ok([0, 0, 0]);
    }
    let restitution: u16 = if allow_restitution {
        if left.body.material.restitution_milli <= right.body.material.restitution_milli {
            left.body.material.restitution_milli
        } else {
            right.body.material.restitution_milli
        }
    } else {
        0
    };
    let closing_speed = checked_neg(normal_velocity)?;
    let bounce_scale = MATERIAL_SCALE as i128 + restitution as i128;
    let numerator = checked_mul(closing_speed, bounce_scale)?;
    let denominator = checked_mul(MATERIAL_SCALE as i128, effective_inverse_mass)?;
    scale_ratio_vector(numerator, denominator, axis, RESPONSE_SCALE)
}

/// Velocity of the material point at `offset` from the center: linear velocity plus the rounded
/// fixed-point `omega x offset` (no rotational part for a rotation-locked body).
pub open spec fn contact_velocity_of(rigid_box: RigidBox3d, offset: Vector3) -> Vector3 {
    let omega = if rigid_box.rotation_locked {
        (0int, 0int, 0int)
    } else {
        (
            rigid_box.angular.angular_velocity.x as int,
            rigid_box.angular.angular_velocity.y as int,
            rigid_box.angular.angular_velocity.z as int,
        )
    };
    let scale = ANGULAR_VELOCITY_SCALE as int;
    let velocity = rigid_box.body.velocity;
    (
        velocity.x + round_div(omega.1 * offset.2 - omega.2 * offset.1, scale),
        velocity.y + round_div(omega.2 * offset.0 - omega.0 * offset.2, scale),
        velocity.z + round_div(omega.0 * offset.1 - omega.1 * offset.0, scale),
    )
}

pub open spec fn offset_bounded(offset: Vector3) -> bool {
    &&& -0x1_0000_0000 <= offset.0 <= 0x1_0000_0000
    &&& -0x1_0000_0000 <= offset.1 <= 0x1_0000_0000
    &&& -0x1_0000_0000 <= offset.2 <= 0x1_0000_0000
}

proof fn lemma_rotation_numerator_bounded(a: int, b: int, c: int, d: int)
    requires
        -0x8000_0000 <= a < 0x8000_0000,
        -0x8000_0000 <= c < 0x8000_0000,
        -0x1_0000_0000 <= b <= 0x1_0000_0000,
        -0x1_0000_0000 <= d <= 0x1_0000_0000,
    ensures
        -0x8000_0000_0000_0000 <= a * b <= 0x8000_0000_0000_0000,
        -0x8000_0000_0000_0000 <= c * d <= 0x8000_0000_0000_0000,
        -0x1_0000_0000_0000_0000 <= a * b - c * d <= 0x1_0000_0000_0000_0000,
{
    assert(-0x8000_0000_0000_0000 <= a * b <= 0x8000_0000_0000_0000) by (nonlinear_arith)
        requires
            -0x8000_0000 <= a < 0x8000_0000,
            -0x1_0000_0000 <= b <= 0x1_0000_0000,
    ;
    assert(-0x8000_0000_0000_0000 <= c * d <= 0x8000_0000_0000_0000) by (nonlinear_arith)
        requires
            -0x8000_0000 <= c < 0x8000_0000,
            -0x1_0000_0000 <= d <= 0x1_0000_0000,
    ;
}

proof fn lemma_rounded_rotation_bounded(n: int)
    requires
        -0x1_0000_0000_0000_0000 <= n <= 0x1_0000_0000_0000_0000,
    ensures
        -0x1_0000_0000_0000 <= round_div(n, ANGULAR_VELOCITY_SCALE as int) <= 0x1_0000_0000_0000,
{
    let s = ANGULAR_VELOCITY_SCALE as int;
    if n >= 0 {
        vstd::arithmetic::div_mod::lemma_div_is_ordered(n + s / 2, 0x1_0000_0000_0000_0000 + s, s);
        vstd::arithmetic::div_mod::lemma_div_pos_is_pos(n + s / 2, s);
    } else {
        vstd::arithmetic::div_mod::lemma_div_is_ordered(-n + s / 2, 0x1_0000_0000_0000_0000 + s, s);
        vstd::arithmetic::div_mod::lemma_div_pos_is_pos(-n + s / 2, s);
    }
}

fn add_linear_rotation(linear: i32, rotational_numerator: i128) -> (velocity: i64)
    requires
        -0x1_0000_0000_0000_0000 <= rotational_numerator <= 0x1_0000_0000_0000_0000,
    ensures
        velocity == linear + round_div(rotational_numerator as int, ANGULAR_VELOCITY_SCALE as int),
{
    proof {
        lemma_rounded_rotation_bounded(rotational_numerator as int);
    }
    let rotational = signed_round_div(rotational_numerator, ANGULAR_VELOCITY_SCALE as i128);
    linear as i64 + rotational as i64
}

pub(crate) fn contact_velocity(rigid_box: &RigidBox3d, offset: [i64; 3]) -> (velocity: [i64; 3])
    requires
        offset_bounded((offset[0] as int, offset[1] as int, offset[2] as int)),
    ensures
        (velocity[0] as int, velocity[1] as int, velocity[2] as int) == contact_velocity_of(
            *rigid_box,
            (offset[0] as int, offset[1] as int, offset[2] as int),
        ),
        -0x2_0000_0000_0000 <= velocity[0] <= 0x2_0000_0000_0000,
        -0x2_0000_0000_0000 <= velocity[1] <= 0x2_0000_0000_0000,
        -0x2_0000_0000_0000 <= velocity[2] <= 0x2_0000_0000_0000,
{
    let omega = if rigid_box.rotation_locked {
        AngularVelocity3d::new(0, 0, 0)
    } else {
        rigid_box.angular.angular_velocity
    };
    let ox = offset[0] as i128;
    let oy = offset[1] as i128;
    let oz = offset[2] as i128;
    let wx = omega.x as i128;
    let wy = omega.y as i128;
    let wz = omega.z as i128;
    proof {
        lemma_rotation_numerator_bounded(wy as int, oz as int, wz as int, oy as int);
        lemma_rotation_numerator_bounded(wz as int, ox as int, wx as int, oz as int);
        lemma_rotation_numerator_bounded(wx as int, oy as int, wy as int, ox as int);
        lemma_rounded_rotation_bounded(wy * oz - wz * oy);
        lemma_rounded_rotation_bounded(wz * ox - wx * oz);
        lemma_rounded_rotation_bounded(wx * oy - wy * ox);
    }
    let rotation_x = wy * oz - wz * oy;
    let rotation_y = wz * ox - wx * oz;
    let rotation_z = wx * oy - wy * ox;
    [
        add_linear_rotation(rigid_box.body.velocity.x, rotation_x),
        add_linear_rotation(rigid_box.body.velocity.y, rotation_y),
        add_linear_rotation(rigid_box.body.velocity.z, rotation_z),
    ]
}

/// The offset from `center` to `point`.
fn vector_delta(center: Vec3i, point: Vec3i) -> (delta: [i64; 3])
    ensures
        delta[0] == point.x - center.x,
        delta[1] == point.y - center.y,
        delta[2] == point.z - center.z,
        offset_bounded((delta[0] as int, delta[1] as int, delta[2] as int)),
{
    [
        point.x as i64 - center.x as i64,
        point.y as i64 - center.y as i64,
        point.z as i64 - center.z as i64,
    ]
}

// ---------------------------------------------------------------------------------------------
// Support sets and the reduced contact point
// ---------------------------------------------------------------------------------------------

/// The bit of vertex `index` in a support mask.
pub open spec fn mask_bit(index: int) -> u8 {
    if index == 0 {
        1
    } else if index == 1 {
        2
    } else if index == 2 {
        4
    } else if index == 3 {
        8
    } else if index == 4 {
        16
    } else if index == 5 {
        32
    } else if index == 6 {
        64
    } else {
        128
    }
}

/// Vertex `index` belongs to the support set `mask`.
pub open spec fn in_mask(mask: u8, index: int) -> bool {
    mask & mask_bit(index) != 0
}

/// Number of the first `n` vertices in the support set.
pub open spec fn mask_count(mask: u8, n: nat) -> nat
    decreases n,
{
    if n == 0 {
        0
    } else {
        mask_count(mask, (n - 1) as nat) + if in_mask(mask, n - 1) {
            1nat
        } else {
            0nat
        }
    }
}

/// Sum of coordinate `axis` over the supporting vertices among the first `n`.
pub open spec fn masked_sum(vertices: Seq<Vec3i>, mask: u8, axis: int, n: nat) -> int
    decreases n,
{
    if n == 0 {
        0
    } else {
        masked_sum(vertices, mask, axis, (n - 1) as nat) + if in_mask(mask, n - 1) {
            vertices[n - 1].spec_component(axis) as int
        } else {
            0
        }
    }
}

/// The rounded centroid of the support set; absent for an empty set.
pub open spec fn support_centroid_of(vertices: Seq<Vec3i>, mask: u8) -> Option<Vec3i> {
    let count = mask_count(mask, 8) as int;
    if count == 0 {
        None
    } else {
        Some(
            Vec3i {
                x: round_div(masked_sum(vertices, mask, 0, 8), count) as i32,
                y: round_div(masked_sum(vertices, mask, 1, 8), count) as i32,
                z: round_div(masked_sum(vertices, mask, 2, 8), count) as i32,
            },
        )
    }
}

proof fn lemma_mask_count_bounded(mask: u8, n: nat)
    ensures
        mask_count(mask, n) <= n,
    decreases n,
{
    if n > 0 {
        lemma_mask_count_bounded(mask, (n - 1) as nat);
    }
}

proof fn lemma_masked_sum_bounded(vertices: Seq<Vec3i>, mask: u8, axis: int, n: nat)
    ensures
        -0x8000_0000 * mask_count(mask, n) <= masked_sum(vertices, mask, axis, n) <= 0x7fff_ffff
            * mask_count(mask, n),
    decreases n,
{
    if n > 0 {
        lemma_masked_sum_bounded(vertices, mask, axis, (n - 1) as nat);
    }
}

/// The rounded mean of values within `i32` stays within `i32`.
proof fn lemma_rounded_mean_fits(sum: int, count: int)
    requires
        1 <= count,
        -0x8000_0000 * count <= sum <= 0x7fff_ffff * count,
    ensures
        fits_i32(round_div(sum, count)),
{
    let h = count / 2;
    if sum >= 0 {
        vstd::arithmetic::div_mod::lemma_div_is_ordered(sum + h, 0x7fff_ffff * count + h, count);
        vstd::arithmetic::div_mod::lemma_div_multiples_vanish_fancy(0x7fff_ffff, h, count);
        vstd::arithmetic::div_mod::lemma_div_pos_is_pos(sum + h, count);
    } else {
        vstd::arithmetic::div_mod::lemma_div_is_ordered(-sum + h, 0x8000_0000 * count + h, count);
        vstd::arithmetic::div_mod::lemma_div_multiples_vanish_fancy(0x8000_0000, h, count);
        vstd::arithmetic::div_mod::lemma_div_pos_is_pos(-sum + h, count);
    }
}

fn mask_bit_exec(index: usize) -> (bit: u8)
    requires
        index < 8,
    ensures
        bit == mask_bit(index as int),
{
    if index == 0 {
        1
    } else if index == 1 {
        2
    } else if index == 2 {
        4
    } else if index == 3 {
        8
    } else if index == 4 {
        16
    } else if index == 5 {
        32
    } else if index == 6 {
        64
    } else {
        128
    }
}

fn support_centroid(vertices: &[Vec3i; 8], mask: u8) -> (result: Result<
    Vec3i,
    ObbContactResponseError3d,
>)
    ensures
        match result {
            Ok(centroid) => support_centroid_of(vertices@, mask) == Some(centroid),
            Err(error) => support_centroid_of(vertices@, mask) is None && error
                == ObbContactResponseError3d::ArithmeticOverflow,
        },
{
    let mut sum_x: i128 = 0;
    let mut sum_y: i128 = 0;
    let mut sum_z: i128 = 0;
    let mut count: i128 = 0;
    let mut index: usize = 0;
    while index < 8
        invariant
            0 <= index <= 8,
            count == mask_count(mask, index as nat),
            sum_x == masked_sum(vertices@, mask, 0, index as nat),
            sum_y == masked_sum(vertices@, mask, 1, index as nat),
            sum_z == masked_sum(vertices@, mask, 2, index as nat),
        decreases 8 - index,
    {
        proof {
            lemma_mask_count_bounded(mask, index as nat);
            lemma_masked_sum_bounded(vertices@, mask, 0, index as nat);
            lemma_masked_sum_bounded(vertices@, mask, 1, index as nat);
            lemma_masked_sum_bounded(vertices@, mask, 2, index as nat);
        }
        if mask & mask_bit_exec(index) != 0 {
            count = count + 1;
            sum_x = sum_x + vertices[index].x as i128;
            sum_y = sum_y + vertices[index].y as i128;
            sum_z = sum_z + vertices[index].z as i128;
        }
        index = index + 1;
    }
    if count == 0 {
        return Err(ObbContactResponseError3d::ArithmeticOverflow);
    }
    proof {
        lemma_masked_sum_bounded(vertices@, mask, 0, 8);
        lemma_masked_sum_bounded(vertices@, mask, 1, 8);
        lemma_masked_sum_bounded(vertices@, mask, 2, 8);
        lemma_rounded_mean_fits(sum_x as int, count as int);
        lemma_rounded_mean_fits(sum_y as int, count as int);
        lemma_rounded_mean_fits(sum_z as int, count as int);
    }
    let x = signed_round_div(sum_x, count);
    let y = signed_round_div(sum_y, count);
    let z = signed_round_div(sum_z, count);
    Ok(Vec3i::new(x as i32, y as i32, z as i32))
}

/// Smallest coordinate `axis` over the supporting vertices among the first `n`.
pub open spec fn masked_min(vertices: Seq<Vec3i>, mask: u8, axis: int, n: nat) -> Option<int>
    decreases n,
{
    if n == 0 {
        None
    } else {
        let previous = masked_min(vertices, mask, axis, (n - 1) as nat);
        if in_mask(mask, n - 1) {
            let value = vertices[n - 1].spec_component(axis) as int;
            if previous is Some && previous->Some_0 <= value {
                previous
            } else {
                Some(value)
            }
        } else {
            previous
        }
    }
}

/// Largest coordinate `axis` over the supporting vertices among the first `n`.
pub open spec fn masked_max(vertices: Seq<Vec3i>, mask: u8, axis: int, n: nat) -> Option<int>
    decreases n,
{
    if n == 0 {
        None
    } else {
        let previous = masked_max(vertices, mask, axis, (n - 1) as nat);
        if in_mask(mask, n - 1) {
            let value = vertices[n - 1].spec_component(axis) as int;
            if previous is Some && previous->Some_0 >= value {
                previous
            } else {
                Some(value)
            }
        } else {
            previous
        }
    }
}

proof fn lemma_masked_extremes_present(vertices: Seq<Vec3i>, mask: u8, axis: int, n: nat)
    ensures
        masked_min(vertices, mask, axis, n) is Some <==> mask_count(mask, n) > 0,
        masked_max(vertices, mask, axis, n) is Some <==> mask_count(mask, n) > 0,
        masked_min(vertices, mask, axis, n) is Some ==> fits_i32(
            masked_min(vertices, mask, axis, n)->Some_0,
        ),
        masked_max(vertices, mask, axis, n) is Some ==> fits_i32(
            masked_max(vertices, mask, axis, n)->Some_0,
        ),
    decreases n,
{
    if n > 0 {
        lemma_masked_extremes_present(vertices, mask, axis, (n - 1) as nat);
    }
}

fn support_interval(vertices: &[Vec3i; 8], mask: u8, axis: usize) -> (result: Option<(i32, i32)>)
    requires
        axis < 3,
    ensures
        match result {
            Some((minimum, maximum)) => masked_min(vertices@, mask, axis as int, 8) == Some(
                minimum as int,
            ) && masked_max(vertices@, mask, axis as int, 8) == Some(maximum as int),
            None => mask_count(mask, 8) == 0,
        },
{
    let mut minimum: Option<i32> = None;
    let mut maximum: Option<i32> = None;
    let mut index: usize = 0;
    while index < 8
        invariant
            0 <= index <= 8,
            axis < 3,
            match minimum {
                Some(v) => masked_min(vertices@, mask, axis as int, index as nat) == Some(v as int),
                None => masked_min(vertices@, mask, axis as int, index as nat) is None,
            },
            match maximum {
                Some(v) => masked_max(vertices@, mask, axis as int, index as nat) == Some(v as int),
                None => masked_max(vertices@, mask, axis as int, index as nat) is None,
            },
        decreases 8 - index,
    {
        if mask & mask_bit_exec(index) != 0 {
            let value = vertices[index].component(axis);
            minimum = match minimum {
                Some(current) => if current <= value {
                    Some(current)
                } else {
                    Some(value)
                },
                None => Some(value),
            };
            maximum = match maximum {
                Some(current) => if current >= value {
                    Some(current)
                } else {
                    Some(value)
                },
                None => Some(value),
            };
        }
        index = index + 1;
    }
    proof {
        lemma_masked_extremes_present(vertices@, mask, axis as int, 8);
    }
    match (minimum, maximum) {
        (Some(minimum), Some(maximum)) => Some((minimum, maximum)),
        _ => None,
    }
}

/// The supporting vertices take exactly two distinct values on coordinate `axis`.
pub open spec fn two_valued(vertices: Seq<Vec3i>, mask: u8, axis: int) -> bool {
    exists|a: int, b: int|
        #![trigger two_value_witness(vertices, mask, axis, a, b)]
        two_value_witness(vertices, mask, axis, a, b)
}

pub open spec fn two_value_witness(vertices: Seq<Vec3i>, mask: u8, axis: int, a: int, b: int) -> bool {
    &&& a != b
    &&& forall|i: int|
        0 <= i < 8 && in_mask(mask, i) ==> (#[trigger] vertices[i].spec_component(axis) == a
            || vertices[i].spec_component(axis) == b)
    &&& exists|i: int|
        0 <= i < 8 && in_mask(mask, i) && #[trigger] vertices[i].spec_component(axis) == a
    &&& exists|i: int|
        0 <= i < 8 && in_mask(mask, i) && #[trigger] vertices[i].spec_component(axis) == b
}

/// Whether the supporting vertices form an axis-aligned rectangle across both tangent axes:
/// each tangent coordinate takes exactly two distinct values.
fn two_valued_exec(vertices: &[Vec3i; 8], mask: u8, axis: usize) -> (result: bool)
    requires
        axis < 3,
    ensures
        result == two_valued(vertices@, mask, axis as int),
{
    let ghost vs = vertices@;
    let ghost ax = axis as int;
    let mut first: Option<i32> = None;
    let mut first_index: usize = 0;
    let mut index: usize = 0;
    while index < 8
        invariant
            0 <= index <= 8,
            axis < 3,
            vs == vertices@,
            ax == axis as int,
            first is None ==> forall|i: int| 0 <= i < index ==> !in_mask(mask, i),
            first is Some ==> first_index < 8 && in_mask(mask, first_index as int)
                && vertices@[first_index as int].spec_component(axis as int) == first->Some_0,
        decreases 8 - index,
    {
        if first.is_none() && mask & mask_bit_exec(index) != 0 {
            first = Some(vertices[index].component(axis));
            first_index = index;
        }
        index = index + 1;
    }
    let a = match first {
        Some(a) => a,
        None => {
            assert forall|x: int, y: int| !two_value_witness(vs, mask, ax, x, y) by {
                if two_value_witness(vs, mask, ax, x, y) {
                    let i = choose|i: int|
                        0 <= i < 8 && in_mask(mask, i) && #[trigger] vs[i].spec_component(ax) == x;
                    assert(!in_mask(mask, i));
                }
            }
            return false;
        },
    };
    let mut second: Option<i32> = None;
    let mut second_index: usize = 0;
    index = 0;
    while index < 8
        invariant
            0 <= index <= 8,
            axis < 3,
            vs == vertices@,
            ax == axis as int,
            second is None ==> forall|i: int|
                0 <= i < index && in_mask(mask, i) ==> #[trigger] vs[i].spec_component(ax) == a,
            second is Some ==> second_index < 8 && in_mask(mask, second_index as int)
                && vs[second_index as int].spec_component(ax) == second->Some_0 && second->Some_0
                != a,
        decreases 8 - index,
    {
        if second.is_none() && mask & mask_bit_exec(index) != 0 {
            let value = vertices[index].component(axis);
            if value != a {
                second = Some(value);
                second_index = index;
            }
        }
        index = index + 1;
    }
    let b = match second {
        Some(b) => b,
        None => {
            assert forall|x: int, y: int| !two_value_witness(vs, mask, ax, x, y) by {
                if two_value_witness(vs, mask, ax, x, y) {
                    let i = choose|i: int|
                        0 <= i < 8 && in_mask(mask, i) && #[trigger] vs[i].spec_component(ax) == x;
                    let j = choose|j: int|
                        0 <= j < 8 && in_mask(mask, j) && #[trigger] vs[j].spec_component(ax) == y;
                    assert(vs[i].spec_component(ax) == a);
                    assert(vs[j].spec_component(ax) == a);
                }
            }
            return false;
        },
    };
    let mut covered = true;
    let mut stray_index: usize = 0;
    index = 0;
    while index < 8
        invariant
            0 <= index <= 8,
            axis < 3,
            vs == vertices@,
            ax == axis as int,
            covered ==> forall|i: int|
                0 <= i < index && in_mask(mask, i) ==> (#[trigger] vs[i].spec_component(ax) == a
                    || vs[i].spec_component(ax) == b),
            !covered ==> stray_index < 8 && in_mask(mask, stray_index as int) && vs[stray_index as int].spec_component(ax) != a
                && vs[stray_index as int].spec_component(ax) != b,
        decreases 8 - index,
    {
        if covered && mask & mask_bit_exec(index) != 0 {
            let value = vertices[index].component(axis);
            if value != a && value != b {
                covered = false;
                stray_index = index;
            }
        }
        index = index + 1;
    }
    proof {
        if covered {
            assert(vs[first_index as int].spec_component(ax) == a);
            assert(vs[second_index as int].spec_component(ax) == b);
            assert(two_value_witness(vs, mask, ax, a as int, b as int));
        } else {
            assert forall|x: int, y: int| !two_value_witness(vs, mask, ax, x, y) by {
                if two_value_witness(vs, mask, ax, x, y) {
                    assert(vs[first_index as int].spec_component(ax) == a);
                    assert(vs[second_index as int].spec_component(ax) == b);
                    assert(vs[stray_index as int].spec_component(ax) != a);
                }
            }
        }
    }
    covered
}

fn support_is_axis_aligned_rectangle(vertices: &[Vec3i; 8], mask: u8, tangent_axes: [usize; 2]) -> (result:
    bool)
    requires
        tangent_axes[0] < 3,
        tangent_axes[1] < 3,
    ensures
        result == (two_valued(vertices@, mask, tangent_axes[0] as int) && two_valued(
            vertices@,
            mask,
            tangent_axes[1] as int,
        )),
{
    two_valued_exec(vertices, mask, tangent_axes[0]) && two_valued_exec(
        vertices,
        mask,
        tangent_axes[1],
    )
}

/// Squared spread of the supporting vertices about `center`, over the first `n` vertices.
pub open spec fn masked_spread(vertices: Seq<Vec3i>, mask: u8, center: Vec3i, n: nat) -> int
    decreases n,
{
    if n == 0 {
        0
    } else {
        masked_spread(vertices, mask, center, (n - 1) as nat) + if in_mask(mask, n - 1) {
            let v = vertices[n - 1];
            (v.x - center.x) * (v.x - center.x) + (v.y - center.y) * (v.y - center.y) + (v.z
                - center.z) * (v.z - center.z)
        } else {
            0
        }
    }
}

proof fn lemma_square_of_difference(a: int, b: int)
    requires
        fits_i32(a),
        fits_i32(b),
    ensures
        0 <= (a - b) * (a - b) <= 0x1_0000_0000 * 0x1_0000_0000,
{
    assert(0 <= (a - b) * (a - b) <= 0x1_0000_0000 * 0x1_0000_0000) by (nonlinear_arith)
        requires
            -0x1_0000_0000 <= a - b <= 0x1_0000_0000,
    ;
}

proof fn lemma_masked_spread_bounded(vertices: Seq<Vec3i>, mask: u8, center: Vec3i, n: nat)
    ensures
        0 <= masked_spread(vertices, mask, center, n) <= n * 3 * 0x1_0000_0000_0000_0000,
    decreases n,
{
    if n > 0 {
        lemma_masked_spread_bounded(vertices, mask, center, (n - 1) as nat);
        if in_mask(mask, n - 1) {
            let v = vertices[n - 1];
            lemma_square_of_difference(v.x as int, center.x as int);
            lemma_square_of_difference(v.y as int, center.y as int);
            lemma_square_of_difference(v.z as int, center.z as int);
        }
    }
}

fn squared_difference(value: i32, center: i32) -> (result: u128)
    ensures
        result == (value - center) * (value - center),
        result <= 0x1_0000_0000_0000_0000,
{
    let delta = value as i128 - center as i128;
    proof {
        lemma_square_of_difference(value as int, center as int);
    }
    (delta * delta) as u128
}

fn support_spread_squared(vertices: &[Vec3i; 8], mask: u8, center: Vec3i) -> (result: Option<u128>)
    ensures
        match result {
            Some(total) => mask_count(mask, 8) > 0 && total == masked_spread(
                vertices@,
                mask,
                center,
                8,
            ),
            None => mask_count(mask, 8) == 0,
        },
{
    let mut total: u128 = 0;
    let mut count: u8 = 0;
    let mut index: usize = 0;
    while index < 8
        invariant
            0 <= index <= 8,
            count == mask_count(mask, index as nat),
            total == masked_spread(vertices@, mask, center, index as nat),
        decreases 8 - index,
    {
        proof {
            lemma_mask_count_bounded(mask, index as nat);
            lemma_masked_spread_bounded(vertices@, mask, center, index as nat);
        }
        if mask & mask_bit_exec(index) != 0 {
            count = count + 1;
            let vertex = vertices[index];
            total = total + squared_difference(vertex.x, center.x) + squared_difference(
                vertex.y,
                center.y,
            ) + squared_difference(vertex.z, center.z);
        }
        index = index + 1;
    }
    if count == 0 {
        return None;
    }
    Some(total)
}

/// The index of the only non-zero component of `axis`, if exactly one is non-zero.
pub open spec fn coordinate_axis_of(axis: Vector3) -> Option<int> {
    if axis.0 != 0 && axis.1 == 0 && axis.2 == 0 {
        Some(0)
    } else if axis.0 == 0 && axis.1 != 0 && axis.2 == 0 {
        Some(1)
    } else if axis.0 == 0 && axis.1 == 0 && axis.2 != 0 {
        Some(2)
    } else {
        None
    }
}

fn coordinate_axis(axis: [i128; 3]) -> (result: Option<usize>)
    ensures
        match result {
            Some(index) => coordinate_axis_of(vector_of(axis)) == Some(index as int),
            None => coordinate_axis_of(vector_of(axis)) is None,
        },
{
    let mut found: Option<usize> = None;
    let mut index: usize = 0;
    while index < 3
        invariant
            0 <= index <= 3,
            match found {
                Some(k) => k < index && axis[k as int] != 0 && forall|j: int|
                    0 <= j < index && j != k ==> axis[j] == 0,
                None => forall|j: int| 0 <= j < index ==> axis[j] == 0,
            },
        decreases 3 - index,
    {
        if axis[index] != 0 {
            if found.is_some() {
                return None;
            }
            found = Some(index);
        }
        index = index + 1;
    }
    found
}

/// The axes tangent to the coordinate axis `normal`.
pub open spec fn tangent_axes_of(normal: int) -> (int, int) {
    if normal == 0 {
        (1, 2)
    } else if normal == 1 {
        (0, 2)
    } else {
        (0, 1)
    }
}

/// Rounded midpoint of two coordinates.
fn midpoint_axis(left: i32, right: i32) -> (midpoint: i32)
    ensures
        midpoint == round_div(left + right, 2),
{
    proof {
        lemma_rounded_mean_fits(left + right, 2);
    }
    signed_round_div(left as i128 + right as i128, 2) as i32
}

pub open spec fn max_int(a: int, b: int) -> int {
    if a >= b {
        a
    } else {
        b
    }
}

pub open spec fn min_int(a: int, b: int) -> int {
    if a <= b {
        a
    } else {
        b
    }
}

/// Center of the overlap of the two supports along tangent axis `axis`, if they overlap.
pub open spec fn tangent_overlap_center(
    left_vertices: Seq<Vec3i>,
    left_mask: u8,
    right_vertices: Seq<Vec3i>,
    right_mask: u8,
    axis: int,
) -> Option<int> {
    let low = max_int(
        masked_min(left_vertices, left_mask, axis, 8)->Some_0,
        masked_min(right_vertices, right_mask, axis, 8)->Some_0,
    );
    let high = min_int(
        masked_max(left_vertices, left_mask, axis, 8)->Some_0,
        masked_max(right_vertices, right_mask, axis, 8)->Some_0,
    );
    if low > high {
        None
    } else {
        Some(round_div(low + high, 2))
    }
}

/// For two four-vertex axis-aligned rectangular faces meeting on a coordinate axis: the center
/// of their overlap rectangle, placed midway between the two supports along the normal.
pub open spec fn face_overlap_point(
    left_vertices: Seq<Vec3i>,
    left_mask: u8,
    left_support: Vec3i,
    right_vertices: Seq<Vec3i>,
    right_mask: u8,
    right_support: Vec3i,
    axis: Vector3,
) -> Option<Vec3i> {
    if mask_count(left_mask, 8) != 4 || mask_count(right_mask, 8) != 4 {
        None
    } else if coordinate_axis_of(axis) is None {
        None
    } else {
        let normal = coordinate_axis_of(axis)->Some_0;
        let (t0, t1) = tangent_axes_of(normal);
        if !(two_valued(left_vertices, left_mask, t0) && two_valued(left_vertices, left_mask, t1)
            && two_valued(right_vertices, right_mask, t0) && two_valued(
            right_vertices,
            right_mask,
            t1,
        )) {
            None
        } else {
            let c0 = tangent_overlap_center(left_vertices, left_mask, right_vertices, right_mask, t0);
            let c1 = tangent_overlap_center(left_vertices, left_mask, right_vertices, right_mask, t1);
            if c0 is None || c1 is None {
                None
            } else {
                let n = round_div(
                    left_support.spec_component(normal) + right_support.spec_component(normal),
                    2,
                );
                let coordinate = |k: int|
                    if k == normal {
                        n
                    } else if k == t0 {
                        c0->Some_0
                    } else {
                        c1->Some_0
                    };
                Some(
                    Vec3i {
                        x: coordinate(0) as i32,
                        y: coordinate(1) as i32,
                        z: coordinate(2) as i32,
                    },
                )
            }
        }
    }
}

fn mask_population(mask: u8) -> (count: u32)
    ensures
        count == mask_count(mask, 8),
{
    let mut count: u32 = 0;
    let mut index: usize = 0;
    while index < 8
        invariant
            0 <= index <= 8,
            count == mask_count(mask, index as nat),
        decreases 8 - index,
    {
        proof {
            lemma_mask_count_bounded(mask, index as nat);
        }
        if mask & mask_bit_exec(index) != 0 {
            count = count + 1;
        }
        index = index + 1;
    }
    count
}

fn tangent_overlap(
    left_vertices: &[Vec3i; 8],
    left_mask: u8,
    right_vertices: &[Vec3i; 8],
    right_mask: u8,
    axis: usize,
) -> (result: Option<i32>)
    requires
        axis < 3,
        mask_count(left_mask, 8) > 0,
        mask_count(right_mask, 8) > 0,
    ensures
        match result {
            Some(center) => tangent_overlap_center(
                left_vertices@,
                left_mask,
                right_vertices@,
                right_mask,
                axis as int,
            ) == Some(center as int),
            None => tangent_overlap_center(
                left_vertices@,
                left_mask,
                right_vertices@,
                right_mask,
                axis as int,
            ) is None,
        },
{
    let (left_minimum, left_maximum) = match support_interval(left_vertices, left_mask, axis) {
        Some(interval) => interval,
        None => return None,
    };
    let (right_minimum, right_maximum) = match support_interval(right_vertices, right_mask, axis) {
        Some(interval) => interval,
        None => return None,
    };
    let low = if left_minimum >= right_minimum {
        left_minimum
    } else {
        right_minimum
    };
    let high = if left_maximum <= right_maximum {
        left_maximum
    } else {
        right_maximum
    };
    if low > high {
        return None;
    }
    Some(midpoint_axis(low, high))
}

fn axis_aligned_face_overlap_centroid(
    left_vertices: &[Vec3i; 8],
    left_mask: u8,
    left_support: Vec3i,
    right_vertices: &[Vec3i; 8],
    right_mask: u8,
    right_support: Vec3i,
    axis: [i128; 3],
) -> (result: Option<Vec3i>)
    ensures
        result == face_overlap_point(
            left_vertices@,
            left_mask,
            left_support,
            right_vertices@,
            right_mask,
            right_support,
            vector_of(axis),
        ),
{
    if mask_population(left_mask) != 4 || mask_population(right_mask) != 4 {
        return None;
    }
    let normal = match coordinate_axis(axis) {
        Some(normal) => normal,
        None => return None,
    };
    let tangent_axes: [usize; 2] = if normal == 0 {
        [1, 2]
    } else if normal == 1 {
        [0, 2]
    } else {
        [0, 1]
    };
    if !support_is_axis_aligned_rectangle(left_vertices, left_mask, tangent_axes)
        || !support_is_axis_aligned_rectangle(right_vertices, right_mask, tangent_axes) {
        return None;
    }
    let n = midpoint_axis(left_support.component(normal), right_support.component(normal));
    let c0 = match tangent_overlap(
        left_vertices,
        left_mask,
        right_vertices,
        right_mask,
        tangent_axes[0],
    ) {
        Some(center) => center,
        None => return None,
    };
    let c1 = match tangent_overlap(
        left_vertices,
        left_mask,
        right_vertices,
        right_mask,
        tangent_axes[1],
    ) {
        Some(center) => center,
        None => return None,
    };
    let mut coordinate = [0i32; 3];
    coordinate.set(normal, n);
    coordinate.set(tangent_axes[0], c0);
    coordinate.set(tangent_axes[1], c1);
    Some(Vec3i::new(coordinate[0], coordinate[1], coordinate[2]))
}

/// `anchor` moved along `axis` onto the plane midway between the two supports.
pub open spec fn checked_midplane(
    anchor: Vec3i,
    left_support: Vec3i,
    right_support: Vec3i,
    axis: Vector3,
    length_squared: int,
) -> Option<Vec3i> {
    if !(length_squared <= i128::MAX && length_squared > 0) {
        None
    } else {
        let dl = checked_dot(position_of(left_support), axis);
        let dr = checked_dot(position_of(right_support), axis);
        if !(dl is Some && dr is Some && fits_i128(dl->Some_0 + dr->Some_0)) {
            None
        } else {
            let target = checked_round_div(dl->Some_0 + dr->Some_0, 2);
            let da = checked_dot(position_of(anchor), axis);
            if !(target is Some && da is Some && fits_i128(target->Some_0 - da->Some_0)) {
                None
            } else {
                let delta = target->Some_0 - da->Some_0;
                let sx = if fits_i128(delta * axis.0) {
                    checked_round_div(delta * axis.0, length_squared)
                } else {
                    None
                };
                let sy = if fits_i128(delta * axis.1) {
                    checked_round_div(delta * axis.1, length_squared)
                } else {
                    None
                };
                let sz = if fits_i128(delta * axis.2) {
                    checked_round_div(delta * axis.2, length_squared)
                } else {
                    None
                };
                if sx is Some && sy is Some && sz is Some {
                    checked_offset_position(anchor, (sx->Some_0, sy->Some_0, sz->Some_0))
                } else {
                    None
                }
            }
        }
    }
}

fn project_to_support_midplane(
    anchor: Vec3i,
    left_support: Vec3i,
    right_support: Vec3i,
    axis: [i128; 3],
    axis_length_squared: u128,
) -> (result: Result<Vec3i, ObbContactResponseError3d>)
    ensures
        match result {
            Ok(point) => checked_midplane(
                anchor,
                left_support,
                right_support,
                vector_of(axis),
                axis_length_squared as int,
            ) == Some(point),
            Err(error) => checked_midplane(
                anchor,
                left_support,
                right_support,
                vector_of(axis),
                axis_length_squared as int,
            ) is None && error == ObbContactResponseError3d::ArithmeticOverflow,
        },
{
    if axis_length_squared > i128::MAX as u128 || axis_length_squared == 0 {
        return Err(ObbContactResponseError3d::ArithmeticOverflow);
    }
    let length_squared = axis_length_squared as i128;
    let left_projection = dot_vec(left_support, axis)?;
    let right_projection = dot_vec(right_support, axis)?;
    let target_projection = div_round_nearest(checked_add(left_projection, right_projection)?, 2)?;
    let projection_delta = checked_sub(target_projection, dot_vec(anchor, axis)?)?;
    let sx = div_round_nearest(checked_mul(projection_delta, axis[0])?, length_squared)?;
    let sy = div_round_nearest(checked_mul(projection_delta, axis[1])?, length_squared)?;
    let sz = div_round_nearest(checked_mul(projection_delta, axis[2])?, length_squared)?;
    let x = to_i32(checked_add(anchor.x as i128, sx)?)?;
    let y = to_i32(checked_add(anchor.y as i128, sy)?)?;
    let z = to_i32(checked_add(anchor.z as i128, sz)?)?;
    Ok(Vec3i::new(x, y, z))
}

/// The single reduced contact point: the overlap center of two axis-aligned rectangular faces
/// when that applies; otherwise the centroid of the tighter support set (ties go to the left
/// body) projected onto the plane midway between both supports.
pub open spec fn reduced_point(
    left_vertices: Seq<Vec3i>,
    left_mask: u8,
    left_support: Vec3i,
    left_id: BodyId,
    right_vertices: Seq<Vec3i>,
    right_mask: u8,
    right_support: Vec3i,
    right_id: BodyId,
    axis: Vector3,
    length_squared: int,
) -> Option<Vec3i> {
    let face = face_overlap_point(
        left_vertices,
        left_mask,
        left_support,
        right_vertices,
        right_mask,
        right_support,
        axis,
    );
    if face is Some {
        face
    } else if mask_count(left_mask, 8) == 0 || mask_count(right_mask, 8) == 0 {
        None
    } else {
        let left_spread = masked_spread(left_vertices, left_mask, left_support, 8);
        let right_spread = masked_spread(right_vertices, right_mask, right_support, 8);
        let anchor = if left_spread < right_spread {
            left_support
        } else if left_spread > right_spread {
            right_support
        } else if left_id.0 < right_id.0 {
            left_support
        } else {
            right_support
        };
        checked_midplane(anchor, left_support, right_support, axis, length_squared)
    }
}

fn reduced_contact_point(
    left_vertices: &[Vec3i; 8],
    left_mask: u8,
    left_support: Vec3i,
    left: &RigidBox3d,
    right_vertices: &[Vec3i; 8],
    right_mask: u8,
    right_support: Vec3i,
    right: &RigidBox3d,
    seed: &ObbContactSeed3d,
) -> (result: Result<Vec3i, ObbContactResponseError3d>)
    ensures
        match result {
            Ok(point) => reduced_point(
                left_vertices@,
                left_mask,
                left_support,
                left.body.id,
                right_vertices@,
                right_mask,
                right_support,
                right.body.id,
                vector_of(seed.axis),
                seed.axis_length_squared as int,
            ) == Some(point),
            Err(error) => reduced_point(
                left_vertices@,
                left_mask,
                left_support,
                left.body.id,
                right_vertices@,
                right_mask,
                right_support,
                right.body.id,
                vector_of(seed.axis),
                seed.axis_length_squared as int,
            ) is None && error == ObbContactResponseError3d::ArithmeticOverflow,
        },
{
    match axis_aligned_face_overlap_centroid(
        left_vertices,
        left_mask,
        left_support,
        right_vertices,
        right_mask,
        right_support,
        seed.axis,
    ) {
        Some(point) => return Ok(point),
        None => {},
    }
    let left_spread = match support_spread_squared(left_vertices, left_mask, left_support) {
        Some(spread) => spread,
        None => return Err(ObbContactResponseError3d::ArithmeticOverflow),
    };
    let right_spread = match support_spread_squared(right_vertices, right_mask, right_support) {
        Some(spread) => spread,
        None => return Err(ObbContactResponseError3d::ArithmeticOverflow),
    };
    let anchor = if left_spread < right_spread {
        left_support
    } else if left_spread > right_spread {
        right_support
    } else if left.body.id.0 < right.body.id.0 {
        left_support
    } else {
        right_support
    };
    project_to_support_midplane(
        anchor,
        left_support,
        right_support,
        seed.axis,
        seed.axis_length_squared,
    )
}

// ---------------------------------------------------------------------------------------------
// Contact resolution
// ---------------------------------------------------------------------------------------------

/// Reduced deterministic OBB contact evidence plus the vector impulse applied at that contact.
#[derive(Clone, Copy, Debug, PartialEq, Eq)]
pub struct ObbResolvedContact3d {
    pub point: Vec3i,
    pub axis: [i128; 3],
    pub feature: ObbAxisFeature3d,
    pub overlap_numerator: u128,
    pub axis_length_squared: u128,
    pub left_support_mask: u8,
    pub right_support_mask: u8,
    /// Impulse applied to the right body; the left body receives the equal-and-opposite vector.
    /// Keeping the vector avoids discarding representable impulses when a non-unit SAT axis would
    /// need a fractional scalar multiplier.
    pub normal_impulse: [i128; 3],
}

#[derive(Clone, Debug, PartialEq, Eq)]
pub struct ObbContactResponse3d {
    pub left: RigidBox3d,
    pub right: RigidBox3d,
    pub contact: Option<ObbResolvedContact3d>,
}

/// The validation failure of a pair, if any: bodies must come in strictly ascending id order and
/// both restitutions must lie within `0..=MATERIAL_SCALE`.
pub open spec fn pair_validation_error(left: RigidBox3d, right: RigidBox3d) -> Option<
    ObbContactResponseError3d,
> {
    if left.body.id.0 >= right.body.id.0 {
        Some(ObbContactResponseError3d::NonCanonicalPair(left.body.id, right.body.id))
    } else if left.body.material.restitution_milli > MATERIAL_SCALE {
        Some(
            ObbContactResponseError3d::RestitutionOutOfRange(
                left.body.id,
                left.body.material.restitution_milli,
            ),
        )
    } else if right.body.material.restitution_milli > MATERIAL_SCALE {
        Some(
            ObbContactResponseError3d::RestitutionOutOfRange(
                right.body.id,
                right.body.material.restitution_milli,
            ),
        )
    } else {
        None
    }
}

pub open spec fn offset_from(center: Vec3i, point: Vec3i) -> Vector3 {
    (point.x - center.x, point.y - center.y, point.z - center.z)
}

pub open spec fn is_dynamic(rigid_box: RigidBox3d) -> bool {
    rigid_box.body.kind == BodyKind::Dynamic
}

/// The reduced contact point of a SAT contact `seed`: support centroids reduced to one point.
#[verifier::opaque]
pub open spec fn contact_point_of(left: RigidBox3d, right: RigidBox3d, seed: ObbContactSeed3d) -> Option<
    Vec3i,
> {
    let lv = spec_vertices(left.spec_oriented_box());
    let rv = spec_vertices(right.spec_oriented_box());
    let ls = support_centroid_of(lv, seed.left_support_mask);
    let rs = support_centroid_of(rv, seed.right_support_mask);
    if ls is None || rs is None {
        None
    } else {
        reduced_point(
            lv,
            seed.left_support_mask,
            ls->Some_0,
            left.body.id,
            rv,
            seed.right_support_mask,
            rs->Some_0,
            right.body.id,
            vector_of(seed.axis),
            seed.axis_length_squared as int,
        )
    }
}

/// Relative normal velocity at `point`: the right material point's velocity minus the left one's,
/// projected on the SAT axis.
pub open spec fn normal_velocity_at(
    left: RigidBox3d,
    right: RigidBox3d,
    seed: ObbContactSeed3d,
    point: Vec3i,
) -> Option<int> {
    let lvel = contact_velocity_of(left, offset_from(left.body.position, point));
    let rvel = contact_velocity_of(right, offset_from(right.body.position, point));
    checked_dot((rvel.0 - lvel.0, rvel.1 - lvel.1, rvel.2 - lvel.2), vector_of(seed.axis))
}

/// A zero-depth contact tied across several SAT axes: its normal is ambiguous.
pub open spec fn tied_zero_depth(seed: ObbContactSeed3d) -> bool {
    seed.overlap_numerator == 0 && seed.minimum_axis_ties > 1
}

/// The impulse stage at `point`: the impulse `j` and both bodies after it. An approaching pair
/// involving a dynamic body receives the normal impulse, the right body `+j` and the left body
/// `-j`, with angular response suppressed for a tied zero-depth contact.
#[verifier::opaque]
pub open spec fn impulse_stage(
    left: RigidBox3d,
    right: RigidBox3d,
    allow_restitution: bool,
    seed: ObbContactSeed3d,
    point: Vec3i,
) -> Option<(Vector3, RigidBox3d, RigidBox3d)> {
    let normal = normal_velocity_at(left, right, seed, point);
    if normal is None {
        None
    } else {
        let normal_velocity = normal->Some_0;
        let lo = offset_from(left.body.position, point);
        let ro = offset_from(right.body.position, point);
        let tied = tied_zero_depth(seed);
        let approaching = normal_velocity < 0 && (is_dynamic(left) || is_dynamic(right));
        if !approaching {
            Some(((0int, 0int, 0int), left, right))
        } else {
            let impulse = checked_normal_impulse(
                left,
                lo,
                right,
                ro,
                vector_of(seed.axis),
                seed.axis_length_squared as int,
                normal_velocity,
                allow_restitution,
                !tied,
            );
            if impulse is None {
                None
            } else {
                let j = impulse->Some_0;
                if j == (0int, 0int, 0int) {
                    Some((j, left, right))
                } else if j.0 == i128::MIN || j.1 == i128::MIN || j.2 == i128::MIN {
                    None
                } else {
                    let l = checked_apply_impulse(left, lo, (-j.0, -j.1, -j.2), !tied);
                    let r = checked_apply_impulse(right, ro, j, !tied);
                    if l is Some && r is Some {
                        Some((j, l->Some_0, r->Some_0))
                    } else {
                        None
                    }
                }
            }
        }
    }
}

/// The projection stage: a positive overlap is projected out along the SAT axis unless both
/// bodies are fixed.
#[verifier::opaque]
pub open spec fn projection_stage(left: RigidBox3d, right: RigidBox3d, seed: ObbContactSeed3d) -> Option<
    (RigidBox3d, RigidBox3d),
> {
    if seed.overlap_numerator > 0 && !(left.body.kind == BodyKind::Fixed && right.body.kind
        == BodyKind::Fixed) {
        let correction = checked_translation(
            vector_of(seed.axis),
            seed.overlap_numerator as int,
            seed.axis_length_squared as int,
        );
        if correction is None {
            None
        } else {
            checked_project_pair(left, right, correction->Some_0)
        }
    } else {
        Some((left, right))
    }
}

/// The response to one SAT contact `seed` between the two boxes (absent where checked
/// arithmetic overflows): the reduced point, the impulse stage, then the projection stage.
pub open spec fn contact_outcome(
    left: RigidBox3d,
    right: RigidBox3d,
    allow_restitution: bool,
    seed: ObbContactSeed3d,
) -> Option<ObbContactResponse3d> {
    let point = contact_point_of(left, right, seed);
    if point is None {
        None
    } else {
        let impulse = impulse_stage(left, right, allow_restitution, seed, point->Some_0);
        if impulse is None {
            None
        } else {
            let (j, l, r) = impulse->Some_0;
            let projected = projection_stage(l, r, seed);
            if projected is None {
                None
            } else {
                Some(
                    ObbContactResponse3d {
                        left: projected->Some_0.0,
                        right: projected->Some_0.1,
                        contact: Some(
                            ObbResolvedContact3d {
                                point: point->Some_0,
                                axis: seed.axis,
                                feature: seed.feature,
                                overlap_numerator: seed.overlap_numerator,
                                axis_length_squared: seed.axis_length_squared,
                                left_support_mask: seed.left_support_mask,
                                right_support_mask: seed.right_support_mask,
                                normal_impulse: [j.0 as i128, j.1 as i128, j.2 as i128],
                            },
                        ),
                    },
                )
            }
        }
    }
}

/// `result` reports `contact_outcome` for `seed`, an overflow reporting `ArithmeticOverflow`.
pub open spec fn reports_contact(
    result: Result<ObbContactResponse3d, ObbContactResponseError3d>,
    left: RigidBox3d,
    right: RigidBox3d,
    allow_restitution: bool,
    seed: ObbContactSeed3d,
) -> bool {
    match result {
        Ok(response) => contact_outcome(left, right, allow_restitution, seed) == Some(response),
        Err(error) => contact_outcome(left, right, allow_restitution, seed) is None && error
            == ObbContactResponseError3d::ArithmeticOverflow,
    }
}

/// The normal response to a pair as one value: its validation failure, its SAT failure, the
/// unchanged separated pair, or the response to its unique SAT contact seed (an overflow there
/// reporting `ArithmeticOverflow`).
pub open spec fn normal_response(left: RigidBox3d, right: RigidBox3d, allow_restitution: bool) -> Result<
    ObbContactResponse3d,
    ObbContactResponseError3d,
> {
    match pair_validation_error(left, right) {
        Some(error) => Err(error),
        None => match contact_of(left.spec_oriented_box(), right.spec_oriented_box()) {
            Err(error) => Err(ObbContactResponseError3d::Geometry(error)),
            Ok(None) => Ok(ObbContactResponse3d { left, right, contact: None }),
            Ok(Some(seed)) => match contact_outcome(left, right, allow_restitution, seed) {
                Some(response) => Ok(response),
                None => Err(ObbContactResponseError3d::ArithmeticOverflow),
            },
        },
    }
}

pub(crate) fn validate_pair(left: &RigidBox3d, right: &RigidBox3d) -> (result: Result<
    (),
    ObbContactResponseError3d,
>)
    ensures
        match result {
            Ok(()) => pair_validation_error(*left, *right) is None,
            Err(error) => pair_validation_error(*left, *right) == Some(error),
        },
{
    if left.body.id.0 >= right.body.id.0 {
        return Err(ObbContactResponseError3d::NonCanonicalPair(left.body.id, right.body.id));
    }
    if left.body.material.restitution_milli > MATERIAL_SCALE {
        return Err(
            ObbContactResponseError3d::RestitutionOutOfRange(
                left.body.id,
                left.body.material.restitution_milli,
            ),
        );
    }
    if right.body.material.restitution_milli > MATERIAL_SCALE {
        return Err(
            ObbContactResponseError3d::RestitutionOutOfRange(
                right.body.id,
                right.body.material.restitution_milli,
            ),
        );
    }
    Ok(())
}

/// Resolves one overlapping OBB pair with deterministic linear/angular normal response and
/// penetration projection.
///
/// Pair order is part of the contract: ids must ascend. Exact SAT evidence is reduced to one
/// contact point; the relative velocity there, rotation included, decides whether the pair
/// approaches; an approaching pair receives one equal-and-opposite normal impulse (restitution
/// combines as the smaller material value and applies only when `allow_restitution` holds); a
/// positive overlap is then projected out along the SAT axis with mass weighting. Rotation-locked
/// bodies respond only linearly. A zero-depth contact tied across several SAT axes still receives
/// its translational impulse but no angular one.
pub fn resolve_obb_contact(left: RigidBox3d, right: RigidBox3d, allow_restitution: bool) -> (result:
    Result<ObbContactResponse3d, ObbContactResponseError3d>)
    ensures
        match pair_validation_error(left, right) {
            Some(error) => result == Err::<ObbContactResponse3d, ObbContactResponseError3d>(error),
            None => match sat_outcome(left.spec_oriented_box(), right.spec_oriented_box()) {
                SatOutcome::Failure(error) => result == Err::<
                    ObbContactResponse3d,
                    ObbContactResponseError3d,
                >(ObbContactResponseError3d::Geometry(error)),
                SatOutcome::Separated => result == Ok::<
                    ObbContactResponse3d,
                    ObbContactResponseError3d,
                >(ObbContactResponse3d { left, right, contact: None }),
                SatOutcome::Contact { .. } => exists|seed: ObbContactSeed3d|
                    #![trigger reports_contact(result, left, right, allow_restitution, seed)]
                    seed_matches(
                        left.spec_oriented_box(),
                        right.spec_oriented_box(),
                        sat_outcome(left.spec_oriented_box(), right.spec_oriented_box()),
                        seed,
                    ) && reports_contact(result, left, right, allow_restitution, seed),
            },
        },
        result == normal_response(left, right, allow_restitution),
{
    validate_pair(&left, &right)?;
    let left_shape = left.oriented_box();
    let right_shape = right.oriented_box();
    let seed = match obb_contact_seed(left_shape, right_shape) {
        Err(error) => return Err(ObbContactResponseError3d::Geometry(error)),
        Ok(None) => return Ok(ObbContactResponse3d { left, right, contact: None }),
        Ok(Some(seed)) => seed,
    };
    let ghost outcome = sat_outcome(left_shape, right_shape);
    assert(vertices_error(left_shape) is None && vertices_error(right_shape) is None);
    let left_vertices = match oriented_box_vertices(left_shape) {
        Ok(vertices) => vertices,
        Err(error) => return Err(ObbContactResponseError3d::Geometry(error)),
    };
    let right_vertices = match oriented_box_vertices(right_shape) {
        Ok(vertices) => vertices,
        Err(error) => return Err(ObbContactResponseError3d::Geometry(error)),
    };
    proof {
        lemma_vertices_are_spec(left_shape, left_vertices@);
        lemma_vertices_are_spec(right_shape, right_vertices@);
        crate::angular::lemma_norm_squared_nonnegative(left_shape.orientation);
        crate::angular::lemma_norm_squared_nonnegative(right_shape.orientation);
    }
    let result = resolve_seeded_contact(
        left,
        right,
        allow_restitution,
        &seed,
        &left_vertices,
        &right_vertices,
    );
    assert(reports_contact(result, left, right, allow_restitution, seed));
    proof {
        let chosen = choose|other: ObbContactSeed3d| seed_matches(left_shape, right_shape, outcome, other);
        lemma_seed_unique(left_shape, right_shape, outcome, seed, chosen);
    }
    result
}

/// The contact branch of [`resolve_obb_contact`] for a seed reported by SAT.
fn resolve_seeded_contact(
    left: RigidBox3d,
    right: RigidBox3d,
    allow_restitution: bool,
    seed: &ObbContactSeed3d,
    left_vertices: &[Vec3i; 8],
    right_vertices: &[Vec3i; 8],
) -> (result: Result<ObbContactResponse3d, ObbContactResponseError3d>)
    requires
        left_vertices@ == spec_vertices(left.spec_oriented_box()),
        right_vertices@ == spec_vertices(right.spec_oriented_box()),
        positive_half_extents(left.body),
        positive_half_extents(right.body),
        norm_squared(left.angular.orientation) > 0,
        norm_squared(right.angular.orientation) > 0,
    ensures
        reports_contact(result, left, right, allow_restitution, *seed),
{
    let point = match contact_point(&left, &right, seed, left_vertices, right_vertices) {
        Ok(point) => point,
        Err(error) => return Err(error),
    };
    let (normal_impulse, resolved_left, resolved_right) = match apply_normal_impulse(
        left,
        right,
        allow_restitution,
        seed,
        point,
    ) {
        Ok(stage) => stage,
        Err(error) => return Err(error),
    };
    let (resolved_left, resolved_right) = match project_overlap(
        resolved_left,
        resolved_right,
        seed,
    ) {
        Ok(pair) => pair,
        Err(error) => return Err(error),
    };
    assert(normal_impulse =~= [
        vector_of(normal_impulse).0 as i128,
        vector_of(normal_impulse).1 as i128,
        vector_of(normal_impulse).2 as i128,
    ]);
    Ok(
        ObbContactResponse3d {
            left: resolved_left,
            right: resolved_right,
            contact: Some(
                ObbResolvedContact3d {
                    point,
                    axis: seed.axis,
                    feature: seed.feature,
                    overlap_numerator: seed.overlap_numerator,
                    axis_length_squared: seed.axis_length_squared,
                    left_support_mask: seed.left_support_mask,
                    right_support_mask: seed.right_support_mask,
                    normal_impulse,
                },
            ),
        },
    )
}

fn contact_point(
    left: &RigidBox3d,
    right: &RigidBox3d,
    seed: &ObbContactSeed3d,
    left_vertices: &[Vec3i; 8],
    right_vertices: &[Vec3i; 8],
) -> (result: Result<Vec3i, ObbContactResponseError3d>)
    requires
        left_vertices@ == spec_vertices(left.spec_oriented_box()),
        right_vertices@ == spec_vertices(right.spec_oriented_box()),
    ensures
        match result {
            Ok(point) => contact_point_of(*left, *right, *seed) == Some(point),
            Err(error) => contact_point_of(*left, *right, *seed) is None && error
                == ObbContactResponseError3d::ArithmeticOverflow,
        },
{
    reveal(contact_point_of);
    let left_support = support_centroid(left_vertices, seed.left_support_mask)?;
    let right_support = support_centroid(right_vertices, seed.right_support_mask)?;
    reduced_contact_point(
        left_vertices,
        seed.left_support_mask,
        left_support,
        left,
        right_vertices,
        seed.right_support_mask,
        right_support,
        right,
        seed,
    )
}

#[verifier::rlimit(40)]
fn apply_normal_impulse(
    left: RigidBox3d,
    right: RigidBox3d,
    allow_restitution: bool,
    seed: &ObbContactSeed3d,
    point: Vec3i,
) -> (result: Result<([i128; 3], RigidBox3d, RigidBox3d), ObbContactResponseError3d>)
    requires
        positive_half_extents(left.body),
        positive_half_extents(right.body),
        norm_squared(left.angular.orientation) > 0,
        norm_squared(right.angular.orientation) > 0,
    ensures
        match result {
            Ok((j, l, r)) => impulse_stage(left, right, allow_restitution, *seed, point) == Some(
                (vector_of(j), l, r),
            ),
            Err(error) => impulse_stage(left, right, allow_restitution, *seed, point) is None
                && error == ObbContactResponseError3d::ArithmeticOverflow,
        },
{
    reveal(impulse_stage);
    let left_offset = vector_delta(left.body.position, point);
    let right_offset = vector_delta(right.body.position, point);
    let left_velocity = contact_velocity(&left, left_offset);
    let right_velocity = contact_velocity(&right, right_offset);
    let relative_velocity = [
        right_velocity[0] as i128 - left_velocity[0] as i128,
        right_velocity[1] as i128 - left_velocity[1] as i128,
        right_velocity[2] as i128 - left_velocity[2] as i128,
    ];
    let normal_velocity = checked_dot_exec(relative_velocity, seed.axis)?;
    let tied_zero_depth = seed.overlap_numerator == 0 && seed.minimum_axis_ties > 1;
    let mut resolved_left = left;
    let mut resolved_right = right;
    if !(normal_velocity < 0 && (left.body.kind == BodyKind::Dynamic || right.body.kind
        == BodyKind::Dynamic)) {
        return Ok(([0, 0, 0], resolved_left, resolved_right));
    }
    let impulse = normal_impulse_vector(
        &left,
        left_offset,
        &right,
        right_offset,
        seed.axis,
        seed.axis_length_squared,
        normal_velocity,
        allow_restitution,
        !tied_zero_depth,
    )?;
    if impulse[0] != 0 || impulse[1] != 0 || impulse[2] != 0 {
        let opposite = negate_axis(impulse)?;
        apply_body_impulse(&mut resolved_left, left_offset, opposite, !tied_zero_depth)?;
        apply_body_impulse(&mut resolved_right, right_offset, impulse, !tied_zero_depth)?;
    }
    Ok((impulse, resolved_left, resolved_right))
}

fn project_overlap(left: RigidBox3d, right: RigidBox3d, seed: &ObbContactSeed3d) -> (result: Result<
    (RigidBox3d, RigidBox3d),
    ObbContactResponseError3d,
>)
    ensures
        match result {
            Ok((l, r)) => projection_stage(left, right, *seed) == Some((l, r)),
            Err(error) => projection_stage(left, right, *seed) is None && error
                == ObbContactResponseError3d::ArithmeticOverflow,
        },
{
    reveal(projection_stage);
    let mut resolved_left = left;
    let mut resolved_right = right;
    if seed.overlap_numerator > 0 && !(left.body.kind == BodyKind::Fixed && right.body.kind
        == BodyKind::Fixed) {
        let correction = minimum_translation_vector(
            seed.axis,
            seed.overlap_numerator,
            seed.axis_length_squared,
        )?;
        project_pair(&mut resolved_left, &mut resolved_right, correction)?;
    }
    Ok((resolved_left, resolved_right))
}

// ---------------------------------------------------------------------------------------------
// Laws
// ---------------------------------------------------------------------------------------------

/// `after` is the same body as `before`: only its position, linear velocity and angular velocity
/// may differ.
pub open spec fn same_body(before: RigidBox3d, after: RigidBox3d) -> bool {
    &&& after.body.id == before.body.id
    &&& after.body.kind == before.body.kind
    &&& after.body.half_extents == before.body.half_extents
    &&& after.body.mass_units == before.body.mass_units
    &&& after.body.material == before.body.material
    &&& after.angular.orientation == before.angular.orientation
    &&& after.rotation_locked == before.rotation_locked
    &&& after.contact_mode == before.contact_mode
    &&& after.contact_persistence == before.contact_persistence
    &&& after.collision_layers == before.collision_layers
}

pub(crate) proof fn lemma_impulse_keeps_body(rigid_box: RigidBox3d, offset: Vector3, impulse: Vector3, include_angular: bool)
    ensures
        checked_apply_impulse(rigid_box, offset, impulse, include_angular) is Some ==> {
            let after = checked_apply_impulse(rigid_box, offset, impulse, include_angular)->Some_0;
            &&& same_body(rigid_box, after)
            &&& after.body.position == rigid_box.body.position
            &&& rigid_box.body.kind == BodyKind::Fixed ==> after == rigid_box
            &&& rigid_box.rotation_locked ==> after.angular == rigid_box.angular
        },
{
}

proof fn lemma_projection_keeps_bodies(left: RigidBox3d, right: RigidBox3d, seed: ObbContactSeed3d)
    ensures
        projection_stage(left, right, seed) is Some ==> {
            let (l, r) = projection_stage(left, right, seed)->Some_0;
            &&& same_body(left, l)
            &&& same_body(right, r)
            &&& l.body.velocity == left.body.velocity && l.angular == left.angular
            &&& r.body.velocity == right.body.velocity && r.angular == right.angular
            &&& left.body.kind == BodyKind::Fixed ==> l == left
            &&& right.body.kind == BodyKind::Fixed ==> r == right
        },
{
    reveal(projection_stage);
}

proof fn lemma_impulse_stage_keeps_bodies(
    left: RigidBox3d,
    right: RigidBox3d,
    allow_restitution: bool,
    seed: ObbContactSeed3d,
    point: Vec3i,
)
    ensures
        impulse_stage(left, right, allow_restitution, seed, point) is Some ==> {
            let (j, l, r) = impulse_stage(left, right, allow_restitution, seed, point)->Some_0;
            &&& same_body(left, l) && l.body.position == left.body.position
            &&& same_body(right, r) && r.body.position == right.body.position
            &&& left.body.kind == BodyKind::Fixed ==> l == left
            &&& right.body.kind == BodyKind::Fixed ==> r == right
            &&& left.rotation_locked ==> l.angular == left.angular
            &&& right.rotation_locked ==> r.angular == right.angular
        },
{
    reveal(impulse_stage);
    let normal = normal_velocity_at(left, right, seed, point);
    if normal is Some {
        let lo = offset_from(left.body.position, point);
        let ro = offset_from(right.body.position, point);
        let tied = tied_zero_depth(seed);
        let impulse = checked_normal_impulse(
            left,
            lo,
            right,
            ro,
            vector_of(seed.axis),
            seed.axis_length_squared as int,
            normal->Some_0,
            allow_restitution,
            !tied,
        );
        if impulse is Some {
            let j = impulse->Some_0;
            lemma_impulse_keeps_body(left, lo, (-j.0, -j.1, -j.2), !tied);
            lemma_impulse_keeps_body(right, ro, j, !tied);
        }
    }
}

/// The restitution of an impact is the smaller of the two materials' restitutions: it is at most
/// each of them and equal to one of them, so it does not depend on which body is which, and an
/// inelastic body (restitution zero) never bounces. Without restitution it is zero.
pub proof fn lemma_restitution_is_the_smaller(left: RigidBox3d, right: RigidBox3d, allow_restitution: bool)
    ensures
        allow_restitution ==> {
            &&& combined_restitution(left, right, allow_restitution)
                <= left.body.material.restitution_milli
            &&& combined_restitution(left, right, allow_restitution)
                <= right.body.material.restitution_milli
            &&& (combined_restitution(left, right, allow_restitution)
                == left.body.material.restitution_milli || combined_restitution(
                left,
                right,
                allow_restitution,
            ) == right.body.material.restitution_milli)
        },
        !allow_restitution ==> combined_restitution(left, right, allow_restitution) == 0,
        combined_restitution(left, right, allow_restitution) == combined_restitution(
            right,
            left,
            allow_restitution,
        ),
        left.body.material.restitution_milli == 0 || right.body.material.restitution_milli == 0
            ==> combined_restitution(left, right, allow_restitution) == 0,
{
}

/// The normal impulse depends on the materials' restitutions only through the pair: exchanging
/// the two bodies' restitutions leaves the impulse unchanged.
pub proof fn lemma_normal_impulse_ignores_restitution_owner(
    left: RigidBox3d,
    left_offset: Vector3,
    right: RigidBox3d,
    right_offset: Vector3,
    axis: Vector3,
    axis_length_squared: int,
    normal_velocity: int,
    allow_restitution: bool,
    include_angular: bool,
)
    ensures
        ({
            let swapped_left = RigidBox3d {
                body: RigidBody {
                    material: Material {
                        restitution_milli: right.body.material.restitution_milli,
                        ..left.body.material
                    },
                    ..left.body
                },
                ..left
            };
            let swapped_right = RigidBox3d {
                body: RigidBody {
                    material: Material {
                        restitution_milli: left.body.material.restitution_milli,
                        ..right.body.material
                    },
                    ..right.body
                },
                ..right
            };
            checked_normal_impulse(
                swapped_left,
                left_offset,
                swapped_right,
                right_offset,
                axis,
                axis_length_squared,
                normal_velocity,
                allow_restitution,
                include_angular,
            ) == checked_normal_impulse(
                left,
                left_offset,
                right,
                right_offset,
                axis,
                axis_length_squared,
                normal_velocity,
                allow_restitution,
                include_angular,
            )
        }),
{
    let swapped_left = RigidBox3d {
        body: RigidBody {
            material: Material { restitution_milli: right.body.material.restitution_milli, ..left.body.material },
            ..left.body
        },
        ..left
    };
    let swapped_right = RigidBox3d {
        body: RigidBody {
            material: Material { restitution_milli: left.body.material.restitution_milli, ..right.body.material },
            ..right.body
        },
        ..right
    };
    assert(checked_inverse_mass(swapped_left, left_offset, axis, axis_length_squared, include_angular)
        == checked_inverse_mass(left, left_offset, axis, axis_length_squared, include_angular));
    assert(checked_inverse_mass(swapped_right, right_offset, axis, axis_length_squared, include_angular)
        == checked_inverse_mass(right, right_offset, axis, axis_length_squared, include_angular));
    assert(combined_restitution(swapped_left, swapped_right, allow_restitution) == combined_restitution(
        left,
        right,
        allow_restitution,
    ));
}

/// Contact response changes only the motion state of the two bodies: identity, kind, shape,
/// mass, material, orientation, rotation lock, contact settings and layers are kept, and each
/// returned body is the corresponding input body.
pub proof fn lemma_response_keeps_bodies(
    left: RigidBox3d,
    right: RigidBox3d,
    allow_restitution: bool,
    seed: ObbContactSeed3d,
)
    ensures
        contact_outcome(left, right, allow_restitution, seed) is Some ==> {
            let response = contact_outcome(left, right, allow_restitution, seed)->Some_0;
            same_body(left, response.left) && same_body(right, response.right)
        },
{
    lemma_fixed_body_and_lock_laws(left, right, allow_restitution, seed);
}

/// A fixed body comes out of contact response exactly as it went in, and a rotation-locked body
/// keeps its orientation and angular velocity.
pub proof fn lemma_fixed_body_and_lock_laws(
    left: RigidBox3d,
    right: RigidBox3d,
    allow_restitution: bool,
    seed: ObbContactSeed3d,
)
    ensures
        contact_outcome(left, right, allow_restitution, seed) is Some ==> {
            let response = contact_outcome(left, right, allow_restitution, seed)->Some_0;
            &&& same_body(left, response.left) && same_body(right, response.right)
            &&& left.body.kind == BodyKind::Fixed ==> response.left == left
            &&& right.body.kind == BodyKind::Fixed ==> response.right == right
            &&& left.rotation_locked ==> response.left.angular == left.angular
            &&& right.rotation_locked ==> response.right.angular == right.angular
        },
{
    let point = contact_point_of(left, right, seed);
    if point is Some {
        lemma_impulse_stage_keeps_bodies(left, right, allow_restitution, seed, point->Some_0);
        let impulse = impulse_stage(left, right, allow_restitution, seed, point->Some_0);
        if impulse is Some {
            let (j, l, r) = impulse->Some_0;
            lemma_projection_keeps_bodies(l, r, seed);
        }
    }
}

/// The left body receives exactly the opposite of the impulse reported for the right body, and
/// a pair that is not approaching receives none.
pub proof fn lemma_impulse_is_equal_and_opposite(
    left: RigidBox3d,
    right: RigidBox3d,
    allow_restitution: bool,
    seed: ObbContactSeed3d,
    point: Vec3i,
)
    ensures
        impulse_stage(left, right, allow_restitution, seed, point) is Some ==> {
            let (j, l, r) = impulse_stage(left, right, allow_restitution, seed, point)->Some_0;
            let normal = normal_velocity_at(left, right, seed, point)->Some_0;
            &&& !(normal < 0 && (is_dynamic(left) || is_dynamic(right))) ==> j == (0int, 0int, 0int)
                && l == left && r == right
            &&& j != (0int, 0int, 0int) ==> checked_apply_impulse(
                left,
                offset_from(left.body.position, point),
                (-j.0, -j.1, -j.2),
                !tied_zero_depth(seed),
            ) == Some(l) && checked_apply_impulse(
                right,
                offset_from(right.body.position, point),
                j,
                !tied_zero_depth(seed),
            ) == Some(r)
        },
{
    reveal(impulse_stage);
}

} // verus!
