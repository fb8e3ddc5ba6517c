//! Coulomb friction on top of the normal OBB contact response.
use vstd::prelude::*;

use crate::angular::{ANGULAR_VELOCITY_SCALE, lemma_norm_squared_nonnegative, norm_squared};
use crate::body::{BodyKind, MATERIAL_SCALE};
use crate::math::{Vec3i, round_div};
use crate::obb_response::{
    ObbContactResponse3d, ObbContactResponseError3d, ObbResolvedContact3d, Vector3, agrees3,
    apply_body_impulse, body_effective_inverse_mass_scaled, checked_add, checked_apply_impulse,
    checked_dot, checked_dot_exec, checked_inverse_mass, checked_mul, checked_mul_div_i128,
    checked_neg, component3, contact_velocity_of, fits_i128, lemma_fixed_body_and_lock_laws,
    lemma_impulse_keeps_body, lemma_response_keeps_bodies, lemma_rounded_quotient_bounded,
    magnitude, negate_axis, normal_response, offset_from, pair_validation_error,
    positive_half_extents, same_body, signed_round_div, vector_of,
};
use crate::oriented_box::{
    ObbAxisFeature3d, abs, axis_bounded, axis_gcd, box_edge, contact_of, greatest_common_divisor,
    lemma_axis_gcd_bounded, lemma_reduce_bounds, lemma_vertices_are_spec, oriented_box_vertices,
    reduce_component, reduce_exec, spec_vertices, vertices_error,
};
use crate::rigid_box::RigidBox3d;

pub use crate::obb_response::{RESPONSE_SCALE, mul_div_round_i128};

verus! {

// ---------------------------------------------------------------------------------------------
// Specification
// ---------------------------------------------------------------------------------------------

/// A box's friction coefficient lies within `0..=MATERIAL_SCALE`.
pub open spec fn friction_in_range(rigid_box: RigidBox3d) -> bool {
    rigid_box.body.material.friction_milli <= MATERIAL_SCALE
}

/// The pair's friction coefficient: the larger of the two materials.
pub open spec fn combined_friction(left: RigidBox3d, right: RigidBox3d) -> int {
    let a = left.body.material.friction_milli as int;
    let b = right.body.material.friction_milli as int;
    if a >= b {
        a
    } else {
        b
    }
}

/// The two box edges spanning face `axis`, in cyclic order.
pub open spec fn face_tangents(vertices: Seq<Vec3i>, axis: int) -> Option<(Vector3, Vector3)> {
    if axis == 0 {
        Some((box_edge(vertices, 1), box_edge(vertices, 2)))
    } else if axis == 1 {
        Some((box_edge(vertices, 2), box_edge(vertices, 0)))
    } else if axis == 2 {
        Some((box_edge(vertices, 0), box_edge(vertices, 1)))
    } else {
        None
    }
}

/// Two box edges spanning the tangent plane of a contact feature: the face's own edges for a
/// face contact, the two crossing edges for an edge-edge contact.
pub open spec fn contact_tangents(left: RigidBox3d, right: RigidBox3d, feature: ObbAxisFeature3d) -> Option<
    (Vector3, Vector3),
> {
    let lv = spec_vertices(left.spec_oriented_box());
    let rv = spec_vertices(right.spec_oriented_box());
    match feature {
        ObbAxisFeature3d::LeftFace(axis) => face_tangents(lv, axis as int),
        ObbAxisFeature3d::RightFace(axis) => face_tangents(rv, axis as int),
        ObbAxisFeature3d::EdgeEdge { left_axis, right_axis } => if left_axis < 3 && right_axis < 3 {
            Some((box_edge(lv, left_axis as int), box_edge(rv, right_axis as int)))
        } else {
            None
        },
    }
}

/// `vector` divided by the greatest common divisor of its components; none for the zero vector.
pub open spec fn primitive_direction(vector: Vector3) -> Option<Vector3> {
    let g = axis_gcd(vector) as int;
    if g == 0 {
        None
    } else {
        Some(
            (
                reduce_component(vector.0, g),
                reduce_component(vector.1, g),
                reduce_component(vector.2, g),
            ),
        )
    }
}

/// Velocity of the right body's material point at the contact relative to the left one's.
pub open spec fn relative_velocity_at(
    left: RigidBox3d,
    left_offset: Vector3,
    right: RigidBox3d,
    right_offset: Vector3,
) -> Vector3 {
    let l = contact_velocity_of(left, left_offset);
    let r = contact_velocity_of(right, right_offset);
    (r.0 - l.0, r.1 - l.1, r.2 - l.2)
}

/// The tangent direction along which the pair slips most: of the two primitive tangent
/// directions, the one with the larger slip (the first on a tie); `Some(None)` without slip.
pub open spec fn dominant_slip(relative: Vector3, tangents: (Vector3, Vector3)) -> Option<
    Option<Vector3>,
> {
    let first = primitive_direction(tangents.0);
    let second = primitive_direction(tangents.1);
    if first is None || second is None {
        None
    } else {
        let a = checked_dot(relative, first->Some_0);
        let b = checked_dot(relative, second->Some_0);
        if a is None || b is None {
            None
        } else if a->Some_0 == 0 && b->Some_0 == 0 {
            Some(None)
        } else if abs(a->Some_0) >= abs(b->Some_0) {
            Some(first)
        } else {
            Some(second)
        }
    }
}

/// Squared length, when representable as `u128`.
pub open spec fn checked_length_squared(vector: Vector3) -> Option<int> {
    let sum = vector.0 * vector.0 + vector.1 * vector.1 + vector.2 * vector.2;
    if sum <= u128::MAX {
        Some(sum)
    } else {
        None
    }
}

/// Whether a tangent impulse satisfies the Coulomb bound `|t| <= friction * |n|`, compared as
/// `|t|^2 * MATERIAL_SCALE^2 <= |n|^2 * friction^2` without roots; none on `u128` overflow.
pub open spec fn within_coulomb(impulse: Vector3, normal_length_squared: int, friction: int) -> Option<
    bool,
> {
    let t = checked_length_squared(impulse);
    if t is None {
        None
    } else {
        let lhs = t->Some_0 * MATERIAL_SCALE * MATERIAL_SCALE;
        let rhs = normal_length_squared * friction * friction;
        if lhs <= u128::MAX && rhs <= u128::MAX {
            Some(lhs <= rhs)
        } else {
            None
        }
    }
}

/// The first component of largest magnitude; none for the zero vector.
pub open spec fn pivot_axis(vector: Vector3) -> Option<int> {
    let first = if abs(vector.1) > abs(vector.0) {
        1int
    } else {
        0int
    };
    let first_magnitude = if abs(vector.1) > abs(vector.0) {
        abs(vector.1)
    } else {
        abs(vector.0)
    };
    let best = if abs(vector.2) > first_magnitude {
        2int
    } else {
        first
    };
    let magnitude = if abs(vector.2) > first_magnitude {
        abs(vector.2)
    } else {
        first_magnitude
    };
    if magnitude == 0 {
        None
    } else {
        Some(best)
    }
}

/// `-vector`, unless a component is `i128::MIN`.
pub open spec fn checked_negated(vector: Vector3) -> Option<Vector3> {
    if vector.0 == i128::MIN || vector.1 == i128::MIN || vector.2 == i128::MIN {
        None
    } else {
        Some((-vector.0, -vector.1, -vector.2))
    }
}

/// The impulse along `tangent` whose pivot component has magnitude `magnitude` (negated when
/// `negative`): the other components are `round(pivot * tangent_i / pivot_denominator)`.
pub open spec fn impulse_from_pivot(
    magnitude: int,
    negative: bool,
    tangent: Vector3,
    pivot: int,
    pivot_denominator: int,
) -> Option<Vector3> {
    if magnitude > i128::MAX {
        None
    } else {
        let p = if negative {
            -magnitude
        } else {
            magnitude
        };
        let x = if pivot == 0 {
            Some(p)
        } else {
            checked_mul_div_i128(p, tangent.0, pivot_denominator)
        };
        let y = if pivot == 1 {
            Some(p)
        } else {
            checked_mul_div_i128(p, tangent.1, pivot_denominator)
        };
        let z = if pivot == 2 {
            Some(p)
        } else {
            checked_mul_div_i128(p, tangent.2, pivot_denominator)
        };
        if x is Some && y is Some && z is Some {
            Some((x->Some_0, y->Some_0, z->Some_0))
        } else {
            None
        }
    }
}

/// Bisection over pivot magnitudes `low..=high`: the upper half is kept when its lowest
/// magnitude satisfies the Coulomb bound, the lower half otherwise.
pub open spec fn clamp_search(
    low: int,
    high: int,
    negative: bool,
    tangent: Vector3,
    pivot: int,
    pivot_denominator: int,
    normal_length_squared: int,
    friction: int,
) -> Option<int>
    decreases high - low,
{
    if low >= high {
        Some(low)
    } else {
        let middle = low + (high - low + 1) / 2;
        let candidate = impulse_from_pivot(middle, negative, tangent, pivot, pivot_denominator);
        if candidate is None {
            None
        } else {
            let within = within_coulomb(candidate->Some_0, normal_length_squared, friction);
            if within is None {
                None
            } else if within->Some_0 {
                clamp_search(
                    middle,
                    high,
                    negative,
                    tangent,
                    pivot,
                    pivot_denominator,
                    normal_length_squared,
                    friction,
                )
            } else {
                clamp_search(
                    low,
                    middle - 1,
                    negative,
                    tangent,
                    pivot,
                    pivot_denominator,
                    normal_length_squared,
                    friction,
                )
            }
        }
    }
}

/// The desired tangent impulse limited to the Coulomb cone: kept when within the bound,
/// otherwise the impulse along `tangent` found by bisecting its pivot component.
pub open spec fn coulomb_clamp(desired: Vector3, tangent: Vector3, normal_impulse: Vector3, friction: int) -> Option<
    Vector3,
> {
    if desired == (0int, 0int, 0int) || normal_impulse == (0int, 0int, 0int) || friction == 0 {
        Some((0int, 0int, 0int))
    } else {
        let normal_length_squared = checked_length_squared(normal_impulse);
        if normal_length_squared is None {
            None
        } else {
            let n = normal_length_squared->Some_0;
            let within = within_coulomb(desired, n, friction);
            if within is None {
                None
            } else if within->Some_0 {
                Some(desired)
            } else {
                let pivot = pivot_axis(tangent);
                if pivot is None {
                    None
                } else {
                    let p = pivot->Some_0;
                    let oriented = if component3(tangent, p) < 0 {
                        checked_negated(tangent)
                    } else {
                        Some(tangent)
                    };
                    if oriented is None {
                        None
                    } else {
                        let o = oriented->Some_0;
                        let denominator = component3(o, p);
                        let desired_pivot = component3(desired, p);
                        if denominator <= 0 {
                            None
                        } else if desired_pivot == 0 {
                            Some((0int, 0int, 0int))
                        } else {
                            let negative = desired_pivot < 0;
                            let found = clamp_search(
                                0,
                                abs(desired_pivot),
                                negative,
                                o,
                                p,
                                denominator,
                                n,
                                friction,
                            );
                            if found is None {
                                None
                            } else {
                                impulse_from_pivot(found->Some_0, negative, o, p, denominator)
                            }
                        }
                    }
                }
            }
        }
    }
}

/// `round(numerator * axis_i * axis_scale / denominator)` on every component, for a numerator of
/// either sign.
pub open spec fn checked_signed_scale_ratio(
    numerator: int,
    denominator: int,
    axis: Vector3,
    axis_scale: int,
) -> Option<Vector3> {
    if denominator <= 0 || axis_scale <= 0 {
        None
    } else {
        let x = if fits_i128(axis.0 * axis_scale) {
            checked_mul_div_i128(numerator, axis.0 * axis_scale, denominator)
        } else {
            None
        };
        let y = if fits_i128(axis.1 * axis_scale) {
            checked_mul_div_i128(numerator, axis.1 * axis_scale, denominator)
        } else {
            None
        };
        let z = if fits_i128(axis.2 * axis_scale) {
            checked_mul_div_i128(numerator, axis.2 * axis_scale, denominator)
        } else {
            None
        };
        if x is Some && y is Some && z is Some {
            Some((x->Some_0, y->Some_0, z->Some_0))
        } else {
            None
        }
    }
}

/// The tangential stage along `tangent`: the impulse that would stop the tangential slip at the
/// contact, limited to the Coulomb cone of the normal impulse, applied equal and opposite (the
/// right body receives it, the left body its negation). No slip, no responding body or a zero
/// impulse leave the response unchanged.
pub open spec fn tangent_response(
    response: ObbContactResponse3d,
    left_offset: Vector3,
    right_offset: Vector3,
    tangent: Vector3,
    normal_impulse: Vector3,
    friction: int,
) -> Option<ObbContactResponse3d> {
    let tangent_length_squared = checked_length_squared(tangent);
    let relative = relative_velocity_at(response.left, left_offset, response.right, right_offset);
    let slip = checked_dot(relative, tangent);
    if tangent_length_squared is None || slip is None {
        None
    } else if slip->Some_0 == 0 {
        Some(response)
    } else {
        let tls = tangent_length_squared->Some_0;
        let l = checked_inverse_mass(response.left, left_offset, tangent, tls, true);
        let r = checked_inverse_mass(response.right, right_offset, tangent, tls, true);
        if l is None || r is None || !fits_i128(l->Some_0 + r->Some_0) {
            None
        } else if l->Some_0 + r->Some_0 <= 0 {
            Some(response)
        } else if slip->Some_0 == i128::MIN {
            None
        } else {
            let desired = checked_signed_scale_ratio(
                -slip->Some_0,
                l->Some_0 + r->Some_0,
                tangent,
                RESPONSE_SCALE as int,
            );
            let impulse = if desired is None {
                None
            } else {
                coulomb_clamp(desired->Some_0, tangent, normal_impulse, friction)
            };
            if impulse is None {
                None
            } else {
                let j = impulse->Some_0;
                if j == (0int, 0int, 0int) {
                    Some(response)
                } else {
                    let back = checked_negated(j);
                    let left = if back is None {
                        None
                    } else {
                        checked_apply_impulse(response.left, left_offset, back->Some_0, true)
                    };
                    let right = checked_apply_impulse(response.right, right_offset, j, true);
                    if left is None || right is None {
                        None
                    } else {
                        Some(
                            ObbContactResponse3d {
                                left: left->Some_0,
                                right: right->Some_0,
                                contact: response.contact,
                            },
                        )
                    }
                }
            }
        }
    }
}

/// The friction stage after a normal response with `contact`: offsets from the boxes' starting
/// centers, the tangent plane of the SAT feature, the dominant slip direction, then the
/// tangential impulse.
pub open spec fn friction_stage(
    left: RigidBox3d,
    right: RigidBox3d,
    response: ObbContactResponse3d,
    contact: ObbResolvedContact3d,
) -> Option<ObbContactResponse3d> {
    let left_offset = offset_from(left.body.position, contact.point);
    let right_offset = offset_from(right.body.position, contact.point);
    let tangents = contact_tangents(left, right, contact.feature);
    if tangents is None {
        None
    } else {
        let relative = relative_velocity_at(
            response.left,
            left_offset,
            response.right,
            right_offset,
        );
        let slip = dominant_slip(relative, tangents->Some_0);
        match slip {
            None => None,
            Some(None) => Some(response),
            Some(Some(tangent)) => tangent_response(
                response,
                left_offset,
                right_offset,
                tangent,
                vector_of(contact.normal_impulse),
                combined_friction(left, right),
            ),
        }
    }
}

/// The frictional response to a pair: out-of-range friction fails first; otherwise the normal
/// response, followed by the friction stage wherever a contact received a non-zero normal impulse
/// and the combined coefficient is positive (an overflow there reporting `ArithmeticOverflow`).
pub open spec fn friction_response(left: RigidBox3d, right: RigidBox3d, allow_restitution: bool) -> Result<
    ObbContactResponse3d,
    ObbContactResponseError3d,
> {
    if !friction_in_range(left) || !friction_in_range(right) {
        Err(ObbContactResponseError3d::ArithmeticOverflow)
    } else {
        match normal_response(left, right, allow_restitution) {
            Err(error) => Err(error),
            Ok(response) => match response.contact {
                None => Ok(response),
                Some(contact) => if vector_of(contact.normal_impulse) == (0int, 0int, 0int)
                    || combined_friction(left, right) == 0 {
                    Ok(response)
                } else {
                    match friction_stage(left, right, response, contact) {
                        Some(after) => Ok(after),
                        None => Err(ObbContactResponseError3d::ArithmeticOverflow),
                    }
                },
            },
        }
    }
}


// ---------------------------------------------------------------------------------------------
// Executable helpers
// ---------------------------------------------------------------------------------------------

fn validate_friction(rigid_box: &RigidBox3d) -> (result: Result<(), ObbContactResponseError3d>)
    ensures
        match result {
            Ok(()) => friction_in_range(*rigid_box),
            Err(error) => !friction_in_range(*rigid_box) && error
                == ObbContactResponseError3d::ArithmeticOverflow,
        },
{
    if rigid_box.body.material.friction_milli > MATERIAL_SCALE {
        return Err(ObbContactResponseError3d::ArithmeticOverflow);
    }
    Ok(())
}

/// The edges of a box with vertices `vertices`: the three edges leaving corner 0.
pub open spec fn edges_of(edges: [[i128; 3]; 3], vertices: Seq<Vec3i>) -> bool {
    &&& vector_of(edges[0]) == box_edge(vertices, 0)
    &&& vector_of(edges[1]) == box_edge(vertices, 1)
    &&& vector_of(edges[2]) == box_edge(vertices, 2)
    &&& axis_bounded(vector_of(edges[0]), 0x1_0000_0000)
    &&& axis_bounded(vector_of(edges[1]), 0x1_0000_0000)
    &&& axis_bounded(vector_of(edges[2]), 0x1_0000_0000)
}

fn edge_delta(from: Vec3i, to: Vec3i) -> (delta: [i128; 3])
    ensures
        vector_of(delta) == (to.x - from.x, to.y - from.y, to.z - from.z),
        axis_bounded(vector_of(delta), 0x1_0000_0000),
{
    [
        (to.x as i128) - (from.x as i128),
        (to.y as i128) - (from.y as i128),
        (to.z as i128) - (from.z as i128),
    ]
}

fn oriented_edges(rigid_box: &RigidBox3d) -> (result: Result<[[i128; 3]; 3], ObbContactResponseError3d>)
    ensures
        match result {
            Ok(edges) => vertices_error(rigid_box.spec_oriented_box()) is None && edges_of(
                edges,
                spec_vertices(rigid_box.spec_oriented_box()),
            ),
            Err(error) => vertices_error(rigid_box.spec_oriented_box()) is Some && error
                == ObbContactResponseError3d::Geometry(
                vertices_error(rigid_box.spec_oriented_box())->Some_0,
            ),
        },
{
    let shape = rigid_box.oriented_box();
    let vertices = match oriented_box_vertices(shape) {
        Ok(vertices) => vertices,
        Err(error) => return Err(ObbContactResponseError3d::Geometry(error)),
    };
    proof {
        lemma_vertices_are_spec(shape, vertices@);
    }
    Ok([
        edge_delta(vertices[0], vertices[1]),
        edge_delta(vertices[0], vertices[2]),
        edge_delta(vertices[0], vertices[4]),
    ])
}

fn face_tangents_exec(edges: [[i128; 3]; 3], axis: u8) -> (result: Result<
    ([i128; 3], [i128; 3]),
    ObbContactResponseError3d,
>)
    ensures
        match result {
            Ok((a, b)) => axis < 3 && ((axis == 0 && a == edges[1] && b == edges[2]) || (axis == 1
                && a == edges[2] && b == edges[0]) || (axis == 2 && a == edges[0] && b
                == edges[1])),
            Err(error) => axis >= 3 && error == ObbContactResponseError3d::ArithmeticOverflow,
        },
{
    if axis == 0 {
        Ok((edges[1], edges[2]))
    } else if axis == 1 {
        Ok((edges[2], edges[0]))
    } else if axis == 2 {
        Ok((edges[0], edges[1]))
    } else {
        Err(ObbContactResponseError3d::ArithmeticOverflow)
    }
}

fn contact_tangents_exec(
    left_edges: [[i128; 3]; 3],
    right_edges: [[i128; 3]; 3],
    feature: ObbAxisFeature3d,
    left: Ghost<RigidBox3d>,
    right: Ghost<RigidBox3d>,
) -> (result: Result<([i128; 3], [i128; 3]), ObbContactResponseError3d>)
    requires
        edges_of(left_edges, spec_vertices(left@.spec_oriented_box())),
        edges_of(right_edges, spec_vertices(right@.spec_oriented_box())),
    ensures
        match result {
            Ok((a, b)) => contact_tangents(left@, right@, feature) == Some(
                (vector_of(a), vector_of(b)),
            ) && axis_bounded(vector_of(a), 0x1_0000_0000) && axis_bounded(
                vector_of(b),
                0x1_0000_0000,
            ),
            Err(error) => contact_tangents(left@, right@, feature) is None && error
                == ObbContactResponseError3d::ArithmeticOverflow,
        },
{
    match feature {
        ObbAxisFeature3d::LeftFace(axis) => face_tangents_exec(left_edges, axis),
        ObbAxisFeature3d::RightFace(axis) => face_tangents_exec(right_edges, axis),
        ObbAxisFeature3d::EdgeEdge { left_axis, right_axis } => {
            if left_axis >= 3 || right_axis >= 3 {
                return Err(ObbContactResponseError3d::ArithmeticOverflow);
            }
            Ok((left_edges[left_axis as usize], right_edges[right_axis as usize]))
        },
    }
}

fn primitive_direction_exec(vector: [i128; 3]) -> (result: Result<[i128; 3], ObbContactResponseError3d>)
    requires
        axis_bounded(vector_of(vector), 0x1_0000_0000),
    ensures
        match result {
            Ok(p) => primitive_direction(vector_of(vector)) == Some(vector_of(p)) && axis_bounded(
                vector_of(p),
                0x1_0000_0000,
            ),
            Err(error) => primitive_direction(vector_of(vector)) is None && error
                == ObbContactResponseError3d::ArithmeticOverflow,
        },
{
    let divisor = greatest_common_divisor(
        greatest_common_divisor(magnitude(vector[0]), magnitude(vector[1])),
        magnitude(vector[2]),
    );
    if divisor == 0 {
        return Err(ObbContactResponseError3d::ArithmeticOverflow);
    }
    proof {
        lemma_axis_gcd_bounded(vector_of(vector));
    }
    let g = divisor as i128;
    proof {
        lemma_reduce_bounds(vector[0] as int, g as int);
        lemma_reduce_bounds(vector[1] as int, g as int);
        lemma_reduce_bounds(vector[2] as int, g as int);
    }
    Ok([reduce_exec(vector[0], g), reduce_exec(vector[1], g), reduce_exec(vector[2], g)])
}

/// The offset from `center` to `point`.
pub fn vector_delta(center: Vec3i, point: Vec3i) -> (result: Result<[i64; 3], ObbContactResponseError3d>)
    ensures
        result matches Ok(delta) && (delta[0] as int, delta[1] as int, delta[2] as int)
            == offset_from(center, point),
{
    Ok(
        [
            point.x as i64 - center.x as i64,
            point.y as i64 - center.y as i64,
            point.z as i64 - center.z as i64,
        ],
    )
}

proof fn lemma_arm_bounded(w: int, o: int)
    requires
        -0x8000_0000 <= w <= 0x8000_0000,
        -0x8000_0000_0000_0000 <= o <= 0x8000_0000_0000_0000,
    ensures
        -0x4000_0000_0000_0000_0000_0000 <= w * o <= 0x4000_0000_0000_0000_0000_0000,
{
    assert(-0x4000_0000_0000_0000_0000_0000 <= w * o <= 0x4000_0000_0000_0000_0000_0000) by (
    nonlinear_arith)
        requires
            -0x8000_0000 <= w <= 0x8000_0000,
            -0x8000_0000_0000_0000 <= o <= 0x8000_0000_0000_0000,
    ;
}

/// `linear + round(numerator / ANGULAR_VELOCITY_SCALE)` for a numerator below `2^95`.
fn add_rotation(linear: i32, numerator: i128) -> (velocity: i128)
    requires
        -0x8000_0000_0000_0000_0000_0000 <= numerator <= 0x8000_0000_0000_0000_0000_0000,
    ensures
        velocity == linear + round_div(numerator as int, ANGULAR_VELOCITY_SCALE as int),
        -0x1_0000_0000_0000_0000_0000_0000 <= velocity <= 0x1_0000_0000_0000_0000_0000_0000,
{
    let rounded = signed_round_div(numerator, ANGULAR_VELOCITY_SCALE as i128);
    proof {
        let d = ANGULAR_VELOCITY_SCALE as int;
        if numerator >= 0 {
            lemma_rounded_quotient_bounded(numerator as int, d);
        } else {
            lemma_rounded_quotient_bounded(-numerator, d);
        }
    }
    linear as i128 + rounded
}

/// Velocity of the material point at `offset` from the box center, exactly.
fn contact_velocity_wide(rigid_box: &RigidBox3d, offset: [i64; 3]) -> (velocity: [i128; 3])
    ensures
        vector_of(velocity) == contact_velocity_of(
            *rigid_box,
            (offset[0] as int, offset[1] as int, offset[2] as int),
        ),
        axis_bounded(vector_of(velocity), 0x1_0000_0000_0000_0000_0000_0000),
{
    let locked = rigid_box.rotation_locked;
    let wx: i128 = if locked {
        0
    } else {
        rigid_box.angular.angular_velocity.x as i128
    };
    let wy: i128 = if locked {
        0
    } else {
        rigid_box.angular.angular_velocity.y as i128
    };
    let wz: i128 = if locked {
        0
    } else {
        rigid_box.angular.angular_velocity.z as i128
    };
    let ox = offset[0] as i128;
    let oy = offset[1] as i128;
    let oz = offset[2] as i128;
    proof {
        lemma_arm_bounded(wy as int, oz as int);
        lemma_arm_bounded(wz as int, oy as int);
        lemma_arm_bounded(wz as int, ox as int);
        lemma_arm_bounded(wx as int, oz as int);
        lemma_arm_bounded(wx as int, oy as int);
        lemma_arm_bounded(wy as int, ox as int);
    }
    let velocity = rigid_box.body.velocity;
    [
        add_rotation(velocity.x, wy * oz - wz * oy),
        add_rotation(velocity.y, wz * ox - wx * oz),
        add_rotation(velocity.z, wx * oy - wy * ox),
    ]
}

/// Velocity of the right body's contact point relative to the left body's, each point at the
/// given offset from its body's center.
pub fn relative_contact_velocity(
    left: &RigidBox3d,
    left_offset: [i64; 3],
    right: &RigidBox3d,
    right_offset: [i64; 3],
) -> (result: Result<[i128; 3], ObbContactResponseError3d>)
    ensures
        result matches Ok(relative) && vector_of(relative) == relative_velocity_at(
            *left,
            (left_offset[0] as int, left_offset[1] as int, left_offset[2] as int),
            *right,
            (right_offset[0] as int, right_offset[1] as int, right_offset[2] as int),
        ),
{
    let l = contact_velocity_wide(left, left_offset);
    let r = contact_velocity_wide(right, right_offset);
    Ok([r[0] - l[0], r[1] - l[1], r[2] - l[2]])
}

fn dominant_slip_exec(relative: [i128; 3], tangents: ([i128; 3], [i128; 3])) -> (result: Result<
    Option<[i128; 3]>,
    ObbContactResponseError3d,
>)
    requires
        axis_bounded(vector_of(tangents.0), 0x1_0000_0000),
        axis_bounded(vector_of(tangents.1), 0x1_0000_0000),
    ensures
        match result {
            Ok(None) => dominant_slip(vector_of(relative), (vector_of(tangents.0), vector_of(tangents.1)))
                == Some(None::<Vector3>),
            Ok(Some(tangent)) => dominant_slip(
                vector_of(relative),
                (vector_of(tangents.0), vector_of(tangents.1)),
            ) == Some(Some(vector_of(tangent))) && axis_bounded(vector_of(tangent), 0x1_0000_0000),
            Err(error) => dominant_slip(
                vector_of(relative),
                (vector_of(tangents.0), vector_of(tangents.1)),
            ) is None && error == ObbContactResponseError3d::ArithmeticOverflow,
        },
{
    let first = primitive_direction_exec(tangents.0)?;
    let second = primitive_direction_exec(tangents.1)?;
    let first_slip = checked_dot_exec(relative, first)?;
    let second_slip = checked_dot_exec(relative, second)?;
    if first_slip == 0 && second_slip == 0 {
        return Ok(None);
    }
    if magnitude(first_slip) >= magnitude(second_slip) {
        Ok(Some(first))
    } else {
        Ok(Some(second))
    }
}

fn length_squared_exec(vector: [i128; 3]) -> (result: Result<u128, ObbContactResponseError3d>)
    ensures
        match result {
            Ok(value) => checked_length_squared(vector_of(vector)) == Some(value as int),
            Err(error) => checked_length_squared(vector_of(vector)) is None && error
                == ObbContactResponseError3d::ArithmeticOverflow,
        },
{
    let a = magnitude(vector[0]);
    let b = magnitude(vector[1]);
    let c = magnitude(vector[2]);
    proof {
        assert(a * a == vector[0] * vector[0]) by (nonlinear_arith)
            requires
                a == abs(vector[0] as int),
        ;
        assert(b * b == vector[1] * vector[1]) by (nonlinear_arith)
            requires
                b == abs(vector[1] as int),
        ;
        assert(c * c == vector[2] * vector[2]) by (nonlinear_arith)
            requires
                c == abs(vector[2] as int),
        ;
        assert(a * a >= 0 && b * b >= 0 && c * c >= 0) by (nonlinear_arith);
    }
    let aa = match a.checked_mul(a) {
        Some(value) => value,
        None => return Err(ObbContactResponseError3d::ArithmeticOverflow),
    };
    let bb = match b.checked_mul(b) {
        Some(value) => value,
        None => return Err(ObbContactResponseError3d::ArithmeticOverflow),
    };
    let ab = match aa.checked_add(bb) {
        Some(value) => value,
        None => return Err(ObbContactResponseError3d::ArithmeticOverflow),
    };
    let cc = match c.checked_mul(c) {
        Some(value) => value,
        None => return Err(ObbContactResponseError3d::ArithmeticOverflow),
    };
    match ab.checked_add(cc) {
        Some(value) => Ok(value),
        None => Err(ObbContactResponseError3d::ArithmeticOverflow),
    }
}

fn within_coulomb_exec(impulse: [i128; 3], normal_length_squared: u128, friction: u16) -> (result:
    Result<bool, ObbContactResponseError3d>)
    ensures
        match result {
            Ok(within) => within_coulomb(
                vector_of(impulse),
                normal_length_squared as int,
                friction as int,
            ) == Some(within),
            Err(error) => within_coulomb(
                vector_of(impulse),
                normal_length_squared as int,
                friction as int,
            ) is None && error == ObbContactResponseError3d::ArithmeticOverflow,
        },
{
    let scale = MATERIAL_SCALE as u128;
    let f = friction as u128;
    let tangent = length_squared_exec(impulse)?;
    proof {
        assert(tangent * scale <= tangent * scale * scale) by (nonlinear_arith)
            requires
                scale == 1000,
        ;
        assert(normal_length_squared * f <= normal_length_squared * f * f || f == 0) by (
        nonlinear_arith);
        assert(f == 0 ==> normal_length_squared * f * f == 0) by (nonlinear_arith);
    }
    let lhs = match tangent.checked_mul(scale) {
        Some(value) => match value.checked_mul(scale) {
            Some(value) => value,
            None => return Err(ObbContactResponseError3d::ArithmeticOverflow),
        },
        None => return Err(ObbContactResponseError3d::ArithmeticOverflow),
    };
    let rhs = match normal_length_squared.checked_mul(f) {
        Some(value) => match value.checked_mul(f) {
            Some(value) => value,
            None => return Err(ObbContactResponseError3d::ArithmeticOverflow),
        },
        None => return Err(ObbContactResponseError3d::ArithmeticOverflow),
    };
    Ok(lhs <= rhs)
}

fn pivot_axis_exec(vector: [i128; 3]) -> (result: Result<usize, ObbContactResponseError3d>)
    ensures
        match result {
            Ok(index) => pivot_axis(vector_of(vector)) == Some(index as int),
            Err(error) => pivot_axis(vector_of(vector)) is None && error
                == ObbContactResponseError3d::ArithmeticOverflow,
        },
{
    let mut best: usize = 0;
    let mut largest = magnitude(vector[0]);
    let candidate = magnitude(vector[1]);
    if candidate > largest {
        best = 1;
        largest = candidate;
    }
    let candidate = magnitude(vector[2]);
    if candidate > largest {
        best = 2;
        largest = candidate;
    }
    if largest == 0 {
        return Err(ObbContactResponseError3d::ArithmeticOverflow);
    }
    Ok(best)
}

fn impulse_from_pivot_exec(
    pivot_magnitude: u128,
    negative: bool,
    tangent: [i128; 3],
    pivot: usize,
    pivot_denominator: i128,
) -> (result: Result<[i128; 3], ObbContactResponseError3d>)
    requires
        pivot < 3,
    ensures
        agrees3(
            result,
            impulse_from_pivot(
                pivot_magnitude as int,
                negative,
                vector_of(tangent),
                pivot as int,
                pivot_denominator as int,
            ),
        ),
{
    if pivot_magnitude > i128::MAX as u128 {
        return Err(ObbContactResponseError3d::ArithmeticOverflow);
    }
    let magnitude = pivot_magnitude as i128;
    let pivot_impulse = if negative {
        -magnitude
    } else {
        magnitude
    };
    let x = if pivot == 0 {
        pivot_impulse
    } else {
        mul_div_round_i128(pivot_impulse, tangent[0], pivot_denominator)?
    };
    let y = if pivot == 1 {
        pivot_impulse
    } else {
        mul_div_round_i128(pivot_impulse, tangent[1], pivot_denominator)?
    };
    let z = if pivot == 2 {
        pivot_impulse
    } else {
        mul_div_round_i128(pivot_impulse, tangent[2], pivot_denominator)?
    };
    Ok([x, y, z])
}

/// Scales `axis` by the exact ratio `numerator / denominator` (of either sign) and the
/// fixed-point `axis_scale`, rounding each component once.
pub fn scale_ratio_vector(numerator: i128, denominator: i128, axis: [i128; 3], axis_scale: i128) -> (result:
    Result<[i128; 3], ObbContactResponseError3d>)
    ensures
        agrees3(
            result,
            checked_signed_scale_ratio(
                numerator as int,
                denominator as int,
                vector_of(axis),
                axis_scale as int,
            ),
        ),
{
    if denominator <= 0 || axis_scale <= 0 {
        return Err(ObbContactResponseError3d::ArithmeticOverflow);
    }
    let x = mul_div_round_i128(numerator, checked_mul(axis[0], axis_scale)?, denominator)?;
    let y = mul_div_round_i128(numerator, checked_mul(axis[1], axis_scale)?, denominator)?;
    let z = mul_div_round_i128(numerator, checked_mul(axis[2], axis_scale)?, denominator)?;
    Ok([x, y, z])
}

fn coulomb_clamp_vector(
    desired: [i128; 3],
    tangent: [i128; 3],
    normal_impulse: [i128; 3],
    friction: u16,
) -> (result: Result<[i128; 3], ObbContactResponseError3d>)
    ensures
        agrees3(
            result,
            coulomb_clamp(
                vector_of(desired),
                vector_of(tangent),
                vector_of(normal_impulse),
                friction as int,
            ),
        ),
{
    if (desired[0] == 0 && desired[1] == 0 && desired[2] == 0) || (normal_impulse[0] == 0
        && normal_impulse[1] == 0 && normal_impulse[2] == 0) || friction == 0 {
        return Ok([0, 0, 0]);
    }
    let normal_length_squared = length_squared_exec(normal_impulse)?;
    if within_coulomb_exec(desired, normal_length_squared, friction)? {
        return Ok(desired);
    }
    let pivot = pivot_axis_exec(tangent)?;
    let oriented = if tangent[pivot] < 0 {
        negate_axis(tangent)?
    } else {
        tangent
    };
    let pivot_denominator = oriented[pivot];
    if pivot_denominator <= 0 {
        return Err(ObbContactResponseError3d::ArithmeticOverflow);
    }
    let desired_pivot = desired[pivot];
    if desired_pivot == 0 {
        return Ok([0, 0, 0]);
    }
    let negative = desired_pivot < 0;
    let ghost top = abs(desired_pivot as int);
    let mut low: u128 = 0;
    let mut high: u128 = magnitude(desired_pivot);
    while low < high
        invariant
            low <= high <= top,
            top == abs(desired_pivot as int),
            pivot < 3,
            clamp_search(
                low as int,
                high as int,
                negative,
                vector_of(oriented),
                pivot as int,
                pivot_denominator as int,
                normal_length_squared as int,
                friction as int,
            ) == clamp_search(
                0,
                top,
                negative,
                vector_of(oriented),
                pivot as int,
                pivot_denominator as int,
                normal_length_squared as int,
                friction as int,
            ),
            coulomb_clamp(
                vector_of(desired),
                vector_of(tangent),
                vector_of(normal_impulse),
                friction as int,
            ) == (match clamp_search(
                0,
                top,
                negative,
                vector_of(oriented),
                pivot as int,
                pivot_denominator as int,
                normal_length_squared as int,
                friction as int,
            ) {
                None => None,
                Some(found) => impulse_from_pivot(
                    found,
                    negative,
                    vector_of(oriented),
                    pivot as int,
                    pivot_denominator as int,
                ),
            }),
        decreases high - low,
    {
        let distance = high - low;
        let middle = low + (distance + 1) / 2;
        let candidate = impulse_from_pivot_exec(
            middle,
            negative,
            oriented,
            pivot,
            pivot_denominator,
        )?;
        if within_coulomb_exec(candidate, normal_length_squared, friction)? {
            low = middle;
        } else {
            high = middle - 1;
        }
    }
    impulse_from_pivot_exec(low, negative, oriented, pivot, pivot_denominator)
}

fn tangent_stage(
    response: ObbContactResponse3d,
    left_offset: [i64; 3],
    right_offset: [i64; 3],
    tangent: [i128; 3],
    normal_impulse: [i128; 3],
    friction: u16,
) -> (result: Result<ObbContactResponse3d, ObbContactResponseError3d>)
    requires
        positive_half_extents(response.left.body),
        positive_half_extents(response.right.body),
        norm_squared(response.left.angular.orientation) > 0,
        norm_squared(response.right.angular.orientation) > 0,
    ensures
        match result {
            Ok(after) => tangent_response(
                response,
                (left_offset[0] as int, left_offset[1] as int, left_offset[2] as int),
                (right_offset[0] as int, right_offset[1] as int, right_offset[2] as int),
                vector_of(tangent),
                vector_of(normal_impulse),
                friction as int,
            ) == Some(after),
            Err(error) => tangent_response(
                response,
                (left_offset[0] as int, left_offset[1] as int, left_offset[2] as int),
                (right_offset[0] as int, right_offset[1] as int, right_offset[2] as int),
                vector_of(tangent),
                vector_of(normal_impulse),
                friction as int,
            ) is None && error == ObbContactResponseError3d::ArithmeticOverflow,
        },
{
    let tangent_length_squared = length_squared_exec(tangent)?;
    let relative = match relative_contact_velocity(
        &response.left,
        left_offset,
        &response.right,
        right_offset,
    ) {
        Ok(relative) => relative,
        Err(error) => return Err(error),
    };
    let slip = checked_dot_exec(relative, tangent)?;
    if slip == 0 {
        return Ok(response);
    }
    let left_mass = body_effective_inverse_mass_scaled(
        &response.left,
        left_offset,
        tangent,
        tangent_length_squared,
        true,
    )?;
    let right_mass = body_effective_inverse_mass_scaled(
        &response.right,
        right_offset,
        tangent,
        tangent_length_squared,
        true,
    )?;
    let effective_inverse_mass = checked_add(left_mass, right_mass)?;
    if effective_inverse_mass <= 0 {
        return Ok(response);
    }
    let opposing = checked_neg(slip)?;
    let desired = scale_ratio_vector(opposing, effective_inverse_mass, tangent, RESPONSE_SCALE)?;
    let impulse = coulomb_clamp_vector(desired, tangent, normal_impulse, friction)?;
    if impulse[0] == 0 && impulse[1] == 0 && impulse[2] == 0 {
        return Ok(response);
    }
    let back = negate_axis(impulse)?;
    let mut left = response.left;
    apply_body_impulse(&mut left, left_offset, back, true)?;
    let mut right = response.right;
    apply_body_impulse(&mut right, right_offset, impulse, true)?;
    Ok(ObbContactResponse3d { left, right, contact: response.contact })
}

/// Resolves one OBB contact with normal response, penetration projection and one Coulomb-limited
/// tangential friction impulse.
///
/// The normal response is that of [`crate::resolve_obb_contact`]. Friction uses its reduced
/// contact point and SAT feature: the post-normal relative contact velocity, spin included,
/// selects the dominant slip direction among the oriented box edges spanning the contact's
/// tangent plane, and the impulse that would stop that slip is limited to the Coulomb cone by
/// comparing squared vector lengths, with no roots. The pair uses the larger friction
/// coefficient; a zero coefficient leaves the normal-only response unchanged, and a coefficient
/// above `MATERIAL_SCALE` fails with `ArithmeticOverflow`. Rotation-locked bodies receive the
/// linear part of friction only.
pub fn resolve_obb_contact(left: RigidBox3d, right: RigidBox3d, allow_restitution: bool) -> (result:
    Result<ObbContactResponse3d, ObbContactResponseError3d>)
    ensures
        result == friction_response(left, right, allow_restitution),
{
    validate_friction(&left)?;
    validate_friction(&right)?;
    let response = crate::obb_response::resolve_obb_contact(left, right, allow_restitution)?;
    let contact = match response.contact {
        None => return Ok(response),
        Some(contact) => contact,
    };
    if contact.normal_impulse[0] == 0 && contact.normal_impulse[1] == 0
        && contact.normal_impulse[2] == 0 {
        return Ok(response);
    }
    let friction = if left.body.material.friction_milli >= right.body.material.friction_milli {
        left.body.material.friction_milli
    } else {
        right.body.material.friction_milli
    };
    if friction == 0 {
        return Ok(response);
    }
    proof {
        let left_shape = left.spec_oriented_box();
        let right_shape = right.spec_oriented_box();
        match contact_of(left_shape, right_shape) {
            Ok(Some(seed)) => {
                lemma_response_keeps_bodies(left, right, allow_restitution, seed);
            },
            _ => {},
        }
        assert(vertices_error(left_shape) is None && vertices_error(right_shape) is None);
        lemma_norm_squared_nonnegative(left.angular.orientation);
        lemma_norm_squared_nonnegative(right.angular.orientation);
    }
    let left_offset = match vector_delta(left.body.position, contact.point) {
        Ok(delta) => delta,
        Err(error) => return Err(error),
    };
    let right_offset = match vector_delta(right.body.position, contact.point) {
        Ok(delta) => delta,
        Err(error) => return Err(error),
    };
    let left_edges = oriented_edges(&left)?;
    let right_edges = oriented_edges(&right)?;
    let tangents = contact_tangents_exec(
        left_edges,
        right_edges,
        contact.feature,
        Ghost(left),
        Ghost(right),
    )?;
    let relative = match relative_contact_velocity(
        &response.left,
        left_offset,
        &response.right,
        right_offset,
    ) {
        Ok(relative) => relative,
        Err(error) => return Err(error),
    };
    let tangent = match dominant_slip_exec(relative, tangents)? {
        None => return Ok(response),
        Some(tangent) => tangent,
    };
    tangent_stage(response, left_offset, right_offset, tangent, contact.normal_impulse, friction)
}

// ---------------------------------------------------------------------------------------------
// Laws
// ---------------------------------------------------------------------------------------------

/// A pivot magnitude whose impulse is representable and within the Coulomb bound.
pub open spec fn admissible(
    magnitude: int,
    negative: bool,
    tangent: Vector3,
    pivot: int,
    pivot_denominator: int,
    normal_length_squared: int,
    friction: int,
) -> bool {
    let candidate = impulse_from_pivot(magnitude, negative, tangent, pivot, pivot_denominator);
    candidate is Some && within_coulomb(candidate->Some_0, normal_length_squared, friction) == Some(
        true,
    )
}

/// The bisection keeps its invariant: starting from an admissible `low` and a `high` that is the
/// top of the range or whose successor violates the bound, any magnitude it returns is
/// admissible, lies in `low..=high`, and is the top of the range or has a successor that
/// violates the bound.
pub proof fn lemma_clamp_search_admissible(
    low: int,
    high: int,
    top: int,
    negative: bool,
    tangent: Vector3,
    pivot: int,
    pivot_denominator: int,
    normal_length_squared: int,
    friction: int,
)
    requires
        0 <= low <= high <= top,
        admissible(
            low,
            negative,
            tangent,
            pivot,
            pivot_denominator,
            normal_length_squared,
            friction,
        ),
        high == top || ({
            let next = impulse_from_pivot(high + 1, negative, tangent, pivot, pivot_denominator);
            next is Some && within_coulomb(next->Some_0, normal_length_squared, friction) == Some(
                false,
            )
        }),
    ensures
        clamp_search(
            low,
            high,
            negative,
            tangent,
            pivot,
            pivot_denominator,
            normal_length_squared,
            friction,
        ) matches Some(found) ==> {
            &&& low <= found <= high
            &&& admissible(
                found,
                negative,
                tangent,
                pivot,
                pivot_denominator,
                normal_length_squared,
                friction,
            )
            &&& found == top || ({
                let next = impulse_from_pivot(
                    found + 1,
                    negative,
                    tangent,
                    pivot,
                    pivot_denominator,
                );
                next is Some && within_coulomb(next->Some_0, normal_length_squared, friction)
                    == Some(false)
            })
        },
    decreases high - low,
{
    if low < high {
        let middle = low + (high - low + 1) / 2;
        let candidate = impulse_from_pivot(middle, negative, tangent, pivot, pivot_denominator);
        if candidate is Some {
            let within = within_coulomb(candidate->Some_0, normal_length_squared, friction);
            if within == Some(true) {
                lemma_clamp_search_admissible(
                    middle,
                    high,
                    top,
                    negative,
                    tangent,
                    pivot,
                    pivot_denominator,
                    normal_length_squared,
                    friction,
                );
            } else if within == Some(false) {
                lemma_clamp_search_admissible(
                    low,
                    middle - 1,
                    top,
                    negative,
                    tangent,
                    pivot,
                    pivot_denominator,
                    normal_length_squared,
                    friction,
                );
            }
        }
    }
}

/// The friction impulse never leaves the Coulomb cone: whatever the clamp returns is zero or
/// satisfies `|t|^2 * MATERIAL_SCALE^2 <= |n|^2 * friction^2` for the normal impulse `n`.
pub proof fn lemma_coulomb_clamp_within_cone(
    desired: Vector3,
    tangent: Vector3,
    normal_impulse: Vector3,
    friction: int,
)
    requires
        0 <= friction,
    ensures
        coulomb_clamp(desired, tangent, normal_impulse, friction) matches Some(impulse) ==> impulse
            == (0int, 0int, 0int) || ({
            let n = checked_length_squared(normal_impulse);
            n is Some && within_coulomb(impulse, n->Some_0, friction) == Some(true)
        }),
{
    if !(desired == (0int, 0int, 0int) || normal_impulse == (0int, 0int, 0int) || friction == 0) {
        let n = checked_length_squared(normal_impulse);
        if n is Some {
            let nls = n->Some_0;
            let within = within_coulomb(desired, nls, friction);
            if within == Some(false) {
                let pivot = pivot_axis(tangent);
                if pivot is Some {
                    let p = pivot->Some_0;
                    let oriented = if component3(tangent, p) < 0 {
                        checked_negated(tangent)
                    } else {
                        Some(tangent)
                    };
                    if oriented is Some {
                        let o = oriented->Some_0;
                        let denominator = component3(o, p);
                        let desired_pivot = component3(desired, p);
                        if denominator > 0 && desired_pivot != 0 {
                            let negative = desired_pivot < 0;
                            vstd::arithmetic::div_mod::lemma_basic_div(
                                denominator / 2,
                                denominator,
                            );
                            assert(round_div(0, denominator) == 0);
                            assert(0 * o.0 == 0 && 0 * o.1 == 0 && 0 * o.2 == 0);
                            assert(impulse_from_pivot(0, negative, o, p, denominator) == Some(
                                (0int, 0int, 0int),
                            ));
                            let zero = (0int, 0int, 0int);
                            assert(zero.0 * zero.0 + zero.1 * zero.1 + zero.2 * zero.2 == 0) by (
                            nonlinear_arith)
                                requires
                                    zero == (0int, 0int, 0int),
                            ;
                            assert(checked_length_squared(zero) == Some(0int));
                            let v = normal_impulse;
                            assert(nls >= 0) by (nonlinear_arith)
                                requires
                                    nls == v.0 * v.0 + v.1 * v.1 + v.2 * v.2,
                            ;
                            assert(nls * friction * friction >= 0) by (nonlinear_arith)
                                requires
                                    nls >= 0,
                                    friction >= 0,
                            ;
                            assert(within_coulomb(zero, nls, friction) == Some(true));
                            lemma_clamp_search_admissible(
                                0,
                                abs(desired_pivot),
                                abs(desired_pivot),
                                negative,
                                o,
                                p,
                                denominator,
                                nls,
                                friction,
                            );
                        }
                    }
                }
            }
        }
    }
}

/// The friction coefficient of a pair is the larger of the two materials' coefficients: at least
/// each of them and equal to one of them, so it does not depend on which body is which, and two
/// bodies of one material use that material's coefficient.
pub proof fn lemma_friction_is_the_larger(left: RigidBox3d, right: RigidBox3d)
    ensures
        combined_friction(left, right) >= left.body.material.friction_milli,
        combined_friction(left, right) >= right.body.material.friction_milli,
        combined_friction(left, right) == left.body.material.friction_milli || combined_friction(
            left,
            right,
        ) == right.body.material.friction_milli,
        combined_friction(left, right) == combined_friction(right, left),
        left.body.material.friction_milli == right.body.material.friction_milli ==> combined_friction(
            left,
            right,
        ) == left.body.material.friction_milli,
{
}

/// A pair whose combined friction coefficient is zero receives exactly the normal-only response.
pub proof fn lemma_zero_friction_is_normal_response(
    left: RigidBox3d,
    right: RigidBox3d,
    allow_restitution: bool,
)
    requires
        combined_friction(left, right) == 0,
    ensures
        friction_response(left, right, allow_restitution) == normal_response(
            left,
            right,
            allow_restitution,
        ),
{
}

/// Friction changes only the motion state of the two bodies: each returned body is the
/// corresponding input body, a fixed body comes out unchanged, and a rotation-locked body keeps
/// its orientation and angular velocity.
pub proof fn lemma_friction_keeps_bodies(left: RigidBox3d, right: RigidBox3d, allow_restitution: bool)
    ensures
        friction_response(left, right, allow_restitution) matches Ok(response) ==> {
            &&& same_body(left, response.left) && same_body(right, response.right)
            &&& left.body.kind == BodyKind::Fixed ==> response.left == left
            &&& right.body.kind == BodyKind::Fixed ==> response.right == right
            &&& left.rotation_locked ==> response.left.angular == left.angular
            &&& right.rotation_locked ==> response.right.angular == right.angular
        },
{
    if friction_in_range(left) && friction_in_range(right) && pair_validation_error(left, right) is None {
        match contact_of(left.spec_oriented_box(), right.spec_oriented_box()) {
            Ok(Some(seed)) => {
                lemma_fixed_body_and_lock_laws(left, right, allow_restitution, seed);
                match normal_response(left, right, allow_restitution) {
                    Ok(response) => match response.contact {
                        Some(contact) => {
                            let lo = offset_from(left.body.position, contact.point);
                            let ro = offset_from(right.body.position, contact.point);
                            let tangents = contact_tangents(left, right, contact.feature);
                            if tangents is Some {
                                let relative = relative_velocity_at(
                                    response.left,
                                    lo,
                                    response.right,
                                    ro,
                                );
                                match dominant_slip(relative, tangents->Some_0) {
                                    Some(Some(tangent)) => {
                                        lemma_tangent_keeps_bodies(
                                            response,
                                            lo,
                                            ro,
                                            tangent,
                                            vector_of(contact.normal_impulse),
                                            combined_friction(left, right),
                                        );
                                    },
                                    _ => {},
                                }
                            }
                        },
                        None => {},
                    },
                    Err(_) => {},
                }
            },
            _ => {},
        }
    }
}

proof fn lemma_tangent_keeps_bodies(
    response: ObbContactResponse3d,
    left_offset: Vector3,
    right_offset: Vector3,
    tangent: Vector3,
    normal_impulse: Vector3,
    friction: int,
)
    ensures
        tangent_response(response, left_offset, right_offset, tangent, normal_impulse, friction) matches Some(
            after,
        ) ==> {
            &&& same_body(response.left, after.left) && same_body(response.right, after.right)
            &&& response.left.body.kind == BodyKind::Fixed ==> after.left == response.left
            &&& response.right.body.kind == BodyKind::Fixed ==> after.right == response.right
            &&& response.left.rotation_locked ==> after.left.angular == response.left.angular
            &&& response.right.rotation_locked ==> after.right.angular == response.right.angular
        },
{
    let tls = checked_length_squared(tangent);
    if tls is Some {
        let l = checked_inverse_mass(response.left, left_offset, tangent, tls->Some_0, true);
        let r = checked_inverse_mass(response.right, right_offset, tangent, tls->Some_0, true);
        let relative = relative_velocity_at(response.left, left_offset, response.right, right_offset);
        let slip = checked_dot(relative, tangent);
        if l is Some && r is Some && slip is Some {
            let desired = checked_signed_scale_ratio(
                -slip->Some_0,
                l->Some_0 + r->Some_0,
                tangent,
                RESPONSE_SCALE as int,
            );
            if desired is Some {
                let impulse = coulomb_clamp(desired->Some_0, tangent, normal_impulse, friction);
                if impulse is Some {
                    let j = impulse->Some_0;
                    let back = checked_negated(j);
                    if back is Some {
                        lemma_impulse_keeps_body(response.left, left_offset, back->Some_0, true);
                    }
                    lemma_impulse_keeps_body(response.right, right_offset, j, true);
                }
            }
        }
    }
}

} // verus!
