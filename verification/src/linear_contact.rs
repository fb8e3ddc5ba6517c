use vstd::prelude::*;

use crate::body::{BodyKind, RigidBody};
use crate::math::Vec3i;
use crate::obb_response::{
    ObbContactResponse3d, ObbContactResponseError3d, checked_dot, dot_vec, normal_response,
    pair_validation_error, position_of, resolve_obb_contact, validate_pair, vector_of,
};
use crate::oriented_box::{
    OrientedBoxError3d, contact_of, contact_seed, oriented_box_vertices, spec_vertices,
    vertices_error,
};
use crate::rigid_box::{ContactMode3d, RigidBox3d};
use crate::rotational_sweep::RotationalSweepBounds3d;

verus! {

/// Whether a pair is resolved with the linear-push policy: either body opted out of physical
/// response.
pub fn uses_linear_response(left: &RigidBox3d, right: &RigidBox3d) -> (linear: bool)
    ensures
        linear == (left.contact_mode != ContactMode3d::Physical || right.contact_mode
            != ContactMode3d::Physical),
{
    !(left.contact_mode == ContactMode3d::Physical && right.contact_mode == ContactMode3d::Physical)
}

/// The support direction of a linear-push body.
pub open spec fn spec_support_direction(body: RigidBox3d) -> Option<Vec3i> {
    match body.contact_mode {
        ContactMode3d::Physical => None,
        ContactMode3d::LinearPush { support_direction } => Some(support_direction),
    }
}

fn support_direction(body: &RigidBox3d) -> (direction: Option<Vec3i>)
    ensures
        direction == spec_support_direction(*body),
{
    match body.contact_mode {
        ContactMode3d::Physical => None,
        ContactMode3d::LinearPush { support_direction } => Some(support_direction),
    }
}

pub open spec fn sign_of(value: i32) -> i32 {
    if value < 0 {
        -1i32
    } else if value > 0 {
        1i32
    } else {
        0i32
    }
}

/// The axis and sign of a linear-push support direction with exactly one nonzero component.
pub open spec fn spec_cardinal_support_axis(body: RigidBox3d) -> Option<(usize, i32)> {
    match spec_support_direction(body) {
        None => None,
        Some(direction) => if direction.x != 0 && direction.y == 0 && direction.z == 0 {
            Some((0usize, sign_of(direction.x)))
        } else if direction.x == 0 && direction.y != 0 && direction.z == 0 {
            Some((1usize, sign_of(direction.y)))
        } else if direction.x == 0 && direction.y == 0 && direction.z != 0 {
            Some((2usize, sign_of(direction.z)))
        } else {
            None
        },
    }
}

fn signum(value: i32) -> (sign: i32)
    ensures
        sign == sign_of(value),
{
    if value < 0 {
        -1
    } else if value > 0 {
        1
    } else {
        0
    }
}

fn cardinal_support_axis(body: &RigidBox3d) -> (result: Option<(usize, i32)>)
    ensures
        result == spec_cardinal_support_axis(*body),
{
    let direction = match support_direction(body) {
        Some(direction) => direction,
        None => return None,
    };
    if direction.x != 0 && direction.y == 0 && direction.z == 0 {
        Some((0, signum(direction.x)))
    } else if direction.x == 0 && direction.y != 0 && direction.z == 0 {
        Some((1, signum(direction.y)))
    } else if direction.x == 0 && direction.y == 0 && direction.z != 0 {
        Some((2, signum(direction.z)))
    } else {
        None
    }
}

/// Every vertex of the actuator lies strictly on the supported side of `other`'s centre along the
/// actuator's cardinal support axis.
pub open spec fn spec_passive_support_shape(actuator: RigidBox3d, other: RigidBox3d) -> Result<
    bool,
    OrientedBoxError3d,
> {
    match spec_cardinal_support_axis(actuator) {
        None => Ok(false),
        Some((axis, sign)) => match vertices_error(actuator.spec_oriented_box()) {
            Some(error) => Err(error),
            None => {
                let centre = other.body.position.spec_component(axis as int);
                let vertices = spec_vertices(actuator.spec_oriented_box());
                Ok(
                    forall|i: int|
                        0 <= i < 8 ==> if sign < 0 {
                            (#[trigger] vertices[i]).spec_component(axis as int) > centre
                        } else {
                            vertices[i].spec_component(axis as int) < centre
                        },
                )
            },
        },
    }
}

/// Whether the actuator's current shape lies entirely in the passive support half-space of
/// `other`.
pub fn current_shape_is_passive_support(actuator: &RigidBox3d, other: &RigidBox3d) -> (result:
    Result<bool, OrientedBoxError3d>)
    ensures
        result == spec_passive_support_shape(*actuator, *other),
{
    let (axis, sign) = match cardinal_support_axis(actuator) {
        Some(found) => found,
        None => return Ok(false),
    };
    let centre = other.body.position.component(axis);
    let vertices = match oriented_box_vertices(actuator.oriented_box()) {
        Ok(vertices) => vertices,
        Err(error) => return Err(error),
    };
    proof {
        crate::oriented_box::lemma_vertices_are_spec(actuator.spec_oriented_box(), vertices@);
    }
    let ghost spec_points = spec_vertices(actuator.spec_oriented_box());
    let mut index: usize = 0;
    while index < 8
        invariant
            index <= 8,
            vertices@ == spec_points,
            spec_points == spec_vertices(actuator.spec_oriented_box()),
            spec_cardinal_support_axis(*actuator) == Some((axis, sign)),
            vertices_error(actuator.spec_oriented_box()) is None,
            axis < 3,
            centre == other.body.position.spec_component(axis as int),
            forall|i: int|
                0 <= i < index ==> if sign < 0 {
                    (#[trigger] spec_points[i]).spec_component(axis as int) > centre
                } else {
                    spec_points[i].spec_component(axis as int) < centre
                },
        decreases 8 - index,
    {
        let value = vertices[index].component(axis);
        let inside = if sign < 0 {
            value > centre
        } else {
            value < centre
        };
        if !inside {
            proof {
                assert(spec_points[index as int] == vertices@[index as int]);
                assert(!(if sign < 0 {
                    spec_points[index as int].spec_component(axis as int) > centre
                } else {
                    spec_points[index as int].spec_component(axis as int) < centre
                }));
            }
            return Ok(false);
        }
        index = index + 1;
    }
    Ok(true)
}

/// The envelope lies strictly on the supported side of `other`'s centre along the actuator's
/// cardinal support axis, and `other` responds physically.
pub open spec fn spec_sweep_is_passive_support(
    actuator: RigidBox3d,
    envelope: RotationalSweepBounds3d,
    other: RigidBox3d,
) -> bool {
    other.contact_mode == ContactMode3d::Physical && match spec_cardinal_support_axis(actuator) {
        None => false,
        Some((axis, sign)) => {
            let centre = other.body.position.spec_component(axis as int) as int;
            if sign < 0 {
                envelope.minimum[axis as int] > centre
            } else {
                envelope.maximum[axis as int] < centre
            }
        },
    }
}

/// A conservative envelope entirely inside the passive support half-space cannot transmit a push
/// to `other` under the actuator policy, so `other` need not wake. Physical impacts, side pushes
/// and non-cardinal directions never qualify.
pub fn sweep_is_passive_support(
    actuator: &RigidBox3d,
    envelope: RotationalSweepBounds3d,
    other: &RigidBox3d,
) -> (passive: bool)
    ensures
        passive == spec_sweep_is_passive_support(*actuator, envelope, *other),
{
    if other.contact_mode != ContactMode3d::Physical {
        return false;
    }
    let (axis, sign) = match cardinal_support_axis(actuator) {
        Some(found) => found,
        None => return false,
    };
    let centre = other.body.position.component(axis) as i64;
    if sign < 0 {
        envelope.minimum[axis] > centre
    } else {
        envelope.maximum[axis] < centre
    }
}

/// Whether `other` supports the linear-push `actuator` across a contact along `axis` (oriented
/// from left to right; `actuator_is_left` tells which side the actuator is on): the actuator's
/// support direction points into the contact, or its shape already lies in the passive support
/// half-space of `other`. Only a linear-push actuator against a physical body qualifies.
pub open spec fn supported_by(
    actuator: RigidBox3d,
    other: RigidBox3d,
    axis: [i128; 3],
    actuator_is_left: bool,
) -> Result<bool, ObbContactResponseError3d> {
    match (spec_support_direction(actuator), spec_support_direction(other)) {
        (Some(direction), None) => match checked_dot(position_of(direction), vector_of(axis)) {
            None => Err(ObbContactResponseError3d::ArithmeticOverflow),
            Some(value) => if (actuator_is_left && value > 0) || (!actuator_is_left && value < 0) {
                Ok(true)
            } else {
                match spec_passive_support_shape(actuator, other) {
                    Ok(passive) => Ok(passive),
                    Err(error) => Err(ObbContactResponseError3d::Geometry(error)),
                }
            },
        },
        _ => Ok(false),
    }
}

/// The response-local stand-in of a body: rotation locked, and fixed where it supports an
/// actuator.
pub open spec fn linear_push_proxy(rigid_box: RigidBox3d, supports: bool) -> RigidBox3d {
    RigidBox3d {
        body: RigidBody {
            kind: if supports {
                BodyKind::Fixed
            } else {
                rigid_box.body.kind
            },
            ..rigid_box.body
        },
        rotation_locked: true,
        ..rigid_box
    }
}

/// A stand-in's response with the body's own kind, rotation lock and angular state restored.
pub open spec fn restored(response: RigidBox3d, original: RigidBox3d) -> RigidBox3d {
    RigidBox3d {
        body: RigidBody { kind: original.body.kind, ..response.body },
        angular: original.angular,
        rotation_locked: original.rotation_locked,
        ..response
    }
}

/// The linear-push contact response: the exact normal response (without restitution) of the two
/// stand-ins, a body fixed where it supports the other, with every body's kind, rotation lock and
/// angular state restored afterwards.
pub open spec fn linear_push_response(left: RigidBox3d, right: RigidBox3d) -> Result<
    ObbContactResponse3d,
    ObbContactResponseError3d,
> {
    match pair_validation_error(left, right) {
        Some(error) => Err(error),
        None => match contact_of(left.spec_oriented_box(), right.spec_oriented_box()) {
            Err(error) => Err(ObbContactResponseError3d::Geometry(error)),
            Ok(None) => Ok(ObbContactResponse3d { left, right, contact: None }),
            Ok(Some(seed)) => match supported_by(left, right, seed.axis, true) {
                Err(error) => Err(error),
                Ok(right_supports_left) => match supported_by(right, left, seed.axis, false) {
                    Err(error) => Err(error),
                    Ok(left_supports_right) => match normal_response(
                        linear_push_proxy(left, left_supports_right),
                        linear_push_proxy(right, right_supports_left),
                        false,
                    ) {
                        Err(error) => Err(error),
                        Ok(response) => Ok(
                            ObbContactResponse3d {
                                left: restored(response.left, left),
                                right: restored(response.right, right),
                                contact: response.contact,
                            },
                        ),
                    },
                },
            },
        },
    }
}

fn supported_by_exec(
    actuator: &RigidBox3d,
    other: &RigidBox3d,
    axis: [i128; 3],
    actuator_is_left: bool,
) -> (result: Result<bool, ObbContactResponseError3d>)
    ensures
        result == supported_by(*actuator, *other, axis, actuator_is_left),
{
    let direction = match (support_direction(actuator), support_direction(other)) {
        (Some(direction), None) => direction,
        _ => return Ok(false),
    };
    let value = dot_vec(direction, axis)?;
    if (actuator_is_left && value > 0) || (!actuator_is_left && value < 0) {
        return Ok(true);
    }
    match current_shape_is_passive_support(actuator, other) {
        Ok(passive) => Ok(passive),
        Err(error) => Err(ObbContactResponseError3d::Geometry(error)),
    }
}

fn proxy(rigid_box: &RigidBox3d, supports: bool) -> (stand_in: RigidBox3d)
    ensures
        stand_in == linear_push_proxy(*rigid_box, supports),
{
    let mut stand_in = *rigid_box;
    stand_in.rotation_locked = true;
    if supports {
        stand_in.body.kind = BodyKind::Fixed;
    }
    stand_in
}

fn restore(response: &RigidBox3d, original: &RigidBox3d) -> (restored_box: RigidBox3d)
    ensures
        restored_box == restored(*response, *original),
{
    let mut restored_box = *response;
    restored_box.body.kind = original.body.kind;
    restored_box.rotation_locked = original.rotation_locked;
    restored_box.angular = original.angular;
    restored_box
}

/// Resolves a contact under the linear-push actuator policy through the exact normal solver.
///
/// A physical body supports a linear-push partner whose support direction points into the
/// contact, or whose shape already lies in the passive support half-space of that body: the
/// supporting body then responds as a fixed one. Both bodies respond without rotation and without
/// restitution, and keep their own kind, rotation lock and angular state.
pub fn resolve(left: RigidBox3d, right: RigidBox3d) -> (result: Result<
    ObbContactResponse3d,
    ObbContactResponseError3d,
>)
    ensures
        result == linear_push_response(left, right),
{
    validate_pair(&left, &right)?;
    let seed = match contact_seed(left.oriented_box(), right.oriented_box()) {
        Err(error) => return Err(ObbContactResponseError3d::Geometry(error)),
        Ok(None) => return Ok(ObbContactResponse3d { left, right, contact: None }),
        Ok(Some(seed)) => seed,
    };
    let right_supports_left = supported_by_exec(&left, &right, seed.axis, true)?;
    let left_supports_right = supported_by_exec(&right, &left, seed.axis, false)?;
    let response = resolve_obb_contact(
        proxy(&left, left_supports_right),
        proxy(&right, right_supports_left),
        false,
    )?;
    Ok(
        ObbContactResponse3d {
            left: restore(&response.left, &left),
            right: restore(&response.right, &right),
            contact: response.contact,
        },
    )
}

/// Under the linear-push policy every body keeps its own kind, rotation lock and angular state.
pub proof fn lemma_linear_push_keeps_body_state(left: RigidBox3d, right: RigidBox3d)
    ensures
        linear_push_response(left, right) matches Ok(response) ==> {
            &&& response.left.body.kind == left.body.kind
            &&& response.right.body.kind == right.body.kind
            &&& response.left.rotation_locked == left.rotation_locked
            &&& response.right.rotation_locked == right.rotation_locked
            &&& response.left.angular == left.angular
            &&& response.right.angular == right.angular
        },
{
}

} // verus!
