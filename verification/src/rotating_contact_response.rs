//! Multi-pass response to a rotating-contact frontier.
use vstd::prelude::*;

use crate::angular::{AngularState3d, AngularVelocity3d};
use crate::body::{BodyId, BodyKind, RigidBody};
use crate::math::{Vec3i, round_div};
use crate::obb_response::{
    ObbContactResponseError3d, Vector3, checked_round_div, div_round_nearest, fits_i128, fits_i32,
    lemma_fixed_body_and_lock_laws, magnitude, normal_response, pair_validation_error, vector_of,
};
use crate::oriented_box::{axis_gcd, contact_of, greatest_common_divisor, reduce_component};
use crate::rigid_box::RigidBox3d;
use crate::rigid_box_free_flight::{
    RigidBoxFreeFlightConfig3d, RigidBoxFreeFlightError3d, sampled_box,
};
use crate::rotating_contact_frontier::RotatingContactFrontier3d;
use crate::rotating_contact_search::{RotatingContactSearchHit3d, SampledContactTime3d};

verus! {

/// Metadata of one resolved rotating-contact frontier; the bodies themselves are updated in
/// place.
#[derive(Clone, Debug, PartialEq, Eq)]
pub struct RotatingContactResponse3d {
    pub time: SampledContactTime3d,
    pub contacts: Vec<RotatingContactSearchHit3d>,
    pub remaining_numerator: u32,
    pub passes_used: u8,
}

#[derive(Clone, Copy, Debug, PartialEq, Eq, Structural)]
pub enum RotatingContactResponseError3d {
    ZeroSolverPasses,
    MissingBody(BodyId),
    Pair(ObbContactResponseError3d),
    FreeFlight(RigidBoxFreeFlightError3d),
    ArithmeticOverflow(BodyId),
}

impl From<ObbContactResponseError3d> for RotatingContactResponseError3d {
    fn from(value: ObbContactResponseError3d) -> (error: RotatingContactResponseError3d)
        ensures
            error == RotatingContactResponseError3d::Pair(value),
    {
        RotatingContactResponseError3d::Pair(value)
    }
}

impl vstd::std_specs::convert::FromSpecImpl<ObbContactResponseError3d> for RotatingContactResponseError3d {
    open spec fn obeys_from_spec() -> bool {
        true
    }

    open spec fn from_spec(value: ObbContactResponseError3d) -> RotatingContactResponseError3d {
        RotatingContactResponseError3d::Pair(value)
    }
}

impl From<RigidBoxFreeFlightError3d> for RotatingContactResponseError3d {
    fn from(value: RigidBoxFreeFlightError3d) -> (error: RotatingContactResponseError3d)
        ensures
            error == RotatingContactResponseError3d::FreeFlight(value),
    {
        RotatingContactResponseError3d::FreeFlight(value)
    }
}

impl vstd::std_specs::convert::FromSpecImpl<RigidBoxFreeFlightError3d> for RotatingContactResponseError3d {
    open spec fn obeys_from_spec() -> bool {
        true
    }

    open spec fn from_spec(value: RigidBoxFreeFlightError3d) -> RotatingContactResponseError3d {
        RotatingContactResponseError3d::FreeFlight(value)
    }
}

/// Reusable storage of repeated frontier responses; after a successful response it holds the
/// contact island: the bodies taking part in the frontier's contacts, in world order.
#[derive(Clone, Debug)]
pub struct RotatingContactResponseScratch3d {
    pub island: Vec<RigidBox3d>,
}

impl Default for RotatingContactResponseScratch3d {
    fn default() -> (scratch: RotatingContactResponseScratch3d)
        ensures
            scratch.island@.len() == 0,
    {
        RotatingContactResponseScratch3d { island: Vec::new() }
    }
}

// ---------------------------------------------------------------------------------------------
// Specification
// ---------------------------------------------------------------------------------------------

/// A motion change: position, linear velocity and angular velocity differences.
pub type Delta3 = (Vector3, Vector3, Vector3);

/// A group of motion changes sharing one primitive contact axis: the axis, their sum and their
/// number.
pub type DeltaGroup = (Vector3, Delta3, int);

/// The index of the last of the first `n` boxes with identifier `id`.
pub open spec fn last_index(boxes: Seq<RigidBox3d>, id: BodyId, n: nat) -> Option<int>
    decreases n,
{
    if n == 0 {
        None
    } else if boxes[n - 1].body.id == id {
        Some(n - 1)
    } else {
        last_index(boxes, id, (n - 1) as nat)
    }
}

/// The world index by which a body is addressed: its last occurrence.
pub open spec fn body_index(boxes: Seq<RigidBox3d>, id: BodyId) -> Option<int> {
    last_index(boxes, id, boxes.len())
}

/// `target` carrying the position, velocity, orientation and angular velocity of `source`.
pub open spec fn with_motion(target: RigidBox3d, source: RigidBox3d) -> RigidBox3d {
    RigidBox3d {
        body: RigidBody {
            position: source.body.position,
            velocity: source.body.velocity,
            ..target.body
        },
        angular: AngularState3d {
            orientation: source.angular.orientation,
            angular_velocity: source.angular.angular_velocity,
        },
        ..target
    }
}

/// The first `n` boxes advanced in free flight to `time`, or the first sampling failure.
pub open spec fn staged_prefix(
    boxes: Seq<RigidBox3d>,
    free_flight: RigidBoxFreeFlightConfig3d,
    time: SampledContactTime3d,
    n: nat,
) -> Result<Seq<RigidBox3d>, RotatingContactResponseError3d>
    decreases n,
{
    if n == 0 {
        Ok(Seq::empty())
    } else {
        match staged_prefix(boxes, free_flight, time, (n - 1) as nat) {
            Err(error) => Err(error),
            Ok(staged) => match sampled_box(boxes[n - 1], free_flight, time.numerator, time.denominator) {
                Err(error) => Err(RotatingContactResponseError3d::FreeFlight(error)),
                Ok(sampled) => Ok(staged.push(with_motion(boxes[n - 1], sampled))),
            },
        }
    }
}

/// The world advanced to the frontier time; a frontier at time zero leaves it as it is.
pub open spec fn staged_world(
    boxes: Seq<RigidBox3d>,
    free_flight: RigidBoxFreeFlightConfig3d,
    time: SampledContactTime3d,
) -> Result<Seq<RigidBox3d>, RotatingContactResponseError3d> {
    if time == SampledContactTime3d::spec_zero() {
        Ok(boxes)
    } else {
        staged_prefix(boxes, free_flight, time, boxes.len())
    }
}

/// The first body among the first `n` contacts' pairs (left before right) missing from the
/// world.
pub open spec fn island_error(
    boxes: Seq<RigidBox3d>,
    contacts: Seq<RotatingContactSearchHit3d>,
    n: nat,
) -> Option<RotatingContactResponseError3d>
    decreases n,
{
    if n == 0 {
        None
    } else {
        match island_error(boxes, contacts, (n - 1) as nat) {
            Some(error) => Some(error),
            None => {
                let pair = contacts[n - 1].pair;
                if body_index(boxes, pair.left) is None {
                    Some(RotatingContactResponseError3d::MissingBody(pair.left))
                } else if body_index(boxes, pair.right) is None {
                    Some(RotatingContactResponseError3d::MissingBody(pair.right))
                } else {
                    None
                }
            },
        }
    }
}

pub open spec fn zero_delta() -> Delta3 {
    ((0int, 0int, 0int), (0int, 0int, 0int), (0int, 0int, 0int))
}

/// The motion change from `before` to `after`.
pub open spec fn delta_between(before: RigidBox3d, after: RigidBox3d) -> Delta3 {
    (
        (
            after.body.position.x - before.body.position.x,
            after.body.position.y - before.body.position.y,
            after.body.position.z - before.body.position.z,
        ),
        (
            after.body.velocity.x - before.body.velocity.x,
            after.body.velocity.y - before.body.velocity.y,
            after.body.velocity.z - before.body.velocity.z,
        ),
        (
            after.angular.angular_velocity.x - before.angular.angular_velocity.x,
            after.angular.angular_velocity.y - before.angular.angular_velocity.y,
            after.angular.angular_velocity.z - before.angular.angular_velocity.z,
        ),
    )
}

pub open spec fn checked_sum3(a: Vector3, b: Vector3) -> Option<Vector3> {
    if fits_i128(a.0 + b.0) && fits_i128(a.1 + b.1) && fits_i128(a.2 + b.2) {
        Some((a.0 + b.0, a.1 + b.1, a.2 + b.2))
    } else {
        None
    }
}

/// Component-wise sum of two motion changes within `i128`.
pub open spec fn checked_sum_delta(a: Delta3, b: Delta3) -> Option<Delta3> {
    let p = checked_sum3(a.0, b.0);
    let v = checked_sum3(a.1, b.1);
    let w = checked_sum3(a.2, b.2);
    if p is Some && v is Some && w is Some {
        Some((p->Some_0, v->Some_0, w->Some_0))
    } else {
        None
    }
}

/// Lexicographic order of contact axes.
pub open spec fn key_less(a: Vector3, b: Vector3) -> bool {
    a.0 < b.0 || (a.0 == b.0 && (a.1 < b.1 || (a.1 == b.1 && a.2 < b.2)))
}

/// The primitive form of a contact axis, grouping parallel contacts; none for a zero axis or a
/// divisor beyond `i128`.
pub open spec fn response_key(axis: Vector3) -> Option<Vector3> {
    let g = axis_gcd(axis) as int;
    if g == 0 || g > i128::MAX {
        None
    } else {
        Some((reduce_component(axis.0, g), reduce_component(axis.1, g), reduce_component(axis.2, g)))
    }
}

/// The first position from `i` whose group key is not below `key` (groups stay sorted by key).
pub open spec fn group_slot(groups: Seq<DeltaGroup>, key: Vector3, i: int) -> int
    decreases groups.len() - i,
{
    if i >= groups.len() || i < 0 {
        groups.len() as int
    } else if !key_less(groups[i].0, key) {
        i
    } else {
        group_slot(groups, key, i + 1)
    }
}

/// Adds one motion change to the group of its key, opening a new group in key order when none
/// exists; none when a sum leaves `i128` or a count leaves `u32`.
pub open spec fn accumulate(groups: Seq<DeltaGroup>, key: Vector3, delta: Delta3) -> Option<
    Seq<DeltaGroup>,
> {
    let slot = group_slot(groups, key, 0);
    if slot < groups.len() && groups[slot].0 == key {
        let sum = checked_sum_delta(groups[slot].1, delta);
        if sum is None || groups[slot].2 + 1 > u32::MAX {
            None
        } else {
            Some(groups.update(slot, (key, sum->Some_0, groups[slot].2 + 1)))
        }
    } else {
        Some(groups.insert(slot, (key, delta, 1)))
    }
}

/// Records the motion change a contact gave the body at world index `index` along `axis`; a
/// zero change is not recorded.
pub open spec fn contribute(
    groups: Seq<Seq<DeltaGroup>>,
    index: int,
    axis: Vector3,
    delta: Delta3,
    id: BodyId,
) -> Result<Seq<Seq<DeltaGroup>>, RotatingContactResponseError3d> {
    if delta == zero_delta() {
        Ok(groups)
    } else {
        match response_key(axis) {
            None => Err(RotatingContactResponseError3d::ArithmeticOverflow(id)),
            Some(key) => match accumulate(groups[index], key, delta) {
                None => Err(RotatingContactResponseError3d::ArithmeticOverflow(id)),
                Some(updated) => Ok(groups.update(index, updated)),
            },
        }
    }
}

/// `-vector`, unless a component is `i128::MIN`.
pub open spec fn negated(vector: Vector3) -> Option<Vector3> {
    if vector.0 == i128::MIN || vector.1 == i128::MIN || vector.2 == i128::MIN {
        None
    } else {
        Some((-vector.0, -vector.1, -vector.2))
    }
}

/// One contact of a solver pass, resolved against the pass's starting `state`: the normal
/// response's motion changes of both bodies recorded along the contact axis (negated for the left
/// body). Restitution applies only when `restitution` holds.
#[verifier::opaque]
pub open spec fn contact_step(
    state: Seq<RigidBox3d>,
    hit: RotatingContactSearchHit3d,
    restitution: bool,
    groups: Seq<Seq<DeltaGroup>>,
) -> Result<Seq<Seq<DeltaGroup>>, RotatingContactResponseError3d> {
    let pair = hit.pair;
    let l = body_index(state, pair.left);
    let r = body_index(state, pair.right);
    if l is None {
        Err(RotatingContactResponseError3d::MissingBody(pair.left))
    } else if r is None {
        Err(RotatingContactResponseError3d::MissingBody(pair.right))
    } else {
        let li = l->Some_0;
        let ri = r->Some_0;
        match normal_response(state[li], state[ri], restitution) {
            Err(error) => Err(RotatingContactResponseError3d::Pair(error)),
            Ok(response) => match response.contact {
                None => Ok(groups),
                Some(contact) => match negated(vector_of(contact.axis)) {
                    None => Err(RotatingContactResponseError3d::ArithmeticOverflow(pair.left)),
                    Some(back) => match contribute(
                        groups,
                        li,
                        back,
                        delta_between(state[li], response.left),
                        state[li].body.id,
                    ) {
                        Err(error) => Err(error),
                        Ok(after_left) => contribute(
                            after_left,
                            ri,
                            vector_of(contact.axis),
                            delta_between(state[ri], response.right),
                            state[ri].body.id,
                        ),
                    },
                },
            },
        }
    }
}

/// One solver pass over the first `n` contacts, every contact resolved against the state at the
/// start of the pass: the motion changes each body received, grouped by contact axis.
pub open spec fn pass_groups(
    state: Seq<RigidBox3d>,
    contacts: Seq<RotatingContactSearchHit3d>,
    restitution: bool,
    n: nat,
) -> Result<Seq<Seq<DeltaGroup>>, RotatingContactResponseError3d>
    decreases n,
{
    if n == 0 {
        Ok(Seq::new(state.len(), |i: int| Seq::<DeltaGroup>::empty()))
    } else {
        match pass_groups(state, contacts, restitution, (n - 1) as nat) {
            Err(error) => Err(error),
            Ok(groups) => contact_step(state, contacts[n - 1], restitution, groups),
        }
    }
}

/// A group's average motion change, each component rounded half away from zero.
pub open spec fn divided(sum: Delta3, count: int) -> Option<Delta3> {
    let parts = seq![
        checked_round_div(sum.0.0, count),
        checked_round_div(sum.0.1, count),
        checked_round_div(sum.0.2, count),
        checked_round_div(sum.1.0, count),
        checked_round_div(sum.1.1, count),
        checked_round_div(sum.1.2, count),
        checked_round_div(sum.2.0, count),
        checked_round_div(sum.2.1, count),
        checked_round_div(sum.2.2, count),
    ];
    if forall|i: int| 0 <= i < 9 ==> (#[trigger] parts[i]) is Some {
        Some(
            (
                (parts[0]->Some_0, parts[1]->Some_0, parts[2]->Some_0),
                (parts[3]->Some_0, parts[4]->Some_0, parts[5]->Some_0),
                (parts[6]->Some_0, parts[7]->Some_0, parts[8]->Some_0),
            ),
        )
    } else {
        None
    }
}

/// A body's combined motion change: the sum over its first `n` axis groups of their averages.
pub open spec fn combined(groups: Seq<DeltaGroup>, n: nat) -> Option<Delta3>
    decreases n,
{
    if n == 0 {
        Some(zero_delta())
    } else {
        match combined(groups, (n - 1) as nat) {
            None => None,
            Some(previous) => match divided(groups[n - 1].1, groups[n - 1].2) {
                None => None,
                Some(average) => checked_sum_delta(previous, average),
            },
        }
    }
}

/// The combined motion change of the first `n` bodies, or the first body whose sum overflows.
pub open spec fn combined_all(
    state: Seq<RigidBox3d>,
    groups: Seq<Seq<DeltaGroup>>,
    n: nat,
) -> Result<Seq<Delta3>, RotatingContactResponseError3d>
    decreases n,
{
    if n == 0 {
        Ok(Seq::empty())
    } else {
        match combined_all(state, groups, (n - 1) as nat) {
            Err(error) => Err(error),
            Ok(deltas) => match combined(groups[n - 1], groups[n - 1].len()) {
                None => Err(RotatingContactResponseError3d::ArithmeticOverflow(state[n - 1].body.id)),
                Some(delta) => Ok(deltas.push(delta)),
            },
        }
    }
}

pub open spec fn shifted(value: int, delta: int) -> Option<int> {
    if fits_i32(value + delta) {
        Some(value + delta)
    } else {
        None
    }
}

/// A body moved by a motion change, each component staying within `i32`.
pub open spec fn apply_delta(rigid_box: RigidBox3d, delta: Delta3) -> Option<RigidBox3d> {
    let p = rigid_box.body.position;
    let v = rigid_box.body.velocity;
    let w = rigid_box.angular.angular_velocity;
    let parts = seq![
        shifted(p.x as int, delta.0.0),
        shifted(p.y as int, delta.0.1),
        shifted(p.z as int, delta.0.2),
        shifted(v.x as int, delta.1.0),
        shifted(v.y as int, delta.1.1),
        shifted(v.z as int, delta.1.2),
        shifted(w.x as int, delta.2.0),
        shifted(w.y as int, delta.2.1),
        shifted(w.z as int, delta.2.2),
    ];
    if forall|i: int| 0 <= i < 9 ==> (#[trigger] parts[i]) is Some {
        Some(
            RigidBox3d {
                body: RigidBody {
                    position: Vec3i {
                        x: parts[0]->Some_0 as i32,
                        y: parts[1]->Some_0 as i32,
                        z: parts[2]->Some_0 as i32,
                    },
                    velocity: Vec3i {
                        x: parts[3]->Some_0 as i32,
                        y: parts[4]->Some_0 as i32,
                        z: parts[5]->Some_0 as i32,
                    },
                    ..rigid_box.body
                },
                angular: AngularState3d {
                    angular_velocity: AngularVelocity3d {
                        x: parts[6]->Some_0 as i32,
                        y: parts[7]->Some_0 as i32,
                        z: parts[8]->Some_0 as i32,
                    },
                    ..rigid_box.angular
                },
                ..rigid_box
            },
        )
    } else {
        None
    }
}

/// The first `n` bodies after their combined motion changes, or the first body leaving `i32`.
pub open spec fn apply_all(state: Seq<RigidBox3d>, deltas: Seq<Delta3>, n: nat) -> Result<
    Seq<RigidBox3d>,
    RotatingContactResponseError3d,
>
    decreases n,
{
    if n == 0 {
        Ok(Seq::empty())
    } else {
        match apply_all(state, deltas, (n - 1) as nat) {
            Err(error) => Err(error),
            Ok(applied) => if deltas[n - 1] == zero_delta() {
                Ok(applied.push(state[n - 1]))
            } else {
                match apply_delta(state[n - 1], deltas[n - 1]) {
                    None => Err(RotatingContactResponseError3d::ArithmeticOverflow(state[n - 1].body.id)),
                    Some(moved) => Ok(applied.push(moved)),
                }
            },
        }
    }
}

/// One solver pass from `state`: none when no body's combined motion change is non-zero,
/// otherwise the state after every body's combined change.
#[verifier::opaque]
pub open spec fn pass_step(
    state: Seq<RigidBox3d>,
    contacts: Seq<RotatingContactSearchHit3d>,
    restitution: bool,
) -> Result<Option<Seq<RigidBox3d>>, RotatingContactResponseError3d> {
    match pass_groups(state, contacts, restitution, contacts.len()) {
        Err(error) => Err(error),
        Ok(groups) => match combined_all(state, groups, state.len()) {
            Err(error) => Err(error),
            Ok(deltas) => if forall|i: int| 0 <= i < deltas.len() ==> #[trigger] deltas[i]
                == zero_delta() {
                Ok(None)
            } else {
                match apply_all(state, deltas, state.len()) {
                    Err(error) => Err(error),
                    Ok(next) => Ok(Some(next)),
                }
            },
        },
    }
}

/// Solver passes `pass..passes` from `state` (restitution only in the first): each pass averages
/// the motion changes of parallel contacts and sums those of different axes per body; the passes
/// stop early once a pass changes nothing. The final state and the number of passes that
/// changed it.
pub open spec fn run_passes(
    state: Seq<RigidBox3d>,
    contacts: Seq<RotatingContactSearchHit3d>,
    passes: nat,
    pass: nat,
) -> Result<(Seq<RigidBox3d>, nat), RotatingContactResponseError3d>
    decreases passes - pass,
{
    if pass >= passes {
        Ok((state, pass))
    } else {
        match pass_step(state, contacts, pass == 0) {
            Err(error) => Err(error),
            Ok(None) => Ok((state, pass)),
            Ok(Some(next)) => run_passes(next, contacts, passes, pass + 1),
        }
    }
}

/// The response to a frontier: the world advanced to its time, then `solver_passes` passes over
/// its contacts; the final world and the number of passes used.
pub open spec fn frontier_response(
    boxes: Seq<RigidBox3d>,
    frontier: RotatingContactFrontier3d,
    solver_passes: nat,
) -> Result<(Seq<RigidBox3d>, nat), RotatingContactResponseError3d> {
    if solver_passes == 0 {
        Err(RotatingContactResponseError3d::ZeroSolverPasses)
    } else {
        match staged_world(boxes, frontier.free_flight, frontier.time) {
            Err(error) => Err(error),
            Ok(staged) => match island_error(boxes, frontier.contacts@, frontier.contacts@.len()) {
                Some(error) => Err(error),
                None => run_passes(staged, frontier.contacts@, solver_passes, 0),
            },
        }
    }
}

/// Whether world index `w` is the index of a body in one of the first `n` contacts.
pub open spec fn in_island(
    boxes: Seq<RigidBox3d>,
    contacts: Seq<RotatingContactSearchHit3d>,
    w: int,
    n: nat,
) -> bool
    decreases n,
{
    if n == 0 {
        false
    } else {
        in_island(boxes, contacts, w, (n - 1) as nat) || body_index(boxes, contacts[n - 1].pair.left)
            == Some(w) || body_index(boxes, contacts[n - 1].pair.right) == Some(w)
    }
}

/// The contact island among the first `n` bodies, in world order.
pub open spec fn island_of(
    boxes: Seq<RigidBox3d>,
    contacts: Seq<RotatingContactSearchHit3d>,
    n: nat,
) -> Seq<RigidBox3d>
    decreases n,
{
    if n == 0 {
        Seq::empty()
    } else if in_island(boxes, contacts, n - 1, contacts.len()) {
        island_of(boxes, contacts, (n - 1) as nat).push(boxes[n - 1])
    } else {
        island_of(boxes, contacts, (n - 1) as nat)
    }
}

// ---------------------------------------------------------------------------------------------
// Executable pieces
// ---------------------------------------------------------------------------------------------

pub(crate) fn body_index_exec(boxes: &Vec<RigidBox3d>, id: BodyId) -> (found: Option<usize>)
    ensures
        match found {
            Some(i) => body_index(boxes@, id) == Some(i as int) && i < boxes@.len(),
            None => body_index(boxes@, id) is None,
        },
{
    let mut n = boxes.len();
    while n > 0
        invariant
            n <= boxes@.len(),
            body_index(boxes@, id) == last_index(boxes@, id, n as nat),
        decreases n,
    {
        if boxes[n - 1].body.id.0 == id.0 {
            return Some(n - 1);
        }
        n = n - 1;
    }
    None
}

pub(crate) proof fn lemma_last_index_bounds(boxes: Seq<RigidBox3d>, id: BodyId, n: nat)
    requires
        n <= boxes.len(),
    ensures
        last_index(boxes, id, n) matches Some(i) ==> 0 <= i < n && boxes[i].body.id == id,
    decreases n,
{
    if n > 0 {
        lemma_last_index_bounds(boxes, id, (n - 1) as nat);
    }
}

fn motion_of(target: &RigidBox3d, source: &RigidBox3d) -> (moved: RigidBox3d)
    ensures
        moved == with_motion(*target, *source),
{
    let mut moved = *target;
    moved.body.position = source.body.position;
    moved.body.velocity = source.body.velocity;
    moved.angular = AngularState3d {
        orientation: source.angular.orientation,
        angular_velocity: source.angular.angular_velocity,
    };
    moved
}

fn stage_world(boxes: &Vec<RigidBox3d>, frontier: &RotatingContactFrontier3d) -> (result: Result<
    Vec<RigidBox3d>,
    RotatingContactResponseError3d,
>)
    ensures
        match staged_world(boxes@, frontier.free_flight, frontier.time) {
            Ok(staged) => result matches Ok(v) && v@ == staged,
            Err(error) => result == Err::<Vec<RigidBox3d>, RotatingContactResponseError3d>(error),
        },
{
    let time = frontier.time;
    if time.numerator == 0 && time.denominator == 1 {
        return Ok(boxes.clone());
    }
    let mut staged: Vec<RigidBox3d> = Vec::new();
    let mut i: usize = 0;
    while i < boxes.len()
        invariant
            i <= boxes@.len(),
            time == frontier.time,
            time != SampledContactTime3d::spec_zero(),
            staged_prefix(boxes@, frontier.free_flight, time, i as nat) == Ok::<
                Seq<RigidBox3d>,
                RotatingContactResponseError3d,
            >(staged@),
        decreases boxes.len() - i,
    {
        let sampled = match crate::rigid_box_free_flight::sample_rigid_box_free_flight(
            &boxes[i],
            frontier.free_flight,
            time.numerator,
            time.denominator,
        ) {
            Ok(sampled) => sampled,
            Err(error) => {
                proof {
                    lemma_staged_error_stable(
                        boxes@,
                        frontier.free_flight,
                        time,
                        (i + 1) as nat,
                        boxes@.len(),
                    );
                }
                return Err(RotatingContactResponseError3d::FreeFlight(error));
            },
        };
        staged.push(motion_of(&boxes[i], &sampled));
        i = i + 1;
    }
    Ok(staged)
}

proof fn lemma_staged_error_stable(
    boxes: Seq<RigidBox3d>,
    free_flight: RigidBoxFreeFlightConfig3d,
    time: SampledContactTime3d,
    m: nat,
    n: nat,
)
    requires
        m <= n,
        staged_prefix(boxes, free_flight, time, m) is Err,
    ensures
        staged_prefix(boxes, free_flight, time, n) == staged_prefix(boxes, free_flight, time, m),
    decreases n - m,
{
    if m < n {
        lemma_staged_error_stable(boxes, free_flight, time, m, (n - 1) as nat);
    }
}

proof fn lemma_island_error_stable(
    boxes: Seq<RigidBox3d>,
    contacts: Seq<RotatingContactSearchHit3d>,
    m: nat,
    n: nat,
)
    requires
        m <= n,
        island_error(boxes, contacts, m) is Some,
    ensures
        island_error(boxes, contacts, n) == island_error(boxes, contacts, m),
    decreases n - m,
{
    if m < n {
        lemma_island_error_stable(boxes, contacts, m, (n - 1) as nat);
    }
}

fn check_island(boxes: &Vec<RigidBox3d>, contacts: &Vec<RotatingContactSearchHit3d>) -> (result:
    Result<(), RotatingContactResponseError3d>)
    ensures
        match island_error(boxes@, contacts@, contacts@.len()) {
            Some(error) => result == Err::<(), RotatingContactResponseError3d>(error),
            None => result is Ok,
        },
{
    let mut k: usize = 0;
    while k < contacts.len()
        invariant
            k <= contacts@.len(),
            island_error(boxes@, contacts@, k as nat) is None,
        decreases contacts.len() - k,
    {
        let pair = contacts[k].pair;
        if body_index_exec(boxes, pair.left).is_none() {
            proof {
                lemma_island_error_stable(boxes@, contacts@, (k + 1) as nat, contacts@.len());
            }
            return Err(RotatingContactResponseError3d::MissingBody(pair.left));
        }
        if body_index_exec(boxes, pair.right).is_none() {
            proof {
                lemma_island_error_stable(boxes@, contacts@, (k + 1) as nat, contacts@.len());
            }
            return Err(RotatingContactResponseError3d::MissingBody(pair.right));
        }
        k = k + 1;
    }
    Ok(())
}

/// An executable motion change.
#[derive(Clone, Copy, Debug, PartialEq, Eq)]
struct BodyDelta3d {
    position: [i128; 3],
    linear_velocity: [i128; 3],
    angular_velocity: [i128; 3],
}

/// An executable group of motion changes along one primitive contact axis.
#[derive(Clone, Copy, Debug, PartialEq, Eq)]
struct DeltaGroup3d {
    key: [i128; 3],
    sum: BodyDelta3d,
    count: u32,
}

spec fn delta_view(delta: BodyDelta3d) -> Delta3 {
    (vector_of(delta.position), vector_of(delta.linear_velocity), vector_of(delta.angular_velocity))
}

spec fn group_view(group: DeltaGroup3d) -> DeltaGroup {
    (vector_of(group.key), delta_view(group.sum), group.count as int)
}

spec fn deltas_view(deltas: Seq<BodyDelta3d>) -> Seq<Delta3> {
    deltas.map_values(|delta: BodyDelta3d| delta_view(delta))
}

spec fn groups_view(groups: Seq<DeltaGroup3d>) -> Seq<DeltaGroup> {
    groups.map_values(|group: DeltaGroup3d| group_view(group))
}

spec fn all_groups_view(groups: Seq<Vec<DeltaGroup3d>>) -> Seq<Seq<DeltaGroup>> {
    groups.map_values(|body_groups: Vec<DeltaGroup3d>| groups_view(body_groups@))
}

fn delta_between_exec(before: &RigidBox3d, after: &RigidBox3d) -> (delta: BodyDelta3d)
    ensures
        delta_view(delta) == delta_between(*before, *after),
{
    BodyDelta3d {
        position: [
            after.body.position.x as i128 - before.body.position.x as i128,
            after.body.position.y as i128 - before.body.position.y as i128,
            after.body.position.z as i128 - before.body.position.z as i128,
        ],
        linear_velocity: [
            after.body.velocity.x as i128 - before.body.velocity.x as i128,
            after.body.velocity.y as i128 - before.body.velocity.y as i128,
            after.body.velocity.z as i128 - before.body.velocity.z as i128,
        ],
        angular_velocity: [
            after.angular.angular_velocity.x as i128 - before.angular.angular_velocity.x as i128,
            after.angular.angular_velocity.y as i128 - before.angular.angular_velocity.y as i128,
            after.angular.angular_velocity.z as i128 - before.angular.angular_velocity.z as i128,
        ],
    }
}

fn is_zero_delta(delta: &BodyDelta3d) -> (zero: bool)
    ensures
        zero == (delta_view(*delta) == zero_delta()),
{
    delta.position[0] == 0 && delta.position[1] == 0 && delta.position[2] == 0
        && delta.linear_velocity[0] == 0 && delta.linear_velocity[1] == 0
        && delta.linear_velocity[2] == 0 && delta.angular_velocity[0] == 0
        && delta.angular_velocity[1] == 0 && delta.angular_velocity[2] == 0
}

/// Truncating division of any `i128` by a positive divisor.
fn reduce_wide(component: i128, divisor: i128) -> (result: i128)
    requires
        divisor >= 1,
    ensures
        result == reduce_component(component as int, divisor as int),
{
    if divisor == 1 {
        component
    } else if component < 0 {
        let q = magnitude(component) / (divisor as u128);
        proof {
            vstd::arithmetic::div_mod::lemma_div_is_ordered_by_denominator(-component, 2, divisor as int);
            vstd::arithmetic::div_mod::lemma_div_pos_is_pos(-component, 2);
        }
        -(q as i128)
    } else {
        component / divisor
    }
}

fn response_key_exec(axis: [i128; 3]) -> (key: Option<[i128; 3]>)
    ensures
        match key {
            Some(k) => response_key(vector_of(axis)) == Some(vector_of(k)),
            None => response_key(vector_of(axis)) is None,
        },
{
    let divisor = greatest_common_divisor(
        greatest_common_divisor(magnitude(axis[0]), magnitude(axis[1])),
        magnitude(axis[2]),
    );
    if divisor == 0 || divisor > i128::MAX as u128 {
        return None;
    }
    let g = divisor as i128;
    Some([reduce_wide(axis[0], g), reduce_wide(axis[1], g), reduce_wide(axis[2], g)])
}

fn checked_sum_exec(a: [i128; 3], b: [i128; 3]) -> (sum: Option<[i128; 3]>)
    ensures
        match sum {
            Some(v) => checked_sum3(vector_of(a), vector_of(b)) == Some(vector_of(v)),
            None => checked_sum3(vector_of(a), vector_of(b)) is None,
        },
{
    let x = a[0].checked_add(b[0]);
    let y = a[1].checked_add(b[1]);
    let z = a[2].checked_add(b[2]);
    match (x, y, z) {
        (Some(x), Some(y), Some(z)) => Some([x, y, z]),
        _ => None,
    }
}

fn checked_sum_delta_exec(a: &BodyDelta3d, b: &BodyDelta3d) -> (sum: Option<BodyDelta3d>)
    ensures
        match sum {
            Some(v) => checked_sum_delta(delta_view(*a), delta_view(*b)) == Some(delta_view(v)),
            None => checked_sum_delta(delta_view(*a), delta_view(*b)) is None,
        },
{
    let position = checked_sum_exec(a.position, b.position);
    let linear_velocity = checked_sum_exec(a.linear_velocity, b.linear_velocity);
    let angular_velocity = checked_sum_exec(a.angular_velocity, b.angular_velocity);
    match (position, linear_velocity, angular_velocity) {
        (Some(position), Some(linear_velocity), Some(angular_velocity)) => Some(
            BodyDelta3d { position, linear_velocity, angular_velocity },
        ),
        _ => None,
    }
}

fn key_less_exec(a: [i128; 3], b: [i128; 3]) -> (less: bool)
    ensures
        less == key_less(vector_of(a), vector_of(b)),
{
    a[0] < b[0] || (a[0] == b[0] && (a[1] < b[1] || (a[1] == b[1] && a[2] < b[2])))
}

fn same_key(a: [i128; 3], b: [i128; 3]) -> (same: bool)
    ensures
        same == (vector_of(a) == vector_of(b)),
{
    a[0] == b[0] && a[1] == b[1] && a[2] == b[2]
}

fn accumulate_exec(groups: &mut Vec<DeltaGroup3d>, key: [i128; 3], delta: BodyDelta3d) -> (ok: bool)
    ensures
        match accumulate(groups_view(old(groups)@), vector_of(key), delta_view(delta)) {
            Some(updated) => ok && groups_view(final(groups)@) == updated,
            None => !ok,
        },
{
    let ghost view = groups_view(groups@);
    let mut slot: usize = 0;
    while slot < groups.len() && key_less_exec(groups[slot].key, key)
        invariant
            slot <= groups@.len(),
            view == groups_view(groups@),
            group_slot(view, vector_of(key), 0) == group_slot(view, vector_of(key), slot as int),
        decreases groups.len() - slot,
    {
        slot = slot + 1;
    }
    assert(group_slot(view, vector_of(key), 0) == slot as int);
    if slot < groups.len() && same_key(groups[slot].key, key) {
        let current = groups[slot];
        assert(view[slot as int] == group_view(current));
        let sum = match checked_sum_delta_exec(&current.sum, &delta) {
            Some(sum) => sum,
            None => return false,
        };
        if current.count == u32::MAX {
            return false;
        }
        let updated = DeltaGroup3d { key, sum, count: current.count + 1 };
        groups.set(slot, updated);
        assert(groups_view(groups@) =~= view.update(slot as int, group_view(updated)));
        true
    } else {
        proof {
            if slot < groups@.len() {
                assert(view[slot as int].0 != vector_of(key));
            }
        }
        let added = DeltaGroup3d { key, sum: delta, count: 1 };
        groups.insert(slot, added);
        assert(groups_view(groups@) =~= view.insert(slot as int, group_view(added)));
        true
    }
}

fn contribute_exec(
    groups: &mut Vec<Vec<DeltaGroup3d>>,
    index: usize,
    axis: [i128; 3],
    delta: BodyDelta3d,
    id: BodyId,
) -> (result: Result<(), RotatingContactResponseError3d>)
    requires
        index < old(groups)@.len(),
    ensures
        final(groups)@.len() == old(groups)@.len(),
        match contribute(all_groups_view(old(groups)@), index as int, vector_of(axis), delta_view(delta), id) {
            Ok(updated) => result is Ok && all_groups_view(final(groups)@) == updated,
            Err(error) => result == Err::<(), RotatingContactResponseError3d>(error),
        },
{
    let ghost before = groups@;
    if is_zero_delta(&delta) {
        return Ok(());
    }
    let key = match response_key_exec(axis) {
        Some(key) => key,
        None => return Err(RotatingContactResponseError3d::ArithmeticOverflow(id)),
    };
    let mut body_groups = groups[index].clone();
    assert(body_groups@ == before[index as int]@);
    let ok = accumulate_exec(&mut body_groups, key, delta);
    if !ok {
        return Err(RotatingContactResponseError3d::ArithmeticOverflow(id));
    }
    groups.set(index, body_groups);
    assert(all_groups_view(groups@) =~= all_groups_view(before).update(
        index as int,
        groups_view(body_groups@),
    ));
    Ok(())
}

proof fn lemma_pass_error_stable(
    state: Seq<RigidBox3d>,
    contacts: Seq<RotatingContactSearchHit3d>,
    restitution: bool,
    m: nat,
    n: nat,
)
    requires
        m <= n,
        pass_groups(state, contacts, restitution, m) is Err,
    ensures
        pass_groups(state, contacts, restitution, n) == pass_groups(state, contacts, restitution, m),
    decreases n - m,
{
    if m < n {
        lemma_pass_error_stable(state, contacts, restitution, m, (n - 1) as nat);
    }
}

fn negate_key(axis: [i128; 3]) -> (back: Option<[i128; 3]>)
    ensures
        match back {
            Some(v) => negated(vector_of(axis)) == Some(vector_of(v)),
            None => negated(vector_of(axis)) is None,
        },
{
    if axis[0] == i128::MIN || axis[1] == i128::MIN || axis[2] == i128::MIN {
        None
    } else {
        Some([-axis[0], -axis[1], -axis[2]])
    }
}

fn contact_step_exec(
    state: &Vec<RigidBox3d>,
    hit: &RotatingContactSearchHit3d,
    restitution: bool,
    groups: &mut Vec<Vec<DeltaGroup3d>>,
) -> (result: Result<(), RotatingContactResponseError3d>)
    requires
        old(groups)@.len() == state@.len(),
    ensures
        final(groups)@.len() == state@.len(),
        match contact_step(state@, *hit, restitution, all_groups_view(old(groups)@)) {
            Ok(updated) => result is Ok && all_groups_view(final(groups)@) == updated,
            Err(error) => result == Err::<(), RotatingContactResponseError3d>(error),
        },
{
    reveal(contact_step);
    let pair = hit.pair;
    let l = match body_index_exec(state, pair.left) {
        Some(l) => l,
        None => return Err(RotatingContactResponseError3d::MissingBody(pair.left)),
    };
    let r = match body_index_exec(state, pair.right) {
        Some(r) => r,
        None => return Err(RotatingContactResponseError3d::MissingBody(pair.right)),
    };
    let response = match crate::obb_response::resolve_obb_contact(state[l], state[r], restitution) {
        Ok(response) => response,
        Err(error) => return Err(RotatingContactResponseError3d::Pair(error)),
    };
    match response.contact {
        None => Ok(()),
        Some(contact) => {
            let back = match negate_key(contact.axis) {
                Some(back) => back,
                None => return Err(RotatingContactResponseError3d::ArithmeticOverflow(pair.left)),
            };
            let left_delta = delta_between_exec(&state[l], &response.left);
            match contribute_exec(groups, l, back, left_delta, state[l].body.id) {
                Ok(()) => {},
                Err(error) => return Err(error),
            }
            let right_delta = delta_between_exec(&state[r], &response.right);
            contribute_exec(groups, r, contact.axis, right_delta, state[r].body.id)
        },
    }
}

fn pass_groups_exec(
    state: &Vec<RigidBox3d>,
    contacts: &Vec<RotatingContactSearchHit3d>,
    restitution: bool,
) -> (result: Result<Vec<Vec<DeltaGroup3d>>, RotatingContactResponseError3d>)
    ensures
        match pass_groups(state@, contacts@, restitution, contacts@.len()) {
            Ok(groups) => result matches Ok(v) && all_groups_view(v@) == groups && v@.len()
                == state@.len(),
            Err(error) => result == Err::<Vec<Vec<DeltaGroup3d>>, RotatingContactResponseError3d>(
                error,
            ),
        },
{
    let mut groups: Vec<Vec<DeltaGroup3d>> = Vec::new();
    let mut i: usize = 0;
    while i < state.len()
        invariant
            i <= state@.len(),
            groups@.len() == i,
            forall|j: int| 0 <= j < i ==> (#[trigger] groups@[j])@.len() == 0,
        decreases state.len() - i,
    {
        groups.push(Vec::new());
        i = i + 1;
    }
    assert(all_groups_view(groups@) =~= Seq::new(
        state@.len(),
        |i: int| Seq::<DeltaGroup>::empty(),
    )) by {
        assert forall|j: int| 0 <= j < state@.len() implies all_groups_view(groups@)[j]
            =~= Seq::<DeltaGroup>::empty() by {
            assert(groups@[j]@.len() == 0);
        }
    }
    let mut k: usize = 0;
    while k < contacts.len()
        invariant
            k <= contacts@.len(),
            groups@.len() == state@.len(),
            pass_groups(state@, contacts@, restitution, k as nat) == Ok::<
                Seq<Seq<DeltaGroup>>,
                RotatingContactResponseError3d,
            >(all_groups_view(groups@)),
        decreases contacts.len() - k,
    {
        match contact_step_exec(state, &contacts[k], restitution, &mut groups) {
            Ok(()) => {},
            Err(error) => {
                proof {
                    lemma_pass_error_stable(state@, contacts@, restitution, (k + 1) as nat, contacts@.len());
                }
                return Err(error);
            },
        }
        k = k + 1;
    }
    Ok(groups)
}

fn round_part(value: i128, count: u32) -> (part: Option<i128>)
    ensures
        match part {
            Some(v) => checked_round_div(value as int, count as int) == Some(v as int),
            None => checked_round_div(value as int, count as int) is None,
        },
{
    match div_round_nearest(value, count as i128) {
        Ok(v) => Some(v),
        Err(_) => None,
    }
}

fn divided_exec(sum: &BodyDelta3d, count: u32) -> (average: Option<BodyDelta3d>)
    ensures
        match average {
            Some(v) => divided(delta_view(*sum), count as int) == Some(delta_view(v)),
            None => divided(delta_view(*sum), count as int) is None,
        },
{
    let ghost parts = seq![
        checked_round_div(sum.position[0] as int, count as int),
        checked_round_div(sum.position[1] as int, count as int),
        checked_round_div(sum.position[2] as int, count as int),
        checked_round_div(sum.linear_velocity[0] as int, count as int),
        checked_round_div(sum.linear_velocity[1] as int, count as int),
        checked_round_div(sum.linear_velocity[2] as int, count as int),
        checked_round_div(sum.angular_velocity[0] as int, count as int),
        checked_round_div(sum.angular_velocity[1] as int, count as int),
        checked_round_div(sum.angular_velocity[2] as int, count as int),
    ];
    let p0 = round_part(sum.position[0], count);
    let p1 = round_part(sum.position[1], count);
    let p2 = round_part(sum.position[2], count);
    let v0 = round_part(sum.linear_velocity[0], count);
    let v1 = round_part(sum.linear_velocity[1], count);
    let v2 = round_part(sum.linear_velocity[2], count);
    let w0 = round_part(sum.angular_velocity[0], count);
    let w1 = round_part(sum.angular_velocity[1], count);
    let w2 = round_part(sum.angular_velocity[2], count);
    assert(parts[0] == checked_round_div(sum.position[0] as int, count as int));
    match (p0, p1, p2, v0, v1, v2, w0, w1, w2) {
        (Some(p0), Some(p1), Some(p2), Some(v0), Some(v1), Some(v2), Some(w0), Some(w1), Some(w2)) => {
            assert(forall|i: int| 0 <= i < 9 ==> (#[trigger] parts[i]) is Some);
            Some(
                BodyDelta3d {
                    position: [p0, p1, p2],
                    linear_velocity: [v0, v1, v2],
                    angular_velocity: [w0, w1, w2],
                },
            )
        },
        _ => {
            assert(!(parts[0] is Some && parts[1] is Some && parts[2] is Some && parts[3] is Some
                && parts[4] is Some && parts[5] is Some && parts[6] is Some && parts[7] is Some
                && parts[8] is Some));
            None
        },
    }
}

fn combined_exec(groups: &Vec<DeltaGroup3d>) -> (total: Option<BodyDelta3d>)
    ensures
        match combined(groups_view(groups@), groups@.len()) {
            Some(delta) => total matches Some(v) && delta_view(v) == delta,
            None => total is None,
        },
{
    let ghost view = groups_view(groups@);
    let mut total = BodyDelta3d {
        position: [0, 0, 0],
        linear_velocity: [0, 0, 0],
        angular_velocity: [0, 0, 0],
    };
    let mut i: usize = 0;
    while i < groups.len()
        invariant
            i <= groups@.len(),
            view == groups_view(groups@),
            combined(view, i as nat) == Some(delta_view(total)),
        decreases groups.len() - i,
    {
        let group = groups[i];
        assert(view[i as int] == group_view(group));
        let average = match divided_exec(&group.sum, group.count) {
            Some(average) => average,
            None => {
                proof {
                    lemma_combined_none_stable(view, (i + 1) as nat, groups@.len());
                }
                return None;
            },
        };
        total = match checked_sum_delta_exec(&total, &average) {
            Some(sum) => sum,
            None => {
                proof {
                    lemma_combined_none_stable(view, (i + 1) as nat, groups@.len());
                }
                return None;
            },
        };
        i = i + 1;
    }
    Some(total)
}

proof fn lemma_combined_none_stable(groups: Seq<DeltaGroup>, m: nat, n: nat)
    requires
        m <= n,
        combined(groups, m) is None,
    ensures
        combined(groups, n) is None,
    decreases n - m,
{
    if m < n {
        lemma_combined_none_stable(groups, m, (n - 1) as nat);
    }
}

proof fn lemma_combined_all_error_stable(
    state: Seq<RigidBox3d>,
    groups: Seq<Seq<DeltaGroup>>,
    m: nat,
    n: nat,
)
    requires
        m <= n,
        combined_all(state, groups, m) is Err,
    ensures
        combined_all(state, groups, n) == combined_all(state, groups, m),
    decreases n - m,
{
    if m < n {
        lemma_combined_all_error_stable(state, groups, m, (n - 1) as nat);
    }
}

fn combined_all_exec(state: &Vec<RigidBox3d>, groups: &Vec<Vec<DeltaGroup3d>>) -> (result: Result<
    Vec<BodyDelta3d>,
    RotatingContactResponseError3d,
>)
    requires
        groups@.len() == state@.len(),
    ensures
        match combined_all(state@, all_groups_view(groups@), state@.len()) {
            Ok(deltas) => result matches Ok(v) && deltas_view(v@) == deltas && v@.len()
                == state@.len(),
            Err(error) => result == Err::<Vec<BodyDelta3d>, RotatingContactResponseError3d>(error),
        },
{
    let ghost view = all_groups_view(groups@);
    let mut deltas: Vec<BodyDelta3d> = Vec::new();
    assert(deltas_view(deltas@) =~= Seq::<Delta3>::empty());
    let mut i: usize = 0;
    while i < state.len()
        invariant
            i <= state@.len(),
            groups@.len() == state@.len(),
            view == all_groups_view(groups@),
            deltas@.len() == i,
            combined_all(state@, view, i as nat) == Ok::<
                Seq<Delta3>,
                RotatingContactResponseError3d,
            >(deltas_view(deltas@)),
        decreases state.len() - i,
    {
        assert(view[i as int] == groups_view(groups@[i as int]@));
        match combined_exec(&groups[i]) {
            Some(delta) => {
                let ghost before = deltas@;
                deltas.push(delta);
                assert(deltas_view(deltas@) =~= deltas_view(before).push(delta_view(delta)));
            },
            None => {
                proof {
                    lemma_combined_all_error_stable(state@, view, (i + 1) as nat, state@.len());
                }
                return Err(RotatingContactResponseError3d::ArithmeticOverflow(state[i].body.id));
            },
        }
        i = i + 1;
    }
    Ok(deltas)
}

fn shift_exec(value: i32, delta: i128) -> (result: Option<i32>)
    ensures
        match result {
            Some(v) => shifted(value as int, delta as int) == Some(v as int),
            None => shifted(value as int, delta as int) is None,
        },
{
    match (value as i128).checked_add(delta) {
        Some(sum) => if sum < i32::MIN as i128 || sum > i32::MAX as i128 {
            None
        } else {
            Some(sum as i32)
        },
        None => None,
    }
}

fn apply_delta_exec(rigid_box: &RigidBox3d, delta: &BodyDelta3d) -> (moved: Option<RigidBox3d>)
    ensures
        match moved {
            Some(v) => apply_delta(*rigid_box, delta_view(*delta)) == Some(v),
            None => apply_delta(*rigid_box, delta_view(*delta)) is None,
        },
{
    let p = rigid_box.body.position;
    let v = rigid_box.body.velocity;
    let w = rigid_box.angular.angular_velocity;
    let ghost parts = seq![
        shifted(p.x as int, delta.position[0] as int),
        shifted(p.y as int, delta.position[1] as int),
        shifted(p.z as int, delta.position[2] as int),
        shifted(v.x as int, delta.linear_velocity[0] as int),
        shifted(v.y as int, delta.linear_velocity[1] as int),
        shifted(v.z as int, delta.linear_velocity[2] as int),
        shifted(w.x as int, delta.angular_velocity[0] as int),
        shifted(w.y as int, delta.angular_velocity[1] as int),
        shifted(w.z as int, delta.angular_velocity[2] as int),
    ];
    let px = shift_exec(p.x, delta.position[0]);
    let py = shift_exec(p.y, delta.position[1]);
    let pz = shift_exec(p.z, delta.position[2]);
    let vx = shift_exec(v.x, delta.linear_velocity[0]);
    let vy = shift_exec(v.y, delta.linear_velocity[1]);
    let vz = shift_exec(v.z, delta.linear_velocity[2]);
    let wx = shift_exec(w.x, delta.angular_velocity[0]);
    let wy = shift_exec(w.y, delta.angular_velocity[1]);
    let wz = shift_exec(w.z, delta.angular_velocity[2]);
    assert(parts[0] == shifted(p.x as int, delta.position[0] as int));
    match (px, py, pz, vx, vy, vz, wx, wy, wz) {
        (Some(px), Some(py), Some(pz), Some(vx), Some(vy), Some(vz), Some(wx), Some(wy), Some(wz)) => {
            assert(forall|i: int| 0 <= i < 9 ==> (#[trigger] parts[i]) is Some);
            let mut moved = *rigid_box;
            moved.body.position = Vec3i { x: px, y: py, z: pz };
            moved.body.velocity = Vec3i { x: vx, y: vy, z: vz };
            moved.angular.angular_velocity = AngularVelocity3d { x: wx, y: wy, z: wz };
            Some(moved)
        },
        _ => {
            assert(!(parts[0] is Some && parts[1] is Some && parts[2] is Some && parts[3] is Some
                && parts[4] is Some && parts[5] is Some && parts[6] is Some && parts[7] is Some
                && parts[8] is Some));
            None
        },
    }
}

proof fn lemma_apply_all_error_stable(
    state: Seq<RigidBox3d>,
    deltas: Seq<Delta3>,
    m: nat,
    n: nat,
)
    requires
        m <= n,
        apply_all(state, deltas, m) is Err,
    ensures
        apply_all(state, deltas, n) == apply_all(state, deltas, m),
    decreases n - m,
{
    if m < n {
        lemma_apply_all_error_stable(state, deltas, m, (n - 1) as nat);
    }
}

fn apply_all_exec(state: &Vec<RigidBox3d>, deltas: &Vec<BodyDelta3d>) -> (result: Result<
    Vec<RigidBox3d>,
    RotatingContactResponseError3d,
>)
    requires
        deltas@.len() == state@.len(),
    ensures
        match apply_all(state@, deltas_view(deltas@), state@.len()) {
            Ok(applied) => result matches Ok(v) && v@ == applied,
            Err(error) => result == Err::<Vec<RigidBox3d>, RotatingContactResponseError3d>(error),
        },
{
    let ghost view = deltas_view(deltas@);
    let mut applied: Vec<RigidBox3d> = Vec::new();
    let mut i: usize = 0;
    while i < state.len()
        invariant
            i <= state@.len(),
            deltas@.len() == state@.len(),
            view == deltas_view(deltas@),
            apply_all(state@, view, i as nat) == Ok::<
                Seq<RigidBox3d>,
                RotatingContactResponseError3d,
            >(applied@),
        decreases state.len() - i,
    {
        assert(view[i as int] == delta_view(deltas@[i as int]));
        if is_zero_delta(&deltas[i]) {
            applied.push(state[i]);
        } else {
            match apply_delta_exec(&state[i], &deltas[i]) {
                Some(moved) => applied.push(moved),
                None => {
                    proof {
                        lemma_apply_all_error_stable(state@, view, (i + 1) as nat, state@.len());
                    }
                    return Err(RotatingContactResponseError3d::ArithmeticOverflow(state[i].body.id));
                },
            }
        }
        i = i + 1;
    }
    Ok(applied)
}

fn all_zero_exec(deltas: &Vec<BodyDelta3d>) -> (zero: bool)
    ensures
        zero == forall|i: int|
            0 <= i < deltas@.len() ==> #[trigger] deltas_view(deltas@)[i] == zero_delta(),
{
    let mut i: usize = 0;
    while i < deltas.len()
        invariant
            i <= deltas@.len(),
            forall|j: int|
                0 <= j < i ==> #[trigger] deltas_view(deltas@)[j]
                    == zero_delta(),
        decreases deltas.len() - i,
    {
        if !is_zero_delta(&deltas[i]) {
            assert(deltas_view(deltas@)[i as int] != zero_delta());
            return false;
        }
        i = i + 1;
    }
    true
}

fn pass_step_exec(
    state: &Vec<RigidBox3d>,
    contacts: &Vec<RotatingContactSearchHit3d>,
    restitution: bool,
) -> (result: Result<Option<Vec<RigidBox3d>>, RotatingContactResponseError3d>)
    ensures
        match pass_step(state@, contacts@, restitution) {
            Ok(None) => result matches Ok(None::<Vec<RigidBox3d>>),
            Ok(Some(next)) => result matches Ok(Some(v)) && v@ == next,
            Err(error) => result == Err::<Option<Vec<RigidBox3d>>, RotatingContactResponseError3d>(
                error,
            ),
        },
{
    reveal(pass_step);
    let groups = match pass_groups_exec(state, contacts, restitution) {
        Ok(groups) => groups,
        Err(error) => return Err(error),
    };
    let deltas = match combined_all_exec(state, &groups) {
        Ok(deltas) => deltas,
        Err(error) => return Err(error),
    };
    if all_zero_exec(&deltas) {
        return Ok(None);
    }
    match apply_all_exec(state, &deltas) {
        Ok(next) => Ok(Some(next)),
        Err(error) => Err(error),
    }
}

fn run_passes_exec(
    start: Vec<RigidBox3d>,
    contacts: &Vec<RotatingContactSearchHit3d>,
    passes: u8,
) -> (result: Result<(Vec<RigidBox3d>, u8), RotatingContactResponseError3d>)
    ensures
        match run_passes(start@, contacts@, passes as nat, 0) {
            Ok((world, used)) => result matches Ok((v, u)) && v@ == world && u == used,
            Err(error) => result == Err::<(Vec<RigidBox3d>, u8), RotatingContactResponseError3d>(
                error,
            ),
        },
{
    let ghost initial = start@;
    let mut state = start;
    let mut pass: u8 = 0;
    while pass < passes
        invariant
            pass <= passes,
            initial == start@,
            run_passes(state@, contacts@, passes as nat, pass as nat) == run_passes(
                initial,
                contacts@,
                passes as nat,
                0,
            ),
        decreases passes - pass,
    {
        let ghost current = state@;
        assert(run_passes(current, contacts@, passes as nat, pass as nat) == match pass_step(
            current,
            contacts@,
            pass == 0,
        ) {
            Err(error) => Err(error),
            Ok(None) => Ok((current, pass as nat)),
            Ok(Some(next)) => run_passes(next, contacts@, passes as nat, pass as nat + 1),
        });
        match pass_step_exec(&state, contacts, pass == 0) {
            Err(error) => return Err(error),
            Ok(None) => return Ok((state, pass)),
            Ok(Some(next)) => {
                state = next;
            },
        }
        pass = pass + 1;
    }
    Ok((state, pass))
}

fn in_island_exec(world: &Vec<RigidBox3d>, contacts: &Vec<RotatingContactSearchHit3d>, w: usize) -> (inside:
    bool)
    ensures
        inside == in_island(world@, contacts@, w as int, contacts@.len()),
{
    let mut k: usize = 0;
    let mut inside = false;
    while k < contacts.len()
        invariant
            k <= contacts@.len(),
            inside == in_island(world@, contacts@, w as int, k as nat),
        decreases contacts.len() - k,
    {
        let pair = contacts[k].pair;
        let left = body_index_exec(world, pair.left);
        let right = body_index_exec(world, pair.right);
        let touches_left = match left {
            Some(l) => l == w,
            None => false,
        };
        let touches_right = match right {
            Some(r) => r == w,
            None => false,
        };
        inside = inside || touches_left || touches_right;
        k = k + 1;
    }
    inside
}

fn island_exec(world: &Vec<RigidBox3d>, contacts: &Vec<RotatingContactSearchHit3d>) -> (island: Vec<
    RigidBox3d,
>)
    ensures
        island@ == island_of(world@, contacts@, world@.len()),
{
    let mut island: Vec<RigidBox3d> = Vec::new();
    let mut w: usize = 0;
    while w < world.len()
        invariant
            w <= world@.len(),
            island@ == island_of(world@, contacts@, w as nat),
        decreases world.len() - w,
    {
        if in_island_exec(world, contacts, w) {
            island.push(world[w]);
        }
        w = w + 1;
    }
    island
}

/// Resolves a rotating-contact frontier in place, reusing `scratch`.
///
/// Every body is first advanced in free flight from the interval start to the frontier time
/// (a frontier at time zero leaves them in place). The frontier's contacts then receive up to
/// `solver_passes` passes, restitution only in the first: in each pass every contact is resolved
/// by the normal OBB response against the state at the start of the pass; a body's motion changes
/// are averaged over contacts sharing one primitive contact axis and summed over different axes,
/// so a wall split into parallel pieces does not double its impulse, and no pair order decides
/// the outcome. Passes stop once one changes nothing. On failure the bodies are left untouched.
pub fn resolve_rotating_contact_frontier_with_scratch(
    boxes: &mut Vec<RigidBox3d>,
    frontier: &RotatingContactFrontier3d,
    solver_passes: u8,
    scratch: &mut RotatingContactResponseScratch3d,
) -> (result: Result<RotatingContactResponse3d, RotatingContactResponseError3d>)
    ensures
        match frontier_response(old(boxes)@, *frontier, solver_passes as nat) {
            Err(error) => {
                &&& result == Err::<RotatingContactResponse3d, RotatingContactResponseError3d>(error)
                &&& final(boxes)@ == old(boxes)@
                &&& final(scratch).island@ == old(scratch).island@
            },
            Ok((world, used)) => {
                &&& final(boxes)@ == world
                &&& result matches Ok(response)
                &&& response.time == frontier.time
                &&& response.contacts@ == frontier.contacts@
                &&& response.remaining_numerator == frontier.remaining_numerator
                &&& response.passes_used == used
                &&& final(scratch).island@ == island_of(world, frontier.contacts@, world.len())
            },
        },
{
    if solver_passes == 0 {
        return Err(RotatingContactResponseError3d::ZeroSolverPasses);
    }
    let staged = match stage_world(boxes, frontier) {
        Ok(staged) => staged,
        Err(error) => return Err(error),
    };
    match check_island(boxes, &frontier.contacts) {
        Ok(()) => {},
        Err(error) => return Err(error),
    }
    let (world, passes_used) = match run_passes_exec(staged, &frontier.contacts, solver_passes) {
        Ok(outcome) => outcome,
        Err(error) => return Err(error),
    };
    scratch.island = island_exec(&world, &frontier.contacts);
    *boxes = world;
    Ok(
        RotatingContactResponse3d {
            time: frontier.time,
            contacts: frontier.contacts.clone(),
            remaining_numerator: frontier.remaining_numerator,
            passes_used,
        },
    )
}

/// Resolves a rotating-contact frontier in place with fresh scratch storage; see
/// [`resolve_rotating_contact_frontier_with_scratch`].
pub fn resolve_rotating_contact_frontier(
    boxes: &mut Vec<RigidBox3d>,
    frontier: &RotatingContactFrontier3d,
    solver_passes: u8,
) -> (result: Result<RotatingContactResponse3d, RotatingContactResponseError3d>)
    ensures
        match frontier_response(old(boxes)@, *frontier, solver_passes as nat) {
            Err(error) => result == Err::<RotatingContactResponse3d, RotatingContactResponseError3d>(
                error,
            ) && final(boxes)@ == old(boxes)@,
            Ok((world, used)) => {
                &&& final(boxes)@ == world
                &&& result matches Ok(response)
                &&& response.time == frontier.time
                &&& response.contacts@ == frontier.contacts@
                &&& response.remaining_numerator == frontier.remaining_numerator
                &&& response.passes_used == used
            },
        },
{
    let mut scratch = RotatingContactResponseScratch3d::default();
    resolve_rotating_contact_frontier_with_scratch(boxes, frontier, solver_passes, &mut scratch)
}

// ---------------------------------------------------------------------------------------------
// Activity: which bodies a response moved
// ---------------------------------------------------------------------------------------------

/// Per body of `state`, whether its combined motion change in one pass is non-zero.
pub open spec fn pass_activity(
    state: Seq<RigidBox3d>,
    contacts: Seq<RotatingContactSearchHit3d>,
    restitution: bool,
) -> Seq<bool> {
    match pass_groups(state, contacts, restitution, contacts.len()) {
        Ok(groups) => match combined_all(state, groups, state.len()) {
            Ok(deltas) => Seq::new(state.len(), |i: int| deltas[i] != zero_delta()),
            Err(_) => Seq::new(state.len(), |i: int| false),
        },
        Err(_) => Seq::new(state.len(), |i: int| false),
    }
}

/// No body moved yet, over `n` bodies.
pub open spec fn no_activity(n: nat) -> Seq<bool> {
    Seq::new(n, |i: int| false)
}

/// Elementwise disjunction, over the length of `a`.
pub open spec fn either(a: Seq<bool>, b: Seq<bool>) -> Seq<bool> {
    Seq::new(a.len(), |i: int| a[i] || b[i])
}

/// `active` together with every body moved by a pass of [`run_passes`] from `pass` on.
pub open spec fn run_activity(
    state: Seq<RigidBox3d>,
    contacts: Seq<RotatingContactSearchHit3d>,
    passes: nat,
    pass: nat,
    active: Seq<bool>,
) -> Seq<bool>
    decreases passes - pass,
{
    if pass >= passes {
        active
    } else {
        match pass_step(state, contacts, pass == 0) {
            Ok(Some(next)) => run_activity(
                next,
                contacts,
                passes,
                pass + 1,
                either(active, pass_activity(state, contacts, pass == 0)),
            ),
            _ => active,
        }
    }
}

/// Per world index, whether some solver pass of [`frontier_response`] changed that body's motion.
pub open spec fn frontier_activity(
    boxes: Seq<RigidBox3d>,
    frontier: RotatingContactFrontier3d,
    solver_passes: nat,
) -> Seq<bool> {
    match staged_world(boxes, frontier.free_flight, frontier.time) {
        Ok(staged) => run_activity(
            staged,
            frontier.contacts@,
            solver_passes,
            0,
            no_activity(staged.len()),
        ),
        Err(_) => Seq::empty(),
    }
}

proof fn lemma_apply_all_len(state: Seq<RigidBox3d>, deltas: Seq<Delta3>, n: nat)
    ensures
        apply_all(state, deltas, n) matches Ok(applied) ==> applied.len() == n,
    decreases n,
{
    if n > 0 {
        lemma_apply_all_len(state, deltas, (n - 1) as nat);
    }
}

fn pass_step_with_activity(
    state: &Vec<RigidBox3d>,
    contacts: &Vec<RotatingContactSearchHit3d>,
    restitution: bool,
) -> (result: Result<(Option<Vec<RigidBox3d>>, Vec<bool>), RotatingContactResponseError3d>)
    ensures
        match pass_step(state@, contacts@, restitution) {
            Ok(None) => result matches Ok((None::<Vec<RigidBox3d>>, _)),
            Ok(Some(next)) => result matches Ok((Some(v), moved)) && v@ == next && next.len()
                == state@.len() && moved@ == pass_activity(state@, contacts@, restitution),
            Err(error) => result == Err::<
                (Option<Vec<RigidBox3d>>, Vec<bool>),
                RotatingContactResponseError3d,
            >(error),
        },
{
    reveal(pass_step);
    let groups = match pass_groups_exec(state, contacts, restitution) {
        Ok(groups) => groups,
        Err(error) => return Err(error),
    };
    let deltas = match combined_all_exec(state, &groups) {
        Ok(deltas) => deltas,
        Err(error) => return Err(error),
    };
    if all_zero_exec(&deltas) {
        return Ok((None, Vec::new()));
    }
    let mut moved: Vec<bool> = Vec::new();
    let mut i: usize = 0;
    while i < deltas.len()
        invariant
            i <= deltas@.len(),
            moved@.len() == i,
            forall|j: int| 0 <= j < i ==> moved@[j] == (deltas_view(deltas@)[j] != zero_delta()),
        decreases deltas.len() - i,
    {
        moved.push(!is_zero_delta(&deltas[i]));
        i = i + 1;
    }
    proof {
        assert(moved@ =~= pass_activity(state@, contacts@, restitution));
        lemma_apply_all_len(state@, deltas_view(deltas@), state@.len());
    }
    match apply_all_exec(state, &deltas) {
        Ok(next) => Ok((Some(next), moved)),
        Err(error) => Err(error),
    }
}

fn run_passes_with_activity(
    start: Vec<RigidBox3d>,
    contacts: &Vec<RotatingContactSearchHit3d>,
    passes: u8,
) -> (result: Result<(Vec<RigidBox3d>, u8, Vec<bool>), RotatingContactResponseError3d>)
    ensures
        match run_passes(start@, contacts@, passes as nat, 0) {
            Ok((world, used)) => result matches Ok((v, u, moved)) && v@ == world && u == used
                && moved@ == run_activity(
                start@,
                contacts@,
                passes as nat,
                0,
                no_activity(start@.len()),
            ),
            Err(error) => result == Err::<
                (Vec<RigidBox3d>, u8, Vec<bool>),
                RotatingContactResponseError3d,
            >(error),
        },
{
    let ghost initial = start@;
    let ghost none = no_activity(start@.len());
    let mut moved: Vec<bool> = Vec::new();
    let mut k: usize = 0;
    while k < start.len()
        invariant
            k <= start@.len(),
            moved@.len() == k,
            forall|j: int| 0 <= j < k ==> !moved@[j],
        decreases start.len() - k,
    {
        moved.push(false);
        k = k + 1;
    }
    assert(moved@ =~= none);
    let mut state = start;
    let mut pass: u8 = 0;
    while pass < passes
        invariant
            pass <= passes,
            initial == start@,
            none == no_activity(initial.len()),
            state@.len() == moved@.len(),
            run_passes(state@, contacts@, passes as nat, pass as nat) == run_passes(
                initial,
                contacts@,
                passes as nat,
                0,
            ),
            run_activity(state@, contacts@, passes as nat, pass as nat, moved@) == run_activity(
                initial,
                contacts@,
                passes as nat,
                0,
                none,
            ),
        decreases passes - pass,
    {
        let ghost current = state@;
        let ghost active = moved@;
        assert(run_passes(current, contacts@, passes as nat, pass as nat) == match pass_step(
            current,
            contacts@,
            pass == 0,
        ) {
            Err(error) => Err(error),
            Ok(None) => Ok((current, pass as nat)),
            Ok(Some(next)) => run_passes(next, contacts@, passes as nat, pass as nat + 1),
        });
        assert(run_activity(current, contacts@, passes as nat, pass as nat, active) == match pass_step(
            current,
            contacts@,
            pass == 0,
        ) {
            Ok(Some(next)) => run_activity(
                next,
                contacts@,
                passes as nat,
                pass as nat + 1,
                either(active, pass_activity(current, contacts@, pass == 0)),
            ),
            _ => active,
        });
        match pass_step_with_activity(&state, contacts, pass == 0) {
            Err(error) => return Err(error),
            Ok((None, _)) => {
                assert(pass_step(current, contacts@, pass == 0) matches Ok(None));
                return Ok((state, pass, moved));
            },
            Ok((Some(next), step_moved)) => {
                let mut combined: Vec<bool> = Vec::new();
                let mut i: usize = 0;
                while i < moved.len()
                    invariant
                        i <= moved@.len(),
                        moved@ == active,
                        step_moved@.len() == active.len(),
                        combined@.len() == i,
                        forall|j: int| 0 <= j < i ==> combined@[j] == (active[j] || step_moved@[j]),
                    decreases moved.len() - i,
                {
                    let flag = moved[i] || step_moved[i];
                    combined.push(flag);
                    assert(combined@[i as int] == (active[i as int] || step_moved@[i as int]));
                    i = i + 1;
                }
                assert(combined@ =~= either(active, step_moved@));
                moved = combined;
                state = next;
            },
        }
        pass = pass + 1;
    }
    Ok((state, pass, moved))
}

/// Resolves a frontier in place like [`resolve_rotating_contact_frontier`] and also reports, per
/// world index, whether some solver pass changed that body's motion.
pub(crate) fn resolve_rotating_contact_frontier_with_activity(
    boxes: &mut Vec<RigidBox3d>,
    frontier: &RotatingContactFrontier3d,
    solver_passes: u8,
) -> (result: Result<(RotatingContactResponse3d, Vec<bool>), RotatingContactResponseError3d>)
    ensures
        match frontier_response(old(boxes)@, *frontier, solver_passes as nat) {
            Err(error) => result == Err::<
                (RotatingContactResponse3d, Vec<bool>),
                RotatingContactResponseError3d,
            >(error) && final(boxes)@ == old(boxes)@,
            Ok((world, used)) => {
                &&& final(boxes)@ == world
                &&& result matches Ok((response, moved))
                &&& response.time == frontier.time
                &&& response.contacts@ == frontier.contacts@
                &&& response.remaining_numerator == frontier.remaining_numerator
                &&& response.passes_used == used
                &&& moved@ == frontier_activity(old(boxes)@, *frontier, solver_passes as nat)
            },
        },
{
    if solver_passes == 0 {
        return Err(RotatingContactResponseError3d::ZeroSolverPasses);
    }
    let staged = match stage_world(boxes, frontier) {
        Ok(staged) => staged,
        Err(error) => return Err(error),
    };
    match check_island(boxes, &frontier.contacts) {
        Ok(()) => {},
        Err(error) => return Err(error),
    }
    let (world, passes_used, moved) = match run_passes_with_activity(
        staged,
        &frontier.contacts,
        solver_passes,
    ) {
        Ok(outcome) => outcome,
        Err(error) => return Err(error),
    };
    *boxes = world;
    Ok(
        (
            RotatingContactResponse3d {
                time: frontier.time,
                contacts: frontier.contacts.clone(),
                remaining_numerator: frontier.remaining_numerator,
                passes_used,
            },
            moved,
        ),
    )
}

// ---------------------------------------------------------------------------------------------
// Laws
// ---------------------------------------------------------------------------------------------

/// The normal response leaves a fixed body exactly as it was.
proof fn lemma_normal_response_keeps_fixed(left: RigidBox3d, right: RigidBox3d, restitution: bool)
    ensures
        normal_response(left, right, restitution) matches Ok(response) ==> {
            &&& left.body.kind == BodyKind::Fixed ==> response.left == left
            &&& right.body.kind == BodyKind::Fixed ==> response.right == right
        },
{
    if pair_validation_error(left, right) is None {
        match contact_of(left.spec_oriented_box(), right.spec_oriented_box()) {
            Ok(Some(seed)) => lemma_fixed_body_and_lock_laws(left, right, restitution, seed),
            _ => {},
        }
    }
}

/// A contact records no motion change for a fixed body, and keeps one group list per body.
proof fn lemma_contact_step_skips_fixed(
    state: Seq<RigidBox3d>,
    hit: RotatingContactSearchHit3d,
    restitution: bool,
    groups: Seq<Seq<DeltaGroup>>,
    i: int,
)
    requires
        groups.len() == state.len(),
    ensures
        contact_step(state, hit, restitution, groups) matches Ok(updated) ==> {
            &&& updated.len() == groups.len()
            &&& 0 <= i < state.len() && state[i].body.kind == BodyKind::Fixed ==> updated[i]
                == groups[i]
        },
{
    reveal(contact_step);
    let pair = hit.pair;
    lemma_last_index_bounds(state, pair.left, state.len());
    lemma_last_index_bounds(state, pair.right, state.len());
    let l = body_index(state, pair.left);
    let r = body_index(state, pair.right);
    if l is Some && r is Some {
        let li = l->Some_0;
        let ri = r->Some_0;
        lemma_normal_response_keeps_fixed(state[li], state[ri], restitution);
    }
}

/// No solver pass records a motion change for a fixed body.
proof fn lemma_pass_groups_skip_fixed(
    state: Seq<RigidBox3d>,
    contacts: Seq<RotatingContactSearchHit3d>,
    restitution: bool,
    n: nat,
    i: int,
)
    requires
        0 <= i < state.len(),
        state[i].body.kind == BodyKind::Fixed,
    ensures
        pass_groups(state, contacts, restitution, n) matches Ok(groups) ==> groups.len()
            == state.len() && groups[i].len() == 0,
    decreases n,
{
    if n > 0 {
        lemma_pass_groups_skip_fixed(state, contacts, restitution, (n - 1) as nat, i);
        match pass_groups(state, contacts, restitution, (n - 1) as nat) {
            Ok(groups) => lemma_contact_step_skips_fixed(state, contacts[n - 1], restitution, groups, i),
            Err(_) => {},
        }
    }
}

/// A body without motion changes has a zero combined change, and the combined changes cover
/// every body.
proof fn lemma_combined_all_shape(
    state: Seq<RigidBox3d>,
    groups: Seq<Seq<DeltaGroup>>,
    n: nat,
    i: int,
)
    requires
        n <= groups.len(),
    ensures
        combined_all(state, groups, n) matches Ok(deltas) ==> deltas.len() == n && (0 <= i < n
            && groups[i].len() == 0 ==> deltas[i] == zero_delta()),
    decreases n,
{
    if n > 0 {
        lemma_combined_all_shape(state, groups, (n - 1) as nat, i);
    }
}

/// Applying combined changes keeps every body whose change is zero.
proof fn lemma_apply_all_shape(state: Seq<RigidBox3d>, deltas: Seq<Delta3>, n: nat, i: int)
    requires
        n <= state.len(),
        n <= deltas.len(),
    ensures
        apply_all(state, deltas, n) matches Ok(next) ==> next.len() == n && (0 <= i < n
            && deltas[i] == zero_delta() ==> next[i] == state[i]),
    decreases n,
{
    if n > 0 {
        lemma_apply_all_shape(state, deltas, (n - 1) as nat, i);
    }
}

proof fn lemma_pass_step_keeps_fixed(
    state: Seq<RigidBox3d>,
    contacts: Seq<RotatingContactSearchHit3d>,
    restitution: bool,
    i: int,
)
    requires
        0 <= i < state.len(),
        state[i].body.kind == BodyKind::Fixed,
    ensures
        pass_step(state, contacts, restitution) matches Ok(Some(next)) ==> next.len()
            == state.len() && next[i] == state[i],
{
    reveal(pass_step);
    lemma_pass_groups_skip_fixed(state, contacts, restitution, contacts.len(), i);
    match pass_groups(state, contacts, restitution, contacts.len()) {
        Ok(groups) => {
            lemma_combined_all_shape(state, groups, state.len(), i);
            match combined_all(state, groups, state.len()) {
                Ok(deltas) => lemma_apply_all_shape(state, deltas, state.len(), i),
                Err(_) => {},
            }
        },
        Err(_) => {},
    }
}

proof fn lemma_pass_step_length(
    state: Seq<RigidBox3d>,
    contacts: Seq<RotatingContactSearchHit3d>,
    restitution: bool,
)
    ensures
        pass_step(state, contacts, restitution) matches Ok(Some(next)) ==> next.len()
            == state.len(),
{
    reveal(pass_step);
    lemma_pass_groups_length(state, contacts, restitution, contacts.len());
    match pass_groups(state, contacts, restitution, contacts.len()) {
        Ok(groups) => {
            lemma_combined_all_shape(state, groups, state.len(), 0);
            match combined_all(state, groups, state.len()) {
                Ok(deltas) => lemma_apply_all_shape(state, deltas, state.len(), 0),
                Err(_) => {},
            }
        },
        Err(_) => {},
    }
}

proof fn lemma_pass_groups_length(
    state: Seq<RigidBox3d>,
    contacts: Seq<RotatingContactSearchHit3d>,
    restitution: bool,
    n: nat,
)
    ensures
        pass_groups(state, contacts, restitution, n) matches Ok(groups) ==> groups.len()
            == state.len(),
    decreases n,
{
    if n > 0 {
        lemma_pass_groups_length(state, contacts, restitution, (n - 1) as nat);
        match pass_groups(state, contacts, restitution, (n - 1) as nat) {
            Ok(groups) => lemma_contact_step_skips_fixed(state, contacts[n - 1], restitution, groups, 0),
            Err(_) => {},
        }
    }
}

proof fn lemma_run_passes_keeps_fixed(
    state: Seq<RigidBox3d>,
    contacts: Seq<RotatingContactSearchHit3d>,
    passes: nat,
    pass: nat,
)
    requires
        pass <= passes,
    ensures
        run_passes(state, contacts, passes, pass) matches Ok((world, used)) ==> {
            &&& world.len() == state.len()
            &&& pass <= used <= passes
            &&& forall|i: int|
                0 <= i < state.len() && (#[trigger] state[i]).body.kind == BodyKind::Fixed
                    ==> world[i] == state[i]
        },
    decreases passes - pass,
{
    if pass < passes {
        match pass_step(state, contacts, pass == 0) {
            Ok(Some(next)) => {
                lemma_pass_step_length(state, contacts, pass == 0);
                lemma_run_passes_keeps_fixed(next, contacts, passes, pass + 1);
                assert forall|i: int|
                    0 <= i < state.len() && (#[trigger] state[i]).body.kind == BodyKind::Fixed
                        implies next[i] == state[i] by {
                    lemma_pass_step_keeps_fixed(state, contacts, pass == 0, i);
                }
            },
            _ => {},
        }
    }
}

proof fn lemma_staged_keeps_fixed(
    boxes: Seq<RigidBox3d>,
    free_flight: RigidBoxFreeFlightConfig3d,
    time: SampledContactTime3d,
    n: nat,
)
    requires
        n <= boxes.len(),
    ensures
        staged_prefix(boxes, free_flight, time, n) matches Ok(staged) ==> {
            &&& staged.len() == n
            &&& forall|i: int|
                0 <= i < n && (#[trigger] boxes[i]).body.kind == BodyKind::Fixed ==> staged[i]
                    == boxes[i]
        },
    decreases n,
{
    if n > 0 {
        lemma_staged_keeps_fixed(boxes, free_flight, time, (n - 1) as nat);
    }
}

/// A frontier response keeps the number of bodies, uses at most the requested passes, and
/// leaves every fixed body exactly as it was.
pub proof fn lemma_response_keeps_fixed_bodies(
    boxes: Seq<RigidBox3d>,
    frontier: RotatingContactFrontier3d,
    solver_passes: nat,
)
    ensures
        frontier_response(boxes, frontier, solver_passes) matches Ok((world, used)) ==> {
            &&& world.len() == boxes.len()
            &&& used <= solver_passes
            &&& forall|i: int|
                0 <= i < boxes.len() && (#[trigger] boxes[i]).body.kind == BodyKind::Fixed
                    ==> world[i] == boxes[i]
        },
{
    if solver_passes > 0 {
        lemma_staged_keeps_fixed(boxes, frontier.free_flight, frontier.time, boxes.len());
        match staged_world(boxes, frontier.free_flight, frontier.time) {
            Ok(staged) => {
                lemma_run_passes_keeps_fixed(staged, frontier.contacts@, solver_passes, 0);
                assert forall|i: int|
                    0 <= i < boxes.len() && (#[trigger] boxes[i]).body.kind == BodyKind::Fixed
                        implies staged[i] == boxes[i] && staged[i].body.kind == BodyKind::Fixed by {
                }
            },
            Err(_) => {},
        }
    }
}

} // verus!
