//! Consumption of the interval left after the sampled events: free flight in slices short enough
//! that bodies in persistent contact cannot pass through each other, each slice followed by the
//! response to the contacts it ends in.
use vstd::prelude::*;

use crate::angular::ANGULAR_VELOCITY_SCALE;
use crate::body::{BodyId, BodyKind};
use crate::math::Vec3i;
use crate::repeated_rotating_events::{respond, respond_exec, zero_flight, zero_flight_exec};
use crate::rigid_box::RigidBox3d;
use crate::rigid_box_free_flight::{
    RigidBoxFreeFlightConfig3d, RigidBoxFreeFlightError3d, abs, ceil_div,
    conservative_axis_displacement, conservative_displacement, sample_rigid_box_free_flight,
    sampled_box,
};
use crate::rotating_broad_phase::{
    RotatingBroadPhaseError3d, RotationalSweepPair3d, broad_phase_error, is_candidate_pair,
    lemma_no_duplicates, lemma_sorted_sequences_equal, rotational_sweep_candidate_pairs,
    strictly_sorted,
};
use crate::rotating_contact_frontier::{
    RotatingContactFrontierError3d, contacts_over_pairs, frontier_contacts,
};
use crate::rotating_contact_response::{body_index, body_index_exec};
use crate::rotating_contact_search::{
    RotatingContactSearchHit3d, SampledContactTime3d, candidate_sequence, distinct_ids,
};
use crate::rotating_world::RotatingWorldError3d;

verus! {

/// The most slices the interval left after the events may be cut into.
pub const MAX_PERSISTENT_TAIL_SLICES: u32 = 1024;

/// Work of one tail: contacts resolved in the accepted slicing, slices tried, and replays.
#[derive(Clone, Copy, Debug, PartialEq, Eq, Structural)]
pub struct TailStepStats3d {
    pub contacts: usize,
    pub slices: u64,
    pub replays: u64,
}

pub open spec fn sat_usize(count: int, amount: int) -> usize {
    if count + amount > usize::MAX {
        usize::MAX
    } else {
        (count + amount) as usize
    }
}

pub open spec fn sat_u64(count: int, amount: int) -> u64 {
    if count + amount > u64::MAX {
        u64::MAX
    } else {
        (count + amount) as u64
    }
}

/// A broad-phase failure as a world failure.
pub open spec fn world_broad_phase_error(error: RotatingBroadPhaseError3d) -> RotatingWorldError3d {
    match error {
        RotatingBroadPhaseError3d::DuplicateBodyId(id) => RotatingWorldError3d::DuplicateBody(id),
        RotatingBroadPhaseError3d::IncrementalQueryUnsynchronized(id) => RotatingWorldError3d::MissingBody(id),
        RotatingBroadPhaseError3d::FreeFlight(error) => RotatingWorldError3d::FreeFlight(error),
    }
}

/// Whether the body with `id` is dynamic and so receives a response.
pub open spec fn receives_response(world: Seq<RigidBox3d>, id: BodyId) -> bool {
    match body_index(world, id) {
        Some(index) => 0 <= index < world.len() && world[index].body.kind == BodyKind::Dynamic,
        None => false,
    }
}

/// The first `n` pairs of which at least one body receives a response, in order.
pub open spec fn response_pairs(world: Seq<RigidBox3d>, pairs: Seq<RotationalSweepPair3d>, n: nat) -> Seq<
    RotationalSweepPair3d,
>
    decreases n,
{
    if n == 0 {
        Seq::empty()
    } else if receives_response(world, pairs[n - 1].left) || receives_response(world, pairs[n - 1].right) {
        response_pairs(world, pairs, (n - 1) as nat).push(pairs[n - 1])
    } else {
        response_pairs(world, pairs, (n - 1) as nat)
    }
}

/// The current contacts that can move a dynamic body, as hits at time zero, or the failure.
pub open spec fn tail_contacts(world: Seq<RigidBox3d>) -> Result<Seq<RotatingContactSearchHit3d>, RotatingWorldError3d> {
    match broad_phase_error(world, zero_flight(), world.len()) {
        Some(error) => Err(world_broad_phase_error(error)),
        None => {
            let all = candidate_sequence(world, zero_flight());
            let pairs = response_pairs(world, all, all.len());
            match frontier_contacts(world, pairs, SampledContactTime3d::spec_zero(), pairs.len()) {
                Ok(contacts) => Ok(contacts),
                Err(RotatingContactFrontierError3d::Geometry(error)) => Err(RotatingWorldError3d::Contact(error)),
                Err(RotatingContactFrontierError3d::MissingBody(id)) => Err(RotatingWorldError3d::MissingBody(id)),
                Err(_) => Err(RotatingWorldError3d::MissingBody(BodyId(0))),
            }
        },
    }
}

/// The interval `remaining` cut into `slices` equal slices, or the resolution limit.
pub open spec fn tail_slice(remaining: RigidBoxFreeFlightConfig3d, slices: u32) -> Result<
    RigidBoxFreeFlightConfig3d,
    RotatingWorldError3d,
> {
    if slices == 0 {
        Err(RotatingWorldError3d::PersistentTailResolutionLimit(MAX_PERSISTENT_TAIL_SLICES))
    } else {
        match remaining.scaled_config(1, slices) {
            Ok(slice) => Ok(slice),
            Err(_) => Err(RotatingWorldError3d::PersistentTailResolutionLimit(MAX_PERSISTENT_TAIL_SLICES)),
        }
    }
}

pub open spec fn max3(a: int, b: int, c: int) -> int {
    if a >= b && a >= c {
        a
    } else if b >= c {
        b
    } else {
        c
    }
}

pub open spec fn min3(a: int, b: int, c: int) -> int {
    if a <= b && a <= c {
        a
    } else if b <= c {
        b
    } else {
        c
    }
}

/// An upper bound on how far any point of `rigid_box` moves within the timestep `n / d`: the
/// largest axis travel plus the rotation of its corner radius.
pub open spec fn tail_motion(rigid_box: RigidBox3d, gravity: Vec3i, n: int, d: int) -> int {
    let velocity = rigid_box.body.velocity;
    let half = rigid_box.body.half_extents;
    let omega = rigid_box.angular.angular_velocity;
    let translation = max3(
        conservative_displacement(velocity.x as int, gravity.x as int, n, d),
        conservative_displacement(velocity.y as int, gravity.y as int, n, d),
        conservative_displacement(velocity.z as int, gravity.z as int, n, d),
    );
    let speed = if rigid_box.rotation_locked {
        0
    } else {
        abs(omega.x as int) + abs(omega.y as int) + abs(omega.z as int)
    };
    let radius = abs(half.x as int) + abs(half.y as int) + abs(half.z as int);
    translation + ceil_div(ceil_div(n * (radius * speed), d), ANGULAR_VELOCITY_SCALE as int)
}

/// Whether `rigid_box` moves less than twice its smallest half extent within one slice.
pub open spec fn motion_within_extent(rigid_box: RigidBox3d, slice: RigidBoxFreeFlightConfig3d) -> Result<
    bool,
    RotatingWorldError3d,
> {
    if rigid_box.body.kind == BodyKind::Fixed || (slice.timestep_error() is None
        && slice.spec_timestep_numerator() == 0) {
        Ok(true)
    } else {
        match slice.timestep_error() {
            Some(_) => Err(RotatingWorldError3d::PersistentTailArithmeticOverflow(rigid_box.body.id)),
            None => {
                let half = rigid_box.body.half_extents;
                Ok(
                    tail_motion(
                        rigid_box,
                        slice.spec_gravity(),
                        slice.spec_timestep_numerator(),
                        slice.spec_timestep_denominator(),
                    ) <= 2 * abs(min3(half.x as int, half.y as int, half.z as int)),
                )
            },
        }
    }
}

/// Whether a contact holds the body `id`.
pub open spec fn in_contacts(contacts: Seq<RotatingContactSearchHit3d>, id: BodyId) -> bool {
    exists|k: int| 0 <= k < contacts.len() && (#[trigger] contacts[k]).pair.left == id
        || 0 <= k < contacts.len() && contacts[k].pair.right == id
}

/// The first of the first `n` bodies in contact that could move too far within one slice.
pub open spec fn first_unsafe(
    world: Seq<RigidBox3d>,
    slice: RigidBoxFreeFlightConfig3d,
    contacts: Seq<RotatingContactSearchHit3d>,
    n: nat,
) -> Result<Option<BodyId>, RotatingWorldError3d>
    decreases n,
{
    if n == 0 {
        Ok(None)
    } else {
        match first_unsafe(world, slice, contacts, (n - 1) as nat) {
            Err(error) => Err(error),
            Ok(Some(id)) => Ok(Some(id)),
            Ok(None) => {
                let rigid_box = world[n - 1];
                if !in_contacts(contacts, rigid_box.body.id) {
                    Ok(None)
                } else {
                    match motion_within_extent(rigid_box, slice) {
                        Err(error) => Err(error),
                        Ok(true) => Ok(None),
                        Ok(false) => Ok(Some(rigid_box.body.id)),
                    }
                }
            },
        }
    }
}

/// The fewest slices, from `slices` on, with which no body in contact moves too far.
pub open spec fn safe_slice_count(
    world: Seq<RigidBox3d>,
    remaining: RigidBoxFreeFlightConfig3d,
    contacts: Seq<RotatingContactSearchHit3d>,
    slices: nat,
) -> Result<u32, RotatingWorldError3d>
    decreases MAX_PERSISTENT_TAIL_SLICES + 1 - slices,
{
    if slices > MAX_PERSISTENT_TAIL_SLICES {
        Err(RotatingWorldError3d::PersistentTailResolutionLimit(MAX_PERSISTENT_TAIL_SLICES))
    } else {
        match tail_slice(remaining, slices as u32) {
            Err(_) => safe_slice_count(world, remaining, contacts, slices + 1),
            Ok(slice) => match first_unsafe(world, slice, contacts, world.len()) {
                Err(error) => Err(error),
                Ok(None) => Ok(slices as u32),
                Ok(Some(_)) => safe_slice_count(world, remaining, contacts, slices + 1),
            },
        }
    }
}

/// The fewest slices, from `slices` on, that cut `remaining` exactly.
pub open spec fn representable_slice_count(remaining: RigidBoxFreeFlightConfig3d, slices: nat) -> Result<
    u32,
    RotatingWorldError3d,
>
    decreases MAX_PERSISTENT_TAIL_SLICES + 1 - slices,
{
    if slices > MAX_PERSISTENT_TAIL_SLICES {
        Err(RotatingWorldError3d::PersistentTailResolutionLimit(MAX_PERSISTENT_TAIL_SLICES))
    } else {
        match tail_slice(remaining, slices as u32) {
            Err(_) => representable_slice_count(remaining, slices + 1),
            Ok(_) => Ok(slices as u32),
        }
    }
}

/// The first `n` bodies after free flight over `slice`; fixed bodies stay.
pub open spec fn flown(world: Seq<RigidBox3d>, slice: RigidBoxFreeFlightConfig3d, n: nat) -> Result<
    Seq<RigidBox3d>,
    RigidBoxFreeFlightError3d,
>
    decreases n,
{
    if n == 0 {
        Ok(Seq::empty())
    } else {
        match flown(world, slice, (n - 1) as nat) {
            Err(error) => Err(error),
            Ok(done) => if world[n - 1].body.kind == BodyKind::Fixed {
                Ok(done.push(world[n - 1]))
            } else {
                match sampled_box(world[n - 1], slice, 1, 1) {
                    Err(error) => Err(error),
                    Ok(moved) => Ok(done.push(moved)),
                }
            },
        }
    }
}

/// One slice: free flight, then the response to the contacts it ends in; the bodies and the
/// number of contacts resolved.
pub open spec fn slice_step(world: Seq<RigidBox3d>, slice: RigidBoxFreeFlightConfig3d, passes: nat) -> Result<
    (Seq<RigidBox3d>, nat),
    RotatingWorldError3d,
> {
    match flown(world, slice, world.len()) {
        Err(error) => Err(RotatingWorldError3d::FreeFlight(error)),
        Ok(advanced) => match tail_contacts(advanced) {
            Err(error) => Err(error),
            Ok(contacts) => if contacts.len() == 0 {
                Ok((advanced, 0))
            } else {
                match respond(advanced, contacts, passes) {
                    Err(error) => Err(RotatingWorldError3d::Response(error)),
                    Ok((settled, _, _)) => Ok((settled, contacts.len())),
                }
            },
        },
    }
}

/// Up to `left` slices from `world`, each after checking that no body in contact can move too
/// far; the bodies, the contacts resolved, the slices counted, and the body found unsafe, if any.
pub open spec fn run_slices(
    world: Seq<RigidBox3d>,
    slice: RigidBoxFreeFlightConfig3d,
    passes: nat,
    left: nat,
    contacts: usize,
    slices: u64,
) -> Result<(Seq<RigidBox3d>, usize, u64, Option<BodyId>), RotatingWorldError3d>
    decreases left,
{
    if left == 0 {
        Ok((world, contacts, slices, None))
    } else {
        let counted = sat_u64(slices as int, 1);
        match tail_contacts(world) {
            Err(error) => Err(error),
            Ok(current) => match first_unsafe(world, slice, current, world.len()) {
                Err(error) => Err(error),
                Ok(Some(id)) => Ok((world, contacts, counted, Some(id))),
                Ok(None) => match slice_step(world, slice, passes) {
                    Err(error) => Err(error),
                    Ok((next, resolved)) => run_slices(
                        next,
                        slice,
                        passes,
                        (left - 1) as nat,
                        sat_usize(contacts as int, resolved as int),
                        counted,
                    ),
                },
            },
        }
    }
}

/// Attempts from `slice_count` slices on, each from the tail's start: an attempt in which a body
/// turns out unsafe is replayed with at least twice the slices (at most the limit); at most
/// `fuel` attempts.
pub open spec fn tail_attempts(
    start: Seq<RigidBox3d>,
    remaining: RigidBoxFreeFlightConfig3d,
    passes: nat,
    slice_count: u32,
    slices: u64,
    replays: u64,
    fuel: nat,
) -> Result<(Seq<RigidBox3d>, TailStepStats3d), RotatingWorldError3d>
    decreases fuel,
{
    if fuel == 0 {
        Err(RotatingWorldError3d::PersistentTailResolutionLimit(MAX_PERSISTENT_TAIL_SLICES))
    } else {
        match tail_slice(remaining, slice_count) {
            Err(error) => Err(error),
            Ok(slice) => match run_slices(start, slice, passes, slice_count as nat, 0, slices) {
                Err(error) => Err(error),
                Ok((world, contacts, counted, None)) => Ok(
                    (world, TailStepStats3d { contacts, slices: counted, replays }),
                ),
                Ok((_, _, counted, Some(id))) => {
                    let replayed = sat_u64(replays as int, 1);
                    let target = if 2 * slice_count > MAX_PERSISTENT_TAIL_SLICES {
                        MAX_PERSISTENT_TAIL_SLICES as int
                    } else {
                        2 * slice_count
                    };
                    if target <= slice_count {
                        Err(RotatingWorldError3d::PersistentTailMotionUnsafe(id))
                    } else {
                        match representable_slice_count(remaining, target as nat) {
                            Err(error) => Err(error),
                            Ok(next) => tail_attempts(
                                start,
                                remaining,
                                passes,
                                next,
                                counted,
                                replayed,
                                (fuel - 1) as nat,
                            ),
                        }
                    }
                },
            },
        }
    }
}

/// The tail: with no current contact, one free flight over `remaining` and its response;
/// otherwise the fewest safe slices, replayed with more slices when a body turns unsafe.
pub open spec fn consumed_tail(
    world: Seq<RigidBox3d>,
    remaining: RigidBoxFreeFlightConfig3d,
    passes: nat,
) -> Result<(Seq<RigidBox3d>, TailStepStats3d), RotatingWorldError3d> {
    match tail_contacts(world) {
        Err(error) => Err(error),
        Ok(initial) => if initial.len() == 0 {
            match slice_step(world, remaining, passes) {
                Err(error) => Err(error),
                Ok((settled, resolved)) => Ok(
                    (settled, TailStepStats3d { contacts: sat_usize(0, resolved as int), slices: 0, replays: 0 }),
                ),
            }
        } else {
            match safe_slice_count(world, remaining, initial, 1) {
                Err(error) => Err(error),
                Ok(count) => tail_attempts(
                    world,
                    remaining,
                    passes,
                    count,
                    0,
                    0,
                    MAX_PERSISTENT_TAIL_SLICES as nat,
                ),
            }
        },
    }
}


// ---------------------------------------------------------------------------------------------
// Executable pieces
// ---------------------------------------------------------------------------------------------

fn sat_usize_exec(count: usize, amount: usize) -> (sum: usize)
    ensures
        sum == sat_usize(count as int, amount as int),
{
    if count > usize::MAX - amount {
        usize::MAX
    } else {
        count + amount
    }
}

fn sat_u64_exec(count: u64, amount: u64) -> (sum: u64)
    ensures
        sum == sat_u64(count as int, amount as int),
{
    if count > u64::MAX - amount {
        u64::MAX
    } else {
        count + amount
    }
}

fn receives_response_exec(world: &Vec<RigidBox3d>, id: BodyId) -> (receives: bool)
    ensures
        receives == receives_response(world@, id),
{
    match body_index_exec(world, id) {
        Some(index) => world[index].body.kind == BodyKind::Dynamic,
        None => false,
    }
}

/// The current contacts that can move a dynamic body.
pub(crate) fn tail_contacts_exec(world: &Vec<RigidBox3d>) -> (result: Result<
    Vec<RotatingContactSearchHit3d>,
    RotatingWorldError3d,
>)
    ensures
        match tail_contacts(world@) {
            Err(error) => result == Err::<Vec<RotatingContactSearchHit3d>, RotatingWorldError3d>(error),
            Ok(contacts) => result is Ok && result->Ok_0@ == contacts,
        },
{
    let zero = zero_flight_exec();
    let all = match rotational_sweep_candidate_pairs(world.as_slice(), zero) {
        Ok(pairs) => pairs,
        Err(error) => return Err(
            match error {
                RotatingBroadPhaseError3d::DuplicateBodyId(id) => RotatingWorldError3d::DuplicateBody(id),
                RotatingBroadPhaseError3d::IncrementalQueryUnsynchronized(id) => RotatingWorldError3d::MissingBody(id),
                RotatingBroadPhaseError3d::FreeFlight(error) => RotatingWorldError3d::FreeFlight(error),
            },
        ),
    };
    let ghost sequence = candidate_sequence(world@, zero);
    proof {
        assert(strictly_sorted(sequence) && forall|pair: RotationalSweepPair3d|
            sequence.contains(pair) <==> is_candidate_pair(world@, zero, pair));
        lemma_sorted_sequences_equal(all@, sequence);
        lemma_no_duplicates(world@, zero, world@.len());
        assert(distinct_ids(world@));
    }
    let mut pairs: Vec<RotationalSweepPair3d> = Vec::new();
    let mut i: usize = 0;
    while i < all.len()
        invariant
            i <= all@.len(),
            pairs@ == response_pairs(world@, all@, i as nat),
        decreases all.len() - i,
    {
        let pair = all[i];
        if receives_response_exec(world, pair.left) || receives_response_exec(world, pair.right) {
            pairs.push(pair);
        }
        i = i + 1;
    }
    match contacts_over_pairs(world.as_slice(), &pairs, SampledContactTime3d::zero()) {
        Ok(contacts) => Ok(contacts),
        Err(RotatingContactFrontierError3d::Geometry(error)) => Err(RotatingWorldError3d::Contact(error)),
        Err(RotatingContactFrontierError3d::MissingBody(id)) => Err(RotatingWorldError3d::MissingBody(id)),
        Err(_) => Err(RotatingWorldError3d::MissingBody(BodyId(0))),
    }
}

fn tail_slice_exec(remaining: RigidBoxFreeFlightConfig3d, slices: u32) -> (result: Result<
    RigidBoxFreeFlightConfig3d,
    RotatingWorldError3d,
>)
    ensures
        result == tail_slice(remaining, slices),
{
    if slices == 0 {
        return Err(RotatingWorldError3d::PersistentTailResolutionLimit(MAX_PERSISTENT_TAIL_SLICES));
    }
    match remaining.scaled_fraction(1, slices) {
        Ok(slice) => Ok(slice),
        Err(_) => Err(RotatingWorldError3d::PersistentTailResolutionLimit(MAX_PERSISTENT_TAIL_SLICES)),
    }
}

fn magnitude(value: i32) -> (result: u128)
    ensures
        result == abs(value as int),
        result <= 0x8000_0000,
{
    if value < 0 {
        (-(value as i64)) as u128
    } else {
        value as u128
    }
}

fn motion_within_extent_exec(rigid_box: &RigidBox3d, slice: RigidBoxFreeFlightConfig3d) -> (result: Result<
    bool,
    RotatingWorldError3d,
>)
    ensures
        result == motion_within_extent(*rigid_box, slice),
{
    if rigid_box.body.kind == BodyKind::Fixed || slice.timestep_is_zero() {
        return Ok(true);
    }
    let (n, d) = match slice.exact_timestep() {
        Ok(timestep) => timestep,
        Err(_) => return Err(RotatingWorldError3d::PersistentTailArithmeticOverflow(rigid_box.body.id)),
    };
    let velocity = rigid_box.body.velocity;
    let gravity = slice.gravity();
    let half = rigid_box.body.half_extents;
    let omega = rigid_box.angular.angular_velocity;
    let tx = conservative_axis_displacement(velocity.x, gravity.x, n, d);
    let ty = conservative_axis_displacement(velocity.y, gravity.y, n, d);
    let tz = conservative_axis_displacement(velocity.z, gravity.z, n, d);
    let translation = if tx >= ty && tx >= tz {
        tx
    } else if ty >= tz {
        ty
    } else {
        tz
    };
    let speed: u128 = if rigid_box.rotation_locked {
        0
    } else {
        magnitude(omega.x) + magnitude(omega.y) + magnitude(omega.z)
    };
    let radius: u128 = magnitude(half.x) + magnitude(half.y) + magnitude(half.z);
    proof {
        assert(radius * speed <= 0x1_8000_0000 * 0x1_8000_0000) by (nonlinear_arith)
            requires
                radius <= 0x1_8000_0000,
                speed <= 0x1_8000_0000,
        ;
        assert(n * (radius * speed) <= 0x8000_0000 * (0x1_8000_0000 * 0x1_8000_0000)) by (
        nonlinear_arith)
            requires
                n <= 0x8000_0000,
                radius * speed <= 0x1_8000_0000 * 0x1_8000_0000,
                radius * speed >= 0,
        ;
    }
    let spin = n as u128 * (radius * speed);
    let spun = (spin + d as u128 - 1) / d as u128;
    proof {
        assert((spin + d - 1) / (d as int) <= spin + d - 1) by (nonlinear_arith)
            requires
                d >= 1,
                spin + d - 1 >= 0,
        ;
    }
    let angular = (spun + 65535) / 65536;
    let smallest = if half.x <= half.y && half.x <= half.z {
        half.x
    } else if half.y <= half.z {
        half.y
    } else {
        half.z
    };
    let budget = 2 * magnitude(smallest);
    Ok(translation <= budget && angular <= budget - translation)
}


fn in_contacts_exec(contacts: &Vec<RotatingContactSearchHit3d>, id: BodyId) -> (found: bool)
    ensures
        found == in_contacts(contacts@, id),
{
    let mut k: usize = 0;
    while k < contacts.len()
        invariant
            k <= contacts@.len(),
            forall|j: int| 0 <= j < k ==> (#[trigger] contacts@[j]).pair.left != id && contacts@[j].pair.right != id,
        decreases contacts.len() - k,
    {
        if contacts[k].pair.left.0 == id.0 || contacts[k].pair.right.0 == id.0 {
            assert(contacts@[k as int].pair.left == id || contacts@[k as int].pair.right == id);
            return true;
        }
        k = k + 1;
    }
    false
}

fn first_unsafe_exec(
    world: &Vec<RigidBox3d>,
    slice: RigidBoxFreeFlightConfig3d,
    contacts: &Vec<RotatingContactSearchHit3d>,
) -> (result: Result<Option<BodyId>, RotatingWorldError3d>)
    ensures
        result == first_unsafe(world@, slice, contacts@, world@.len()),
{
    let mut i: usize = 0;
    while i < world.len()
        invariant
            i <= world@.len(),
            first_unsafe(world@, slice, contacts@, i as nat) == Ok::<
                Option<BodyId>,
                RotatingWorldError3d,
            >(None),
        decreases world.len() - i,
    {
        let id = world[i].body.id;
        if in_contacts_exec(contacts, id) {
            match motion_within_extent_exec(&world[i], slice) {
                Err(error) => {
                    proof {
                        lemma_first_unsafe_stable(world@, slice, contacts@, (i + 1) as nat, world@.len());
                    }
                    return Err(error);
                },
                Ok(true) => {},
                Ok(false) => {
                    proof {
                        lemma_first_unsafe_stable(world@, slice, contacts@, (i + 1) as nat, world@.len());
                    }
                    return Ok(Some(id));
                },
            }
        }
        i = i + 1;
    }
    Ok(None)
}

proof fn lemma_first_unsafe_stable(
    world: Seq<RigidBox3d>,
    slice: RigidBoxFreeFlightConfig3d,
    contacts: Seq<RotatingContactSearchHit3d>,
    m: nat,
    n: nat,
)
    requires
        m <= n,
        !(first_unsafe(world, slice, contacts, m) matches Ok(None)),
    ensures
        first_unsafe(world, slice, contacts, n) == first_unsafe(world, slice, contacts, m),
    decreases n - m,
{
    if m < n {
        lemma_first_unsafe_stable(world, slice, contacts, m, (n - 1) as nat);
    }
}

fn safe_slice_count_exec(
    world: &Vec<RigidBox3d>,
    remaining: RigidBoxFreeFlightConfig3d,
    contacts: &Vec<RotatingContactSearchHit3d>,
) -> (result: Result<u32, RotatingWorldError3d>)
    ensures
        result == safe_slice_count(world@, remaining, contacts@, 1),
{
    let mut slices: u32 = 1;
    while slices <= MAX_PERSISTENT_TAIL_SLICES
        invariant
            1 <= slices <= MAX_PERSISTENT_TAIL_SLICES + 1,
            safe_slice_count(world@, remaining, contacts@, slices as nat) == safe_slice_count(
                world@,
                remaining,
                contacts@,
                1,
            ),
        decreases MAX_PERSISTENT_TAIL_SLICES + 1 - slices,
    {
        match tail_slice_exec(remaining, slices) {
            Err(_) => {},
            Ok(slice) => match first_unsafe_exec(world, slice, contacts) {
                Err(error) => return Err(error),
                Ok(None) => return Ok(slices),
                Ok(Some(_)) => {},
            },
        }
        slices = slices + 1;
    }
    Err(RotatingWorldError3d::PersistentTailResolutionLimit(MAX_PERSISTENT_TAIL_SLICES))
}

fn representable_slice_count_exec(remaining: RigidBoxFreeFlightConfig3d, minimum: u32) -> (result:
    Result<u32, RotatingWorldError3d>)
    ensures
        result == representable_slice_count(remaining, minimum as nat),
{
    if minimum > MAX_PERSISTENT_TAIL_SLICES {
        return Err(RotatingWorldError3d::PersistentTailResolutionLimit(MAX_PERSISTENT_TAIL_SLICES));
    }
    let mut slices: u32 = minimum;
    while slices <= MAX_PERSISTENT_TAIL_SLICES
        invariant
            minimum <= slices <= MAX_PERSISTENT_TAIL_SLICES + 1,
            representable_slice_count(remaining, slices as nat) == representable_slice_count(
                remaining,
                minimum as nat,
            ),
        decreases MAX_PERSISTENT_TAIL_SLICES + 1 - slices,
    {
        match tail_slice_exec(remaining, slices) {
            Err(_) => {},
            Ok(_) => return Ok(slices),
        }
        slices = slices + 1;
    }
    Err(RotatingWorldError3d::PersistentTailResolutionLimit(MAX_PERSISTENT_TAIL_SLICES))
}

proof fn lemma_flown_error_stable(world: Seq<RigidBox3d>, slice: RigidBoxFreeFlightConfig3d, m: nat, n: nat)
    requires
        m <= n,
        flown(world, slice, m) is Err,
    ensures
        flown(world, slice, n) == flown(world, slice, m),
    decreases n - m,
{
    if m < n {
        lemma_flown_error_stable(world, slice, m, (n - 1) as nat);
    }
}

fn flown_exec(world: &Vec<RigidBox3d>, slice: RigidBoxFreeFlightConfig3d) -> (result: Result<
    Vec<RigidBox3d>,
    RigidBoxFreeFlightError3d,
>)
    ensures
        match flown(world@, slice, world@.len()) {
            Err(error) => result == Err::<Vec<RigidBox3d>, RigidBoxFreeFlightError3d>(error),
            Ok(advanced) => result is Ok && result->Ok_0@ == advanced,
        },
{
    let mut advanced: Vec<RigidBox3d> = Vec::new();
    let mut i: usize = 0;
    while i < world.len()
        invariant
            i <= world@.len(),
            flown(world@, slice, i as nat) == Ok::<Seq<RigidBox3d>, RigidBoxFreeFlightError3d>(advanced@),
        decreases world.len() - i,
    {
        if world[i].body.kind == BodyKind::Fixed {
            advanced.push(world[i]);
        } else {
            match sample_rigid_box_free_flight(&world[i], slice, 1, 1) {
                Ok(moved) => advanced.push(moved),
                Err(error) => {
                    proof {
                        lemma_flown_error_stable(world@, slice, (i + 1) as nat, world@.len());
                    }
                    return Err(error);
                },
            }
        }
        i = i + 1;
    }
    Ok(advanced)
}

fn slice_step_exec(world: &Vec<RigidBox3d>, slice: RigidBoxFreeFlightConfig3d, passes: u8) -> (result:
    Result<(Vec<RigidBox3d>, usize), RotatingWorldError3d>)
    ensures
        match slice_step(world@, slice, passes as nat) {
            Err(error) => result == Err::<(Vec<RigidBox3d>, usize), RotatingWorldError3d>(error),
            Ok((settled, resolved)) => result matches Ok((v, r)) && v@ == settled && r == resolved,
        },
{
    let mut advanced = match flown_exec(world, slice) {
        Ok(advanced) => advanced,
        Err(error) => return Err(RotatingWorldError3d::FreeFlight(error)),
    };
    let contacts = match tail_contacts_exec(&advanced) {
        Ok(contacts) => contacts,
        Err(error) => return Err(error),
    };
    let resolved = contacts.len();
    if resolved == 0 {
        return Ok((advanced, 0));
    }
    match respond_exec(&mut advanced, contacts, passes) {
        Ok(_) => Ok((advanced, resolved)),
        Err(error) => Err(RotatingWorldError3d::Response(error)),
    }
}


fn run_slices_exec(
    start: Vec<RigidBox3d>,
    slice: RigidBoxFreeFlightConfig3d,
    passes: u8,
    count: u32,
    slices: u64,
) -> (result: Result<(Vec<RigidBox3d>, usize, u64, Option<BodyId>), RotatingWorldError3d>)
    ensures
        match run_slices(start@, slice, passes as nat, count as nat, 0, slices) {
            Err(error) => result == Err::<
                (Vec<RigidBox3d>, usize, u64, Option<BodyId>),
                RotatingWorldError3d,
            >(error),
            Ok((world, contacts, counted, unsafe_body)) => result matches Ok((v, c, k, u)) && v@
                == world && c == contacts && k == counted && u == unsafe_body,
        },
{
    let ghost expected = run_slices(start@, slice, passes as nat, count as nat, 0, slices);
    let mut world = start;
    let mut contacts: usize = 0;
    let mut counted = slices;
    let mut left = count;
    while left > 0
        invariant
            expected == run_slices(start@, slice, passes as nat, count as nat, 0, slices),
            expected == run_slices(world@, slice, passes as nat, left as nat, contacts, counted),
        decreases left,
    {
        counted = sat_u64_exec(counted, 1);
        let current = match tail_contacts_exec(&world) {
            Ok(current) => current,
            Err(error) => return Err(error),
        };
        match first_unsafe_exec(&world, slice, &current) {
            Err(error) => return Err(error),
            Ok(Some(id)) => return Ok((world, contacts, counted, Some(id))),
            Ok(None) => {},
        }
        let (next, resolved) = match slice_step_exec(&world, slice, passes) {
            Ok(outcome) => outcome,
            Err(error) => return Err(error),
        };
        world = next;
        contacts = sat_usize_exec(contacts, resolved);
        left = left - 1;
    }
    Ok((world, contacts, counted, None))
}

/// Consumes the interval `remaining` after the events; see [`consumed_tail`].
#[verifier::rlimit(40)]
pub(crate) fn consume_tail(world: Vec<RigidBox3d>, remaining: RigidBoxFreeFlightConfig3d, passes: u8) -> (result:
    Result<(Vec<RigidBox3d>, TailStepStats3d), RotatingWorldError3d>)
    ensures
        match consumed_tail(world@, remaining, passes as nat) {
            Err(error) => result == Err::<(Vec<RigidBox3d>, TailStepStats3d), RotatingWorldError3d>(error),
            Ok((settled, stats)) => result matches Ok((v, s)) && v@ == settled && s == stats,
        },
{
    let initial = match tail_contacts_exec(&world) {
        Ok(initial) => initial,
        Err(error) => return Err(error),
    };
    if initial.len() == 0 {
        let (settled, resolved) = match slice_step_exec(&world, remaining, passes) {
            Ok(outcome) => outcome,
            Err(error) => return Err(error),
        };
        return Ok((settled, TailStepStats3d { contacts: sat_usize_exec(0, resolved), slices: 0, replays: 0 }));
    }
    let mut slice_count = match safe_slice_count_exec(&world, remaining, &initial) {
        Ok(count) => count,
        Err(error) => return Err(error),
    };
    let ghost expected = tail_attempts(world@, remaining, passes as nat, slice_count, 0, 0, MAX_PERSISTENT_TAIL_SLICES as nat);
    let mut slices: u64 = 0;
    let mut replays: u64 = 0;
    let mut fuel: u32 = MAX_PERSISTENT_TAIL_SLICES;
    while fuel > 0
        invariant
            consumed_tail(world@, remaining, passes as nat) == expected,
            expected == tail_attempts(world@, remaining, passes as nat, slice_count, slices, replays, fuel as nat),
        decreases fuel,
    {
        let slice = match tail_slice_exec(remaining, slice_count) {
            Ok(slice) => slice,
            Err(error) => return Err(error),
        };
        let (attempt, contacts, counted, unsafe_body) = match run_slices_exec(
            world.clone(),
            slice,
            passes,
            slice_count,
            slices,
        ) {
            Ok(outcome) => outcome,
            Err(error) => return Err(error),
        };
        let id = match unsafe_body {
            None => return Ok((attempt, TailStepStats3d { contacts, slices: counted, replays })),
            Some(id) => id,
        };
        let replayed = sat_u64_exec(replays, 1);
        let target: u32 = if slice_count > MAX_PERSISTENT_TAIL_SLICES / 2 {
            MAX_PERSISTENT_TAIL_SLICES
        } else {
            2 * slice_count
        };
        if target <= slice_count {
            return Err(RotatingWorldError3d::PersistentTailMotionUnsafe(id));
        }
        slice_count = match representable_slice_count_exec(remaining, target) {
            Ok(next) => next,
            Err(error) => return Err(error),
        };
        slices = counted;
        replays = replayed;
        fuel = fuel - 1;
    }
    Err(RotatingWorldError3d::PersistentTailResolutionLimit(MAX_PERSISTENT_TAIL_SLICES))
}


} // verus!
