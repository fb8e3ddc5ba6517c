use vstd::prelude::*;

use crate::angular::{AngularError3d, AngularState3d, Orientation3d, norm_squared, spec_normalized};
use crate::body::{BodyId, BodyKind};
use crate::interaction_policy::{
    InteractionCategory3d, InteractionPolicies3d, InteractionPolicy3d, canonical_key,
    category_of,
};
use crate::math::Vec3i;
use crate::oriented_box::{
    OrientedBox3d, OrientedBoxError3d, SatOutcome, obb_contact_seed, oriented_box_vertices,
    sat_outcome, vertices_error,
};
use crate::rigid_box::{RigidBox3d, layers_collide};
use crate::rigid_box_free_flight::{
    RigidBoxFreeFlightConfig3d, RigidBoxFreeFlightError3d, free_flight_bounds,
    rigid_box_free_flight_sweep_bounds,
};
use crate::rotating_broad_phase::{bounds_overlap, bounds_overlap_exec};
use crate::rotational_sweep::RotationalSweepBounds3d;
use crate::persistent_tail::{TailStepStats3d, consume_tail, consumed_tail};
use crate::repeated_rotating_events::{
    RepeatedRotatingEventConfig3d, RepeatedRotatingEventError3d, RepeatedRotatingEventWorkStats3d,
    advance_repeated_rotating_events, repeated_events,
};
use crate::rotating_contact_response::{body_index, body_index_exec};
use crate::rotating_contact_search::RotatingContactSearchConfig3d;
use crate::rotating_contact_response::RotatingContactResponseError3d;

verus! {

/// Configuration of the rotating-box world's sampled event solver.
#[derive(Clone, Copy, Debug, PartialEq, Eq, Structural)]
pub struct RotatingWorldConfig3d {
    pub gravity: Vec3i,
    pub sample_count: u16,
    pub refinement_steps: u8,
    pub solver_passes: u8,
    pub max_events: u16,
}

impl Default for RotatingWorldConfig3d {
    fn default() -> (config: RotatingWorldConfig3d)
        ensures
            config.gravity == (Vec3i { x: 0i32, y: -10i32, z: 0i32 }),
            config.sample_count == 32,
            config.refinement_steps == 4,
            config.solver_passes == 8,
            config.max_events == 32,
    {
        RotatingWorldConfig3d {
            gravity: Vec3i::new(0, -10, 0),
            sample_count: 32,
            refinement_steps: 4,
            solver_passes: 8,
            max_events: 32,
        }
    }
}

#[derive(Clone, Copy, Debug, PartialEq, Eq, Structural)]
pub enum RotatingWorldError3d {
    DuplicateBody(BodyId),
    MissingBody(BodyId),
    FixedBodyVelocity(BodyId),
    FixedBodyOrientation(BodyId),
    NegativeTimestepNumerator(i32),
    NonPositiveTimestepDenominator(i32),
    PersistentTailResolutionLimit(u32),
    PersistentTailMotionUnsafe(BodyId),
    PersistentTailArithmeticOverflow(BodyId),
    Repeated(RepeatedRotatingEventError3d),
    FreeFlight(RigidBoxFreeFlightError3d),
    Contact(OrientedBoxError3d),
    Response(RotatingContactResponseError3d),
}

impl From<RigidBoxFreeFlightError3d> for RotatingWorldError3d {
    fn from(value: RigidBoxFreeFlightError3d) -> (error: RotatingWorldError3d)
        ensures
            error == RotatingWorldError3d::FreeFlight(value),
    {
        RotatingWorldError3d::FreeFlight(value)
    }
}

impl vstd::std_specs::convert::FromSpecImpl<RigidBoxFreeFlightError3d> for RotatingWorldError3d {
    open spec fn obeys_from_spec() -> bool {
        true
    }

    open spec fn from_spec(value: RigidBoxFreeFlightError3d) -> RotatingWorldError3d {
        RotatingWorldError3d::FreeFlight(value)
    }
}

impl From<OrientedBoxError3d> for RotatingWorldError3d {
    fn from(value: OrientedBoxError3d) -> (error: RotatingWorldError3d)
        ensures
            error == RotatingWorldError3d::Contact(value),
    {
        RotatingWorldError3d::Contact(value)
    }
}

impl vstd::std_specs::convert::FromSpecImpl<OrientedBoxError3d> for RotatingWorldError3d {
    open spec fn obeys_from_spec() -> bool {
        true
    }

    open spec fn from_spec(value: OrientedBoxError3d) -> RotatingWorldError3d {
        RotatingWorldError3d::Contact(value)
    }
}

/// One exact current contact of a queried body.
#[derive(Clone, Copy, Debug, PartialEq, Eq)]
pub struct BodyCurrentContact3d {
    pub other: BodyId,
    /// Exact SAT contact axis oriented from the queried subject toward `other`.
    pub axis: [i128; 3],
}

/// Conservative bounds of a body's current pose (a zero-length free-flight interval).
pub open spec fn current_bounds(rigid_box: RigidBox3d) -> Result<
    RotationalSweepBounds3d,
    RigidBoxFreeFlightError3d,
> {
    free_flight_bounds(rigid_box, RigidBoxFreeFlightConfig3d::spec_new(Vec3i::spec_zero(), 0, 1))
}

/// In order, the exact current contacts of `subject` among the first `n` bodies: every other body
/// whose layers accept the subject, whose current bounds meet `subject_bounds`, and which SAT
/// reports touching; or the first failure.
pub open spec fn contact_scan(
    boxes: Seq<RigidBox3d>,
    subject: RigidBox3d,
    subject_bounds: RotationalSweepBounds3d,
    n: nat,
) -> Result<Seq<BodyCurrentContact3d>, RotatingWorldError3d>
    decreases n,
{
    if n == 0 {
        Ok(Seq::empty())
    } else {
        match contact_scan(boxes, subject, subject_bounds, (n - 1) as nat) {
            Err(error) => Err(error),
            Ok(contacts) => {
                let other = boxes[n - 1];
                if other.body.id == subject.body.id || !layers_collide(
                    subject.collision_layers,
                    other.collision_layers,
                ) {
                    Ok(contacts)
                } else {
                    match current_bounds(other) {
                        Err(error) => Err(RotatingWorldError3d::FreeFlight(error)),
                        Ok(other_bounds) => if !bounds_overlap(subject_bounds, other_bounds) {
                            Ok(contacts)
                        } else {
                            match sat_outcome(subject.spec_oriented_box(), other.spec_oriented_box()) {
                                SatOutcome::Failure(error) => Err(RotatingWorldError3d::Contact(error)),
                                SatOutcome::Separated => Ok(contacts),
                                SatOutcome::Contact { axis, .. } => Ok(
                                    contacts.push(
                                        BodyCurrentContact3d {
                                            other: other.body.id,
                                            axis: [axis.0 as i128, axis.1 as i128, axis.2 as i128],
                                        },
                                    ),
                                ),
                            }
                        },
                    }
                }
            },
        }
    }
}

proof fn lemma_contact_scan_error_stable(
    boxes: Seq<RigidBox3d>,
    subject: RigidBox3d,
    subject_bounds: RotationalSweepBounds3d,
    m: nat,
    n: nat,
)
    requires
        m <= n,
        contact_scan(boxes, subject, subject_bounds, m) is Err,
    ensures
        contact_scan(boxes, subject, subject_bounds, n) == contact_scan(boxes, subject, subject_bounds, m),
    decreases n - m,
{
    if m < n {
        lemma_contact_scan_error_stable(boxes, subject, subject_bounds, m, (n - 1) as nat);
    }
}

/// The bodies after setting the linear velocity of body `id`, or the refusal: a missing body,
/// or a non-zero velocity for a fixed body (a zero one leaves it unchanged).
pub open spec fn velocity_update(boxes: Seq<RigidBox3d>, id: BodyId, velocity: Vec3i) -> Result<
    Seq<RigidBox3d>,
    RotatingWorldError3d,
> {
    if !holds_id(boxes, id) {
        Err(RotatingWorldError3d::MissingBody(id))
    } else if box_with_id(boxes, id).body.kind == BodyKind::Fixed {
        if velocity != Vec3i::spec_zero() {
            Err(RotatingWorldError3d::FixedBodyVelocity(id))
        } else {
            Ok(boxes)
        }
    } else {
        Ok(
            boxes.map_values(
                |b: RigidBox3d|
                    if b.body.id == id {
                        RigidBox3d { body: crate::body::RigidBody { velocity, ..b.body }, ..b }
                    } else {
                        b
                    },
            ),
        )
    }
}

/// An id list agrees with its specified outcome.
pub open spec fn reports_ids(
    result: Result<Vec<BodyId>, RotatingWorldError3d>,
    expected: Result<Seq<BodyId>, RotatingWorldError3d>,
) -> bool {
    match result {
        Ok(ids) => expected == Ok::<Seq<BodyId>, RotatingWorldError3d>(ids@),
        Err(error) => expected == Err::<Seq<BodyId>, RotatingWorldError3d>(error),
    }
}

/// A contact list agrees with its specified outcome.
pub open spec fn reports_contacts(
    result: Result<Vec<BodyCurrentContact3d>, RotatingWorldError3d>,
    expected: Result<Seq<BodyCurrentContact3d>, RotatingWorldError3d>,
) -> bool {
    match result {
        Ok(contacts) => expected == Ok::<Seq<BodyCurrentContact3d>, RotatingWorldError3d>(
            contacts@,
        ),
        Err(error) => expected == Err::<Seq<BodyCurrentContact3d>, RotatingWorldError3d>(error),
    }
}

/// The overlaps of one known body: a missing body or invalid geometry is refused; otherwise the
/// layer-accepted overlaps of every other body in id order.
pub open spec fn body_overlaps_result(boxes: Seq<RigidBox3d>, body: BodyId) -> Result<
    Seq<BodyId>,
    RotatingWorldError3d,
> {
    if !holds_id(boxes, body) {
        Err(RotatingWorldError3d::MissingBody(body))
    } else {
        let subject = box_with_id(boxes, body);
        match vertices_error(subject.spec_oriented_box()) {
            Some(error) => Err(RotatingWorldError3d::Contact(error)),
            None => overlap_scan(
                boxes,
                subject.spec_oriented_box(),
                subject.collision_layers,
                Some(body),
                false,
                true,
                boxes.len(),
            ),
        }
    }
}

/// The overlaps of an arbitrary query box: invalid geometry is refused; a query equal to a
/// dynamic body's current box reports that body and its layer-accepted overlaps; any other query
/// reports every overlapping body; all in id order.
pub open spec fn overlap_query_result(boxes: Seq<RigidBox3d>, query: OrientedBox3d) -> Result<
    Seq<BodyId>,
    RotatingWorldError3d,
> {
    match vertices_error(query) {
        Some(error) => Err(RotatingWorldError3d::Contact(error)),
        None => match first_dynamic_match(boxes, query, boxes.len()) {
            Some(f) => overlap_scan(
                boxes,
                query,
                boxes[f].collision_layers,
                Some(boxes[f].body.id),
                true,
                true,
                boxes.len(),
            ),
            None => overlap_scan(
                boxes,
                query,
                crate::rigid_box::CollisionLayers3d::spec_all(),
                None,
                false,
                false,
                boxes.len(),
            ),
        },
    }
}

/// The exact current contacts of one known body, or the failure.
pub open spec fn body_contacts_result(boxes: Seq<RigidBox3d>, body: BodyId) -> Result<
    Seq<BodyCurrentContact3d>,
    RotatingWorldError3d,
> {
    if !holds_id(boxes, body) {
        Err(RotatingWorldError3d::MissingBody(body))
    } else {
        let subject = box_with_id(boxes, body);
        match current_bounds(subject) {
            Err(error) => Err(RotatingWorldError3d::FreeFlight(error)),
            Ok(bounds) => contact_scan(boxes, subject, bounds, boxes.len()),
        }
    }
}

/// Body ids strictly ascend: every id occurs once and iteration order is stable `BodyId` order.
pub open spec fn ids_ascending(boxes: Seq<RigidBox3d>) -> bool {
    forall|i: int, j: int|
        0 <= i < j < boxes.len() ==> (#[trigger] boxes[i]).body.id.0 < (#[trigger] boxes[j]).body.id.0
}

pub open spec fn holds_id(boxes: Seq<RigidBox3d>, id: BodyId) -> bool {
    exists|i: int| 0 <= i < boxes.len() && (#[trigger] boxes[i]).body.id == id
}

/// The body with id `id` (meaningful when `holds_id(boxes, id)`).
pub open spec fn box_with_id(boxes: Seq<RigidBox3d>, id: BodyId) -> RigidBox3d {
    boxes[choose|i: int| 0 <= i < boxes.len() && (#[trigger] boxes[i]).body.id == id]
}

/// A batch entry repeats the body id of an earlier entry.
pub open spec fn repeats_earlier(updates: Seq<(BodyId, Orientation3d)>, index: int) -> bool {
    exists|k: int| 0 <= k < index && (#[trigger] updates[k]).0 == updates[index].0
}

/// The first failure of an orientation batch among its first `n` entries: a repeated id, a
/// missing body, a fixed body, or a zero quaternion.
pub open spec fn orientation_batch_error(
    boxes: Seq<RigidBox3d>,
    updates: Seq<(BodyId, Orientation3d)>,
    n: nat,
) -> Option<RotatingWorldError3d>
    decreases n,
{
    if n == 0 {
        None
    } else {
        let previous = orientation_batch_error(boxes, updates, (n - 1) as nat);
        let (id, orientation) = updates[n - 1];
        if previous is Some {
            previous
        } else if repeats_earlier(updates, n - 1) {
            Some(RotatingWorldError3d::DuplicateBody(id))
        } else if !holds_id(boxes, id) {
            Some(RotatingWorldError3d::MissingBody(id))
        } else if box_with_id(boxes, id).body.kind == BodyKind::Fixed {
            Some(RotatingWorldError3d::FixedBodyOrientation(id))
        } else if norm_squared(orientation) == 0 {
            Some(
                RotatingWorldError3d::Contact(
                    OrientedBoxError3d::Angular(AngularError3d::ZeroOrientation),
                ),
            )
        } else {
            None
        }
    }
}

/// `rigid_box` after the first `n` entries of an orientation batch: the normalized orientation
/// of the entry naming it, if any.
pub open spec fn reoriented(rigid_box: RigidBox3d, updates: Seq<(BodyId, Orientation3d)>, n: int) -> RigidBox3d {
    if exists|k: int| 0 <= k < n && (#[trigger] updates[k]).0 == rigid_box.body.id {
        let k = choose|k: int| 0 <= k < n && (#[trigger] updates[k]).0 == rigid_box.body.id;
        RigidBox3d {
            angular: AngularState3d {
                orientation: spec_normalized(updates[k].1),
                ..rigid_box.angular
            },
            ..rigid_box
        }
    } else {
        rigid_box
    }
}

/// In order, the ids of the first `n` bodies that `subject` overlaps (touching counts) by exact
/// SAT, or the first SAT failure. The body `subject_id` is reported without a test when
/// `include_subject` holds and skipped otherwise; with `filter`, bodies whose collision layers do
/// not accept `layers` are skipped.
pub open spec fn overlap_scan(
    boxes: Seq<RigidBox3d>,
    subject: OrientedBox3d,
    layers: crate::rigid_box::CollisionLayers3d,
    subject_id: Option<BodyId>,
    include_subject: bool,
    filter: bool,
    n: nat,
) -> Result<Seq<BodyId>, RotatingWorldError3d>
    decreases n,
{
    if n == 0 {
        Ok(Seq::empty())
    } else {
        match overlap_scan(boxes, subject, layers, subject_id, include_subject, filter, (n - 1) as nat) {
            Err(error) => Err(error),
            Ok(ids) => {
                let other = boxes[n - 1];
                if subject_id == Some(other.body.id) {
                    if include_subject {
                        Ok(ids.push(other.body.id))
                    } else {
                        Ok(ids)
                    }
                } else if filter && !layers_collide(layers, other.collision_layers) {
                    Ok(ids)
                } else {
                    match sat_outcome(subject, other.spec_oriented_box()) {
                        SatOutcome::Failure(error) => Err(RotatingWorldError3d::Contact(error)),
                        SatOutcome::Separated => Ok(ids),
                        SatOutcome::Contact { .. } => Ok(ids.push(other.body.id)),
                    }
                }
            },
        }
    }
}

/// The first dynamic body, in id order, whose current box is exactly `query`.
pub open spec fn first_dynamic_match(boxes: Seq<RigidBox3d>, query: OrientedBox3d, n: nat) -> Option<int>
    decreases n,
{
    if n == 0 {
        None
    } else {
        let earlier = first_dynamic_match(boxes, query, (n - 1) as nat);
        if earlier is Some {
            earlier
        } else if boxes[n - 1].body.kind == BodyKind::Dynamic && boxes[n - 1].spec_oriented_box()
            == query {
            Some(n - 1)
        } else {
            None
        }
    }
}

proof fn lemma_batch_error_stable(
    boxes: Seq<RigidBox3d>,
    updates: Seq<(BodyId, Orientation3d)>,
    m: nat,
    n: nat,
)
    requires
        m <= n,
        orientation_batch_error(boxes, updates, m) is Some,
    ensures
        orientation_batch_error(boxes, updates, n) == orientation_batch_error(boxes, updates, m),
    decreases n - m,
{
    if m < n {
        lemma_batch_error_stable(boxes, updates, m, (n - 1) as nat);
    }
}

/// An accepted batch names every body at most once.
proof fn lemma_batch_distinct(boxes: Seq<RigidBox3d>, updates: Seq<(BodyId, Orientation3d)>, n: nat)
    requires
        n <= updates.len(),
        orientation_batch_error(boxes, updates, n) is None,
    ensures
        forall|a: int, b: int| 0 <= a < b < n ==> (#[trigger] updates[a]).0 != (#[trigger] updates[b]).0,
    decreases n,
{
    if n > 0 {
        lemma_batch_distinct(boxes, updates, (n - 1) as nat);
        assert forall|a: int, b: int| 0 <= a < b < n implies (#[trigger] updates[a]).0
            != (#[trigger] updates[b]).0 by {
            if b == n - 1 && updates[a].0 == updates[b].0 {
                assert(repeats_earlier(updates, n - 1));
            }
        }
    }
}

proof fn lemma_scan_error_stable(
    boxes: Seq<RigidBox3d>,
    subject: OrientedBox3d,
    layers: crate::rigid_box::CollisionLayers3d,
    subject_id: Option<BodyId>,
    include_subject: bool,
    filter: bool,
    m: nat,
    n: nat,
)
    requires
        m <= n,
        overlap_scan(boxes, subject, layers, subject_id, include_subject, filter, m) is Err,
    ensures
        overlap_scan(boxes, subject, layers, subject_id, include_subject, filter, n) == overlap_scan(
            boxes,
            subject,
            layers,
            subject_id,
            include_subject,
            filter,
            m,
        ),
    decreases n - m,
{
    if m < n {
        lemma_scan_error_stable(boxes, subject, layers, subject_id, include_subject, filter, m, (n - 1) as nat);
    }
}

proof fn lemma_first_match_stable(boxes: Seq<RigidBox3d>, query: OrientedBox3d, m: nat, n: nat)
    requires
        m <= n,
        first_dynamic_match(boxes, query, m) is Some,
    ensures
        first_dynamic_match(boxes, query, n) == first_dynamic_match(boxes, query, m),
    decreases n - m,
{
    if m < n {
        lemma_first_match_stable(boxes, query, m, (n - 1) as nat);
    }
}

/// In ascending order, the body at `index` is the one `box_with_id` names.
pub proof fn lemma_box_with_id(boxes: Seq<RigidBox3d>, index: int)
    requires
        ids_ascending(boxes),
        0 <= index < boxes.len(),
    ensures
        holds_id(boxes, boxes[index].body.id),
        box_with_id(boxes, boxes[index].body.id) == boxes[index],
{
    let id = boxes[index].body.id;
    assert(boxes[index].body.id == id);
    let k = choose|i: int| 0 <= i < boxes.len() && (#[trigger] boxes[i]).body.id == id;
    if k < index {
        assert(boxes[k].body.id.0 < boxes[index].body.id.0);
    } else if k > index {
        assert(boxes[index].body.id.0 < boxes[k].body.id.0);
    }
}

/// Per-step counters.
#[derive(Clone, Copy, Debug, Default, PartialEq, Eq, Structural)]
pub struct RotatingWorldStepStats3d {
    pub body_count: usize,
    pub solver_body_count: usize,
    pub solver_bypassed_body_count: usize,
    pub response_authority_body_count: usize,
    pub sampled_events: usize,
    pub tail_contacts: usize,
    pub tail_slices: u64,
    pub tail_replays: u64,
    pub event_response_passes: u64,
    pub stabilization_passes: u64,
    pub stabilizations_hitting_limit: u64,
    pub stabilization_candidate_pairs: u64,
    pub stabilization_exact_contacts: u64,
    pub stabilization_active_bodies: u64,
}

/// What one step changed: the ids, ascending, of the bodies whose state changed, and counters.
#[derive(Clone, Debug, PartialEq, Eq)]
pub struct RotatingWorldStepReport3d {
    pub changed_body_ids: Vec<BodyId>,
    pub stats: RotatingWorldStepStats3d,
}

/// The number of dynamic bodies among the first `n`: the bodies that receive a response.
pub open spec fn dynamic_count(boxes: Seq<RigidBox3d>, n: nat) -> nat
    decreases n,
{
    if n == 0 {
        0
    } else {
        dynamic_count(boxes, (n - 1) as nat) + if boxes[n - 1].body.kind == BodyKind::Dynamic {
            1nat
        } else {
            0nat
        }
    }
}

/// The repeated-event configuration of a step of `numerator / denominator`.
pub open spec fn step_events_config(
    config: RotatingWorldConfig3d,
    numerator: i32,
    denominator: i32,
) -> RepeatedRotatingEventConfig3d {
    RepeatedRotatingEventConfig3d {
        search: RotatingContactSearchConfig3d {
            free_flight: RigidBoxFreeFlightConfig3d::spec_new(config.gravity, numerator, denominator),
            sample_count: config.sample_count,
            refinement_steps: config.refinement_steps,
        },
        solver_passes: config.solver_passes,
        max_events: config.max_events,
    }
}

/// The solver's part of a step: the sampled events over the step, then the tail left after
/// them; the bodies, the number of events, the tail's work and the events' work.
pub open spec fn step_solution(
    boxes: Seq<RigidBox3d>,
    config: RotatingWorldConfig3d,
    numerator: i32,
    denominator: i32,
) -> Result<
    (Seq<RigidBox3d>, nat, TailStepStats3d, RepeatedRotatingEventWorkStats3d),
    RotatingWorldError3d,
> {
    match repeated_events(boxes, step_events_config(config, numerator, denominator)) {
        Err(error) => Err(RotatingWorldError3d::Repeated(error)),
        Ok((advanced, events, remaining, work)) => if remaining.timestep_error() is None
            && remaining.spec_timestep_numerator() == 0 {
            Ok((advanced, events.len(), TailStepStats3d { contacts: 0, slices: 0, replays: 0 }, work))
        } else {
            match consumed_tail(advanced, remaining, config.solver_passes as nat) {
                Err(error) => Err(error),
                Ok((settled, tail)) => Ok((settled, events.len(), tail, work)),
            }
        },
    }
}

/// `stored` with each of the first `k` solver outputs written over the body with its id.
pub open spec fn merged(stored: Seq<RigidBox3d>, outputs: Seq<RigidBox3d>, k: nat) -> Seq<RigidBox3d>
    decreases k,
{
    if k == 0 {
        stored
    } else {
        let done = merged(stored, outputs, (k - 1) as nat);
        match body_index(stored, outputs[k - 1].body.id) {
            Some(index) => done.update(index, outputs[k - 1]),
            None => done,
        }
    }
}

/// The ids, in world order, of the first `n` bodies that differ between `before` and `after`.
pub open spec fn changed_ids(before: Seq<RigidBox3d>, after: Seq<RigidBox3d>, n: nat) -> Seq<BodyId>
    decreases n,
{
    if n == 0 {
        Seq::empty()
    } else if after[n - 1] != before[n - 1] {
        changed_ids(before, after, (n - 1) as nat).push(before[n - 1].body.id)
    } else {
        changed_ids(before, after, (n - 1) as nat)
    }
}

/// The world after a step of `numerator / denominator` ticks, or the failure. A zero step, or a
/// world without a dynamic body, changes nothing; otherwise every body goes through the sampled
/// events and the tail together.
pub open spec fn world_step(
    boxes: Seq<RigidBox3d>,
    config: RotatingWorldConfig3d,
    numerator: i32,
    denominator: i32,
) -> Result<Seq<RigidBox3d>, RotatingWorldError3d> {
    if numerator < 0 {
        Err(RotatingWorldError3d::NegativeTimestepNumerator(numerator))
    } else if denominator <= 0 {
        Err(RotatingWorldError3d::NonPositiveTimestepDenominator(denominator))
    } else if numerator == 0 || dynamic_count(boxes, boxes.len()) == 0 {
        Ok(boxes)
    } else {
        match step_solution(boxes, config, numerator, denominator) {
            Err(error) => Err(error),
            Ok((outputs, _, _, _)) => Ok(merged(boxes, outputs, outputs.len())),
        }
    }
}

/// The counters of a successful step.
pub open spec fn step_stats(
    boxes: Seq<RigidBox3d>,
    config: RotatingWorldConfig3d,
    numerator: i32,
    denominator: i32,
) -> RotatingWorldStepStats3d {
    let authority = dynamic_count(boxes, boxes.len());
    let solver = if authority == 0 {
        0
    } else {
        boxes.len()
    };
    let base = RotatingWorldStepStats3d {
        body_count: boxes.len() as usize,
        solver_body_count: solver as usize,
        solver_bypassed_body_count: (boxes.len() - solver) as usize,
        response_authority_body_count: authority as usize,
        sampled_events: 0,
        tail_contacts: 0,
        tail_slices: 0,
        tail_replays: 0,
        event_response_passes: 0,
        stabilization_passes: 0,
        stabilizations_hitting_limit: 0,
        stabilization_candidate_pairs: 0,
        stabilization_exact_contacts: 0,
        stabilization_active_bodies: 0,
    };
    if numerator == 0 || authority == 0 {
        base
    } else {
        match step_solution(boxes, config, numerator, denominator) {
            Ok((_, events, tail, work)) => RotatingWorldStepStats3d {
                sampled_events: events as usize,
                tail_contacts: tail.contacts,
                tail_slices: tail.slices,
                tail_replays: tail.replays,
                event_response_passes: work.event_response_passes,
                stabilization_passes: work.stabilization_passes,
                stabilizations_hitting_limit: work.stabilizations_hitting_limit,
                stabilization_candidate_pairs: work.stabilization_candidate_pairs,
                stabilization_exact_contacts: work.stabilization_exact_contacts,
                stabilization_active_bodies: work.stabilization_active_bodies,
                ..base
            },
            Err(_) => base,
        }
    }
}

fn dynamic_count_exec(boxes: &Vec<RigidBox3d>) -> (count: usize)
    ensures
        count == dynamic_count(boxes@, boxes@.len()),
        count <= boxes@.len(),
{
    let mut count: usize = 0;
    let mut i: usize = 0;
    while i < boxes.len()
        invariant
            i <= boxes@.len(),
            count == dynamic_count(boxes@, i as nat),
            count <= i,
        decreases boxes.len() - i,
    {
        if boxes[i].body.kind == BodyKind::Dynamic {
            count = count + 1;
        }
        i = i + 1;
    }
    count
}


/// Comparing a world with itself finds no change.
proof fn lemma_no_changes(boxes: Seq<RigidBox3d>, n: nat)
    requires
        n <= boxes.len(),
    ensures
        changed_ids(boxes, boxes, n) == Seq::<BodyId>::empty(),
    decreases n,
{
    if n > 0 {
        lemma_no_changes(boxes, (n - 1) as nat);
    }
}

/// The body found by id has that id.
proof fn lemma_body_index_id(boxes: Seq<RigidBox3d>, id: BodyId)
    ensures
        body_index(boxes, id) matches Some(index) ==> 0 <= index < boxes.len() && boxes[index].body.id
            == id,
{
    crate::rotating_contact_response::lemma_last_index_bounds(boxes, id, boxes.len());
}


/// The changed ids of a world in ascending id order are strictly ascending, none above the last
/// compared body's id.
proof fn lemma_changed_ids_ascending(before: Seq<RigidBox3d>, after: Seq<RigidBox3d>, n: nat)
    requires
        n <= before.len(),
        ids_ascending(before),
    ensures
        forall|i: int, j: int|
            0 <= i < j < changed_ids(before, after, n).len() ==> (#[trigger] changed_ids(
                before,
                after,
                n,
            )[i]).0 < (#[trigger] changed_ids(before, after, n)[j]).0,
        n > 0 ==> forall|i: int|
            0 <= i < changed_ids(before, after, n).len() ==> (#[trigger] changed_ids(
                before,
                after,
                n,
            )[i]).0 <= before[n - 1].body.id.0,
    decreases n,
{
    if n > 0 {
        lemma_changed_ids_ascending(before, after, (n - 1) as nat);
        let earlier = changed_ids(before, after, (n - 1) as nat);
        if n > 1 {
            assert(before[n - 2].body.id.0 < before[n - 1].body.id.0);
        }
        assert forall|i: int| 0 <= i < earlier.len() implies (#[trigger] earlier[i]).0 < before[n
            - 1].body.id.0 by {
            if n > 1 {
                assert(earlier[i].0 <= before[n - 2].body.id.0);
            }
        }
    }
}

/// `stored` with the solver outputs written over the bodies with their ids, and the ids, in world
/// order, of the bodies that changed.
fn merge_outputs(stored_boxes: &Vec<RigidBox3d>, outputs: &Vec<RigidBox3d>) -> (result: (
    Vec<RigidBox3d>,
    Vec<BodyId>,
))
    requires
        ids_ascending(stored_boxes@),
    ensures
        result.0@ == merged(stored_boxes@, outputs@, outputs@.len()),
        result.1@ == changed_ids(stored_boxes@, result.0@, result.0@.len()),
        ids_ascending(result.0@),
        result.0@.len() == stored_boxes@.len(),
        forall|i: int| 0 <= i < stored_boxes@.len() ==> (#[trigger] result.0@[i]).body.id == stored_boxes@[i].body.id,
        forall|i: int, j: int|
            0 <= i < j < result.1@.len() ==> (#[trigger] result.1@[i]).0 < (#[trigger] result.1@[j]).0,
{
    let ghost stored = stored_boxes@;
    let mut next = stored_boxes.clone();
    assert(next@ =~= stored);
    let mut k: usize = 0;
    while k < outputs.len()
        invariant
            k <= outputs@.len(),
            stored == stored_boxes@,
            next@ == merged(stored, outputs@, k as nat),
            next@.len() == stored.len(),
            forall|i: int| 0 <= i < stored.len() ==> (#[trigger] next@[i]).body.id == stored[i].body.id,
        decreases outputs.len() - k,
    {
        match body_index_exec(stored_boxes, outputs[k].body.id) {
            Some(index) => {
                proof {
                    lemma_body_index_id(stored, outputs@[k as int].body.id);
                }
                next.set(index, outputs[k]);
            },
            None => {},
        }
        k = k + 1;
    }
    let mut changed: Vec<BodyId> = Vec::new();
    let mut i: usize = 0;
    while i < next.len()
        invariant
            i <= next@.len(),
            next@.len() == stored.len(),
            stored == stored_boxes@,
            changed@ == changed_ids(stored, next@, i as nat),
            forall|j: int| 0 <= j < stored.len() ==> (#[trigger] next@[j]).body.id == stored[j].body.id,
        decreases next.len() - i,
    {
        if next[i] != stored_boxes[i] {
            changed.push(stored_boxes[i].body.id);
        }
        i = i + 1;
    }
    proof {
        assert forall|a: int, b: int| 0 <= a < b < next@.len() implies (#[trigger] next@[a]).body.id.0
            < (#[trigger] next@[b]).body.id.0 by {
            assert(stored[a].body.id.0 < stored[b].body.id.0);
        }
    }
    proof {
        lemma_changed_ids_ascending(stored, next@, next@.len());
    }
    (next, changed)
}

/// Deterministic rotating-cuboid world: stable `BodyId`-ordered bodies, their interaction
/// categories and the pair/category interaction policies.
#[derive(Debug)]
pub struct RotatingWorld3d {
    config: RotatingWorldConfig3d,
    boxes: Vec<RigidBox3d>,
    interaction: InteractionPolicies3d,
}

impl RotatingWorld3d {
    #[verifier::type_invariant]
    spec fn well_formed(self) -> bool {
        ids_ascending(self.boxes@)
    }

    pub closed spec fn spec_config(self) -> RotatingWorldConfig3d {
        self.config
    }

    /// The bodies in ascending id order.
    pub closed spec fn spec_boxes(self) -> Seq<RigidBox3d> {
        self.boxes@
    }

    pub closed spec fn spec_interaction(self) -> InteractionPolicies3d {
        self.interaction
    }

    pub fn new(config: RotatingWorldConfig3d) -> (world: RotatingWorld3d)
        ensures
            world.spec_config() == config,
            world.spec_boxes() == Seq::<RigidBox3d>::empty(),
            world.spec_interaction().categories() == Map::<u64, u16>::empty(),
            world.spec_interaction().symmetric() == Map::<(u16, u16), InteractionPolicy3d>::empty(),
            world.spec_interaction().directional() == Map::<
                (u16, u16),
                InteractionPolicy3d,
            >::empty(),
            world.spec_interaction().spec_default_policy().fixed_boundary_stabilization_pass_limit is None,
    {
        RotatingWorld3d { config, boxes: Vec::new(), interaction: InteractionPolicies3d::new() }
    }

    pub fn config(&self) -> (config: RotatingWorldConfig3d)
        ensures
            config == self.spec_config(),
    {
        self.config
    }

    /// The position of body `id`, if present.
    fn index_of(&self, id: BodyId) -> (index: Option<usize>)
        ensures
            match index {
                Some(k) => k < self.spec_boxes().len() && self.spec_boxes()[k as int].body.id == id,
                None => !holds_id(self.spec_boxes(), id),
            },
    {
        let mut k: usize = 0;
        while k < self.boxes.len()
            invariant
                0 <= k <= self.boxes.len(),
                forall|i: int| 0 <= i < k ==> (#[trigger] self.boxes@[i]).body.id != id,
            decreases self.boxes.len() - k,
        {
            if self.boxes[k].body.id.0 == id.0 {
                return Some(k);
            }
            k = k + 1;
        }
        None
    }

    pub fn body_interaction_category(&self, id: BodyId) -> (category: InteractionCategory3d)
        ensures
            category.0 == category_of(self.spec_interaction().categories(), id.0),
    {
        self.interaction.body_category(id)
    }

    /// Assigns an existing body to an interaction category, returning its previous explicit category.
    pub fn set_body_interaction_category(&mut self, id: BodyId, category: InteractionCategory3d) -> (result:
        Result<Option<InteractionCategory3d>, RotatingWorldError3d>)
        ensures
            final(self).spec_config() == old(self).spec_config(),
            final(self).spec_boxes() == old(self).spec_boxes(),
            match result {
                Err(error) => !holds_id(old(self).spec_boxes(), id) && error
                    == RotatingWorldError3d::MissingBody(id) && final(self).spec_interaction()
                    == old(self).spec_interaction(),
                Ok(previous) => {
                    &&& holds_id(old(self).spec_boxes(), id)
                    &&& category.0 == 0 ==> final(self).spec_interaction().categories() == old(self).spec_interaction().categories().remove(id.0)
                    &&& category.0 != 0 ==> final(self).spec_interaction().categories() == old(self).spec_interaction().categories().insert(id.0, category.0)
                    &&& previous == (if old(self).spec_interaction().categories().contains_key(
                        id.0,
                    ) {
                        Some(
                            InteractionCategory3d(old(self).spec_interaction().categories()[id.0]),
                        )
                    } else {
                        None
                    })
                    &&& final(self).spec_interaction().spec_default_policy() == old(self).spec_interaction().spec_default_policy()
                    &&& final(self).spec_interaction().symmetric() == old(self).spec_interaction().symmetric()
                    &&& final(self).spec_interaction().directional() == old(self).spec_interaction().directional()
                },
            },
    {
        if self.index_of(id).is_none() {
            return Err(RotatingWorldError3d::MissingBody(id));
        }
        proof {
            use_type_invariant(&*self);
        }
        let mut interaction = InteractionPolicies3d::new();
        std::mem::swap(&mut interaction, &mut self.interaction);
        let previous = interaction.set_body_category(id, category);
        self.interaction = interaction;
        Ok(previous)
    }

    pub fn set_default_interaction_policy(&mut self, policy: InteractionPolicy3d)
        ensures
            final(self).spec_config() == old(self).spec_config(),
            final(self).spec_boxes() == old(self).spec_boxes(),
            final(self).spec_interaction().spec_default_policy() == policy,
            final(self).spec_interaction().categories() == old(self).spec_interaction().categories(),
            final(self).spec_interaction().symmetric() == old(self).spec_interaction().symmetric(),
            final(self).spec_interaction().directional() == old(self).spec_interaction().directional(),
    {
        proof {
            use_type_invariant(&*self);
        }
        let mut interaction = InteractionPolicies3d::new();
        std::mem::swap(&mut interaction, &mut self.interaction);
        interaction.set_default_policy(policy);
        self.interaction = interaction;
    }

    /// The policy resolved for an ordered interaction of two bodies.
    pub fn interaction_policy_for_bodies(&self, source: BodyId, target: BodyId) -> (policy:
        InteractionPolicy3d)
        ensures
            policy == self.spec_interaction().spec_policy(
                category_of(self.spec_interaction().categories(), source.0),
                category_of(self.spec_interaction().categories(), target.0),
            ),
    {
        self.interaction.policy_for_bodies(source, target)
    }

    pub fn set_pair_interaction_policy(
        &mut self,
        left: InteractionCategory3d,
        right: InteractionCategory3d,
        policy: InteractionPolicy3d,
    ) -> (previous: Option<InteractionPolicy3d>)
        ensures
            final(self).spec_config() == old(self).spec_config(),
            final(self).spec_boxes() == old(self).spec_boxes(),
            final(self).spec_interaction().symmetric() == old(self).spec_interaction().symmetric().insert(canonical_key(left.0, right.0), policy),
            previous == (if old(self).spec_interaction().symmetric().contains_key(
                canonical_key(left.0, right.0),
            ) {
                Some(old(self).spec_interaction().symmetric()[canonical_key(left.0, right.0)])
            } else {
                None
            }),
            final(self).spec_interaction().spec_default_policy() == old(self).spec_interaction().spec_default_policy(),
            final(self).spec_interaction().categories() == old(self).spec_interaction().categories(),
            final(self).spec_interaction().directional() == old(self).spec_interaction().directional(),
    {
        proof {
            use_type_invariant(&*self);
        }
        let mut interaction = InteractionPolicies3d::new();
        std::mem::swap(&mut interaction, &mut self.interaction);
        let previous = interaction.set_pair_policy(left, right, policy);
        self.interaction = interaction;
        previous
    }

    pub fn clear_pair_interaction_policy(
        &mut self,
        left: InteractionCategory3d,
        right: InteractionCategory3d,
    ) -> (previous: Option<InteractionPolicy3d>)
        ensures
            final(self).spec_config() == old(self).spec_config(),
            final(self).spec_boxes() == old(self).spec_boxes(),
            final(self).spec_interaction().symmetric() == old(self).spec_interaction().symmetric().remove(canonical_key(left.0, right.0)),
            previous == (if old(self).spec_interaction().symmetric().contains_key(
                canonical_key(left.0, right.0),
            ) {
                Some(old(self).spec_interaction().symmetric()[canonical_key(left.0, right.0)])
            } else {
                None
            }),
            final(self).spec_interaction().spec_default_policy() == old(self).spec_interaction().spec_default_policy(),
            final(self).spec_interaction().categories() == old(self).spec_interaction().categories(),
            final(self).spec_interaction().directional() == old(self).spec_interaction().directional(),
    {
        proof {
            use_type_invariant(&*self);
        }
        let mut interaction = InteractionPolicies3d::new();
        std::mem::swap(&mut interaction, &mut self.interaction);
        let previous = interaction.clear_pair_policy(left, right);
        self.interaction = interaction;
        previous
    }

    pub fn set_directional_interaction_policy(
        &mut self,
        source: InteractionCategory3d,
        target: InteractionCategory3d,
        policy: InteractionPolicy3d,
    ) -> (previous: Option<InteractionPolicy3d>)
        ensures
            final(self).spec_config() == old(self).spec_config(),
            final(self).spec_boxes() == old(self).spec_boxes(),
            final(self).spec_interaction().directional() == old(self).spec_interaction().directional().insert((source.0, target.0), policy),
            previous == (if old(self).spec_interaction().directional().contains_key(
                (source.0, target.0),
            ) {
                Some(old(self).spec_interaction().directional()[(source.0, target.0)])
            } else {
                None
            }),
            final(self).spec_interaction().spec_default_policy() == old(self).spec_interaction().spec_default_policy(),
            final(self).spec_interaction().categories() == old(self).spec_interaction().categories(),
            final(self).spec_interaction().symmetric() == old(self).spec_interaction().symmetric(),
    {
        proof {
            use_type_invariant(&*self);
        }
        let mut interaction = InteractionPolicies3d::new();
        std::mem::swap(&mut interaction, &mut self.interaction);
        let previous = interaction.set_directional_policy(source, target, policy);
        self.interaction = interaction;
        previous
    }

    pub fn clear_directional_interaction_policy(
        &mut self,
        source: InteractionCategory3d,
        target: InteractionCategory3d,
    ) -> (previous: Option<InteractionPolicy3d>)
        ensures
            final(self).spec_config() == old(self).spec_config(),
            final(self).spec_boxes() == old(self).spec_boxes(),
            final(self).spec_interaction().directional() == old(self).spec_interaction().directional().remove((source.0, target.0)),
            previous == (if old(self).spec_interaction().directional().contains_key(
                (source.0, target.0),
            ) {
                Some(old(self).spec_interaction().directional()[(source.0, target.0)])
            } else {
                None
            }),
            final(self).spec_interaction().spec_default_policy() == old(self).spec_interaction().spec_default_policy(),
            final(self).spec_interaction().categories() == old(self).spec_interaction().categories(),
            final(self).spec_interaction().symmetric() == old(self).spec_interaction().symmetric(),
    {
        proof {
            use_type_invariant(&*self);
        }
        let mut interaction = InteractionPolicies3d::new();
        std::mem::swap(&mut interaction, &mut self.interaction);
        let previous = interaction.clear_directional_policy(source, target);
        self.interaction = interaction;
        previous
    }

    /// Adds one body; its id must be new.
    pub fn add_box(&mut self, rigid_box: RigidBox3d) -> (result: Result<(), RotatingWorldError3d>)
        ensures
            final(self).spec_config() == old(self).spec_config(),
            final(self).spec_interaction() == old(self).spec_interaction(),
            ids_ascending(final(self).spec_boxes()),
            match result {
                Err(error) => holds_id(old(self).spec_boxes(), rigid_box.body.id) && error
                    == RotatingWorldError3d::DuplicateBody(rigid_box.body.id) && final(self).spec_boxes() == old(self).spec_boxes(),
                Ok(()) => !holds_id(old(self).spec_boxes(), rigid_box.body.id) && forall|
                    b: RigidBox3d,
                | final(self).spec_boxes().contains(b) <==> (old(self).spec_boxes().contains(b)
                    || b == rigid_box),
            },
    {
        proof {
            use_type_invariant(&*self);
        }
        let id = rigid_box.body.id;
        let mut position: usize = 0;
        while position < self.boxes.len() && self.boxes[position].body.id.0 < id.0
            invariant
                0 <= position <= self.boxes.len(),
                ids_ascending(self.boxes@),
                forall|i: int| 0 <= i < position ==> (#[trigger] self.boxes@[i]).body.id.0 < id.0,
            decreases self.boxes.len() - position,
        {
            position = position + 1;
        }
        if position < self.boxes.len() && self.boxes[position].body.id.0 == id.0 {
            assert(self.boxes@[position as int].body.id == id);
            return Err(RotatingWorldError3d::DuplicateBody(id));
        }
        proof {
            assert forall|i: int| 0 <= i < self.boxes@.len() implies (#[trigger] self.boxes@[i]).body.id
                != id by {
                if i >= position {
                    assert(self.boxes@[position as int].body.id.0 > id.0);
                    if i > position {
                        assert(self.boxes@[position as int].body.id.0 < self.boxes@[i].body.id.0);
                    }
                }
            }
        }
        let ghost before = self.boxes@;
        let mut boxes = Vec::new();
        std::mem::swap(&mut boxes, &mut self.boxes);
        boxes.insert(position, rigid_box);
        proof {
            assert(boxes@ == before.subrange(0, position as int).push(rigid_box) + before.subrange(
                position as int,
                before.len() as int,
            ));
            assert forall|i: int, j: int| 0 <= i < j < boxes@.len() implies (#[trigger] boxes@[i]).body.id.0
                < (#[trigger] boxes@[j]).body.id.0 by {
                if j < position {
                    assert(boxes@[i] == before[i] && boxes@[j] == before[j]);
                } else if j == position {
                    assert(boxes@[i] == before[i]);
                } else if i == position {
                    assert(boxes@[j] == before[j - 1]);
                    assert(before[position as int].body.id.0 > id.0);
                    if j - 1 > position {
                        assert(before[position as int].body.id.0 < before[j - 1].body.id.0);
                    }
                } else if i < position {
                    assert(boxes@[i] == before[i] && boxes@[j] == before[j - 1]);
                } else {
                    assert(boxes@[i] == before[i - 1] && boxes@[j] == before[j - 1]);
                }
            }
            assert forall|b: RigidBox3d| boxes@.contains(b) <==> (before.contains(b) || b
                == rigid_box) by {
                if boxes@.contains(b) {
                    let k = choose|k: int| 0 <= k < boxes@.len() && boxes@[k] == b;
                    if k < position {
                        assert(before[k] == b);
                    } else if k > position {
                        assert(before[k - 1] == b);
                    }
                }
                if before.contains(b) {
                    let k = choose|k: int| 0 <= k < before.len() && before[k] == b;
                    if k < position {
                        assert(boxes@[k] == b);
                    } else {
                        assert(boxes@[k + 1] == b);
                    }
                }
                if b == rigid_box {
                    assert(boxes@[position as int] == b);
                }
            }
            assert(!holds_id(before, id));
        }
        self.boxes = boxes;
        assert(before == old(self).spec_boxes());
        assert(forall|b: RigidBox3d| self.spec_boxes().contains(b) <==> (old(self).spec_boxes().contains(b) || b == rigid_box));
        assert(!holds_id(old(self).spec_boxes(), rigid_box.body.id));
        Ok(())
    }

    /// Removes one body, returning it, and clears any interaction category of its id so that a
    /// later body reusing the id starts in the default category.
    pub fn remove_box(&mut self, id: BodyId) -> (removed: Option<RigidBox3d>)
        ensures
            final(self).spec_config() == old(self).spec_config(),
            ids_ascending(final(self).spec_boxes()),
            match removed {
                None => !holds_id(old(self).spec_boxes(), id) && final(self).spec_boxes() == old(self).spec_boxes(),
                Some(rigid_box) => {
                    &&& rigid_box.body.id == id
                    &&& old(self).spec_boxes().contains(rigid_box)
                    &&& forall|b: RigidBox3d|
                        final(self).spec_boxes().contains(b) <==> (old(self).spec_boxes().contains(
                            b,
                        ) && b.body.id != id)
                },
            },
            final(self).spec_interaction().categories() == old(self).spec_interaction().categories().remove(id.0),
            final(self).spec_interaction().spec_default_policy() == old(self).spec_interaction().spec_default_policy(),
            final(self).spec_interaction().symmetric() == old(self).spec_interaction().symmetric(),
            final(self).spec_interaction().directional() == old(self).spec_interaction().directional(),
    {
        proof {
            use_type_invariant(&*self);
        }
        let index = match self.index_of(id) {
            Some(index) => index,
            None => {
                let mut interaction = InteractionPolicies3d::new();
                std::mem::swap(&mut interaction, &mut self.interaction);
                interaction.clear_body_category(id);
                self.interaction = interaction;
                return None;
            },
        };
        let ghost before = self.boxes@;
        let mut boxes = Vec::new();
        std::mem::swap(&mut boxes, &mut self.boxes);
        let removed = boxes.remove(index);
        proof {
            assert(boxes@ == before.subrange(0, index as int) + before.subrange(
                index as int + 1,
                before.len() as int,
            ));
            assert forall|i: int, j: int| 0 <= i < j < boxes@.len() implies (#[trigger] boxes@[i]).body.id.0
                < (#[trigger] boxes@[j]).body.id.0 by {
                if j < index {
                    assert(boxes@[i] == before[i] && boxes@[j] == before[j]);
                } else if i < index {
                    assert(boxes@[i] == before[i] && boxes@[j] == before[j + 1]);
                } else {
                    assert(boxes@[i] == before[i + 1] && boxes@[j] == before[j + 1]);
                }
            }
            assert forall|b: RigidBox3d| boxes@.contains(b) <==> (before.contains(b) && b.body.id
                != id) by {
                if boxes@.contains(b) {
                    let k = choose|k: int| 0 <= k < boxes@.len() && boxes@[k] == b;
                    if k < index {
                        assert(before[k] == b);
                        assert(before[k].body.id.0 < before[index as int].body.id.0);
                    } else {
                        assert(before[k + 1] == b);
                        assert(before[index as int].body.id.0 < before[k + 1].body.id.0);
                    }
                }
                if before.contains(b) && b.body.id != id {
                    let k = choose|k: int| 0 <= k < before.len() && before[k] == b;
                    if k < index {
                        assert(boxes@[k] == b);
                    } else {
                        assert(k != index);
                        assert(boxes@[k - 1] == b);
                    }
                }
            }
            assert(before.contains(removed));
        }
        self.boxes = boxes;
        let mut interaction = InteractionPolicies3d::new();
        std::mem::swap(&mut interaction, &mut self.interaction);
        interaction.clear_body_category(id);
        self.interaction = interaction;
        Some(removed)
    }

    /// The body with id `id`, if present.
    pub fn box_by_id(&self, id: BodyId) -> (found: Option<&RigidBox3d>)
        ensures
            match found {
                Some(rigid_box) => rigid_box.body.id == id && self.spec_boxes().contains(
                    *rigid_box,
                ),
                None => !holds_id(self.spec_boxes(), id),
            },
    {
        match self.index_of(id) {
            Some(index) => {
                assert(self.boxes@.contains(self.boxes@[index as int]));
                Some(&self.boxes[index])
            },
            None => None,
        }
    }

    /// The bodies in stable ascending id order.
    pub fn boxes(&self) -> (boxes: &[RigidBox3d])
        ensures
            boxes@ == self.spec_boxes(),
            ids_ascending(boxes@),
    {
        proof {
            use_type_invariant(self);
        }
        self.boxes.as_slice()
    }

    /// Replaces a dynamic body's linear velocity, keeping its rotational state. A fixed body
    /// accepts only a zero velocity, which leaves it unchanged.
    pub fn set_linear_velocity(&mut self, id: BodyId, velocity: Vec3i) -> (result: Result<
        (),
        RotatingWorldError3d,
    >)
        ensures
            final(self).spec_config() == old(self).spec_config(),
            final(self).spec_interaction() == old(self).spec_interaction(),
            match result {
                Ok(()) => velocity_update(old(self).spec_boxes(), id, velocity) == Ok::<
                    Seq<RigidBox3d>,
                    RotatingWorldError3d,
                >(final(self).spec_boxes()),
                Err(error) => velocity_update(old(self).spec_boxes(), id, velocity) == Err::<
                    Seq<RigidBox3d>,
                    RotatingWorldError3d,
                >(error) && final(self).spec_boxes() == old(self).spec_boxes(),
            },
    {
        proof {
            use_type_invariant(&*self);
        }
        let index = match self.index_of(id) {
            Some(index) => index,
            None => return Err(RotatingWorldError3d::MissingBody(id)),
        };
        proof {
            lemma_box_with_id(self.boxes@, index as int);
        }
        if self.boxes[index].body.kind == BodyKind::Fixed {
            if velocity.x != 0 || velocity.y != 0 || velocity.z != 0 {
                return Err(RotatingWorldError3d::FixedBodyVelocity(id));
            }
            return Ok(());
        }
        let ghost before = self.boxes@;
        let mut boxes = Vec::new();
        std::mem::swap(&mut boxes, &mut self.boxes);
        let mut updated = boxes[index];
        updated.body.velocity = velocity;
        boxes.set(index, updated);
        proof {
            let expected = before.map_values(
                |b: RigidBox3d|
                    if b.body.id == id {
                        RigidBox3d { body: crate::body::RigidBody { velocity, ..b.body }, ..b }
                    } else {
                        b
                    },
            );
            assert forall|k: int| 0 <= k < boxes@.len() implies boxes@[k] == expected[k] by {
                if k != index {
                    if k < index {
                        assert(before[k].body.id.0 < before[index as int].body.id.0);
                    } else {
                        assert(before[index as int].body.id.0 < before[k].body.id.0);
                    }
                }
            }
            assert(boxes@ =~= expected);
            assert forall|i: int, j: int| 0 <= i < j < boxes@.len() implies (#[trigger] boxes@[i]).body.id.0
                < (#[trigger] boxes@[j]).body.id.0 by {
                assert(before[i].body.id.0 < before[j].body.id.0);
            }
        }
        self.boxes = boxes;
        Ok(())
    }

    /// Applies a batch of dynamic-body orientation updates. The whole batch is validated first
    /// (repeated ids, missing or fixed bodies, zero quaternions), so a failure changes nothing;
    /// otherwise every named body takes the normalized orientation.
    pub fn set_orientations(&mut self, updates: &[(BodyId, Orientation3d)]) -> (result: Result<
        (),
        RotatingWorldError3d,
    >)
        ensures
            final(self).spec_config() == old(self).spec_config(),
            final(self).spec_interaction() == old(self).spec_interaction(),
            match result {
                Err(error) => orientation_batch_error(old(self).spec_boxes(), updates@, updates@.len())
                    == Some(error) && final(self).spec_boxes() == old(self).spec_boxes(),
                Ok(()) => orientation_batch_error(old(self).spec_boxes(), updates@, updates@.len())
                    is None && final(self).spec_boxes() == old(self).spec_boxes().map_values(
                    |b: RigidBox3d| reoriented(b, updates@, updates@.len() as int),
                ),
            },
    {
        proof {
            use_type_invariant(&*self);
        }
        let ghost before = self.boxes@;
        let mut normalized: Vec<(usize, Orientation3d)> = Vec::new();
        let mut i: usize = 0;
        while i < updates.len()
            invariant
                0 <= i <= updates.len(),
                self.boxes@ == before,
                before == old(self).boxes@,
                self.config == old(self).config,
                self.interaction == old(self).interaction,
                ids_ascending(before),
                normalized.len() == i,
                orientation_batch_error(before, updates@, i as nat) is None,
                forall|k: int|
                    0 <= k < i ==> {
                        let (index, q) = #[trigger] normalized@[k];
                        &&& index < before.len()
                        &&& before[index as int].body.id == updates@[k].0
                        &&& q == spec_normalized(updates@[k].1)
                    },
            decreases updates.len() - i,
        {
            let (id, orientation) = updates[i];
            let mut j: usize = 0;
            while j < i
                invariant
                    0 <= j <= i < updates.len(),
                    id == updates@[i as int].0,
                    forall|k: int| 0 <= k < j ==> (#[trigger] updates@[k]).0 != id,
                    orientation_batch_error(before, updates@, i as nat) is None,
                    self.boxes@ == before,
                    before == old(self).boxes@,
                    self.config == old(self).config,
                    self.interaction == old(self).interaction,
                decreases i - j,
            {
                if updates[j].0.0 == id.0 {
                    proof {
                        assert(updates@[j as int].0 == id);
                        assert(repeats_earlier(updates@, i as int));
                        assert(orientation_batch_error(before, updates@, (i + 1) as nat) == Some(
                            RotatingWorldError3d::DuplicateBody(id),
                        ));
                        lemma_batch_error_stable(before, updates@, (i + 1) as nat, updates@.len());
                    }
                    return Err(RotatingWorldError3d::DuplicateBody(id));
                }
                j = j + 1;
            }
            assert(!repeats_earlier(updates@, i as int));
            let index = match self.index_of(id) {
                Some(index) => index,
                None => {
                    proof {
                        lemma_batch_error_stable(before, updates@, (i + 1) as nat, updates@.len());
                    }
                    return Err(RotatingWorldError3d::MissingBody(id));
                },
            };
            proof {
                lemma_box_with_id(before, index as int);
            }
            if self.boxes[index].body.kind == BodyKind::Fixed {
                proof {
                    lemma_batch_error_stable(before, updates@, (i + 1) as nat, updates@.len());
                }
                return Err(RotatingWorldError3d::FixedBodyOrientation(id));
            }
            let q = match orientation.normalized() {
                Ok(q) => q,
                Err(error) => {
                    proof {
                        lemma_batch_error_stable(before, updates@, (i + 1) as nat, updates@.len());
                    }
                    return Err(RotatingWorldError3d::Contact(OrientedBoxError3d::Angular(error)));
                },
            };
            normalized.push((index, q));
            i = i + 1;
        }
        let mut boxes = Vec::new();
        std::mem::swap(&mut boxes, &mut self.boxes);
        let mut m: usize = 0;
        while m < normalized.len()
            invariant
                0 <= m <= normalized.len(),
                normalized.len() == updates.len(),
                ids_ascending(before),
                boxes.len() == before.len(),
                orientation_batch_error(before, updates@, updates@.len()) is None,
                forall|k: int|
                    0 <= k < normalized.len() ==> {
                        let (index, q) = #[trigger] normalized@[k];
                        &&& index < before.len()
                        &&& before[index as int].body.id == updates@[k].0
                        &&& q == spec_normalized(updates@[k].1)
                    },
                forall|p: int|
                    0 <= p < before.len() ==> #[trigger] boxes@[p] == reoriented(
                        before[p],
                        updates@,
                        m as int,
                    ),
            decreases normalized.len() - m,
        {
            let (index, q) = normalized[m];
            let ghost current = boxes@;
            let mut updated = boxes[index];
            updated.angular.orientation = q;
            boxes.set(index, updated);
            proof {
                lemma_batch_distinct(before, updates@, updates@.len());
                assert forall|p: int| 0 <= p < before.len() implies #[trigger] boxes@[p]
                    == reoriented(before[p], updates@, m + 1) by {
                    if p == index {
                        assert(updates@[m as int].0 == before[p].body.id);
                        if exists|k: int| 0 <= k < m && (#[trigger] updates@[k]).0 == before[p].body.id {
                            let k = choose|k: int| 0 <= k < m && (#[trigger] updates@[k]).0
                                == before[p].body.id;
                            assert(updates@[k].0 == updates@[m as int].0);
                        }
                        let k = choose|k: int| 0 <= k < m + 1 && (#[trigger] updates@[k]).0
                            == before[p].body.id;
                        assert(k == m);
                    } else {
                        assert(before[p].body.id != before[index as int].body.id) by {
                            if p < index {
                                assert(before[p].body.id.0 < before[index as int].body.id.0);
                            } else {
                                assert(before[index as int].body.id.0 < before[p].body.id.0);
                            }
                        }
                        if exists|k: int| 0 <= k < m + 1 && (#[trigger] updates@[k]).0 == before[p].body.id {
                            let k = choose|k: int| 0 <= k < m + 1 && (#[trigger] updates@[k]).0
                                == before[p].body.id;
                            assert(k != m);
                        }
                        assert(reoriented(before[p], updates@, m + 1) == reoriented(
                            before[p],
                            updates@,
                            m as int,
                        ));
                    }
                }
            }
            m = m + 1;
        }
        proof {
            assert(boxes@ =~= before.map_values(
                |b: RigidBox3d| reoriented(b, updates@, updates@.len() as int),
            ));
            assert forall|i: int, j: int| 0 <= i < j < boxes@.len() implies (#[trigger] boxes@[i]).body.id.0
                < (#[trigger] boxes@[j]).body.id.0 by {
                assert(before[i].body.id.0 < before[j].body.id.0);
            }
        }
        self.boxes = boxes;
        Ok(())
    }

    /// Scans the bodies in id order for exact SAT overlaps with `subject`.
    #[verifier::rlimit(100)]
    #[verifier::spinoff_prover]
    fn scan_overlaps(
        &self,
        subject: OrientedBox3d,
        layers: crate::rigid_box::CollisionLayers3d,
        subject_id: Option<BodyId>,
        include_subject: bool,
        filter: bool,
    ) -> (result: Result<Vec<BodyId>, RotatingWorldError3d>)
        ensures
            match result {
                Ok(ids) => overlap_scan(
                    self.spec_boxes(),
                    subject,
                    layers,
                    subject_id,
                    include_subject,
                    filter,
                    self.spec_boxes().len(),
                ) == Ok::<Seq<BodyId>, RotatingWorldError3d>(ids@),
                Err(error) => overlap_scan(
                    self.spec_boxes(),
                    subject,
                    layers,
                    subject_id,
                    include_subject,
                    filter,
                    self.spec_boxes().len(),
                ) == Err::<Seq<BodyId>, RotatingWorldError3d>(error),
            },
    {
        let mut hits: Vec<BodyId> = Vec::new();
        let mut k: usize = 0;
        while k < self.boxes.len()
            invariant
                0 <= k <= self.boxes.len(),
                overlap_scan(self.boxes@, subject, layers, subject_id, include_subject, filter, k as nat)
                    == Ok::<Seq<BodyId>, RotatingWorldError3d>(hits@),
            decreases self.boxes.len() - k,
        {
            let other = &self.boxes[k];
            let is_subject = match subject_id {
                Some(id) => id.0 == other.body.id.0,
                None => false,
            };
            if is_subject {
                if include_subject {
                    hits.push(other.body.id);
                }
            } else if filter && !layers.collides_with(other.collision_layers) {
            } else {
                match obb_contact_seed(subject, other.oriented_box()) {
                    Err(error) => {
                        proof {
                            lemma_scan_error_stable(
                                self.boxes@,
                                subject,
                                layers,
                                subject_id,
                                include_subject,
                                filter,
                                (k + 1) as nat,
                                self.boxes@.len(),
                            );
                        }
                        return Err(RotatingWorldError3d::Contact(error));
                    },
                    Ok(None) => {},
                    Ok(Some(_)) => hits.push(other.body.id),
                }
            }
            k = k + 1;
        }
        Ok(hits)
    }

    /// Advances the world by `timestep_numerator / timestep_denominator` ticks.
    ///
    /// A negative numerator or non-positive denominator is refused and changes nothing. A zero
    /// step, or a world without a dynamic body, changes nothing. Otherwise every body goes through
    /// the bounded repeated sampled events over the step, and the interval they leave is consumed
    /// in slices short enough that bodies in persistent contact cannot pass through each other.
    /// The report lists, ascending, the ids of the bodies whose state changed, with this step's
    /// counters. On failure the world is unchanged.
    #[verifier::rlimit(60)]
    #[verifier::spinoff_prover]
    pub fn step(&mut self, timestep_numerator: i32, timestep_denominator: i32) -> (result: Result<
        RotatingWorldStepReport3d,
        RotatingWorldError3d,
    >)
        ensures
            final(self).spec_config() == old(self).spec_config(),
            final(self).spec_interaction() == old(self).spec_interaction(),
            timestep_numerator < 0 ==> result == Err::<RotatingWorldStepReport3d, RotatingWorldError3d>(
                RotatingWorldError3d::NegativeTimestepNumerator(timestep_numerator),
            ),
            timestep_numerator >= 0 && timestep_denominator <= 0 ==> result == Err::<
                RotatingWorldStepReport3d,
                RotatingWorldError3d,
            >(RotatingWorldError3d::NonPositiveTimestepDenominator(timestep_denominator)),
            timestep_numerator == 0 && timestep_denominator > 0 ==> (result matches Ok(report)
                && report.changed_body_ids@.len() == 0 && final(self).spec_boxes() == old(
                self,
            ).spec_boxes()),
            match world_step(
                old(self).spec_boxes(),
                old(self).spec_config(),
                timestep_numerator,
                timestep_denominator,
            ) {
                Err(error) => result == Err::<RotatingWorldStepReport3d, RotatingWorldError3d>(error)
                    && final(self).spec_boxes() == old(self).spec_boxes(),
                Ok(next) => {
                    &&& final(self).spec_boxes() == next
                    &&& next.len() == old(self).spec_boxes().len()
                    &&& forall|i: int|
                        0 <= i < next.len() ==> (#[trigger] next[i]).body.id == old(self).spec_boxes()[i].body.id
                    &&& result matches Ok(report)
                    &&& report.changed_body_ids@ == changed_ids(
                        old(self).spec_boxes(),
                        next,
                        next.len(),
                    )
                    &&& forall|i: int, j: int|
                        0 <= i < j < report.changed_body_ids@.len() ==> (#[trigger] report.changed_body_ids@[i]).0
                            < (#[trigger] report.changed_body_ids@[j]).0
                    &&& report.stats == step_stats(
                        old(self).spec_boxes(),
                        old(self).spec_config(),
                        timestep_numerator,
                        timestep_denominator,
                    )
                },
            },
    {
        proof {
            use_type_invariant(&*self);
        }
        if timestep_numerator < 0 {
            return Err(RotatingWorldError3d::NegativeTimestepNumerator(timestep_numerator));
        }
        if timestep_denominator <= 0 {
            return Err(RotatingWorldError3d::NonPositiveTimestepDenominator(timestep_denominator));
        }
        let total = self.boxes.len();
        let authority = dynamic_count_exec(&self.boxes);
        let solver = if authority == 0 {
            0
        } else {
            total
        };
        let base = RotatingWorldStepStats3d {
            body_count: total,
            solver_body_count: solver,
            solver_bypassed_body_count: total - solver,
            response_authority_body_count: authority,
            sampled_events: 0,
            tail_contacts: 0,
            tail_slices: 0,
            tail_replays: 0,
            event_response_passes: 0,
            stabilization_passes: 0,
            stabilizations_hitting_limit: 0,
            stabilization_candidate_pairs: 0,
            stabilization_exact_contacts: 0,
            stabilization_active_bodies: 0,
        };
        if timestep_numerator == 0 || authority == 0 {
            let report = RotatingWorldStepReport3d { changed_body_ids: Vec::new(), stats: base };
            assert(changed_ids(self.boxes@, self.boxes@, self.boxes@.len()) =~= Seq::<BodyId>::empty())
                by {
                lemma_no_changes(self.boxes@, self.boxes@.len());
            }
            return Ok(report);
        }
        let events_config = RepeatedRotatingEventConfig3d::new(
            RotatingContactSearchConfig3d::new(
                RigidBoxFreeFlightConfig3d::new(
                    self.config.gravity,
                    timestep_numerator,
                    timestep_denominator,
                ),
                self.config.sample_count,
                self.config.refinement_steps,
            ),
            self.config.solver_passes,
            self.config.max_events,
        );
        let advance = match advance_repeated_rotating_events(self.boxes.as_slice(), events_config) {
            Ok(advance) => advance,
            Err(error) => return Err(RotatingWorldError3d::Repeated(error)),
        };
        let events = advance.events.len();
        let work = advance.work;
        let (outputs, tail) = if advance.remaining.timestep_is_zero() {
            (advance.boxes, TailStepStats3d { contacts: 0, slices: 0, replays: 0 })
        } else {
            match consume_tail(advance.boxes, advance.remaining, self.config.solver_passes) {
                Ok(outcome) => outcome,
                Err(error) => return Err(error),
            }
        };
        let (next, changed) = merge_outputs(&self.boxes, &outputs);
        self.boxes = next;
        Ok(
            RotatingWorldStepReport3d {
                changed_body_ids: changed,
                stats: RotatingWorldStepStats3d {
                    sampled_events: events,
                    tail_contacts: tail.contacts,
                    tail_slices: tail.slices,
                    tail_replays: tail.replays,
                    event_response_passes: work.event_response_passes,
                    stabilization_passes: work.stabilization_passes,
                    stabilizations_hitting_limit: work.stabilizations_hitting_limit,
                    stabilization_candidate_pairs: work.stabilization_candidate_pairs,
                    stabilization_exact_contacts: work.stabilization_exact_contacts,
                    stabilization_active_bodies: work.stabilization_active_bodies,
                    ..base
                },
            },
        )
    }

    /// Stable id-ordered overlaps of one known body, limited to bodies whose collision layers
    /// accept it; intended for overlap-only sensors and triggers.
    pub fn body_overlaps(&self, body: BodyId) -> (result: Result<Vec<BodyId>, RotatingWorldError3d>)
        ensures
            reports_ids(result, body_overlaps_result(self.spec_boxes(), body)),
    {
        proof {
            use_type_invariant(self);
        }
        let index = match self.index_of(body) {
            Some(index) => index,
            None => return Err(RotatingWorldError3d::MissingBody(body)),
        };
        proof {
            lemma_box_with_id(self.boxes@, index as int);
        }
        let subject = &self.boxes[index];
        let shape = subject.oriented_box();
        match oriented_box_vertices(shape) {
            Ok(_) => {},
            Err(error) => return Err(RotatingWorldError3d::Contact(error)),
        }
        self.scan_overlaps(shape, subject.collision_layers, Some(body), false, true)
    }

    /// Stable id-ordered overlaps of an arbitrary oriented query box. When the query is exactly
    /// the current box of a dynamic body, that body and its layer-accepted overlaps are reported;
    /// otherwise every overlapping body is.
    pub fn overlap_query(&self, query: OrientedBox3d) -> (result: Result<Vec<BodyId>, RotatingWorldError3d>)
        ensures
            reports_ids(result, overlap_query_result(self.spec_boxes(), query)),
    {
        match oriented_box_vertices(query) {
            Ok(_) => {},
            Err(error) => return Err(RotatingWorldError3d::Contact(error)),
        }
        let mut k: usize = 0;
        while k < self.boxes.len()
            invariant
                0 <= k <= self.boxes.len(),
                vertices_error(query) is None,
                first_dynamic_match(self.boxes@, query, k as nat) is None,
            decreases self.boxes.len() - k,
        {
            let candidate = &self.boxes[k];
            if candidate.body.kind == BodyKind::Dynamic && candidate.oriented_box() == query {
                assert(first_dynamic_match(self.boxes@, query, (k + 1) as nat) == Some(k as int));
                proof {
                    lemma_first_match_stable(self.boxes@, query, (k + 1) as nat, self.boxes@.len());
                }
                return self.scan_overlaps(
                    query,
                    candidate.collision_layers,
                    Some(candidate.body.id),
                    true,
                    true,
                );
            }
            k = k + 1;
        }
        self.scan_overlaps(query, crate::rigid_box::CollisionLayers3d::all(), None, false, false)
    }

    /// Exact current contacts of one known body, in id order of the other bodies.
    #[verifier::rlimit(90)]
    #[verifier::spinoff_prover]
    pub fn body_contacts(&self, body: BodyId) -> (result: Result<
        Vec<BodyCurrentContact3d>,
        RotatingWorldError3d,
    >)
        ensures
            reports_contacts(result, body_contacts_result(self.spec_boxes(), body)),
    {
        proof {
            use_type_invariant(self);
        }
        let index = match self.index_of(body) {
            Some(index) => index,
            None => return Err(RotatingWorldError3d::MissingBody(body)),
        };
        proof {
            lemma_box_with_id(self.boxes@, index as int);
        }
        let subject = &self.boxes[index];
        let zero_time = RigidBoxFreeFlightConfig3d::new(Vec3i::zero(), 0, 1);
        let subject_bounds = match rigid_box_free_flight_sweep_bounds(subject, zero_time) {
            Ok(bounds) => bounds,
            Err(error) => return Err(RotatingWorldError3d::FreeFlight(error)),
        };
        let mut contacts: Vec<BodyCurrentContact3d> = Vec::new();
        let mut k: usize = 0;
        while k < self.boxes.len()
            invariant
                0 <= k <= self.boxes.len(),
                index < self.boxes.len(),
                subject == &self.boxes@[index as int],
                subject.body.id == body,
                holds_id(self.boxes@, body),
                box_with_id(self.boxes@, body) == *subject,
                current_bounds(*subject) == Ok::<
                    RotationalSweepBounds3d,
                    RigidBoxFreeFlightError3d,
                >(subject_bounds),
                zero_time == RigidBoxFreeFlightConfig3d::spec_new(Vec3i::spec_zero(), 0, 1),
                contact_scan(self.boxes@, *subject, subject_bounds, k as nat) == Ok::<
                    Seq<BodyCurrentContact3d>,
                    RotatingWorldError3d,
                >(contacts@),
            decreases self.boxes.len() - k,
        {
            let other = &self.boxes[k];
            if other.body.id.0 != body.0 && subject.collision_layers.collides_with(
                other.collision_layers,
            ) {
                let other_bounds = match rigid_box_free_flight_sweep_bounds(other, zero_time) {
                    Ok(bounds) => bounds,
                    Err(error) => {
                        proof {
                            lemma_contact_scan_error_stable(
                                self.boxes@,
                                *subject,
                                subject_bounds,
                                (k + 1) as nat,
                                self.boxes@.len(),
                            );
                        }
                        return Err(RotatingWorldError3d::FreeFlight(error));
                    },
                };
                if bounds_overlap_exec(&subject_bounds, &other_bounds) {
                    match obb_contact_seed(subject.oriented_box(), other.oriented_box()) {
                        Err(error) => {
                            proof {
                                lemma_contact_scan_error_stable(
                                    self.boxes@,
                                    *subject,
                                    subject_bounds,
                                    (k + 1) as nat,
                                    self.boxes@.len(),
                                );
                            }
                            return Err(RotatingWorldError3d::Contact(error));
                        },
                        Ok(None) => {},
                        Ok(Some(seed)) => {
                            let contact = BodyCurrentContact3d { other: other.body.id, axis: seed.axis };
                            proof {
                                let outcome = sat_outcome(
                                    subject.spec_oriented_box(),
                                    other.spec_oriented_box(),
                                );
                                let axis = outcome->axis;
                                assert(seed.axis =~= [axis.0 as i128, axis.1 as i128, axis.2 as i128]);
                            }
                            contacts.push(contact);
                        },
                    }
                }
            }
            k = k + 1;
        }
        Ok(contacts)
    }
}

/// In a world whose ids ascend, two bodies with the same id are the same body.
proof fn lemma_id_identifies(boxes: Seq<RigidBox3d>, a: RigidBox3d, b: RigidBox3d)
    requires
        ids_ascending(boxes),
        boxes.contains(a),
        boxes.contains(b),
        a.body.id == b.body.id,
    ensures
        a == b,
{
    let i = choose|i: int| 0 <= i < boxes.len() && boxes[i] == a;
    let j = choose|j: int| 0 <= j < boxes.len() && boxes[j] == b;
    if i < j {
        assert(boxes[i].body.id.0 < boxes[j].body.id.0);
    } else if j < i {
        assert(boxes[j].body.id.0 < boxes[i].body.id.0);
    }
}

/// A body that [`RotatingWorld3d::add_box`] accepted is exactly what a lookup by its id gives
/// back, and removing that id gives it back and leaves no body with the id: `before` and `after`
/// relate as `add_box` states, `removed` and `remaining` as `remove_box` states on `after`.
pub proof fn lemma_add_then_lookup_and_remove(
    before: Seq<RigidBox3d>,
    added: RigidBox3d,
    after: Seq<RigidBox3d>,
    removed: RigidBox3d,
    remaining: Seq<RigidBox3d>,
)
    requires
        ids_ascending(after),
        forall|b: RigidBox3d| after.contains(b) <==> (before.contains(b) || b == added),
        removed.body.id == added.body.id,
        after.contains(removed),
        forall|b: RigidBox3d| remaining.contains(b) <==> (after.contains(b) && b.body.id != added.body.id),
    ensures
        forall|found: RigidBox3d|
            after.contains(found) && found.body.id == added.body.id ==> found == added,
        removed == added,
        !holds_id(remaining, added.body.id),
{
    assert(after.contains(added));
    assert forall|found: RigidBox3d|
        after.contains(found) && found.body.id == added.body.id implies found == added by {
        lemma_id_identifies(after, found, added);
    }
    if holds_id(remaining, added.body.id) {
        let i = choose|i: int|
            0 <= i < remaining.len() && (#[trigger] remaining[i]).body.id == added.body.id;
        assert(remaining.contains(remaining[i]));
    }
}


/// Along any run of worlds in which each call keeps the configuration, as every method of
/// [`RotatingWorld3d`] ensures, every world has the configuration of the first.
pub proof fn lemma_config_constant_along_runs(worlds: Seq<RotatingWorld3d>)
    requires
        forall|k: int| 0 <= k < worlds.len() - 1 ==> (#[trigger] worlds[k + 1]).spec_config() == worlds[k].spec_config(),
    ensures
        forall|k: int| 0 <= k < worlds.len() ==> (#[trigger] worlds[k]).spec_config() == worlds[0].spec_config(),
    decreases worlds.len(),
{
    if worlds.len() > 1 {
        let shorter = worlds.drop_last();
        assert forall|k: int| 0 <= k < shorter.len() - 1 implies (#[trigger] shorter[k + 1]).spec_config()
            == shorter[k].spec_config() by {
            assert(shorter[k + 1] == worlds[k + 1]);
            assert(shorter[k] == worlds[k]);
        }
        lemma_config_constant_along_runs(shorter);
        assert forall|k: int| 0 <= k < worlds.len() implies (#[trigger] worlds[k]).spec_config()
            == worlds[0].spec_config() by {
            if k < worlds.len() - 1 {
                assert(shorter[k] == worlds[k]);
            } else {
                assert(shorter[k - 1] == worlds[k - 1]);
                assert(worlds[(k - 1) + 1].spec_config() == worlds[k - 1].spec_config());
            }
        }
    }
}



} // verus!
