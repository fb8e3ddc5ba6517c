//! Bounded repeated sampled rotating-event advancement with exact remaining-time reduction.
use vstd::prelude::*;

use crate::math::Vec3i;
use crate::rigid_box::RigidBox3d;
use crate::rigid_box_free_flight::{RigidBoxFreeFlightConfig3d, RigidBoxFreeFlightError3d};
use crate::rotating_broad_phase::{
    RotationalSweepPair3d, is_candidate_pair, lemma_sorted_sequences_equal,
    rotational_sweep_candidate_pairs, strictly_sorted,
};
use crate::rotating_contact_frontier::{
    RotatingContactFrontier3d, RotatingContactFrontierError3d, collect_frontier_contacts, find_pair,
    first_for_pair, same_seed, sample_frontier_boxes, sampled_all, sampled_contacts,
};
use crate::rotating_contact_response::{
    RotatingContactResponseError3d, body_index, body_index_exec, frontier_activity,
    frontier_response, island_error, no_activity, resolve_rotating_contact_frontier_with_activity,
    run_activity, run_passes,
};
use crate::rotating_contact_search::{
    RotatingContactSearchConfig3d, RotatingContactSearchHit3d, SampledContactTime3d,
    candidate_sequence, lemma_search_hits_within_interval, sampled_rotating_contact_search,
    search_result, time_within_interval,
};
use crate::rotating_recontact_search::{
    lemma_recontact_hits_strictly_positive, recontact_result, sampled_rotating_recontact_search,
};

verus! {

/// The most events one advance may resolve.
pub const MAX_REPEATED_ROTATING_EVENTS: u16 = 64;

/// Search policy, solver passes per event and the event limit of one advance.
#[derive(Clone, Copy, Debug, PartialEq, Eq, Structural)]
pub struct RepeatedRotatingEventConfig3d {
    pub search: RotatingContactSearchConfig3d,
    pub solver_passes: u8,
    pub max_events: u16,
}

impl RepeatedRotatingEventConfig3d {
    pub fn new(search: RotatingContactSearchConfig3d, solver_passes: u8, max_events: u16) -> (config:
        Self)
        ensures
            config == (RepeatedRotatingEventConfig3d { search, solver_passes, max_events }),
    {
        RepeatedRotatingEventConfig3d { search, solver_passes, max_events }
    }
}

/// One resolved event: its sampled time, the contacts resolved together, and the passes used.
#[derive(Clone, Debug, PartialEq, Eq)]
pub struct RotatingResolvedEvent3d {
    pub time: SampledContactTime3d,
    pub contacts: Vec<RotatingContactSearchHit3d>,
    pub response_passes: u8,
}

/// Work counters of one advance; every counter saturates.
#[derive(Clone, Copy, Debug, Default, PartialEq, Eq, Structural)]
pub struct RepeatedRotatingEventWorkStats3d {
    pub event_response_passes: u64,
    pub stabilization_passes: u64,
    pub stabilizations_hitting_limit: u64,
    pub stabilization_candidate_pairs: u64,
    pub stabilization_exact_contacts: u64,
    pub stabilization_active_bodies: u64,
}

/// The outcome of one advance: the bodies, the events in order, the unconsumed interval and
/// the work done.
#[derive(Clone, Debug, PartialEq, Eq)]
pub struct RepeatedRotatingEventAdvance3d {
    pub boxes: Vec<RigidBox3d>,
    pub events: Vec<RotatingResolvedEvent3d>,
    pub remaining: RigidBoxFreeFlightConfig3d,
    pub work: RepeatedRotatingEventWorkStats3d,
}

#[derive(Clone, Copy, Debug, PartialEq, Eq, Structural)]
pub enum RepeatedRotatingEventError3d {
    ZeroEventLimit,
    EventLimit(u16),
    NegativeTimestepNumerator(i128),
    NonPositiveTimestepDenominator(i128),
    InvalidRemainder(SampledContactTime3d),
    RatioTooLarge,
    Frontier(RotatingContactFrontierError3d),
    Response(RotatingContactResponseError3d),
}

/// An event as values: time, contacts, response passes.
pub type EventView = (SampledContactTime3d, Seq<RotatingContactSearchHit3d>, u8);

/// A finished advance as values: bodies, events, remaining interval, work.
pub type AdvanceView = (Seq<RigidBox3d>, Seq<EventView>, RigidBoxFreeFlightConfig3d, RepeatedRotatingEventWorkStats3d);

pub open spec fn event_view(event: RotatingResolvedEvent3d) -> EventView {
    (event.time, event.contacts@, event.response_passes)
}

pub open spec fn events_view(events: Seq<RotatingResolvedEvent3d>) -> Seq<EventView> {
    events.map_values(|event: RotatingResolvedEvent3d| event_view(event))
}

/// No work done yet.
pub open spec fn no_work() -> RepeatedRotatingEventWorkStats3d {
    RepeatedRotatingEventWorkStats3d {
        event_response_passes: 0,
        stabilization_passes: 0,
        stabilizations_hitting_limit: 0,
        stabilization_candidate_pairs: 0,
        stabilization_exact_contacts: 0,
        stabilization_active_bodies: 0,
    }
}

/// `counter + amount`, saturating at `u64::MAX`.
pub open spec fn sat_add(counter: u64, amount: int) -> u64 {
    if counter + amount > u64::MAX {
        u64::MAX
    } else {
        (counter + amount) as u64
    }
}

/// The free flight of a zero-length interval: the current state, unmoved.
pub open spec fn zero_flight() -> RigidBoxFreeFlightConfig3d {
    RigidBoxFreeFlightConfig3d::spec_new(Vec3i { x: 0, y: 0, z: 0 }, 0, 1)
}

/// The failure of a configuration, if any.
pub open spec fn config_error(config: RepeatedRotatingEventConfig3d) -> Option<
    RepeatedRotatingEventError3d,
> {
    if config.max_events == 0 {
        Some(RepeatedRotatingEventError3d::ZeroEventLimit)
    } else if config.max_events > MAX_REPEATED_ROTATING_EVENTS {
        Some(RepeatedRotatingEventError3d::EventLimit(MAX_REPEATED_ROTATING_EVENTS))
    } else {
        match config.search.free_flight.timestep_error() {
            Some(RigidBoxFreeFlightError3d::NegativeTimestepNumerator(value)) => Some(
                RepeatedRotatingEventError3d::NegativeTimestepNumerator(value),
            ),
            Some(RigidBoxFreeFlightError3d::NonPositiveTimestepDenominator(value)) => Some(
                RepeatedRotatingEventError3d::NonPositiveTimestepDenominator(value),
            ),
            Some(_) => Some(RepeatedRotatingEventError3d::RatioTooLarge),
            None => None,
        }
    }
}

/// The search policy over the interval `free_flight`.
pub open spec fn search_over(
    search: RotatingContactSearchConfig3d,
    free_flight: RigidBoxFreeFlightConfig3d,
) -> RotatingContactSearchConfig3d {
    RotatingContactSearchConfig3d { free_flight, ..search }
}

/// Admitting a hit: every body advanced to its time (left in place at time zero), then every
/// candidate pair in exact contact there, as hits at that time; the hit itself must be among them
/// unchanged.
pub open spec fn admitted(
    boxes: Seq<RigidBox3d>,
    free_flight: RigidBoxFreeFlightConfig3d,
    hit: RotatingContactSearchHit3d,
) -> Result<(Seq<RigidBox3d>, Seq<RotatingContactSearchHit3d>), RotatingContactFrontierError3d> {
    let time = hit.time;
    let advanced = if time == SampledContactTime3d::spec_zero() {
        Ok(boxes)
    } else {
        match sampled_all(boxes, free_flight, time.numerator, time.denominator, boxes.len()) {
            Err(error) => Err(RotatingContactFrontierError3d::FreeFlight(error)),
            Ok(sampled) => Ok(sampled),
        }
    };
    match advanced {
        Err(error) => Err(error),
        Ok(current) => match sampled_contacts(current, zero_flight(), time) {
            Err(error) => Err(error),
            Ok(contacts) => match first_for_pair(contacts, hit.pair) {
                None => Err(RotatingContactFrontierError3d::EarliestContactMissing(hit.pair)),
                Some(index) => if contacts[index].contact != hit.contact {
                    Err(RotatingContactFrontierError3d::EarliestContactChanged(hit.pair))
                } else {
                    Ok((current, contacts))
                },
            },
        },
    }
}

/// The response to `contacts` in the current state with `passes` solver passes: the bodies, the
/// passes used, and per body whether some pass moved it.
pub open spec fn respond(
    boxes: Seq<RigidBox3d>,
    contacts: Seq<RotatingContactSearchHit3d>,
    passes: nat,
) -> Result<(Seq<RigidBox3d>, nat, Seq<bool>), RotatingContactResponseError3d> {
    if passes == 0 {
        Err(RotatingContactResponseError3d::ZeroSolverPasses)
    } else {
        match island_error(boxes, contacts, contacts.len()) {
            Some(error) => Err(error),
            None => match run_passes(boxes, contacts, passes, 0) {
                Err(error) => Err(error),
                Ok((world, used)) => Ok(
                    (world, used, run_activity(boxes, contacts, passes, 0, no_activity(boxes.len()))),
                ),
            },
        }
    }
}

/// The interval left after an event at `time`: the remainder `1 - time` of `remaining`, exactly.
pub open spec fn remainder_after(
    remaining: RigidBoxFreeFlightConfig3d,
    time: SampledContactTime3d,
) -> Result<RigidBoxFreeFlightConfig3d, RepeatedRotatingEventError3d> {
    if time.denominator == 0 || time.numerator > time.denominator {
        Err(RepeatedRotatingEventError3d::InvalidRemainder(time))
    } else {
        match remaining.scaled_config((time.denominator - time.numerator) as u32, time.denominator) {
            Ok(scaled) => Ok(scaled),
            Err(RigidBoxFreeFlightError3d::NegativeTimestepNumerator(value)) => Err(
                RepeatedRotatingEventError3d::NegativeTimestepNumerator(value),
            ),
            Err(RigidBoxFreeFlightError3d::NonPositiveTimestepDenominator(value)) => Err(
                RepeatedRotatingEventError3d::NonPositiveTimestepDenominator(value),
            ),
            Err(_) => Err(RepeatedRotatingEventError3d::RatioTooLarge),
        }
    }
}

/// Whether the body with `id` is flagged.
pub open spec fn flagged(world: Seq<RigidBox3d>, flags: Seq<bool>, id: crate::body::BodyId) -> bool {
    match body_index(world, id) {
        Some(index) => 0 <= index < flags.len() && flags[index],
        None => false,
    }
}

/// Whether a pair has a flagged body.
pub open spec fn touches(world: Seq<RigidBox3d>, flags: Seq<bool>, pair: RotationalSweepPair3d) -> bool {
    flagged(world, flags, pair.left) || flagged(world, flags, pair.right)
}

/// The number of set flags among the first `n`.
pub open spec fn count_flags(flags: Seq<bool>, n: nat) -> nat
    decreases n,
{
    if n == 0 {
        0
    } else {
        count_flags(flags, (n - 1) as nat) + if flags[n - 1] {
            1nat
        } else {
            0nat
        }
    }
}

/// The number of the first `n` pairs with a flagged body.
pub open spec fn count_touching_pairs(
    world: Seq<RigidBox3d>,
    flags: Seq<bool>,
    pairs: Seq<RotationalSweepPair3d>,
    n: nat,
) -> nat
    decreases n,
{
    if n == 0 {
        0
    } else {
        count_touching_pairs(world, flags, pairs, (n - 1) as nat) + if touches(
            world,
            flags,
            pairs[n - 1],
        ) {
            1nat
        } else {
            0nat
        }
    }
}

/// The first `n` contacts with a flagged body, in order.
pub open spec fn touching_contacts(
    world: Seq<RigidBox3d>,
    flags: Seq<bool>,
    contacts: Seq<RotatingContactSearchHit3d>,
    n: nat,
) -> Seq<RotatingContactSearchHit3d>
    decreases n,
{
    if n == 0 {
        Seq::empty()
    } else if touches(world, flags, contacts[n - 1].pair) {
        touching_contacts(world, flags, contacts, (n - 1) as nat).push(contacts[n - 1])
    } else {
        touching_contacts(world, flags, contacts, (n - 1) as nat)
    }
}

/// `flags` with the body `id` set.
pub open spec fn mark(world: Seq<RigidBox3d>, flags: Seq<bool>, id: crate::body::BodyId) -> Seq<bool> {
    match body_index(world, id) {
        Some(index) => if 0 <= index < flags.len() {
            flags.update(index, true)
        } else {
            flags
        },
        None => flags,
    }
}

/// One sweep over the first `k` contacts: a contact with a flagged body flags both its bodies.
pub open spec fn sweep(
    world: Seq<RigidBox3d>,
    contacts: Seq<RotatingContactSearchHit3d>,
    flags: Seq<bool>,
    k: nat,
) -> Seq<bool>
    decreases k,
{
    if k == 0 {
        flags
    } else {
        let swept = sweep(world, contacts, flags, (k - 1) as nat);
        let pair = contacts[k - 1].pair;
        if touches(world, swept, pair) {
            mark(world, mark(world, swept, pair.left), pair.right)
        } else {
            swept
        }
    }
}

/// Sweeps repeated until nothing changes (at most `fuel` of them): the bodies connected by
/// contacts to a flagged body.
pub open spec fn reach(
    world: Seq<RigidBox3d>,
    contacts: Seq<RotatingContactSearchHit3d>,
    flags: Seq<bool>,
    fuel: nat,
) -> Seq<bool>
    decreases fuel,
{
    if fuel == 0 {
        flags
    } else {
        let swept = sweep(world, contacts, flags, contacts.len());
        if swept == flags {
            flags
        } else {
            reach(world, contacts, swept, (fuel - 1) as nat)
        }
    }
}

/// The contacts of the islands that hold a flagged body.
pub open spec fn island_contacts(
    world: Seq<RigidBox3d>,
    flags: Seq<bool>,
    contacts: Seq<RotatingContactSearchHit3d>,
) -> Seq<RotatingContactSearchHit3d> {
    let reached = reach(world, contacts, flags, world.len());
    touching_contacts(world, reached, contacts, contacts.len())
}

/// Stabilization from pass `pass` on: while some body is active, the current contacts of the
/// islands holding an active body are resolved together in one solver pass, and the bodies that
/// pass moved become the active ones. Counts the active bodies, the candidate pairs and exact
/// contacts with an active body, the passes, and a run that ends with active bodies left.
pub open spec fn stabilize(
    world: Seq<RigidBox3d>,
    passes: nat,
    active: Seq<bool>,
    work: RepeatedRotatingEventWorkStats3d,
    pass: nat,
) -> Result<(Seq<RigidBox3d>, RepeatedRotatingEventWorkStats3d), RepeatedRotatingEventError3d>
    decreases passes - pass,
{
    if pass >= passes || count_flags(active, active.len()) == 0 {
        Ok((world, work))
    } else {
        let counted = RepeatedRotatingEventWorkStats3d {
            stabilization_active_bodies: sat_add(
                work.stabilization_active_bodies,
                count_flags(active, active.len()) as int,
            ),
            ..work
        };
        match sampled_contacts(world, zero_flight(), SampledContactTime3d::spec_zero()) {
            Err(error) => Err(RepeatedRotatingEventError3d::Frontier(error)),
            Ok(current) => {
                let pairs = candidate_sequence(world, zero_flight());
                let surveyed = RepeatedRotatingEventWorkStats3d {
                    stabilization_candidate_pairs: sat_add(
                        counted.stabilization_candidate_pairs,
                        count_touching_pairs(world, active, pairs, pairs.len()) as int,
                    ),
                    stabilization_exact_contacts: sat_add(
                        counted.stabilization_exact_contacts,
                        touching_contacts(world, active, current, current.len()).len() as int,
                    ),
                    ..counted
                };
                let island = island_contacts(world, active, current);
                if island.len() == 0 {
                    Ok((world, surveyed))
                } else {
                    let solved = RepeatedRotatingEventWorkStats3d {
                        stabilization_passes: sat_add(surveyed.stabilization_passes, 1),
                        ..surveyed
                    };
                    match respond(world, island, 1) {
                        Err(error) => Err(RepeatedRotatingEventError3d::Response(error)),
                        Ok((next, _, moved)) => if count_flags(moved, moved.len()) == 0 {
                            Ok((next, solved))
                        } else if pass + 1 == passes {
                            Ok(
                                (
                                    next,
                                    RepeatedRotatingEventWorkStats3d {
                                        stabilizations_hitting_limit: sat_add(
                                            solved.stabilizations_hitting_limit,
                                            1,
                                        ),
                                        ..solved
                                    },
                                ),
                            )
                        } else {
                            stabilize(next, passes, moved, solved, pass + 1)
                        },
                    }
                }
            },
        }
    }
}

/// One event: the response to its contacts, the interval left after it, and stabilization of
/// the bodies the response moved; the bodies, the remaining interval, the work and the event.
pub open spec fn resolve_event(
    boxes: Seq<RigidBox3d>,
    time: SampledContactTime3d,
    contacts: Seq<RotatingContactSearchHit3d>,
    remaining: RigidBoxFreeFlightConfig3d,
    work: RepeatedRotatingEventWorkStats3d,
    config: RepeatedRotatingEventConfig3d,
) -> Result<
    (Seq<RigidBox3d>, RigidBoxFreeFlightConfig3d, RepeatedRotatingEventWorkStats3d, EventView),
    RepeatedRotatingEventError3d,
> {
    match respond(boxes, contacts, config.solver_passes as nat) {
        Err(error) => Err(RepeatedRotatingEventError3d::Response(error)),
        Ok((world, used, moved)) => match remainder_after(remaining, time) {
            Err(error) => Err(error),
            Ok(left) => {
                let responded = RepeatedRotatingEventWorkStats3d {
                    event_response_passes: sat_add(work.event_response_passes, used as int),
                    ..work
                };
                match stabilize(world, config.solver_passes as nat, moved, responded, 0) {
                    Err(error) => Err(error),
                    Ok((settled, worked)) => Ok(
                        (settled, left, worked, (time, contacts, used as u8)),
                    ),
                }
            },
        },
    }
}

/// The next event after the current state: the earliest strictly positive re-contact over
/// `remaining`, admitted.
pub open spec fn next_event(
    boxes: Seq<RigidBox3d>,
    remaining: RigidBoxFreeFlightConfig3d,
    config: RepeatedRotatingEventConfig3d,
) -> Result<Option<(Seq<RigidBox3d>, SampledContactTime3d, Seq<RotatingContactSearchHit3d>)>, RepeatedRotatingEventError3d> {
    let search = search_over(config.search, remaining);
    match recontact_result(boxes, search, Set::<(u64, u64)>::empty()) {
        Err(error) => Err(
            RepeatedRotatingEventError3d::Frontier(RotatingContactFrontierError3d::Search(error)),
        ),
        Ok((None, _)) => Ok(None),
        Ok((Some(hit), _)) => match admitted(boxes, remaining, hit) {
            Err(error) => Err(RepeatedRotatingEventError3d::Frontier(error)),
            Ok((current, contacts)) => Ok(Some((current, hit.time, contacts))),
        },
    }
}

/// Events from an admitted event on: each is resolved, then the next re-contact in what is left
/// of the interval is searched, until none is found, the interval is used up, or one more event
/// than `max_events` would be needed.
pub open spec fn events_from(
    boxes: Seq<RigidBox3d>,
    events: Seq<EventView>,
    remaining: RigidBoxFreeFlightConfig3d,
    work: RepeatedRotatingEventWorkStats3d,
    time: SampledContactTime3d,
    contacts: Seq<RotatingContactSearchHit3d>,
    config: RepeatedRotatingEventConfig3d,
) -> Result<AdvanceView, RepeatedRotatingEventError3d>
    decreases config.max_events - events.len(),
{
    if events.len() >= config.max_events {
        Err(RepeatedRotatingEventError3d::EventLimit(config.max_events))
    } else {
        match resolve_event(boxes, time, contacts, remaining, work, config) {
            Err(error) => Err(error),
            Ok((settled, left, worked, event)) => {
                let recorded = events.push(event);
                if left.timestep_error() is None && left.spec_timestep_numerator() == 0 {
                    Ok((settled, recorded, left, worked))
                } else {
                    match next_event(settled, left, config) {
                        Err(error) => Err(error),
                        Ok(None) => Ok((settled, recorded, left, worked)),
                        Ok(Some((current, next_time, next_contacts))) => events_from(
                            current,
                            recorded,
                            left,
                            worked,
                            next_time,
                            next_contacts,
                            config,
                        ),
                    }
                }
            },
        }
    }
}

/// The whole advance: the earliest contact over the interval, admitted, then events from there.
pub open spec fn repeated_events(boxes: Seq<RigidBox3d>, config: RepeatedRotatingEventConfig3d) -> Result<
    AdvanceView,
    RepeatedRotatingEventError3d,
> {
    match config_error(config) {
        Some(error) => Err(error),
        None => match search_result(boxes, config.search) {
            Err(error) => Err(
                RepeatedRotatingEventError3d::Frontier(RotatingContactFrontierError3d::Search(error)),
            ),
            Ok(None) => Ok((boxes, Seq::empty(), config.search.free_flight, no_work())),
            Ok(Some(hit)) => match admitted(boxes, config.search.free_flight, hit) {
                Err(error) => Err(RepeatedRotatingEventError3d::Frontier(error)),
                Ok((current, contacts)) => events_from(
                    current,
                    Seq::empty(),
                    config.search.free_flight,
                    no_work(),
                    hit.time,
                    contacts,
                    config,
                ),
            },
        },
    }
}

// ---------------------------------------------------------------------------------------------
// Executable pieces
// ---------------------------------------------------------------------------------------------

fn validate_config(config: RepeatedRotatingEventConfig3d) -> (result: Result<(), RepeatedRotatingEventError3d>)
    ensures
        match config_error(config) {
            Some(error) => result == Err::<(), RepeatedRotatingEventError3d>(error),
            None => result is Ok,
        },
{
    if config.max_events == 0 {
        return Err(RepeatedRotatingEventError3d::ZeroEventLimit);
    }
    if config.max_events > MAX_REPEATED_ROTATING_EVENTS {
        return Err(RepeatedRotatingEventError3d::EventLimit(MAX_REPEATED_ROTATING_EVENTS));
    }
    match config.search.free_flight.exact_timestep() {
        Ok(_) => Ok(()),
        Err(RigidBoxFreeFlightError3d::NegativeTimestepNumerator(value)) => Err(
            RepeatedRotatingEventError3d::NegativeTimestepNumerator(value),
        ),
        Err(RigidBoxFreeFlightError3d::NonPositiveTimestepDenominator(value)) => Err(
            RepeatedRotatingEventError3d::NonPositiveTimestepDenominator(value),
        ),
        Err(_) => Err(RepeatedRotatingEventError3d::RatioTooLarge),
    }
}

pub(crate) fn zero_flight_exec() -> (config: RigidBoxFreeFlightConfig3d)
    ensures
        config == zero_flight(),
{
    RigidBoxFreeFlightConfig3d::new(Vec3i { x: 0, y: 0, z: 0 }, 0, 1)
}

fn sat_add_exec(counter: u64, amount: usize) -> (sum: u64)
    ensures
        sum == sat_add(counter, amount as int),
{
    let amount = amount as u64;
    if counter > u64::MAX - amount {
        u64::MAX
    } else {
        counter + amount
    }
}

/// Admits `hit`: the bodies advanced to its time and every exact contact there.
fn admit_hit(boxes: &Vec<RigidBox3d>, free_flight: RigidBoxFreeFlightConfig3d, hit: RotatingContactSearchHit3d) -> (result:
    Result<(Vec<RigidBox3d>, Vec<RotatingContactSearchHit3d>), RotatingContactFrontierError3d>)
    ensures
        match admitted(boxes@, free_flight, hit) {
            Err(error) => result == Err::<
                (Vec<RigidBox3d>, Vec<RotatingContactSearchHit3d>),
                RotatingContactFrontierError3d,
            >(error),
            Ok((current, contacts)) => result matches Ok((v, c)) && v@ == current && c@ == contacts,
        },
{
    let time = hit.time;
    let current = if time.numerator == 0 && time.denominator == 1 {
        boxes.clone()
    } else {
        match sample_frontier_boxes(boxes.as_slice(), free_flight, time) {
            Ok(sampled) => sampled,
            Err(error) => return Err(RotatingContactFrontierError3d::FreeFlight(error)),
        }
    };
    let contacts = match collect_frontier_contacts(current.as_slice(), zero_flight_exec(), time) {
        Ok(contacts) => contacts,
        Err(error) => return Err(error),
    };
    let chosen = match find_pair(&contacts, hit.pair) {
        Some(index) => index,
        None => return Err(RotatingContactFrontierError3d::EarliestContactMissing(hit.pair)),
    };
    let same = same_seed(&contacts[chosen].contact, &hit.contact);
    if !same {
        return Err(RotatingContactFrontierError3d::EarliestContactChanged(hit.pair));
    }
    Ok((current, contacts))
}

/// Resolves `contacts` in the current state; the passes used, the bodies moved, the contacts.
pub(crate) fn respond_exec(boxes: &mut Vec<RigidBox3d>, contacts: Vec<RotatingContactSearchHit3d>, passes: u8) -> (result:
    Result<(u8, Vec<bool>, Vec<RotatingContactSearchHit3d>), RotatingContactResponseError3d>)
    ensures
        match respond(old(boxes)@, contacts@, passes as nat) {
            Err(error) => result == Err::<
                (u8, Vec<bool>, Vec<RotatingContactSearchHit3d>),
                RotatingContactResponseError3d,
            >(error),
            Ok((world, used, moved)) => {
                &&& final(boxes)@ == world
                &&& result matches Ok((u, m, c))
                &&& u == used
                &&& m@ == moved
                &&& c@ == contacts@
            },
        },
{
    let frontier = RotatingContactFrontier3d {
        free_flight: zero_flight_exec(),
        boxes: Vec::new(),
        time: SampledContactTime3d::zero(),
        contacts,
        remaining_numerator: 0,
    };
    let ghost before = boxes@;
    let outcome = resolve_rotating_contact_frontier_with_activity(boxes, &frontier, passes);
    proof {
        assert(frontier_response(before, frontier, passes as nat) == match respond(
            before,
            frontier.contacts@,
            passes as nat,
        ) {
            Err(error) => Err(error),
            Ok((world, used, _)) => Ok((world, used)),
        });
        assert(frontier_activity(before, frontier, passes as nat) == run_activity(
            before,
            frontier.contacts@,
            passes as nat,
            0,
            no_activity(before.len()),
        ));
    }
    match outcome {
        Err(error) => Err(error),
        Ok((response, moved)) => Ok((response.passes_used, moved, response.contacts)),
    }
}

fn remainder_exec(remaining: RigidBoxFreeFlightConfig3d, time: SampledContactTime3d) -> (result: Result<
    RigidBoxFreeFlightConfig3d,
    RepeatedRotatingEventError3d,
>)
    ensures
        result == remainder_after(remaining, time),
{
    if time.denominator == 0 || time.numerator > time.denominator {
        return Err(RepeatedRotatingEventError3d::InvalidRemainder(time));
    }
    match remaining.scaled_fraction(time.denominator - time.numerator, time.denominator) {
        Ok(scaled) => Ok(scaled),
        Err(RigidBoxFreeFlightError3d::NegativeTimestepNumerator(value)) => Err(
            RepeatedRotatingEventError3d::NegativeTimestepNumerator(value),
        ),
        Err(RigidBoxFreeFlightError3d::NonPositiveTimestepDenominator(value)) => Err(
            RepeatedRotatingEventError3d::NonPositiveTimestepDenominator(value),
        ),
        Err(_) => Err(RepeatedRotatingEventError3d::RatioTooLarge),
    }
}


fn flagged_exec(world: &Vec<RigidBox3d>, flags: &Vec<bool>, id: crate::body::BodyId) -> (set: bool)
    ensures
        set == flagged(world@, flags@, id),
{
    match body_index_exec(world, id) {
        Some(index) => index < flags.len() && flags[index],
        None => false,
    }
}

fn touches_exec(world: &Vec<RigidBox3d>, flags: &Vec<bool>, pair: RotationalSweepPair3d) -> (set: bool)
    ensures
        set == touches(world@, flags@, pair),
{
    flagged_exec(world, flags, pair.left) || flagged_exec(world, flags, pair.right)
}

fn count_flags_exec(flags: &Vec<bool>) -> (count: usize)
    ensures
        count == count_flags(flags@, flags@.len()),
{
    let mut count: usize = 0;
    let mut i: usize = 0;
    while i < flags.len()
        invariant
            i <= flags@.len(),
            count == count_flags(flags@, i as nat),
            count <= i,
        decreases flags.len() - i,
    {
        if flags[i] {
            count = count + 1;
        }
        i = i + 1;
    }
    count
}

fn count_touching_pairs_exec(
    world: &Vec<RigidBox3d>,
    flags: &Vec<bool>,
    pairs: &Vec<RotationalSweepPair3d>,
) -> (count: usize)
    ensures
        count == count_touching_pairs(world@, flags@, pairs@, pairs@.len()),
{
    let mut count: usize = 0;
    let mut i: usize = 0;
    while i < pairs.len()
        invariant
            i <= pairs@.len(),
            count == count_touching_pairs(world@, flags@, pairs@, i as nat),
            count <= i,
        decreases pairs.len() - i,
    {
        if touches_exec(world, flags, pairs[i]) {
            count = count + 1;
        }
        i = i + 1;
    }
    count
}

fn touching_contacts_exec(
    world: &Vec<RigidBox3d>,
    flags: &Vec<bool>,
    contacts: &Vec<RotatingContactSearchHit3d>,
) -> (kept: Vec<RotatingContactSearchHit3d>)
    ensures
        kept@ == touching_contacts(world@, flags@, contacts@, contacts@.len()),
{
    let mut kept: Vec<RotatingContactSearchHit3d> = Vec::new();
    let mut i: usize = 0;
    while i < contacts.len()
        invariant
            i <= contacts@.len(),
            kept@ == touching_contacts(world@, flags@, contacts@, i as nat),
        decreases contacts.len() - i,
    {
        if touches_exec(world, flags, contacts[i].pair) {
            kept.push(contacts[i]);
        }
        i = i + 1;
    }
    kept
}

fn mark_exec(world: &Vec<RigidBox3d>, flags: &mut Vec<bool>, id: crate::body::BodyId)
    ensures
        final(flags)@ == mark(world@, old(flags)@, id),
{
    match body_index_exec(world, id) {
        Some(index) => if index < flags.len() {
            flags.set(index, true);
        },
        None => {},
    }
}

fn sweep_exec(
    world: &Vec<RigidBox3d>,
    contacts: &Vec<RotatingContactSearchHit3d>,
    flags: &Vec<bool>,
) -> (swept: Vec<bool>)
    ensures
        swept@ == sweep(world@, contacts@, flags@, contacts@.len()),
{
    let mut swept = flags.clone();
    let mut k: usize = 0;
    while k < contacts.len()
        invariant
            k <= contacts@.len(),
            swept@ == sweep(world@, contacts@, flags@, k as nat),
        decreases contacts.len() - k,
    {
        let pair = contacts[k].pair;
        if touches_exec(world, &swept, pair) {
            mark_exec(world, &mut swept, pair.left);
            mark_exec(world, &mut swept, pair.right);
        }
        k = k + 1;
    }
    swept
}

fn same_flags(a: &Vec<bool>, b: &Vec<bool>) -> (same: bool)
    ensures
        same == (a@ == b@),
{
    if a.len() != b.len() {
        return false;
    }
    let mut i: usize = 0;
    while i < a.len()
        invariant
            i <= a@.len(),
            a@.len() == b@.len(),
            forall|j: int| 0 <= j < i ==> a@[j] == b@[j],
        decreases a.len() - i,
    {
        if a[i] != b[i] {
            return false;
        }
        i = i + 1;
    }
    assert(a@ =~= b@);
    true
}

fn island_contacts_exec(
    world: &Vec<RigidBox3d>,
    flags: &Vec<bool>,
    contacts: &Vec<RotatingContactSearchHit3d>,
) -> (island: Vec<RotatingContactSearchHit3d>)
    ensures
        island@ == island_contacts(world@, flags@, contacts@),
{
    let ghost fuel_total = world@.len();
    let mut reached = flags.clone();
    let mut fuel: usize = world.len();
    while fuel > 0
        invariant
            reach(world@, contacts@, reached@, fuel as nat) == reach(
                world@,
                contacts@,
                flags@,
                fuel_total,
            ),
            fuel_total == world@.len(),
        ensures
            reached@ == reach(world@, contacts@, flags@, fuel_total),
        decreases fuel,
    {
        let swept = sweep_exec(world, contacts, &reached);
        if same_flags(&swept, &reached) {
            assert(reach(world@, contacts@, reached@, fuel as nat) == reached@);
            break;
        }
        reached = swept;
        fuel = fuel - 1;
    }
    touching_contacts_exec(world, &reached, contacts)
}

/// Every current contact at time zero, and the candidate pairs it was found among.
fn current_contacts(world: &Vec<RigidBox3d>) -> (result: Result<
    (Vec<RotationalSweepPair3d>, Vec<RotatingContactSearchHit3d>),
    RotatingContactFrontierError3d,
>)
    ensures
        match sampled_contacts(world@, zero_flight(), SampledContactTime3d::spec_zero()) {
            Err(error) => result == Err::<
                (Vec<RotationalSweepPair3d>, Vec<RotatingContactSearchHit3d>),
                RotatingContactFrontierError3d,
            >(error),
            Ok(contacts) => result matches Ok((pairs, found)) && found@ == contacts && pairs@
                == candidate_sequence(world@, zero_flight()),
        },
{
    let zero = zero_flight_exec();
    let found = match collect_frontier_contacts(world.as_slice(), zero, SampledContactTime3d::zero()) {
        Ok(found) => found,
        Err(error) => return Err(error),
    };
    proof {
        reveal(sampled_contacts);
    }
    let pairs = match rotational_sweep_candidate_pairs(world.as_slice(), zero) {
        Ok(pairs) => pairs,
        Err(error) => return Err(RotatingContactFrontierError3d::BroadPhase(error)),
    };
    let ghost sequence = candidate_sequence(world@, zero);
    proof {
        assert(strictly_sorted(sequence) && forall|pair: RotationalSweepPair3d|
            sequence.contains(pair) <==> is_candidate_pair(world@, zero, pair));
        lemma_sorted_sequences_equal(pairs@, sequence);
    }
    Ok((pairs, found))
}


#[verifier::rlimit(60)]
#[verifier::spinoff_prover]
fn stabilize_exec(
    start: Vec<RigidBox3d>,
    passes: u8,
    moved: Vec<bool>,
    responded: RepeatedRotatingEventWorkStats3d,
) -> (result: Result<(Vec<RigidBox3d>, RepeatedRotatingEventWorkStats3d), RepeatedRotatingEventError3d>)
    ensures
        match stabilize(start@, passes as nat, moved@, responded, 0) {
            Err(error) => result == Err::<
                (Vec<RigidBox3d>, RepeatedRotatingEventWorkStats3d),
                RepeatedRotatingEventError3d,
            >(error),
            Ok((settled, worked)) => result matches Ok((v, w)) && v@ == settled && w == worked,
        },
{
    let ghost expected = stabilize(start@, passes as nat, moved@, responded, 0);
    let mut world = start;
    let mut active = moved;
    let mut work = responded;
    let mut pass: u8 = 0;
    while pass < passes
        invariant
            pass <= passes,
            expected == stabilize(start@, passes as nat, moved@, responded, 0),
            stabilize(world@, passes as nat, active@, work, pass as nat) == expected,
        decreases passes - pass,
    {
        let count = count_flags_exec(&active);
        if count == 0 {
            return Ok((world, work));
        }
        work.stabilization_active_bodies = sat_add_exec(work.stabilization_active_bodies, count);
        let (pairs, current) = match current_contacts(&world) {
            Ok(found) => found,
            Err(error) => return Err(RepeatedRotatingEventError3d::Frontier(error)),
        };
        let touching_pairs = count_touching_pairs_exec(&world, &active, &pairs);
        let touching = touching_contacts_exec(&world, &active, &current);
        work.stabilization_candidate_pairs = sat_add_exec(
            work.stabilization_candidate_pairs,
            touching_pairs,
        );
        work.stabilization_exact_contacts = sat_add_exec(
            work.stabilization_exact_contacts,
            touching.len(),
        );
        let island = island_contacts_exec(&world, &active, &current);
        if island.len() == 0 {
            return Ok((world, work));
        }
        work.stabilization_passes = sat_add_exec(work.stabilization_passes, 1);
        let (_, now_moved, _) = match respond_exec(&mut world, island, 1) {
            Ok(outcome) => outcome,
            Err(error) => return Err(RepeatedRotatingEventError3d::Response(error)),
        };
        if count_flags_exec(&now_moved) == 0 {
            return Ok((world, work));
        }
        if pass + 1 == passes {
            work.stabilizations_hitting_limit = sat_add_exec(work.stabilizations_hitting_limit, 1);
            return Ok((world, work));
        }
        active = now_moved;
        pass = pass + 1;
    }
    Ok((world, work))
}

fn next_event_exec(
    boxes: &Vec<RigidBox3d>,
    remaining: RigidBoxFreeFlightConfig3d,
    config: RepeatedRotatingEventConfig3d,
) -> (result: Result<
    Option<(Vec<RigidBox3d>, SampledContactTime3d, Vec<RotatingContactSearchHit3d>)>,
    RepeatedRotatingEventError3d,
>)
    ensures
        match next_event(boxes@, remaining, config) {
            Err(error) => result == Err::<
                Option<(Vec<RigidBox3d>, SampledContactTime3d, Vec<RotatingContactSearchHit3d>)>,
                RepeatedRotatingEventError3d,
            >(error),
            Ok(None) => result matches Ok(None),
            Ok(Some((current, time, contacts))) => result matches Ok(Some((v, t, c))) && v@
                == current && t == time && c@ == contacts,
        },
{
    let search = RotatingContactSearchConfig3d { free_flight: remaining, ..config.search };
    match sampled_rotating_recontact_search(boxes.as_slice(), search) {
        Err(error) => Err(
            RepeatedRotatingEventError3d::Frontier(RotatingContactFrontierError3d::Search(error)),
        ),
        Ok(None) => Ok(None),
        Ok(Some(hit)) => match admit_hit(boxes, remaining, hit) {
            Err(error) => Err(RepeatedRotatingEventError3d::Frontier(error)),
            Ok((current, contacts)) => Ok(Some((current, hit.time, contacts))),
        },
    }
}

fn no_work_exec() -> (work: RepeatedRotatingEventWorkStats3d)
    ensures
        work == no_work(),
{
    RepeatedRotatingEventWorkStats3d {
        event_response_passes: 0,
        stabilization_passes: 0,
        stabilizations_hitting_limit: 0,
        stabilization_candidate_pairs: 0,
        stabilization_exact_contacts: 0,
        stabilization_active_bodies: 0,
    }
}

/// Advances through sampled rotating events over the configured interval.
///
/// The earliest sampled contact is found and every body advanced to its time; all contacts there
/// are resolved together with up to `solver_passes` passes; the unconsumed interval is reduced
/// exactly by the event's remaining fraction; the contact islands of the bodies that moved are
/// stabilized; then the earliest strictly positive re-contact in what is left of the interval is
/// resolved the same way, until none is found or the interval is used up. A limit of zero events,
/// or above [`MAX_REPEATED_ROTATING_EVENTS`], is refused, as is a further event beyond the limit.
/// The input bodies are left unchanged; the advanced ones are returned.
#[verifier::rlimit(60)]
#[verifier::spinoff_prover]
pub fn advance_repeated_rotating_events(
    boxes: &[RigidBox3d],
    config: RepeatedRotatingEventConfig3d,
) -> (result: Result<RepeatedRotatingEventAdvance3d, RepeatedRotatingEventError3d>)
    ensures
        match repeated_events(boxes@, config) {
            Err(error) => result == Err::<
                RepeatedRotatingEventAdvance3d,
                RepeatedRotatingEventError3d,
            >(error),
            Ok((settled, events, remaining, work)) => result matches Ok(advance) && advance.boxes@
                == settled && events_view(advance.events@) == events && advance.remaining
                == remaining && advance.work == work,
        },
        config.max_events == 0 ==> result == Err::<
            RepeatedRotatingEventAdvance3d,
            RepeatedRotatingEventError3d,
        >(RepeatedRotatingEventError3d::ZeroEventLimit),
        config.max_events > MAX_REPEATED_ROTATING_EVENTS ==> result == Err::<
            RepeatedRotatingEventAdvance3d,
            RepeatedRotatingEventError3d,
        >(RepeatedRotatingEventError3d::EventLimit(MAX_REPEATED_ROTATING_EVENTS)),
        result matches Ok(advance) ==> advance.events@.len() <= config.max_events,
        result matches Ok(advance) ==> forall|i: int|
            0 <= i < advance.events@.len() ==> time_within_interval(
                #[trigger] advance.events@[i].time,
            ),
{
    proof {
        lemma_event_times_within_interval(boxes@, config);
    }
    match validate_config(config) {
        Ok(()) => {},
        Err(error) => return Err(error),
    }
    let mut copied: Vec<RigidBox3d> = Vec::new();
    let mut i: usize = 0;
    while i < boxes.len()
        invariant
            i <= boxes@.len(),
            copied@ == boxes@.subrange(0, i as int),
        decreases boxes.len() - i,
    {
        copied.push(boxes[i]);
        i = i + 1;
    }
    assert(copied@ =~= boxes@);
    let first = match sampled_rotating_contact_search(boxes, config.search) {
        Err(error) => return Err(
            RepeatedRotatingEventError3d::Frontier(RotatingContactFrontierError3d::Search(error)),
        ),
        Ok(None) => {
            let advance = RepeatedRotatingEventAdvance3d {
                boxes: copied,
                events: Vec::new(),
                remaining: config.search.free_flight,
                work: no_work_exec(),
            };
            assert(events_view(advance.events@) =~= Seq::<EventView>::empty());
            return Ok(advance);
        },
        Ok(Some(hit)) => hit,
    };
    let (current, found) = match admit_hit(&copied, config.search.free_flight, first) {
        Ok(admitted) => admitted,
        Err(error) => return Err(RepeatedRotatingEventError3d::Frontier(error)),
    };
    let mut state = current;
    let mut contacts = found;
    let mut time = first.time;
    let mut remaining = config.search.free_flight;
    let mut work = no_work_exec();
    let mut events: Vec<RotatingResolvedEvent3d> = Vec::new();
    assert(events_view(events@) =~= Seq::<EventView>::empty());
    loop
        invariant_except_break
            events_from(state@, events_view(events@), remaining, work, time, contacts@, config)
                == repeated_events(boxes@, config),
        invariant
            config_error(config) is None,
            events@.len() <= config.max_events,
        ensures
            repeated_events(boxes@, config) == Ok::<AdvanceView, RepeatedRotatingEventError3d>(
                (state@, events_view(events@), remaining, work),
            ),
        decreases config.max_events - events@.len(),
    {
        if events.len() >= config.max_events as usize {
            return Err(RepeatedRotatingEventError3d::EventLimit(config.max_events));
        }
        let ghost recorded = events_view(events@);
        let (used, moved, resolved) = match respond_exec(&mut state, contacts, config.solver_passes) {
            Ok(outcome) => outcome,
            Err(error) => return Err(RepeatedRotatingEventError3d::Response(error)),
        };
        let left = match remainder_exec(remaining, time) {
            Ok(left) => left,
            Err(error) => return Err(error),
        };
        let responded = RepeatedRotatingEventWorkStats3d {
            event_response_passes: sat_add_exec(work.event_response_passes, used as usize),
            ..work
        };
        let (settled, worked) = match stabilize_exec(state, config.solver_passes, moved, responded) {
            Ok(outcome) => outcome,
            Err(error) => return Err(error),
        };
        let event = RotatingResolvedEvent3d { time, contacts: resolved, response_passes: used };
        events.push(event);
        assert(events_view(events@) =~= recorded.push(event_view(event)));
        state = settled;
        work = worked;
        remaining = left;
        if remaining.timestep_is_zero() {
            break;
        }
        match next_event_exec(&state, remaining, config) {
            Err(error) => return Err(error),
            Ok(None) => break,
            Ok(Some((next_state, next_time, next_contacts))) => {
                state = next_state;
                time = next_time;
                contacts = next_contacts;
            },
        }
    }
    let ghost final_view = events_view(events@);
    assert(repeated_events(boxes@, config) == Ok::<AdvanceView, RepeatedRotatingEventError3d>(
        (state@, final_view, remaining, work),
    ));
    let advance = RepeatedRotatingEventAdvance3d { boxes: state, events, remaining, work };
    proof {
        assert forall|i: int| 0 <= i < advance.events@.len() implies time_within_interval(
            #[trigger] advance.events@[i].time,
        ) by {
            lemma_event_times_within_interval(boxes@, config);
            assert(events_within_interval(final_view));
            assert(final_view[i].0 == advance.events@[i].time);
        }
    }
    Ok(advance)
}



// ---------------------------------------------------------------------------------------------
// Laws
// ---------------------------------------------------------------------------------------------

proof fn lemma_events_from_times(
    boxes: Seq<RigidBox3d>,
    events: Seq<EventView>,
    remaining: RigidBoxFreeFlightConfig3d,
    work: RepeatedRotatingEventWorkStats3d,
    time: SampledContactTime3d,
    contacts: Seq<RotatingContactSearchHit3d>,
    config: RepeatedRotatingEventConfig3d,
)
    requires
        time_within_interval(time),
        forall|i: int| 0 <= i < events.len() ==> time_within_interval(#[trigger] events[i].0),
    ensures
        events_from(boxes, events, remaining, work, time, contacts, config) matches Ok((_, all, _, _))
            ==> forall|i: int| 0 <= i < all.len() ==> time_within_interval(#[trigger] all[i].0),
    decreases config.max_events - events.len(),
{
    if events.len() < config.max_events {
        match resolve_event(boxes, time, contacts, remaining, work, config) {
            Err(_) => {},
            Ok((settled, left, worked, event)) => {
                let recorded = events.push(event);
                assert forall|i: int| 0 <= i < recorded.len() implies time_within_interval(
                    #[trigger] recorded[i].0,
                ) by {
                    if i < events.len() {
                        assert(recorded[i] == events[i]);
                    }
                }
                if !(left.timestep_error() is None && left.spec_timestep_numerator() == 0) {
                    lemma_recontact_hits_strictly_positive(
                        settled,
                        search_over(config.search, left),
                        Set::<(u64, u64)>::empty(),
                    );
                    match next_event(settled, left, config) {
                        Ok(Some((current, next_time, next_contacts))) => {
                            lemma_events_from_times(
                                current,
                                recorded,
                                left,
                                worked,
                                next_time,
                                next_contacts,
                                config,
                            );
                        },
                        _ => {},
                    }
                }
            },
        }
    }
}

/// Whether every event time is a fraction with a positive denominator and a numerator not above
/// it.
pub open spec fn events_within_interval(events: Seq<EventView>) -> bool {
    forall|i: int| 0 <= i < events.len() ==> time_within_interval(#[trigger] events[i].0)
}

/// Every event of an advance lies within the advanced interval: its time is a fraction with a
/// positive denominator and a numerator not above it.
pub proof fn lemma_event_times_within_interval(boxes: Seq<RigidBox3d>, config: RepeatedRotatingEventConfig3d)
    ensures
        repeated_events(boxes, config) matches Ok((_, events, _, _)) ==> events_within_interval(events),
{
    lemma_search_hits_within_interval(boxes, config.search);
    if config_error(config) is None {
        match search_result(boxes, config.search) {
            Ok(Some(hit)) => match admitted(boxes, config.search.free_flight, hit) {
                Ok((current, contacts)) => {
                    lemma_events_from_times(
                        current,
                        Seq::empty(),
                        config.search.free_flight,
                        no_work(),
                        hit.time,
                        contacts,
                        config,
                    );
                },
                Err(_) => {},
            },
            _ => {},
        }
    }
}


} // verus!
