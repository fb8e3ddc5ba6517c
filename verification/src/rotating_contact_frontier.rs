use vstd::prelude::*;

use crate::body::BodyId;
use crate::oriented_box::{OrientedBoxError3d, contact_of, contact_seed};
use crate::rigid_box::RigidBox3d;
use crate::rigid_box_free_flight::{
    RigidBoxFreeFlightConfig3d, RigidBoxFreeFlightError3d, sample_rigid_box_free_flight,
    sampled_box, validated_zero_time, zero_time,
};
use crate::rotating_broad_phase::{
    RotatingBroadPhaseError3d, RotationalSweepPair3d, broad_phase_error, is_candidate_pair,
    lemma_no_duplicates, lemma_sorted_sequences_equal, rotational_sweep_candidate_pairs,
    strictly_sorted,
};
use crate::rotating_contact_search::{
    RotatingContactSearchConfig3d, RotatingContactSearchError3d, RotatingContactSearchHit3d,
    SampledContactTime3d, candidate_sequence, distinct_ids, index_of_body,
    lemma_box_with_distinct_id,
};
use crate::rotating_contact_search_ordered::{ordered_result, sampled_rotating_contact_search};
use crate::rotating_recontact_search::{recontact_result, sampled_rotating_recontact_search};
use crate::rotating_world::{box_with_id, holds_id};

verus! {

/// One shared pre-response world reconstructed at an admitted sampled rotating contact time.
#[derive(Clone, Debug, PartialEq, Eq)]
pub struct RotatingContactFrontier3d {
    /// Free-flight configuration of the interval the frontier was found in.
    pub free_flight: RigidBoxFreeFlightConfig3d,
    /// Every rotating body sampled directly from the common interval start at `time`.
    pub boxes: Vec<RigidBox3d>,
    /// Sampled contact fraction admitted by the search that selected this frontier.
    pub time: SampledContactTime3d,
    /// Every broad-phase candidate in exact contact in the shared frontier state.
    pub contacts: Vec<RotatingContactSearchHit3d>,
    /// Remaining numerator of the requested interval over `time`'s denominator.
    pub remaining_numerator: u32,
}

#[derive(Clone, Copy, Debug, PartialEq, Eq, Structural)]
pub enum RotatingContactFrontierError3d {
    InvalidSearchTime(SampledContactTime3d),
    MissingBody(BodyId),
    EarliestContactMissing(RotationalSweepPair3d),
    EarliestContactChanged(RotationalSweepPair3d),
    Search(RotatingContactSearchError3d),
    BroadPhase(RotatingBroadPhaseError3d),
    FreeFlight(RigidBoxFreeFlightError3d),
    Geometry(OrientedBoxError3d),
}

/// The first `n` bodies sampled at `numerator / denominator`, or the first failure.
pub open spec fn sampled_all(
    boxes: Seq<RigidBox3d>,
    config: RigidBoxFreeFlightConfig3d,
    numerator: u32,
    denominator: u32,
    n: nat,
) -> Result<Seq<RigidBox3d>, RigidBoxFreeFlightError3d>
    decreases n,
{
    if n == 0 {
        Ok(Seq::empty())
    } else {
        match sampled_all(boxes, config, numerator, denominator, (n - 1) as nat) {
            Err(error) => Err(error),
            Ok(sampled) => match sampled_box(boxes[n - 1], config, numerator, denominator) {
                Err(error) => Err(error),
                Ok(rigid_box) => Ok(sampled.push(rigid_box)),
            },
        }
    }
}

/// The exact contact of two shapes, a failure reported as a geometry error.
#[verifier::opaque]
pub open spec fn frontier_contact_of(
    left: crate::oriented_box::OrientedBox3d,
    right: crate::oriented_box::OrientedBox3d,
) -> Result<Option<crate::oriented_box::ObbContactSeed3d>, RotatingContactFrontierError3d> {
    match contact_of(left, right) {
        Err(error) => Err(RotatingContactFrontierError3d::Geometry(error)),
        Ok(contact) => Ok(contact),
    }
}

/// Over the first `n` candidate pairs of the sampled world, those in exact contact, as hits at
/// `time`, or the first failure.
pub open spec fn frontier_contacts(
    sampled: Seq<RigidBox3d>,
    pairs: Seq<RotationalSweepPair3d>,
    time: SampledContactTime3d,
    n: nat,
) -> Result<Seq<RotatingContactSearchHit3d>, RotatingContactFrontierError3d>
    decreases n,
{
    if n == 0 {
        Ok(Seq::empty())
    } else {
        match frontier_contacts(sampled, pairs, time, (n - 1) as nat) {
            Err(error) => Err(error),
            Ok(contacts) => {
                let pair = pairs[n - 1];
                if !holds_id(sampled, pair.left) {
                    Err(RotatingContactFrontierError3d::MissingBody(pair.left))
                } else if !holds_id(sampled, pair.right) {
                    Err(RotatingContactFrontierError3d::MissingBody(pair.right))
                } else {
                    match frontier_contact_of(
                        box_with_id(sampled, pair.left).spec_oriented_box(),
                        box_with_id(sampled, pair.right).spec_oriented_box(),
                    ) {
                        Err(error) => Err(error),
                        Ok(None) => Ok(contacts),
                        Ok(Some(contact)) => Ok(
                            contacts.push(RotatingContactSearchHit3d { time, pair, contact }),
                        ),
                    }
                }
            },
        }
    }
}

/// The index of the first hit for `pair`, if any.
pub open spec fn first_for_pair(contacts: Seq<RotatingContactSearchHit3d>, pair: RotationalSweepPair3d) -> Option<int> {
    if exists|i: int| 0 <= i < contacts.len() && (#[trigger] contacts[i]).pair == pair {
        Some(
            choose|i: int|
                0 <= i < contacts.len() && (#[trigger] contacts[i]).pair == pair && forall|j: int|
                    0 <= j < i ==> (#[trigger] contacts[j]).pair != pair,
        )
    } else {
        None
    }
}

/// The shared frontier at the time of `earliest`: every body sampled at that time and every
/// candidate contact there, checked to reproduce `earliest` exactly; or the failure.
pub open spec fn reconstruction(
    boxes: Seq<RigidBox3d>,
    config: RotatingContactSearchConfig3d,
    earliest: RotatingContactSearchHit3d,
) -> Result<(Seq<RigidBox3d>, Seq<RotatingContactSearchHit3d>, u32), RotatingContactFrontierError3d> {
    let time = earliest.time;
    if time.denominator == 0 || time.numerator > time.denominator {
        Err(RotatingContactFrontierError3d::InvalidSearchTime(time))
    } else {
        match sampled_all(boxes, config.free_flight, time.numerator, time.denominator, boxes.len()) {
            Err(error) => Err(RotatingContactFrontierError3d::FreeFlight(error)),
            Ok(sampled) => match zero_time(config.free_flight) {
                Err(error) => Err(RotatingContactFrontierError3d::FreeFlight(error)),
                Ok(current) => match sampled_contacts(sampled, current, time) {
                            Err(error) => Err(error),
                            Ok(contacts) => match first_for_pair(contacts, earliest.pair) {
                                None => Err(
                                    RotatingContactFrontierError3d::EarliestContactMissing(
                                        earliest.pair,
                                    ),
                                ),
                                Some(index) => if contacts[index].contact != earliest.contact {
                                    Err(
                                        RotatingContactFrontierError3d::EarliestContactChanged(
                                            earliest.pair,
                                        ),
                                    )
                                } else {
                                    Ok(
                                        (
                                            sampled,
                                            contacts,
                                            (time.denominator - time.numerator) as u32,
                                        ),
                                    )
                                },
                            },
                },
            },
        }
    }
}

/// The frontier matches a reconstruction outcome.
pub open spec fn reports_frontier(
    result: Result<Option<RotatingContactFrontier3d>, RotatingContactFrontierError3d>,
    free_flight: RigidBoxFreeFlightConfig3d,
    time: SampledContactTime3d,
    expected: Result<(Seq<RigidBox3d>, Seq<RotatingContactSearchHit3d>, u32), RotatingContactFrontierError3d>,
) -> bool {
    match expected {
        Err(error) => result == Err::<Option<RotatingContactFrontier3d>, RotatingContactFrontierError3d>(
            error,
        ),
        Ok((sampled, contacts, remaining)) => match result {
            Ok(Some(frontier)) => {
                &&& frontier.free_flight == free_flight
                &&& frontier.boxes@ == sampled
                &&& frontier.contacts@ == contacts
                &&& frontier.time == time
                &&& frontier.remaining_numerator == remaining
            },
            _ => false,
        },
    }
}

proof fn lemma_contacts_error_stable(
    sampled: Seq<RigidBox3d>,
    pairs: Seq<RotationalSweepPair3d>,
    time: SampledContactTime3d,
    m: nat,
    n: nat,
)
    requires
        m <= n,
        frontier_contacts(sampled, pairs, time, m) is Err,
    ensures
        frontier_contacts(sampled, pairs, time, n) == frontier_contacts(sampled, pairs, time, m),
    decreases n - m,
{
    if m < n {
        lemma_contacts_error_stable(sampled, pairs, time, m, (n - 1) as nat);
    }
}

proof fn lemma_sampled_error_stable(
    boxes: Seq<RigidBox3d>,
    config: RigidBoxFreeFlightConfig3d,
    numerator: u32,
    denominator: u32,
    m: nat,
    n: nat,
)
    requires
        m <= n,
        sampled_all(boxes, config, numerator, denominator, m) is Err,
    ensures
        sampled_all(boxes, config, numerator, denominator, n) == sampled_all(
            boxes,
            config,
            numerator,
            denominator,
            m,
        ),
    decreases n - m,
{
    if m < n {
        lemma_sampled_error_stable(boxes, config, numerator, denominator, m, (n - 1) as nat);
    }
}

/// Every body sampled at `time`, or the first failure.
pub(crate) fn sample_frontier_boxes(
    boxes: &[RigidBox3d],
    config: RigidBoxFreeFlightConfig3d,
    time: SampledContactTime3d,
) -> (result: Result<Vec<RigidBox3d>, RigidBoxFreeFlightError3d>)
    ensures
        match sampled_all(boxes@, config, time.numerator, time.denominator, boxes@.len()) {
            Err(error) => result == Err::<Vec<RigidBox3d>, RigidBoxFreeFlightError3d>(error),
            Ok(sampled) => result is Ok && result->Ok_0@ == sampled,
        },
{
    let mut sampled: Vec<RigidBox3d> = Vec::new();
    let mut index: usize = 0;
    while index < boxes.len()
        invariant
            index <= boxes@.len(),
            sampled_all(boxes@, config, time.numerator, time.denominator, index as nat) == Ok::<
                Seq<RigidBox3d>,
                RigidBoxFreeFlightError3d,
            >(sampled@),
        decreases boxes.len() - index,
    {
        match sample_rigid_box_free_flight(&boxes[index], config, time.numerator, time.denominator) {
            Ok(rigid_box) => sampled.push(rigid_box),
            Err(error) => {
                proof {
                    lemma_sampled_error_stable(
                        boxes@,
                        config,
                        time.numerator,
                        time.denominator,
                        (index + 1) as nat,
                        boxes@.len(),
                    );
                }
                return Err(error);
            },
        }
        index = index + 1;
    }
    Ok(sampled)
}

/// The contacts among the candidate pairs of `sampled` at zero time, or the failure.
#[verifier::opaque]
pub open spec fn sampled_contacts(
    sampled: Seq<RigidBox3d>,
    current: RigidBoxFreeFlightConfig3d,
    time: SampledContactTime3d,
) -> Result<Seq<RotatingContactSearchHit3d>, RotatingContactFrontierError3d> {
    match broad_phase_error(sampled, current, sampled.len()) {
        Some(error) => Err(RotatingContactFrontierError3d::BroadPhase(error)),
        None => {
            let pairs = candidate_sequence(sampled, current);
            frontier_contacts(sampled, pairs, time, pairs.len())
        },
    }
}

pub(crate) fn collect_frontier_contacts(
    sampled: &[RigidBox3d],
    current: RigidBoxFreeFlightConfig3d,
    time: SampledContactTime3d,
) -> (result: Result<Vec<RotatingContactSearchHit3d>, RotatingContactFrontierError3d>)
    ensures
        match sampled_contacts(sampled@, current, time) {
            Err(error) => result == Err::<
                Vec<RotatingContactSearchHit3d>,
                RotatingContactFrontierError3d,
            >(error),
            Ok(contacts) => result is Ok && result->Ok_0@ == contacts,
        },
{
    let pairs = match rotational_sweep_candidate_pairs(sampled, current) {
        Ok(pairs) => pairs,
        Err(error) => {
            proof {
                reveal(sampled_contacts);
            }
            return Err(RotatingContactFrontierError3d::BroadPhase(error));
        },
    };
    let ghost sequence = candidate_sequence(sampled@, current);
    proof {
        assert(strictly_sorted(sequence) && forall|pair: RotationalSweepPair3d|
            sequence.contains(pair) <==> is_candidate_pair(sampled@, current, pair));
        lemma_sorted_sequences_equal(pairs@, sequence);
        lemma_no_duplicates(sampled@, current, sampled@.len());
    }
    let ghost target = sampled_contacts(sampled@, current, time);
    proof {
        reveal(sampled_contacts);
    }
    let mut contacts: Vec<RotatingContactSearchHit3d> = Vec::new();
    let mut position: usize = 0;
    while position < pairs.len()
        invariant
            position <= pairs@.len(),
            pairs@ == sequence,
            target == frontier_contacts(sampled@, pairs@, time, pairs@.len()),
            target == sampled_contacts(sampled@, current, time),
            distinct_ids(sampled@),
            frontier_contacts(sampled@, pairs@, time, position as nat) == Ok::<
                Seq<RotatingContactSearchHit3d>,
                RotatingContactFrontierError3d,
            >(contacts@),
        decreases pairs.len() - position,
    {
        let pair = pairs[position];
        let left_index = match index_of_body(sampled, pair.left) {
            Some(found) => found,
            None => {
                proof {
                    lemma_contacts_error_stable(
                        sampled@,
                        pairs@,
                        time,
                        (position + 1) as nat,
                        pairs@.len(),
                    );
                }
                return Err(RotatingContactFrontierError3d::MissingBody(pair.left));
            },
        };
        let right_index = match index_of_body(sampled, pair.right) {
            Some(found) => found,
            None => {
                proof {
                    lemma_box_with_distinct_id(sampled@, left_index as int);
                    lemma_contacts_error_stable(
                        sampled@,
                        pairs@,
                        time,
                        (position + 1) as nat,
                        pairs@.len(),
                    );
                }
                return Err(RotatingContactFrontierError3d::MissingBody(pair.right));
            },
        };
        proof {
            lemma_box_with_distinct_id(sampled@, left_index as int);
            lemma_box_with_distinct_id(sampled@, right_index as int);
            reveal(frontier_contact_of);
        }
        match contact_seed(sampled[left_index].oriented_box(), sampled[right_index].oriented_box()) {
            Err(error) => {
                proof {
                    lemma_contacts_error_stable(
                        sampled@,
                        pairs@,
                        time,
                        (position + 1) as nat,
                        pairs@.len(),
                    );
                }
                return Err(RotatingContactFrontierError3d::Geometry(error));
            },
            Ok(None) => {},
            Ok(Some(contact)) => {
                contacts.push(RotatingContactSearchHit3d { time, pair, contact });
            },
        }
        position = position + 1;
    }
    Ok(contacts)
}

/// The contacts among `pairs` in `sampled`, as hits at `time`, or the first failure.
pub(crate) fn contacts_over_pairs(
    sampled: &[RigidBox3d],
    pairs: &Vec<RotationalSweepPair3d>,
    time: SampledContactTime3d,
) -> (result: Result<Vec<RotatingContactSearchHit3d>, RotatingContactFrontierError3d>)
    requires
        distinct_ids(sampled@),
    ensures
        match frontier_contacts(sampled@, pairs@, time, pairs@.len()) {
            Err(error) => result == Err::<
                Vec<RotatingContactSearchHit3d>,
                RotatingContactFrontierError3d,
            >(error),
            Ok(contacts) => result is Ok && result->Ok_0@ == contacts,
        },
{
    let ghost target = frontier_contacts(sampled@, pairs@, time, pairs@.len());
    let mut contacts: Vec<RotatingContactSearchHit3d> = Vec::new();
    let mut position: usize = 0;
    while position < pairs.len()
        invariant
            position <= pairs@.len(),
            target == frontier_contacts(sampled@, pairs@, time, pairs@.len()),
            distinct_ids(sampled@),
            frontier_contacts(sampled@, pairs@, time, position as nat) == Ok::<
                Seq<RotatingContactSearchHit3d>,
                RotatingContactFrontierError3d,
            >(contacts@),
        decreases pairs.len() - position,
    {
        let pair = pairs[position];
        let left_index = match index_of_body(sampled, pair.left) {
            Some(found) => found,
            None => {
                proof {
                    lemma_contacts_error_stable(
                        sampled@,
                        pairs@,
                        time,
                        (position + 1) as nat,
                        pairs@.len(),
                    );
                }
                return Err(RotatingContactFrontierError3d::MissingBody(pair.left));
            },
        };
        let right_index = match index_of_body(sampled, pair.right) {
            Some(found) => found,
            None => {
                proof {
                    lemma_box_with_distinct_id(sampled@, left_index as int);
                    lemma_contacts_error_stable(
                        sampled@,
                        pairs@,
                        time,
                        (position + 1) as nat,
                        pairs@.len(),
                    );
                }
                return Err(RotatingContactFrontierError3d::MissingBody(pair.right));
            },
        };
        proof {
            lemma_box_with_distinct_id(sampled@, left_index as int);
            lemma_box_with_distinct_id(sampled@, right_index as int);
            reveal(frontier_contact_of);
        }
        match contact_seed(sampled[left_index].oriented_box(), sampled[right_index].oriented_box()) {
            Err(error) => {
                proof {
                    lemma_contacts_error_stable(
                        sampled@,
                        pairs@,
                        time,
                        (position + 1) as nat,
                        pairs@.len(),
                    );
                }
                return Err(RotatingContactFrontierError3d::Geometry(error));
            },
            Ok(None) => {},
            Ok(Some(contact)) => {
                contacts.push(RotatingContactSearchHit3d { time, pair, contact });
            },
        }
        position = position + 1;
    }
    Ok(contacts)
}

/// The index of the first hit for `pair`.
pub(crate) fn find_pair(contacts: &Vec<RotatingContactSearchHit3d>, pair: RotationalSweepPair3d) -> (found:
    Option<usize>)
    ensures
        match found {
            Some(i) => i < contacts@.len() && first_for_pair(contacts@, pair) == Some(i as int),
            None => first_for_pair(contacts@, pair) is None,
        },
{
    let mut scan: usize = 0;
    while scan < contacts.len()
        invariant
            scan <= contacts@.len(),
            forall|j: int| 0 <= j < scan ==> (#[trigger] contacts@[j]).pair != pair,
        decreases contacts.len() - scan,
    {
        if contacts[scan].pair == pair {
            proof {
                let witness = choose|i: int|
                    0 <= i < contacts@.len() && (#[trigger] contacts@[i]).pair == pair && forall|
                        j: int,
                    | 0 <= j < i ==> (#[trigger] contacts@[j]).pair != pair;
                assert(contacts@[scan as int].pair == pair);
                if witness < scan {
                    assert(contacts@[witness].pair != pair);
                } else if witness > scan {
                    assert(contacts@[scan as int].pair != pair);
                }
            }
            return Some(scan);
        }
        scan = scan + 1;
    }
    None
}

fn reconstruct_frontier(
    boxes: &[RigidBox3d],
    config: RotatingContactSearchConfig3d,
    earliest: RotatingContactSearchHit3d,
) -> (result: Result<Option<RotatingContactFrontier3d>, RotatingContactFrontierError3d>)
    ensures
        reports_frontier(
            result,
            config.free_flight,
            earliest.time,
            reconstruction(boxes@, config, earliest),
        ),
{
    let time = earliest.time;
    if time.denominator == 0 || time.numerator > time.denominator {
        return Err(RotatingContactFrontierError3d::InvalidSearchTime(time));
    }
    let sampled = match sample_frontier_boxes(boxes, config.free_flight, time) {
        Ok(sampled) => sampled,
        Err(error) => return Err(RotatingContactFrontierError3d::FreeFlight(error)),
    };
    let current = match validated_zero_time(config.free_flight) {
        Ok(current) => current,
        Err(error) => return Err(RotatingContactFrontierError3d::FreeFlight(error)),
    };
    let contacts = match collect_frontier_contacts(sampled.as_slice(), current, time) {
        Ok(contacts) => contacts,
        Err(error) => return Err(error),
    };
    let chosen = match find_pair(&contacts, earliest.pair) {
        Some(index) => index,
        None => return Err(RotatingContactFrontierError3d::EarliestContactMissing(earliest.pair)),
    };
    proof {
        let first = first_for_pair(contacts@, earliest.pair);
        assert(first is Some);
        assert(first->0 == chosen as int);
    }
    let same = same_seed(&contacts[chosen].contact, &earliest.contact);
    assert(same == (contacts@[chosen as int].contact == earliest.contact));
    if !same {
        return Err(RotatingContactFrontierError3d::EarliestContactChanged(earliest.pair));
    }
    Ok(
        Some(
            RotatingContactFrontier3d {
                free_flight: config.free_flight,
                boxes: sampled,
                time,
                contacts,
                remaining_numerator: time.denominator - time.numerator,
            },
        ),
    )
}

/// Field-wise equality of two contact seeds.
pub(crate) fn same_seed(
    left: &crate::oriented_box::ObbContactSeed3d,
    right: &crate::oriented_box::ObbContactSeed3d,
) -> (same: bool)
    ensures
        same == (*left == *right),
{
    let same = left.axis[0] == right.axis[0] && left.axis[1] == right.axis[1] && left.axis[2]
        == right.axis[2] && left.overlap_numerator == right.overlap_numerator
        && left.axis_length_squared == right.axis_length_squared && left.feature == right.feature
        && left.left_support_mask == right.left_support_mask && left.right_support_mask
        == right.right_support_mask && left.tested_axes == right.tested_axes
        && left.minimum_axis_ties == right.minimum_axis_ties;
    proof {
        if same {
            assert(left.axis =~= right.axis);
        }
    }
    same
}

/// Finds the earliest sampled contact and reconstructs every contact sharing that exact sampled
/// time.
pub fn earliest_rotating_contact_frontier(
    boxes: &[RigidBox3d],
    config: RotatingContactSearchConfig3d,
) -> (result: Result<Option<RotatingContactFrontier3d>, RotatingContactFrontierError3d>)
    ensures
        match ordered_result(boxes@, config) {
            Err(error) => result == Err::<
                Option<RotatingContactFrontier3d>,
                RotatingContactFrontierError3d,
            >(RotatingContactFrontierError3d::Search(error)),
            Ok((None, _)) => result == Ok::<
                Option<RotatingContactFrontier3d>,
                RotatingContactFrontierError3d,
            >(None),
            Ok((Some(earliest), _)) => reports_frontier(
                result,
                config.free_flight,
                earliest.time,
                reconstruction(boxes@, config, earliest),
            ),
        },
{
    match sampled_rotating_contact_search(boxes, config) {
        Err(error) => Err(RotatingContactFrontierError3d::Search(error)),
        Ok(None) => Ok(None),
        Ok(Some(earliest)) => reconstruct_frontier(boxes, config, earliest),
    }
}

/// Finds the earliest strictly positive sampled re-contact and reconstructs every contact sharing
/// that exact sampled time.
pub fn next_rotating_contact_frontier(
    boxes: &[RigidBox3d],
    config: RotatingContactSearchConfig3d,
) -> (result: Result<Option<RotatingContactFrontier3d>, RotatingContactFrontierError3d>)
    ensures
        match recontact_result(boxes@, config, Set::<(u64, u64)>::empty()) {
            Err(error) => result == Err::<
                Option<RotatingContactFrontier3d>,
                RotatingContactFrontierError3d,
            >(RotatingContactFrontierError3d::Search(error)),
            Ok((None, _)) => result == Ok::<
                Option<RotatingContactFrontier3d>,
                RotatingContactFrontierError3d,
            >(None),
            Ok((Some(earliest), _)) => reports_frontier(
                result,
                config.free_flight,
                earliest.time,
                reconstruction(boxes@, config, earliest),
            ),
        },
{
    match sampled_rotating_recontact_search(boxes, config) {
        Err(error) => Err(RotatingContactFrontierError3d::Search(error)),
        Ok(None) => Ok(None),
        Ok(Some(earliest)) => reconstruct_frontier(boxes, config, earliest),
    }
}

} // verus!
