use vstd::prelude::*;

use crate::oriented_box::{ObbContactSeed3d, contact_seed};
use crate::rigid_box::RigidBox3d;
use crate::rotating_broad_phase::{
    RotationalSweepPair3d, broad_phase_error, is_candidate_pair, lemma_no_duplicates,
    lemma_sorted_sequences_equal, rotational_sweep_candidate_pairs, strictly_sorted,
};
use crate::rotating_contact_search::{
    CoarseSampleCache3d, RotatingContactSearchConfig3d, RotatingContactSearchError3d,
    RotatingContactSearchHit3d, candidate_sequence, distinct_ids, hit_before_exec, index_of_body,
    keep_earlier, lemma_box_with_distinct_id, lemma_keep_earlier_picks, lemma_pair_search_within,
    lemma_pair_hit_is_observed, lemma_refined_hit_observed, lemma_refined_hit_positive,
    observed_contact, pair_contact, pair_search, positive_time_within_interval, refine,
    refine_contact_bracket, refined_hit, resolution_error, sampled_contact, search_pair,
    shape_contact, validate_resolution,
};
use crate::rotating_world::{box_with_id, holds_id};

verus! {

/// After a start contact, the coarse grid points `k..=samples` up to the first contact seen after
/// a clear one (`last_clear`): that bracket and contact, none, or the first failure.
pub open spec fn after_start_scan(
    left: RigidBox3d,
    right: RigidBox3d,
    config: RotatingContactSearchConfig3d,
    k: nat,
    last_clear: Option<nat>,
) -> Result<Option<(nat, nat, ObbContactSeed3d)>, RotatingContactSearchError3d>
    decreases config.sample_count + 1 - k,
{
    if k == 0 || k > config.sample_count {
        Ok(None)
    } else {
        match sampled_contact(
            left,
            right,
            config.free_flight,
            k as u32,
            config.sample_count as u32,
        ) {
            Err(error) => Err(error),
            Ok(Some(contact)) => match last_clear {
                Some(clear) => Ok(Some((clear, k, contact))),
                None => after_start_scan(left, right, config, k + 1, None),
            },
            Ok(None) => after_start_scan(left, right, config, k + 1, Some(k)),
        }
    }
}

/// A pair touching at the start counts again only after the grid sees it clear and then in
/// contact; that bracket is refined.
pub open spec fn recontact_after_start(
    left: RigidBox3d,
    right: RigidBox3d,
    pair: RotationalSweepPair3d,
    config: RotatingContactSearchConfig3d,
) -> Result<Option<RotatingContactSearchHit3d>, RotatingContactSearchError3d> {
    match after_start_scan(left, right, config, 1, None) {
        Err(error) => Err(error),
        Ok(None) => Ok(None),
        Ok(Some((clear, k, contact))) => match refined_hit(
            pair,
            refine(
                left,
                right,
                config,
                clear as int,
                k as int,
                config.sample_count as int,
                contact,
                config.refinement_steps as nat,
            ),
        ) {
            Err(error) => Err(error),
            Ok(hit) => Ok(Some(hit)),
        },
    }
}

/// `found` when its time is positive.
pub open spec fn positive_only(found: Option<RotatingContactSearchHit3d>) -> Option<
    RotatingContactSearchHit3d,
> {
    match found {
        Some(hit) => if hit.time.numerator > 0 {
            found
        } else {
            None
        },
        None => None,
    }
}

/// The positive-progress search of one pair: a start contact must clear and return, a clear start
/// keeps the ordinary sampled search restricted to positive times.
pub open spec fn new_pair_search(
    left: RigidBox3d,
    right: RigidBox3d,
    pair: RotationalSweepPair3d,
    config: RotatingContactSearchConfig3d,
) -> Result<Option<RotatingContactSearchHit3d>, RotatingContactSearchError3d> {
    match shape_contact(left.spec_oriented_box(), right.spec_oriented_box()) {
        Err(error) => Err(error),
        Ok(Some(_)) => recontact_after_start(left, right, pair, config),
        Ok(None) => match pair_search(left, right, pair, config) {
            Err(error) => Err(error),
            Ok(found) => Ok(positive_only(found)),
        },
    }
}

/// The earliest positive-progress hit over the first `n` pairs, or the first failure.
pub open spec fn new_search_over(
    boxes: Seq<RigidBox3d>,
    pairs: Seq<RotationalSweepPair3d>,
    config: RotatingContactSearchConfig3d,
    n: nat,
) -> Result<Option<RotatingContactSearchHit3d>, RotatingContactSearchError3d>
    decreases n,
{
    if n == 0 {
        Ok(None)
    } else {
        match new_search_over(boxes, pairs, config, (n - 1) as nat) {
            Err(error) => Err(error),
            Ok(best) => {
                let pair = pairs[n - 1];
                if !holds_id(boxes, pair.left) {
                    Err(RotatingContactSearchError3d::MissingCandidateBody(pair.left))
                } else if !holds_id(boxes, pair.right) {
                    Err(RotatingContactSearchError3d::MissingCandidateBody(pair.right))
                } else {
                    match new_pair_search(
                        box_with_id(boxes, pair.left),
                        box_with_id(boxes, pair.right),
                        pair,
                        config,
                    ) {
                        Err(error) => Err(error),
                        Ok(found) => Ok(keep_earlier(best, found)),
                    }
                }
            },
        }
    }
}

/// The earliest strictly positive sampled contact over all candidate pairs, or the failure.
pub open spec fn new_search_result(boxes: Seq<RigidBox3d>, config: RotatingContactSearchConfig3d) -> Result<
    Option<RotatingContactSearchHit3d>,
    RotatingContactSearchError3d,
> {
    match resolution_error(config) {
        Some(error) => Err(error),
        None => match broad_phase_error(boxes, config.free_flight, boxes.len()) {
            Some(error) => Err(RotatingContactSearchError3d::BroadPhase(error)),
            None => {
                let pairs = candidate_sequence(boxes, config.free_flight);
                new_search_over(boxes, pairs, config, pairs.len())
            },
        },
    }
}

proof fn lemma_new_error_stable(
    boxes: Seq<RigidBox3d>,
    pairs: Seq<RotationalSweepPair3d>,
    config: RotatingContactSearchConfig3d,
    m: nat,
    n: nat,
)
    requires
        m <= n,
        new_search_over(boxes, pairs, config, m) is Err,
    ensures
        new_search_over(boxes, pairs, config, n) == new_search_over(boxes, pairs, config, m),
    decreases n - m,
{
    if m < n {
        lemma_new_error_stable(boxes, pairs, config, m, (n - 1) as nat);
    }
}

fn search_after_start(
    left: &RigidBox3d,
    right: &RigidBox3d,
    pair: RotationalSweepPair3d,
    config: RotatingContactSearchConfig3d,
) -> (result: Result<Option<RotatingContactSearchHit3d>, RotatingContactSearchError3d>)
    requires
        config.sample_count >= 1,
    ensures
        result == recontact_after_start(*left, *right, pair, config),
{
    let ghost target = recontact_after_start(*left, *right, pair, config);
    let denominator = config.sample_count as u32;
    let mut last_clear: Option<u32> = None;
    let mut numerator: u32 = 1;
    while numerator <= denominator
        invariant
            1 <= numerator <= denominator + 1,
            denominator == config.sample_count,
            target == recontact_after_start(*left, *right, pair, config),
            after_start_scan(*left, *right, config, 1, None) == after_start_scan(
                *left,
                *right,
                config,
                numerator as nat,
                match last_clear {
                    Some(clear) => Some(clear as nat),
                    None => None,
                },
            ),
            match last_clear {
                Some(clear) => clear < numerator,
                None => true,
            },
        decreases denominator + 1 - numerator,
    {
        match pair_contact(left, right, config.free_flight, numerator, denominator) {
            Err(error) => return Err(error),
            Ok(Some(contact)) => {
                if let Some(clear) = last_clear {
                    return match refine_contact_bracket(
                        left,
                        right,
                        pair,
                        config,
                        clear,
                        numerator,
                        denominator,
                        contact,
                    ) {
                        Ok(hit) => Ok(Some(hit)),
                        Err(error) => Err(error),
                    };
                }
            },
            Ok(None) => {
                last_clear = Some(numerator);
            },
        }
        numerator = numerator + 1;
    }
    Ok(None)
}

/// The positive-progress search of the pair of bodies at `left_index` and `right_index`.
fn search_new_pair(
    boxes: &[RigidBox3d],
    left_index: usize,
    right_index: usize,
    pair: RotationalSweepPair3d,
    config: RotatingContactSearchConfig3d,
) -> (result: Result<Option<RotatingContactSearchHit3d>, RotatingContactSearchError3d>)
    requires
        left_index < boxes@.len(),
        right_index < boxes@.len(),
        config.sample_count >= 1,
    ensures
        result == new_pair_search(boxes@[left_index as int], boxes@[right_index as int], pair, config),
{
    let left = &boxes[left_index];
    let right = &boxes[right_index];
    proof {
        reveal(shape_contact);
    }
    let start = match contact_seed(left.oriented_box(), right.oriented_box()) {
        Ok(start) => start,
        Err(error) => return Err(RotatingContactSearchError3d::Contact(error)),
    };
    if start.is_some() {
        return search_after_start(left, right, pair, config);
    }
    let mut pair_boxes: Vec<RigidBox3d> = Vec::new();
    pair_boxes.push(*left);
    pair_boxes.push(*right);
    let mut cache = CoarseSampleCache3d::new(2, config.sample_count as u32);
    proof {
        assert(cache.serves(pair_boxes@, config.free_flight));
    }
    let found = match search_pair(pair_boxes.as_slice(), 0, 1, pair, config, &mut cache) {
        Ok(found) => found,
        Err(error) => return Err(error),
    };
    match found {
        Some(hit) => if hit.time.numerator > 0 {
            Ok(Some(hit))
        } else {
            Ok(None)
        },
        None => Ok(None),
    }
}

/// Finds the globally earliest strictly positive sampled rotating contact.
///
/// Pairs that start clear keep the ordinary sampled search. Pairs that start in contact are
/// existing constraints until the coarse grid first observes them clear; only a later
/// clear-to-contact transition counts, refined by the same bisection. Persistent resting contacts
/// therefore cannot be rediscovered forever at time zero. This remains a sampled approximation,
/// not analytic rotational CCD.
pub fn sampled_new_rotating_contact_search(
    boxes: &[RigidBox3d],
    config: RotatingContactSearchConfig3d,
) -> (result: Result<Option<RotatingContactSearchHit3d>, RotatingContactSearchError3d>)
    ensures
        result == new_search_result(boxes@, config),
{
    match validate_resolution(config) {
        Ok(()) => {},
        Err(error) => return Err(error),
    }
    let pairs = match rotational_sweep_candidate_pairs(boxes, config.free_flight) {
        Ok(pairs) => pairs,
        Err(error) => return Err(RotatingContactSearchError3d::BroadPhase(error)),
    };
    let ghost sequence = candidate_sequence(boxes@, config.free_flight);
    proof {
        assert(strictly_sorted(sequence) && forall|pair: RotationalSweepPair3d|
            sequence.contains(pair) <==> is_candidate_pair(boxes@, config.free_flight, pair));
        lemma_sorted_sequences_equal(pairs@, sequence);
        lemma_no_duplicates(boxes@, config.free_flight, boxes@.len());
    }
    let mut best: Option<RotatingContactSearchHit3d> = None;
    let mut index: usize = 0;
    while index < pairs.len()
        invariant
            index <= pairs@.len(),
            pairs@ == sequence,
            new_search_result(boxes@, config) == new_search_over(
                boxes@,
                pairs@,
                config,
                pairs@.len(),
            ),
            distinct_ids(boxes@),
            config.sample_count >= 1,
            new_search_over(boxes@, pairs@, config, index as nat) == Ok::<
                Option<RotatingContactSearchHit3d>,
                RotatingContactSearchError3d,
            >(best),
        decreases pairs.len() - index,
    {
        let pair = pairs[index];
        let left_index = match index_of_body(boxes, pair.left) {
            Some(found) => found,
            None => {
                proof {
                    lemma_new_error_stable(boxes@, pairs@, config, (index + 1) as nat, pairs@.len());
                }
                return Err(RotatingContactSearchError3d::MissingCandidateBody(pair.left));
            },
        };
        let right_index = match index_of_body(boxes, pair.right) {
            Some(found) => found,
            None => {
                proof {
                    lemma_box_with_distinct_id(boxes@, left_index as int);
                    lemma_new_error_stable(boxes@, pairs@, config, (index + 1) as nat, pairs@.len());
                }
                return Err(RotatingContactSearchError3d::MissingCandidateBody(pair.right));
            },
        };
        proof {
            lemma_box_with_distinct_id(boxes@, left_index as int);
            lemma_box_with_distinct_id(boxes@, right_index as int);
        }
        match search_new_pair(boxes, left_index, right_index, pair, config) {
            Err(error) => {
                proof {
                    lemma_new_error_stable(boxes@, pairs@, config, (index + 1) as nat, pairs@.len());
                }
                return Err(error);
            },
            Ok(None) => {},
            Ok(Some(hit)) => {
                let replace = match &best {
                    None => true,
                    Some(current) => hit_before_exec(&hit, current),
                };
                if replace {
                    best = Some(hit);
                }
            },
        }
        index = index + 1;
    }
    Ok(best)
}


/// A contact found after a clear grid point comes with its bracket `clear < k <= samples`.
proof fn lemma_after_start_scan_bracket(
    left: RigidBox3d,
    right: RigidBox3d,
    config: RotatingContactSearchConfig3d,
    k: nat,
    last_clear: Option<nat>,
)
    requires
        last_clear matches Some(clear) ==> clear < k,
    ensures
        match after_start_scan(left, right, config, k, last_clear) {
            Ok(Some((clear, found, _))) => clear < found <= config.sample_count,
            _ => true,
        },
    decreases config.sample_count + 1 - k,
{
    if !(k == 0 || k > config.sample_count) {
        match sampled_contact(left, right, config.free_flight, k as u32, config.sample_count as u32) {
            Ok(Some(_)) => if last_clear is None {
                lemma_after_start_scan_bracket(left, right, config, k + 1, None);
            },
            Ok(None) => lemma_after_start_scan_bracket(left, right, config, k + 1, Some(k)),
            Err(_) => {},
        }
    }
}

/// A pair's positive-progress hit is its own and lies strictly after the interval start.
proof fn lemma_new_pair_positive(
    left: RigidBox3d,
    right: RigidBox3d,
    pair: RotationalSweepPair3d,
    config: RotatingContactSearchConfig3d,
)
    ensures
        match new_pair_search(left, right, pair, config) {
            Ok(Some(hit)) => positive_time_within_interval(hit.time) && hit.pair == pair,
            _ => true,
        },
{
    lemma_pair_search_within(left, right, pair, config);
    lemma_after_start_scan_bracket(left, right, config, 1, None);
    match after_start_scan(left, right, config, 1, None) {
        Ok(Some((clear, k, contact))) => {
            lemma_refined_hit_positive(left, right, pair, config, clear as int, k as int, contact);
        },
        _ => {},
    }
}

proof fn lemma_new_search_over_positive(
    boxes: Seq<RigidBox3d>,
    pairs: Seq<RotationalSweepPair3d>,
    config: RotatingContactSearchConfig3d,
    n: nat,
)
    ensures
        match new_search_over(boxes, pairs, config, n) {
            Ok(Some(hit)) => positive_time_within_interval(hit.time),
            _ => true,
        },
    decreases n,
{
    if n > 0 {
        lemma_new_search_over_positive(boxes, pairs, config, (n - 1) as nat);
        let pair = pairs[n - 1];
        let left = box_with_id(boxes, pair.left);
        let right = box_with_id(boxes, pair.right);
        lemma_new_pair_positive(left, right, pair, config);
        match new_search_over(boxes, pairs, config, (n - 1) as nat) {
            Ok(best) => match new_pair_search(left, right, pair, config) {
                Ok(found) => lemma_keep_earlier_picks(best, found),
                Err(_) => {},
            },
            Err(_) => {},
        }
    }
}

/// Every hit of the positive-progress search lies strictly after the interval start and not after
/// its end: a contact at time zero is never reported.
pub proof fn lemma_new_search_hits_strictly_positive(
    boxes: Seq<RigidBox3d>,
    config: RotatingContactSearchConfig3d,
)
    ensures
        match new_search_result(boxes, config) {
            Ok(Some(hit)) => positive_time_within_interval(hit.time),
            _ => true,
        },
{
    let pairs = candidate_sequence(boxes, config.free_flight);
    lemma_new_search_over_positive(boxes, pairs, config, pairs.len());
}

proof fn lemma_after_start_scan_facts(
    left: RigidBox3d,
    right: RigidBox3d,
    config: RotatingContactSearchConfig3d,
    k: nat,
    last_clear: Option<nat>,
)
    requires
        k >= 1,
        last_clear matches Some(clear) ==> clear < k,
    ensures
        after_start_scan(left, right, config, k, last_clear) matches Ok(Some((clear, m, contact)))
            ==> clear < m <= config.sample_count && sampled_contact(
            left,
            right,
            config.free_flight,
            m as u32,
            config.sample_count as u32,
        ) == Ok::<Option<ObbContactSeed3d>, RotatingContactSearchError3d>(Some(contact)),
    decreases config.sample_count + 1 - k,
{
    if k <= config.sample_count {
        lemma_after_start_scan_facts(left, right, config, k + 1, None);
        lemma_after_start_scan_facts(left, right, config, k + 1, Some(k));
        if let Some(clear) = last_clear {
            lemma_after_start_scan_facts(left, right, config, k + 1, Some(clear));
        }
    }
}

proof fn lemma_new_pair_hit_observed(
    left: RigidBox3d,
    right: RigidBox3d,
    pair: RotationalSweepPair3d,
    config: RotatingContactSearchConfig3d,
)
    ensures
        new_pair_search(left, right, pair, config) matches Ok(Some(hit)) ==> hit.pair == pair
            && observed_contact(left, right, config, hit.time, hit.contact),
{
    lemma_pair_hit_is_observed(left, right, pair, config);
    lemma_pair_search_within(left, right, pair, config);
    lemma_after_start_scan_facts(left, right, config, 1, None);
    if let Ok(Some((clear, k, contact))) = after_start_scan(left, right, config, 1, None) {
        lemma_refined_hit_observed(
            left,
            right,
            pair,
            config,
            clear as int,
            k as int,
            config.sample_count as int,
            contact,
            config.refinement_steps as nat,
        );
    }
}

proof fn lemma_new_search_over_observed(
    boxes: Seq<RigidBox3d>,
    pairs: Seq<RotationalSweepPair3d>,
    config: RotatingContactSearchConfig3d,
    n: nat,
)
    ensures
        new_search_over(boxes, pairs, config, n) matches Ok(Some(hit)) ==> observed_contact(
            box_with_id(boxes, hit.pair.left),
            box_with_id(boxes, hit.pair.right),
            config,
            hit.time,
            hit.contact,
        ),
    decreases n,
{
    if n > 0 {
        lemma_new_search_over_observed(boxes, pairs, config, (n - 1) as nat);
        let pair = pairs[n - 1];
        let left = box_with_id(boxes, pair.left);
        let right = box_with_id(boxes, pair.right);
        lemma_new_pair_hit_observed(left, right, pair, config);
        match new_search_over(boxes, pairs, config, (n - 1) as nat) {
            Ok(best) => match new_pair_search(left, right, pair, config) {
                Ok(found) => lemma_keep_earlier_picks(best, found),
                Err(_) => {},
            },
            Err(_) => {},
        }
    }
}

/// A hit of the positive-progress search is a time at which contact is known to exist: its
/// contact is the exact contact of its pair sampled at a grid point equal to its time.
pub proof fn lemma_new_search_hits_are_observed_contacts(
    boxes: Seq<RigidBox3d>,
    config: RotatingContactSearchConfig3d,
)
    ensures
        new_search_result(boxes, config) matches Ok(Some(hit)) ==> observed_contact(
            box_with_id(boxes, hit.pair.left),
            box_with_id(boxes, hit.pair.right),
            config,
            hit.time,
            hit.contact,
        ),
{
    let pairs = candidate_sequence(boxes, config.free_flight);
    lemma_new_search_over_observed(boxes, pairs, config, pairs.len());
}

} // verus!
