use vstd::prelude::*;

use std::collections::BTreeSet;

use crate::oriented_box::ObbContactSeed3d;
use crate::rigid_box::RigidBox3d;
use crate::rotating_broad_phase::{
    RotationalSweepPair3d, broad_phase_error, is_candidate_pair, lemma_no_duplicates,
    lemma_sorted_sequences_equal, rotational_sweep_candidate_pairs, strictly_sorted,
};
use crate::rotating_contact_search::{
    CoarseSampleCache3d, PairContactCache3d, RotatingContactSearchConfig3d,
    RotatingContactSearchError3d, RotatingContactSearchHit3d, SampledContactTime3d,
    canonical, canonical_time, candidate_sequence, distinct_ids, hit_before_exec, index_of_body,
    keep_earlier, lemma_box_with_distinct_id, lemma_keep_earlier_picks, lemma_refined_hit_observed,
    lemma_refined_hit_positive, observed_contact,
    positive_time_within_interval, refine, refine_contact_bracket, refined_hit,
    resolution_error, sampled_contact, shape_contact, validate_resolution,
};
use crate::rotating_world::{box_with_id, holds_id};

verus! {

broadcast use {vstd::std_specs::btree::group_btree_axioms, vstd::laws_cmp::group_laws_cmp};

/// The key of a pair in a set of contact histories.
pub open spec fn pair_key(pair: RotationalSweepPair3d) -> (u64, u64) {
    (pair.left.0, pair.right.0)
}

/// `a` is not later than `b`.
pub open spec fn time_not_after(a: SampledContactTime3d, b: SampledContactTime3d) -> bool {
    a.numerator * b.denominator <= b.numerator * a.denominator
}

/// Coarse grid points `1..=limit` of a `sample_count` grid still able to match or precede
/// `time`: `ceil(time * sample_count)`, at most `sample_count`.
pub open spec fn coarse_sample_limit(time: SampledContactTime3d, sample_count: u16) -> int {
    if time.denominator == 0 {
        sample_count as int
    } else {
        let limit = (time.numerator * sample_count + time.denominator - 1) / (
        time.denominator as int);
        if limit < sample_count {
            limit
        } else {
            sample_count as int
        }
    }
}

/// The re-contact scan of one pair over coarse grid points `k..=limit`: a contact counts only
/// after a clear grid point (`last_clear`), and is then refined; with a contact history, the first
/// clear grid point is reported.
pub open spec fn recontact_scan(
    left: RigidBox3d,
    right: RigidBox3d,
    pair: RotationalSweepPair3d,
    config: RotatingContactSearchConfig3d,
    limit: nat,
    historical: bool,
    k: nat,
    last_clear: Option<nat>,
    first_clear: Option<SampledContactTime3d>,
) -> Result<(Option<RotatingContactSearchHit3d>, Option<SampledContactTime3d>), RotatingContactSearchError3d>
    decreases limit + 1 - k,
{
    if k == 0 || k > limit {
        Ok((None, first_clear))
    } else {
        match sampled_contact(
            left,
            right,
            config.free_flight,
            k as u32,
            config.sample_count as u32,
        ) {
            Err(error) => Err(error),
            Ok(Some(contact)) => match last_clear {
                None => recontact_scan(
                    left,
                    right,
                    pair,
                    config,
                    limit,
                    historical,
                    k + 1,
                    None,
                    first_clear,
                ),
                Some(clear) => match refined_hit(
                    pair,
                    refine(
                        left,
                        right,
                        config,
                        clear as int,
                        k as int,
                        config.sample_count as int,
                        contact,
                        config.refinement_steps as nat,
                    ),
                ) {
                    Err(error) => Err(error),
                    Ok(hit) => Ok((Some(hit), first_clear)),
                },
            },
            Ok(None) => recontact_scan(
                left,
                right,
                pair,
                config,
                limit,
                historical,
                k + 1,
                Some(k),
                if historical && first_clear is None {
                    Some(canonical_time(k as int, config.sample_count as int))
                } else {
                    first_clear
                },
            ),
        }
    }
}

/// The re-contact search of one pair up to coarse grid point `limit`: a pair touching at the start,
/// or with a contact history, must be seen clear before a contact counts.
pub open spec fn recontact_pair(
    left: RigidBox3d,
    right: RigidBox3d,
    pair: RotationalSweepPair3d,
    config: RotatingContactSearchConfig3d,
    limit: nat,
    historical: bool,
) -> Result<(Option<RotatingContactSearchHit3d>, Option<SampledContactTime3d>), RotatingContactSearchError3d> {
    let touching = if historical {
        Ok(true)
    } else {
        match shape_contact(left.spec_oriented_box(), right.spec_oriented_box()) {
            Ok(contact) => Ok(contact is Some),
            Err(error) => Err(error),
        }
    };
    match touching {
        Err(error) => Err(error),
        Ok(touching) => recontact_scan(
            left,
            right,
            pair,
            config,
            limit,
            historical,
            1,
            if touching {
                None
            } else {
                Some(0)
            },
            None,
        ),
    }
}

/// The coarse limit for the next pair given the best hit so far.
pub open spec fn next_limit(best: Option<RotatingContactSearchHit3d>, config: RotatingContactSearchConfig3d) -> nat {
    match best {
        None => config.sample_count as nat,
        Some(hit) => coarse_sample_limit(hit.time, config.sample_count) as nat,
    }
}

/// Over the first `n` pairs: the earliest re-contact hit and the first clear time observed for
/// each pair with a contact history in `persistent`, or the first failure.
pub open spec fn recontact_over(
    boxes: Seq<RigidBox3d>,
    pairs: Seq<RotationalSweepPair3d>,
    config: RotatingContactSearchConfig3d,
    persistent: Set<(u64, u64)>,
    n: nat,
) -> Result<
    (Option<RotatingContactSearchHit3d>, Seq<((u64, u64), SampledContactTime3d)>),
    RotatingContactSearchError3d,
>
    decreases n,
{
    if n == 0 {
        Ok((None, Seq::empty()))
    } else {
        match recontact_over(boxes, pairs, config, persistent, (n - 1) as nat) {
            Err(error) => Err(error),
            Ok((best, clears)) => {
                let pair = pairs[n - 1];
                if !holds_id(boxes, pair.left) {
                    Err(RotatingContactSearchError3d::MissingCandidateBody(pair.left))
                } else if !holds_id(boxes, pair.right) {
                    Err(RotatingContactSearchError3d::MissingCandidateBody(pair.right))
                } else {
                    match recontact_pair(
                        box_with_id(boxes, pair.left),
                        box_with_id(boxes, pair.right),
                        pair,
                        config,
                        next_limit(best, config),
                        persistent.contains(pair_key(pair)),
                    ) {
                        Err(error) => Err(error),
                        Ok((found, clear)) => Ok(
                            (
                                keep_earlier(best, found),
                                match clear {
                                    Some(time) => clears.push((pair_key(pair), time)),
                                    None => clears,
                                },
                            ),
                        ),
                    }
                }
            },
        }
    }
}

/// The re-contact search over all broad-phase candidate pairs with contact histories
/// `persistent`: the earliest hit and the observed first clear times, or the failure.
pub open spec fn recontact_result(
    boxes: Seq<RigidBox3d>,
    config: RotatingContactSearchConfig3d,
    persistent: Set<(u64, u64)>,
) -> Result<
    (Option<RotatingContactSearchHit3d>, Seq<((u64, u64), SampledContactTime3d)>),
    RotatingContactSearchError3d,
> {
    match resolution_error(config) {
        Some(error) => Err(error),
        None => match broad_phase_error(boxes, config.free_flight, boxes.len()) {
            Some(error) => Err(RotatingContactSearchError3d::BroadPhase(error)),
            None => {
                let pairs = candidate_sequence(boxes, config.free_flight);
                recontact_over(boxes, pairs, config, persistent, pairs.len())
            },
        },
    }
}

/// The histories left after the first `n` observed clears: a clear not later than the selected hit
/// (or any clear, without a hit) releases its pair's history.
pub open spec fn released(
    persistent: Set<(u64, u64)>,
    clears: Seq<((u64, u64), SampledContactTime3d)>,
    best: Option<RotatingContactSearchHit3d>,
    n: nat,
) -> Set<(u64, u64)>
    decreases n,
{
    if n == 0 {
        persistent
    } else {
        let previous = released(persistent, clears, best, (n - 1) as nat);
        let (key, time) = clears[n - 1];
        let releases = match best {
            None => true,
            Some(hit) => time_not_after(time, hit.time),
        };
        if releases {
            previous.remove(key)
        } else {
            previous
        }
    }
}

fn limit_for(best: &Option<RotatingContactSearchHit3d>, config: RotatingContactSearchConfig3d) -> (limit: u32)
    ensures
        limit == next_limit(*best, config),
        limit <= config.sample_count,
{
    match best {
        None => config.sample_count as u32,
        Some(hit) => {
            if hit.time.denominator == 0 {
                return config.sample_count as u32;
            }
            proof {
                assert(hit.time.numerator * config.sample_count <= 0xffff_ffff * 0xffffint)
                    by (nonlinear_arith)
                    requires
                        hit.time.numerator <= 0xffff_ffff,
                        config.sample_count <= 0xffff,
                ;
            }
            let scaled = hit.time.numerator as u64 * config.sample_count as u64;
            let limit = (scaled + hit.time.denominator as u64 - 1) / hit.time.denominator as u64;
            if limit < config.sample_count as u64 {
                limit as u32
            } else {
                config.sample_count as u32
            }
        },
    }
}

/// Both bodies sampled at coarse grid point `numerator` through the caches, then their contact.
fn cached_recontact(
    boxes: &[RigidBox3d],
    left_index: usize,
    right_index: usize,
    config: RotatingContactSearchConfig3d,
    numerator: u32,
    cache: &mut CoarseSampleCache3d,
    contacts: &mut PairContactCache3d,
) -> (result: Result<Option<ObbContactSeed3d>, RotatingContactSearchError3d>)
    requires
        left_index < boxes@.len(),
        right_index < boxes@.len(),
        old(cache).well_formed(),
        old(cache).serves(boxes@, config.free_flight),
        old(cache).body_count() == boxes@.len(),
        old(contacts).well_formed(),
        1 <= numerator <= old(cache).spec_denominator(),
    ensures
        final(cache).well_formed(),
        final(cache).serves(boxes@, config.free_flight),
        final(cache).body_count() == boxes@.len(),
        final(cache).spec_denominator() == old(cache).spec_denominator(),
        final(contacts).well_formed(),
        result == sampled_contact(
            boxes@[left_index as int],
            boxes@[right_index as int],
            config.free_flight,
            numerator,
            old(cache).spec_denominator(),
        ),
{
    let ghost ff = config.free_flight;
    proof {
        assert(old(cache).sources().contains_key(left_index as int) ==> old(cache).sources()[left_index as int]
            == (boxes@[left_index as int], ff));
    }
    let left_shape = match cache.sample_geometry(left_index, &boxes[left_index], config, numerator) {
        Ok(shape) => shape,
        Err(error) => return Err(error),
    };
    proof {
        assert forall|k: int| #![trigger cache.sources().contains_key(k)]
            cache.sources().contains_key(k) implies 0 <= k < boxes@.len() && cache.sources()[k] == (
            boxes@[k],
            ff,
        ) by {
            if k != left_index {
                assert(old(cache).sources().contains_key(k));
            }
        }
        assert(cache.sources().contains_key(right_index as int) ==> cache.sources()[right_index as int]
            == (boxes@[right_index as int], ff));
    }
    let right_shape = match cache.sample_geometry(
        right_index,
        &boxes[right_index],
        config,
        numerator,
    ) {
        Ok(shape) => shape,
        Err(error) => return Err(error),
    };
    proof {
        assert forall|k: int| #![trigger cache.sources().contains_key(k)]
            cache.sources().contains_key(k) implies 0 <= k < boxes@.len() && cache.sources()[k] == (
            boxes@[k],
            ff,
        ) by {
            if k != right_index {
                assert(k != right_index);
            }
        }
    }
    contacts.contact(&left_shape, &right_shape)
}

/// The exact-integer view of an optional grid point.
pub open spec fn grid_point(point: Option<u32>) -> Option<nat> {
    match point {
        Some(value) => Some(value as nat),
        None => None,
    }
}

/// The re-contact search of the pair of bodies at `left_index` and `right_index`.
fn search_recontact_pair(
    boxes: &[RigidBox3d],
    left_index: usize,
    right_index: usize,
    pair: RotationalSweepPair3d,
    config: RotatingContactSearchConfig3d,
    limit: u32,
    historical: bool,
    cache: &mut CoarseSampleCache3d,
) -> (result: Result<
    (Option<RotatingContactSearchHit3d>, Option<SampledContactTime3d>),
    RotatingContactSearchError3d,
>)
    requires
        left_index < boxes@.len(),
        right_index < boxes@.len(),
        old(cache).well_formed(),
        old(cache).serves(boxes@, config.free_flight),
        old(cache).body_count() == boxes@.len(),
        old(cache).spec_denominator() == config.sample_count,
        config.sample_count >= 1,
        limit <= config.sample_count,
    ensures
        final(cache).well_formed(),
        final(cache).serves(boxes@, config.free_flight),
        final(cache).body_count() == boxes@.len(),
        final(cache).spec_denominator() == config.sample_count,
        result == recontact_pair(
            boxes@[left_index as int],
            boxes@[right_index as int],
            pair,
            config,
            limit as nat,
            historical,
        ),
{
    let ghost left = boxes@[left_index as int];
    let ghost right = boxes@[right_index as int];
    let ghost target = recontact_pair(left, right, pair, config, limit as nat, historical);
    let mut contacts = PairContactCache3d::new();
    let start_left = cache.prepare_geometry(left_index, boxes[left_index].oriented_box());
    let start_right = cache.prepare_geometry(right_index, boxes[right_index].oriented_box());
    let touching = if historical {
        true
    } else {
        match contacts.contact(&start_left, &start_right) {
            Ok(contact) => contact.is_some(),
            Err(error) => return Err(error),
        }
    };
    let denominator = config.sample_count as u32;
    let mut last_clear: Option<u32> = if touching {
        None
    } else {
        Some(0)
    };
    let mut first_clear: Option<SampledContactTime3d> = None;
    let mut numerator: u32 = 1;
    while numerator <= limit
        invariant
            1 <= numerator <= limit + 1,
            limit <= denominator,
            denominator == config.sample_count,
            denominator >= 1,
            left_index < boxes@.len(),
            right_index < boxes@.len(),
            left == boxes@[left_index as int],
            right == boxes@[right_index as int],
            cache.well_formed(),
            cache.serves(boxes@, config.free_flight),
            cache.body_count() == boxes@.len(),
            cache.spec_denominator() == denominator,
            contacts.well_formed(),
            target == recontact_pair(left, right, pair, config, limit as nat, historical),
            target == recontact_scan(
                left,
                right,
                pair,
                config,
                limit as nat,
                historical,
                numerator as nat,
                grid_point(last_clear),
                first_clear,
            ),
        decreases limit + 1 - numerator,
    {
        match cached_recontact(
            boxes,
            left_index,
            right_index,
            config,
            numerator,
            cache,
            &mut contacts,
        ) {
            Err(error) => return Err(error),
            Ok(Some(contact)) => {
                if let Some(clear) = last_clear {
                    return match refine_contact_bracket(
                        &boxes[left_index],
                        &boxes[right_index],
                        pair,
                        config,
                        clear,
                        numerator,
                        denominator,
                        contact,
                    ) {
                        Ok(hit) => Ok((Some(hit), first_clear)),
                        Err(error) => Err(error),
                    };
                }
            },
            Ok(None) => {
                last_clear = Some(numerator);
                if historical && first_clear.is_none() {
                    first_clear = Some(canonical(numerator, denominator));
                }
            },
        }
        numerator = numerator + 1;
    }
    Ok((None, first_clear))
}

/// Once the scan over a prefix of pairs fails, it keeps that failure.
proof fn lemma_recontact_error_stable(
    boxes: Seq<RigidBox3d>,
    pairs: Seq<RotationalSweepPair3d>,
    config: RotatingContactSearchConfig3d,
    persistent: Set<(u64, u64)>,
    m: nat,
    n: nat,
)
    requires
        m <= n,
        recontact_over(boxes, pairs, config, persistent, m) is Err,
    ensures
        recontact_over(boxes, pairs, config, persistent, n) == recontact_over(
            boxes,
            pairs,
            config,
            persistent,
            m,
        ),
    decreases n - m,
{
    if m < n {
        lemma_recontact_error_stable(boxes, pairs, config, persistent, m, (n - 1) as nat);
    }
}

fn time_not_after_exec(a: SampledContactTime3d, b: SampledContactTime3d) -> (not_after: bool)
    ensures
        not_after == time_not_after(a, b),
{
    proof {
        assert(a.numerator * b.denominator <= 0xffff_ffff * 0xffff_ffffint) by (nonlinear_arith)
            requires
                a.numerator <= 0xffff_ffff,
                b.denominator <= 0xffff_ffff,
        ;
        assert(b.numerator * a.denominator <= 0xffff_ffff * 0xffff_ffffint) by (nonlinear_arith)
            requires
                b.numerator <= 0xffff_ffff,
                a.denominator <= 0xffff_ffff,
        ;
    }
    a.numerator as u64 * b.denominator as u64 <= b.numerator as u64 * a.denominator as u64
}

/// Finds the earliest strictly positive sampled re-contact, given the pairs whose contact has
/// persisted from before this interval (`persistent_pairs`, keyed by `(left id, right id)`).
///
/// A pair touching at the interval start, or with a contact history, is not reported again merely
/// because it stays in contact: it becomes eligible only after a coarse grid point observes it
/// clear and a later one observes contact again. Pairs that start clear keep ordinary
/// first-contact behaviour. Once a hit exists, later pairs inspect only the coarse grid points that
/// can still match or precede it. A pair with a history whose first clear grid point is not later
/// than the selected hit (or that clears while nothing is hit) leaves `persistent_pairs`.
///
/// This remains a sampled approximation, not analytic rotational CCD.
pub fn sampled_rotating_recontact_search_with_persistent_pairs(
    boxes: &[RigidBox3d],
    config: RotatingContactSearchConfig3d,
    persistent_pairs: &mut BTreeSet<(u64, u64)>,
) -> (result: Result<Option<RotatingContactSearchHit3d>, RotatingContactSearchError3d>)
    ensures
        match recontact_result(boxes@, config, old(persistent_pairs)@) {
            Err(error) => result == Err::<
                Option<RotatingContactSearchHit3d>,
                RotatingContactSearchError3d,
            >(error) && final(persistent_pairs)@ == old(persistent_pairs)@,
            Ok((best, clears)) => result == Ok::<
                Option<RotatingContactSearchHit3d>,
                RotatingContactSearchError3d,
            >(best) && final(persistent_pairs)@ == released(
                old(persistent_pairs)@,
                clears,
                best,
                clears.len(),
            ),
        },
{
    let ghost persistent = persistent_pairs@;
    match validate_resolution(config) {
        Ok(()) => {},
        Err(error) => return Err(error),
    }
    let pairs = match rotational_sweep_candidate_pairs(boxes, config.free_flight) {
        Ok(pairs) => pairs,
        Err(error) => return Err(RotatingContactSearchError3d::BroadPhase(error)),
    };
    let ghost sequence = candidate_sequence(boxes@, config.free_flight);
    proof {
        assert(strictly_sorted(sequence) && forall|pair: RotationalSweepPair3d|
            sequence.contains(pair) <==> is_candidate_pair(boxes@, config.free_flight, pair));
        lemma_sorted_sequences_equal(pairs@, sequence);
        lemma_no_duplicates(boxes@, config.free_flight, boxes@.len());
    }
    if pairs.len() == 0 {
        return Ok(None);
    }
    let mut cache = CoarseSampleCache3d::new(boxes.len(), config.sample_count as u32);
    let mut best: Option<RotatingContactSearchHit3d> = None;
    let mut clears: Vec<((u64, u64), SampledContactTime3d)> = Vec::new();
    let mut index: usize = 0;
    while index < pairs.len()
        invariant
            index <= pairs@.len(),
            pairs@ == sequence,
            recontact_result(boxes@, config, persistent) == recontact_over(
                boxes@,
                pairs@,
                config,
                persistent,
                pairs@.len(),
            ),
            persistent_pairs@ == persistent,
            distinct_ids(boxes@),
            config.sample_count >= 1,
            recontact_over(boxes@, pairs@, config, persistent, index as nat) == Ok::<
                (Option<RotatingContactSearchHit3d>, Seq<((u64, u64), SampledContactTime3d)>),
                RotatingContactSearchError3d,
            >((best, clears@)),
            cache.well_formed(),
            cache.serves(boxes@, config.free_flight),
            cache.body_count() == boxes@.len(),
            cache.spec_denominator() == config.sample_count,
        decreases pairs.len() - index,
    {
        let pair = pairs[index];
        let left_index = match index_of_body(boxes, pair.left) {
            Some(found) => found,
            None => {
                proof {
                    lemma_recontact_error_stable(
                        boxes@,
                        pairs@,
                        config,
                        persistent,
                        (index + 1) as nat,
                        pairs@.len(),
                    );
                }
                return Err(RotatingContactSearchError3d::MissingCandidateBody(pair.left));
            },
        };
        let right_index = match index_of_body(boxes, pair.right) {
            Some(found) => found,
            None => {
                proof {
                    lemma_box_with_distinct_id(boxes@, left_index as int);
                    lemma_recontact_error_stable(
                        boxes@,
                        pairs@,
                        config,
                        persistent,
                        (index + 1) as nat,
                        pairs@.len(),
                    );
                }
                return Err(RotatingContactSearchError3d::MissingCandidateBody(pair.right));
            },
        };
        proof {
            lemma_box_with_distinct_id(boxes@, left_index as int);
            lemma_box_with_distinct_id(boxes@, right_index as int);
        }
        let limit = limit_for(&best, config);
        let key = (pair.left.0, pair.right.0);
        let historical = persistent_pairs.contains(&key);
        match search_recontact_pair(
            boxes,
            left_index,
            right_index,
            pair,
            config,
            limit,
            historical,
            &mut cache,
        ) {
            Err(error) => {
                proof {
                    lemma_recontact_error_stable(
                        boxes@,
                        pairs@,
                        config,
                        persistent,
                        (index + 1) as nat,
                        pairs@.len(),
                    );
                }
                return Err(error);
            },
            Ok((found, clear)) => {
                if let Some(time) = clear {
                    clears.push((key, time));
                }
                if let Some(hit) = found {
                    let replace = match &best {
                        None => true,
                        Some(current) => hit_before_exec(&hit, current),
                    };
                    if replace {
                        best = Some(hit);
                    }
                }
            },
        }
        index = index + 1;
    }
    let mut position: usize = 0;
    while position < clears.len()
        invariant
            position <= clears@.len(),
            persistent_pairs@ == released(persistent, clears@, best, position as nat),
        decreases clears.len() - position,
    {
        let (key, time) = clears[position];
        let releases = match &best {
            None => true,
            Some(hit) => time_not_after_exec(time, hit.time),
        };
        if releases {
            persistent_pairs.remove(&key);
        }
        position = position + 1;
    }
    Ok(best)
}

/// Finds the earliest strictly positive sampled re-contact when no pair has a contact history:
/// pairs touching at the interval start must first be seen clear.
pub fn sampled_rotating_recontact_search(
    boxes: &[RigidBox3d],
    config: RotatingContactSearchConfig3d,
) -> (result: Result<Option<RotatingContactSearchHit3d>, RotatingContactSearchError3d>)
    ensures
        result == match recontact_result(boxes@, config, Set::<(u64, u64)>::empty()) {
            Err(error) => Err(error),
            Ok((best, _)) => Ok::<
                Option<RotatingContactSearchHit3d>,
                RotatingContactSearchError3d,
            >(best),
        },
{
    let mut persistent_pairs: BTreeSet<(u64, u64)> = BTreeSet::new();
    sampled_rotating_recontact_search_with_persistent_pairs(boxes, config, &mut persistent_pairs)
}


/// A re-contact scan from grid point `k`, after a clear point before `k` (if any), reports only a
/// hit of this pair strictly after the interval start and not after its end.
proof fn lemma_recontact_scan_positive(
    left: RigidBox3d,
    right: RigidBox3d,
    pair: RotationalSweepPair3d,
    config: RotatingContactSearchConfig3d,
    limit: nat,
    historical: bool,
    k: nat,
    last_clear: Option<nat>,
    first_clear: Option<SampledContactTime3d>,
)
    requires
        limit <= config.sample_count,
        last_clear matches Some(clear) ==> clear < k,
    ensures
        match recontact_scan(left, right, pair, config, limit, historical, k, last_clear, first_clear) {
            Ok((Some(hit), _)) => positive_time_within_interval(hit.time) && hit.pair == pair,
            _ => true,
        },
    decreases limit + 1 - k,
{
    if !(k == 0 || k > limit) {
        match sampled_contact(left, right, config.free_flight, k as u32, config.sample_count as u32) {
            Err(_) => {},
            Ok(Some(contact)) => match last_clear {
                None => lemma_recontact_scan_positive(
                    left,
                    right,
                    pair,
                    config,
                    limit,
                    historical,
                    k + 1,
                    None,
                    first_clear,
                ),
                Some(clear) => lemma_refined_hit_positive(
                    left,
                    right,
                    pair,
                    config,
                    clear as int,
                    k as int,
                    contact,
                ),
            },
            Ok(None) => lemma_recontact_scan_positive(
                left,
                right,
                pair,
                config,
                limit,
                historical,
                k + 1,
                Some(k),
                if historical && first_clear is None {
                    Some(canonical_time(k as int, config.sample_count as int))
                } else {
                    first_clear
                },
            ),
        }
    }
}

/// The coarse limit derived from a positive time within the interval stays within the grid.
pub(crate) proof fn lemma_next_limit_bounded(
    best: Option<RotatingContactSearchHit3d>,
    config: RotatingContactSearchConfig3d,
)
    requires
        best matches Some(hit) ==> positive_time_within_interval(hit.time),
    ensures
        next_limit(best, config) <= config.sample_count,
{
    if let Some(hit) = best {
        let time = hit.time;
        if time.denominator != 0 {
            let top = time.numerator * config.sample_count + time.denominator - 1;
            assert(top >= 0) by (nonlinear_arith)
                requires
                    time.numerator >= 1,
                    time.denominator >= 1,
                    top == time.numerator * config.sample_count + time.denominator - 1,
            ;
            vstd::arithmetic::div_mod::lemma_div_pos_is_pos(top, time.denominator as int);
        }
    }
}

pub(crate) proof fn lemma_recontact_over_positive(
    boxes: Seq<RigidBox3d>,
    pairs: Seq<RotationalSweepPair3d>,
    config: RotatingContactSearchConfig3d,
    persistent: Set<(u64, u64)>,
    n: nat,
)
    ensures
        match recontact_over(boxes, pairs, config, persistent, n) {
            Ok((Some(hit), _)) => positive_time_within_interval(hit.time),
            _ => true,
        },
    decreases n,
{
    if n > 0 {
        lemma_recontact_over_positive(boxes, pairs, config, persistent, (n - 1) as nat);
        match recontact_over(boxes, pairs, config, persistent, (n - 1) as nat) {
            Err(_) => {},
            Ok((best, _)) => {
                let pair = pairs[n - 1];
                let left = box_with_id(boxes, pair.left);
                let right = box_with_id(boxes, pair.right);
                let historical = persistent.contains(pair_key(pair));
                lemma_next_limit_bounded(best, config);
                let touching = if historical {
                    Ok(true)
                } else {
                    match shape_contact(left.spec_oriented_box(), right.spec_oriented_box()) {
                        Ok(contact) => Ok(contact is Some),
                        Err(error) => Err(error),
                    }
                };
                match touching {
                    Err(_) => {},
                    Ok(touching) => lemma_recontact_scan_positive(
                        left,
                        right,
                        pair,
                        config,
                        next_limit(best, config),
                        historical,
                        1,
                        if touching {
                            None
                        } else {
                            Some(0)
                        },
                        None,
                    ),
                }
                match recontact_pair(
                    left,
                    right,
                    pair,
                    config,
                    next_limit(best, config),
                    historical,
                ) {
                    Ok((found, _)) => lemma_keep_earlier_picks(best, found),
                    Err(_) => {},
                }
            },
        }
    }
}

/// Every re-contact hit lies strictly after the interval start and not after its end: a contact
/// counts only once a clear grid point precedes it.
pub proof fn lemma_recontact_hits_strictly_positive(
    boxes: Seq<RigidBox3d>,
    config: RotatingContactSearchConfig3d,
    persistent: Set<(u64, u64)>,
)
    ensures
        match recontact_result(boxes, config, persistent) {
            Ok((Some(hit), _)) => positive_time_within_interval(hit.time),
            _ => true,
        },
{
    let pairs = candidate_sequence(boxes, config.free_flight);
    lemma_recontact_over_positive(boxes, pairs, config, persistent, pairs.len());
}

proof fn lemma_recontact_scan_observed(
    left: RigidBox3d,
    right: RigidBox3d,
    pair: RotationalSweepPair3d,
    config: RotatingContactSearchConfig3d,
    limit: nat,
    historical: bool,
    k: nat,
    last_clear: Option<nat>,
    first_clear: Option<SampledContactTime3d>,
)
    requires
        k >= 1,
        limit <= config.sample_count,
        last_clear matches Some(clear) ==> clear < k,
    ensures
        recontact_scan(left, right, pair, config, limit, historical, k, last_clear, first_clear) matches Ok(
            (Some(hit), _),
        ) ==> hit.pair == pair && observed_contact(left, right, config, hit.time, hit.contact),
    decreases limit + 1 - k,
{
    if k <= limit {
        match sampled_contact(left, right, config.free_flight, k as u32, config.sample_count as u32) {
            Ok(Some(contact)) => match last_clear {
                None => lemma_recontact_scan_observed(
                    left,
                    right,
                    pair,
                    config,
                    limit,
                    historical,
                    k + 1,
                    None,
                    first_clear,
                ),
                Some(clear) => lemma_refined_hit_observed(
                    left,
                    right,
                    pair,
                    config,
                    clear as int,
                    k as int,
                    config.sample_count as int,
                    contact,
                    config.refinement_steps as nat,
                ),
            },
            Ok(None) => lemma_recontact_scan_observed(
                left,
                right,
                pair,
                config,
                limit,
                historical,
                k + 1,
                Some(k),
                if historical && first_clear is None {
                    Some(canonical_time(k as int, config.sample_count as int))
                } else {
                    first_clear
                },
            ),
            Err(_) => {},
        }
    }
}

proof fn lemma_recontact_over_observed(
    boxes: Seq<RigidBox3d>,
    pairs: Seq<RotationalSweepPair3d>,
    config: RotatingContactSearchConfig3d,
    persistent: Set<(u64, u64)>,
    n: nat,
)
    ensures
        recontact_over(boxes, pairs, config, persistent, n) matches Ok((Some(hit), _))
            ==> observed_contact(
            box_with_id(boxes, hit.pair.left),
            box_with_id(boxes, hit.pair.right),
            config,
            hit.time,
            hit.contact,
        ),
    decreases n,
{
    if n > 0 {
        lemma_recontact_over_observed(boxes, pairs, config, persistent, (n - 1) as nat);
        lemma_recontact_over_positive(boxes, pairs, config, persistent, (n - 1) as nat);
        match recontact_over(boxes, pairs, config, persistent, (n - 1) as nat) {
            Err(_) => {},
            Ok((best, _)) => {
                let pair = pairs[n - 1];
                let left = box_with_id(boxes, pair.left);
                let right = box_with_id(boxes, pair.right);
                let historical = persistent.contains(pair_key(pair));
                let limit = next_limit(best, config);
                lemma_next_limit_bounded(best, config);
                lemma_recontact_scan_observed(left, right, pair, config, limit, historical, 1, None, None);
                lemma_recontact_scan_observed(
                    left,
                    right,
                    pair,
                    config,
                    limit,
                    historical,
                    1,
                    Some(0),
                    None,
                );
                match recontact_pair(left, right, pair, config, limit, historical) {
                    Ok((found, _)) => lemma_keep_earlier_picks(best, found),
                    Err(_) => {},
                }
            },
        }
    }
}

/// A hit of the re-contact search is a time at which contact is known to exist: its contact is
/// the exact contact of its pair sampled at a grid point equal to its time.
pub proof fn lemma_recontact_hits_are_observed_contacts(
    boxes: Seq<RigidBox3d>,
    config: RotatingContactSearchConfig3d,
    persistent: Set<(u64, u64)>,
)
    ensures
        recontact_result(boxes, config, persistent) matches Ok((Some(hit), _)) ==> observed_contact(
            box_with_id(boxes, hit.pair.left),
            box_with_id(boxes, hit.pair.right),
            config,
            hit.time,
            hit.contact,
        ),
{
    let pairs = candidate_sequence(boxes, config.free_flight);
    lemma_recontact_over_observed(boxes, pairs, config, persistent, pairs.len());
}

} // verus!
