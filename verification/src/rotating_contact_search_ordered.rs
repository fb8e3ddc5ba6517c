use vstd::prelude::*;

use crate::rigid_box::RigidBox3d;
use crate::rigid_box_free_flight::RigidBoxFreeFlightConfig3d;
use crate::rotating_broad_phase::{
    RotationalSweepPair3d, broad_phase_error, is_candidate_pair, lemma_no_duplicates,
    lemma_sorted_sequences_equal, rotational_sweep_candidate_pairs, strictly_sorted,
};
use crate::rotating_contact_search::{
    CoarseSampleCache3d, RotatingContactSearchConfig3d, RotatingContactSearchError3d,
    RotatingContactSearchHit3d, SampledContactTime3d, cached_pair_contact, candidate_sequence,
    distinct_ids, hit_before, hit_before_exec, index_of_body, keep_earlier,
    lemma_box_with_distinct_id, lemma_canonical_value, lemma_keep_earlier_picks,
    lemma_refine_bounds, lemma_refine_bracket, canonical_time, candidate_search, coarse_scan,
    search_over, search_result, refine,
    refine_contact_bracket, refined_hit, resolution_error, sampled_contact, shape_contact,
    validate_resolution,
};
use crate::oriented_box::{ObbContactSeed3d, contact_seed};
use crate::rotating_world::{box_with_id, holds_id};

verus! {

/// Work done by one globally time-ordered contact search.
#[derive(Clone, Copy, Debug, PartialEq, Eq, Structural)]
pub struct ContactSearchWork3d {
    pub candidate_pairs: u64,
    pub initial_pair_evaluations: u64,
    pub coarse_rows: u64,
    pub coarse_pair_evaluations: u64,
    pub exact_contact_evaluations: u64,
    pub refinement_evaluations: u64,
}

impl Default for ContactSearchWork3d {
    fn default() -> (work: ContactSearchWork3d)
        ensures
            work == work_of(0, 0, 0, 0),
    {
        ContactSearchWork3d {
            candidate_pairs: 0,
            initial_pair_evaluations: 0,
            coarse_rows: 0,
            coarse_pair_evaluations: 0,
            exact_contact_evaluations: 0,
            refinement_evaluations: 0,
        }
    }
}

/// `value`, saturated at `u64::MAX`.
pub open spec fn capped(value: int) -> u64 {
    if value > u64::MAX {
        u64::MAX
    } else {
        value as u64
    }
}

/// The work of a search over `pairs` candidates that evaluated each once at the start, then
/// `rows` complete coarse rows, and refined `refined` contacts by `steps` bisections each.
pub open spec fn work_of(pairs: int, rows: int, refined: int, steps: int) -> ContactSearchWork3d {
    ContactSearchWork3d {
        candidate_pairs: capped(pairs),
        initial_pair_evaluations: capped(pairs),
        coarse_rows: capped(rows),
        coarse_pair_evaluations: capped(rows * pairs),
        exact_contact_evaluations: capped(pairs + rows * pairs + refined * steps),
        refinement_evaluations: capped(refined * steps),
    }
}

/// Over the first `n` pairs: the earliest contact at the interval start, or the first failure.
pub open spec fn initial_scan(
    boxes: Seq<RigidBox3d>,
    pairs: Seq<RotationalSweepPair3d>,
    n: nat,
) -> Result<Option<RotatingContactSearchHit3d>, RotatingContactSearchError3d>
    decreases n,
{
    if n == 0 {
        Ok(None)
    } else {
        match initial_scan(boxes, pairs, (n - 1) as nat) {
            Err(error) => Err(error),
            Ok(best) => {
                let pair = pairs[n - 1];
                if !holds_id(boxes, pair.left) {
                    Err(RotatingContactSearchError3d::MissingCandidateBody(pair.left))
                } else if !holds_id(boxes, pair.right) {
                    Err(RotatingContactSearchError3d::MissingCandidateBody(pair.right))
                } else {
                    match shape_contact(
                        box_with_id(boxes, pair.left).spec_oriented_box(),
                        box_with_id(boxes, pair.right).spec_oriented_box(),
                    ) {
                        Err(error) => Err(error),
                        Ok(None) => Ok(best),
                        Ok(Some(contact)) => Ok(
                            keep_earlier(
                                best,
                                Some(
                                    RotatingContactSearchHit3d {
                                        time: SampledContactTime3d::spec_zero(),
                                        pair,
                                        contact,
                                    },
                                ),
                            ),
                        ),
                    }
                }
            },
        }
    }
}

/// Coarse row `k` over the first `n` pairs: the earliest refined contact of the row and the
/// number of refined contacts, or the first failure.
pub open spec fn row_scan(
    boxes: Seq<RigidBox3d>,
    pairs: Seq<RotationalSweepPair3d>,
    config: RotatingContactSearchConfig3d,
    k: nat,
    n: nat,
) -> Result<(Option<RotatingContactSearchHit3d>, nat), RotatingContactSearchError3d>
    decreases n,
{
    if n == 0 {
        Ok((None, 0))
    } else {
        match row_scan(boxes, pairs, config, k, (n - 1) as nat) {
            Err(error) => Err(error),
            Ok((best, refined)) => {
                let pair = pairs[n - 1];
                let left = box_with_id(boxes, pair.left);
                let right = box_with_id(boxes, pair.right);
                match sampled_contact(
                    left,
                    right,
                    config.free_flight,
                    k as u32,
                    config.sample_count as u32,
                ) {
                    Err(error) => Err(error),
                    Ok(None) => Ok((best, refined)),
                    Ok(Some(contact)) => match refined_hit(
                        pair,
                        refine(
                            left,
                            right,
                            config,
                            k - 1,
                            k as int,
                            config.sample_count as int,
                            contact,
                            config.refinement_steps as nat,
                        ),
                    ) {
                        Err(error) => Err(error),
                        Ok(hit) => Ok((keep_earlier(best, Some(hit)), refined + 1)),
                    },
                }
            },
        }
    }
}

/// Coarse rows `k..=sample_count` in order, stopping at the first row with a contact: its earliest
/// refined hit, the number of rows scanned and of contacts refined, or the first failure.
pub open spec fn ordered_rows(
    boxes: Seq<RigidBox3d>,
    pairs: Seq<RotationalSweepPair3d>,
    config: RotatingContactSearchConfig3d,
    k: nat,
) -> Result<(Option<RotatingContactSearchHit3d>, nat, nat), RotatingContactSearchError3d>
    decreases config.sample_count + 1 - k,
{
    if k == 0 || k > config.sample_count {
        Ok((None, config.sample_count as nat, 0))
    } else {
        match row_scan(boxes, pairs, config, k, pairs.len()) {
            Err(error) => Err(error),
            Ok((Some(hit), refined)) => Ok((Some(hit), k, refined)),
            Ok((None, _)) => ordered_rows(boxes, pairs, config, k + 1),
        }
    }
}

/// The outcome of the coarse rows, with the work of the whole search over `count` pairs.
pub open spec fn rows_outcome(
    count: int,
    config: RotatingContactSearchConfig3d,
    rows: Result<(Option<RotatingContactSearchHit3d>, nat, nat), RotatingContactSearchError3d>,
) -> Result<(Option<RotatingContactSearchHit3d>, ContactSearchWork3d), RotatingContactSearchError3d> {
    match rows {
        Err(error) => Err(error),
        Ok((found, rows, refined)) => Ok(
            (found, work_of(count, rows as int, refined as int, config.refinement_steps as int)),
        ),
    }
}

/// The outcome once the start of the interval was checked: a contact there wins, else the rows.
pub open spec fn ordered_outcome(
    boxes: Seq<RigidBox3d>,
    pairs: Seq<RotationalSweepPair3d>,
    config: RotatingContactSearchConfig3d,
    initial: Result<Option<RotatingContactSearchHit3d>, RotatingContactSearchError3d>,
) -> Result<(Option<RotatingContactSearchHit3d>, ContactSearchWork3d), RotatingContactSearchError3d> {
    match initial {
        Err(error) => Err(error),
        Ok(Some(hit)) => Ok(
            (Some(hit), work_of(pairs.len() as int, 0, 0, config.refinement_steps as int)),
        ),
        Ok(None) => rows_outcome(pairs.len() as int, config, ordered_rows(boxes, pairs, config, 1)),
    }
}

/// The globally time-ordered search with its work, or the failure.
pub open spec fn ordered_result(boxes: Seq<RigidBox3d>, config: RotatingContactSearchConfig3d) -> Result<
    (Option<RotatingContactSearchHit3d>, ContactSearchWork3d),
    RotatingContactSearchError3d,
> {
    match resolution_error(config) {
        Some(error) => Err(error),
        None => match broad_phase_error(boxes, config.free_flight, boxes.len()) {
            Some(error) => Err(RotatingContactSearchError3d::BroadPhase(error)),
            None => {
                let pairs = candidate_sequence(boxes, config.free_flight);
                if pairs.len() == 0 {
                    Ok((None, work_of(0, 0, 0, config.refinement_steps as int)))
                } else {
                    ordered_outcome(boxes, pairs, config, initial_scan(boxes, pairs, pairs.len()))
                }
            },
        },
    }
}

proof fn lemma_initial_error_stable(
    boxes: Seq<RigidBox3d>,
    pairs: Seq<RotationalSweepPair3d>,
    m: nat,
    n: nat,
)
    requires
        m <= n,
        initial_scan(boxes, pairs, m) is Err,
    ensures
        initial_scan(boxes, pairs, n) == initial_scan(boxes, pairs, m),
    decreases n - m,
{
    if m < n {
        lemma_initial_error_stable(boxes, pairs, m, (n - 1) as nat);
    }
}

proof fn lemma_row_error_stable(
    boxes: Seq<RigidBox3d>,
    pairs: Seq<RotationalSweepPair3d>,
    config: RotatingContactSearchConfig3d,
    k: nat,
    m: nat,
    n: nat,
)
    requires
        m <= n,
        row_scan(boxes, pairs, config, k, m) is Err,
    ensures
        row_scan(boxes, pairs, config, k, n) == row_scan(boxes, pairs, config, k, m),
    decreases n - m,
{
    if m < n {
        lemma_row_error_stable(boxes, pairs, config, k, m, (n - 1) as nat);
    }
}

/// A candidate pair with the indices of its two bodies.
pub open spec fn indexed_pair(
    boxes: Seq<RigidBox3d>,
    pair: RotationalSweepPair3d,
    state: (RotationalSweepPair3d, usize, usize),
) -> bool {
    &&& state.0 == pair
    &&& state.1 < boxes.len()
    &&& state.2 < boxes.len()
    &&& box_with_id(boxes, pair.left) == boxes[state.1 as int]
    &&& box_with_id(boxes, pair.right) == boxes[state.2 as int]
}

/// Searches the candidate pairs in global coarse-time order, reporting the work done.
///
/// Every pair is checked at the interval start first; a contact there wins. Otherwise every pair
/// is evaluated at coarse row 1 before any reaches row 2, and so on; the first row holding a
/// contact is refined pair by pair and its earliest hit (ties to the smaller pair) is returned, no
/// later row being evaluated.
pub fn sampled_rotating_contact_search_profiled(
    boxes: &[RigidBox3d],
    config: RotatingContactSearchConfig3d,
) -> (result: Result<(Option<RotatingContactSearchHit3d>, ContactSearchWork3d), RotatingContactSearchError3d>)
    ensures
        result == ordered_result(boxes@, config),
{
    match validate_resolution(config) {
        Ok(()) => {},
        Err(error) => return Err(error),
    }
    let pairs = match rotational_sweep_candidate_pairs(boxes, config.free_flight) {
        Ok(pairs) => pairs,
        Err(error) => return Err(RotatingContactSearchError3d::BroadPhase(error)),
    };
    let ghost sequence = candidate_sequence(boxes@, config.free_flight);
    proof {
        assert(strictly_sorted(sequence) && forall|pair: RotationalSweepPair3d|
            sequence.contains(pair) <==> is_candidate_pair(boxes@, config.free_flight, pair));
        lemma_sorted_sequences_equal(pairs@, sequence);
        lemma_no_duplicates(boxes@, config.free_flight, boxes@.len());
    }
    let count = pairs.len() as u64;
    let steps = config.refinement_steps as u64;
    let mut work = ContactSearchWork3d {
        candidate_pairs: count,
        initial_pair_evaluations: 0,
        coarse_rows: 0,
        coarse_pair_evaluations: 0,
        exact_contact_evaluations: 0,
        refinement_evaluations: 0,
    };
    if pairs.len() == 0 {
        return Ok((None, work));
    }
    let ghost target = ordered_result(boxes@, config);
    let mut cache = CoarseSampleCache3d::new(boxes.len(), config.sample_count as u32);
    let mut states: Vec<(RotationalSweepPair3d, usize, usize)> = Vec::new();
    let mut initial_best: Option<RotatingContactSearchHit3d> = None;
    let mut index: usize = 0;
    while index < pairs.len()
        invariant
            index <= pairs@.len(),
            pairs@ == sequence,
            pairs@.len() > 0,
            count == pairs@.len(),
            target == ordered_result(boxes@, config),
            target == ordered_outcome(
                boxes@,
                pairs@,
                config,
                initial_scan(boxes@, pairs@, pairs@.len()),
            ),
            distinct_ids(boxes@),
            config.sample_count >= 1,
            initial_scan(boxes@, pairs@, index as nat) == Ok::<
                Option<RotatingContactSearchHit3d>,
                RotatingContactSearchError3d,
            >(initial_best),
            states@.len() == index,
            forall|i: int| 0 <= i < index ==> indexed_pair(boxes@, pairs@[i], #[trigger] states@[i]),
            work == (ContactSearchWork3d {
                candidate_pairs: capped(count as int),
                initial_pair_evaluations: capped(index as int),
                coarse_rows: 0,
                coarse_pair_evaluations: 0,
                exact_contact_evaluations: capped(index as int),
                refinement_evaluations: 0,
            }),
            cache.well_formed(),
            cache.serves(boxes@, config.free_flight),
            cache.body_count() == boxes@.len(),
            cache.spec_denominator() == config.sample_count,
        decreases pairs.len() - index,
    {
        let pair = pairs[index];
        let left_index = match index_of_body(boxes, pair.left) {
            Some(found) => found,
            None => {
                proof {
                    lemma_initial_error_stable(boxes@, pairs@, (index + 1) as nat, pairs@.len());
                }
                return Err(RotatingContactSearchError3d::MissingCandidateBody(pair.left));
            },
        };
        let right_index = match index_of_body(boxes, pair.right) {
            Some(found) => found,
            None => {
                proof {
                    lemma_box_with_distinct_id(boxes@, left_index as int);
                    lemma_initial_error_stable(boxes@, pairs@, (index + 1) as nat, pairs@.len());
                }
                return Err(RotatingContactSearchError3d::MissingCandidateBody(pair.right));
            },
        };
        proof {
            lemma_box_with_distinct_id(boxes@, left_index as int);
            lemma_box_with_distinct_id(boxes@, right_index as int);
        }
        let start_left = cache.prepare_geometry(left_index, boxes[left_index].oriented_box());
        let start_right = cache.prepare_geometry(right_index, boxes[right_index].oriented_box());
        work.initial_pair_evaluations = work.initial_pair_evaluations.saturating_add(1);
        work.exact_contact_evaluations = work.exact_contact_evaluations.saturating_add(1);
        proof {
            reveal(shape_contact);
        }
        match contact_seed(start_left, start_right) {
            Err(error) => {
                proof {
                    lemma_initial_error_stable(boxes@, pairs@, (index + 1) as nat, pairs@.len());
                }
                return Err(RotatingContactSearchError3d::Contact(error));
            },
            Ok(None) => {},
            Ok(Some(contact)) => {
                let hit = RotatingContactSearchHit3d {
                    time: SampledContactTime3d::zero(),
                    pair,
                    contact,
                };
                let replace = match &initial_best {
                    None => true,
                    Some(current) => hit_before_exec(&hit, current),
                };
                if replace {
                    initial_best = Some(hit);
                }
            },
        }
        states.push((pair, left_index, right_index));
        index = index + 1;
    }
    if initial_best.is_some() {
        return Ok((initial_best, work));
    }
    let denominator = config.sample_count as u32;
    let mut numerator: u32 = 1;
    while numerator <= denominator
        invariant
            1 <= numerator <= denominator + 1,
            denominator == config.sample_count,
            pairs@.len() > 0,
            count == pairs@.len(),
            states@.len() == pairs@.len(),
            forall|i: int|
                0 <= i < pairs@.len() ==> indexed_pair(boxes@, pairs@[i], #[trigger] states@[i]),
            target == ordered_result(boxes@, config),
            target == rows_outcome(count as int, config, ordered_rows(boxes@, pairs@, config, 1)),
            ordered_rows(boxes@, pairs@, config, 1) == ordered_rows(
                boxes@,
                pairs@,
                config,
                numerator as nat,
            ),
            work == work_of(count as int, numerator - 1, 0, steps as int),
            steps == config.refinement_steps,
            cache.well_formed(),
            cache.serves(boxes@, config.free_flight),
            cache.body_count() == boxes@.len(),
            cache.spec_denominator() == denominator,
        decreases denominator + 1 - numerator,
    {
        work.coarse_rows = work.coarse_rows.saturating_add(1);
        let mut row_best: Option<RotatingContactSearchHit3d> = None;
        let ghost mut refined: nat = 0;
        let mut position: usize = 0;
        while position < states.len()
            invariant
                position <= states@.len(),
                1 <= numerator <= denominator,
                denominator == config.sample_count,
                count == pairs@.len(),
                states@.len() == pairs@.len(),
                forall|i: int|
                    0 <= i < pairs@.len() ==> indexed_pair(boxes@, pairs@[i], #[trigger] states@[i]),
                row_scan(boxes@, pairs@, config, numerator as nat, position as nat) == Ok::<
                    (Option<RotatingContactSearchHit3d>, nat),
                    RotatingContactSearchError3d,
                >((row_best, refined)),
                row_best is None ==> refined == 0,
                work == (ContactSearchWork3d {
                    candidate_pairs: capped(count as int),
                    initial_pair_evaluations: capped(count as int),
                    coarse_rows: capped(numerator as int),
                    coarse_pair_evaluations: capped((numerator - 1) * count + position),
                    exact_contact_evaluations: capped(
                        count + (numerator - 1) * count + position + refined * steps,
                    ),
                    refinement_evaluations: capped(refined * steps),
                }),
                steps == config.refinement_steps,
                target == ordered_result(boxes@, config),
                target == rows_outcome(count as int, config, ordered_rows(boxes@, pairs@, config, 1)),
                ordered_rows(boxes@, pairs@, config, 1) == ordered_rows(
                    boxes@,
                    pairs@,
                    config,
                    numerator as nat,
                ),
                cache.well_formed(),
                cache.serves(boxes@, config.free_flight),
                cache.body_count() == boxes@.len(),
                cache.spec_denominator() == denominator,
            decreases states.len() - position,
        {
            let (pair, left_index, right_index) = states[position];
            proof {
                assert(indexed_pair(boxes@, pairs@[position as int], states@[position as int]));
            }
            work.coarse_pair_evaluations = work.coarse_pair_evaluations.saturating_add(1);
            let found = cached_pair_contact(
                boxes,
                left_index,
                right_index,
                config.free_flight,
                numerator,
                &mut cache,
            );
            match found {
                Err(error) => {
                    proof {
                        lemma_row_error_stable(
                            boxes@,
                            pairs@,
                            config,
                            numerator as nat,
                            (position + 1) as nat,
                            pairs@.len(),
                        );
                    }
                    return Err(error);
                },
                Ok(None) => {
                    work.exact_contact_evaluations = work.exact_contact_evaluations.saturating_add(
                        1,
                    );
                },
                Ok(Some(contact)) => {
                    work.exact_contact_evaluations = work.exact_contact_evaluations.saturating_add(
                        1,
                    );
                    let hit = match refine_contact_bracket(
                        &boxes[left_index],
                        &boxes[right_index],
                        pair,
                        config,
                        numerator - 1,
                        numerator,
                        denominator,
                        contact,
                    ) {
                        Ok(hit) => hit,
                        Err(error) => {
                            proof {
                                lemma_row_error_stable(
                                    boxes@,
                                    pairs@,
                                    config,
                                    numerator as nat,
                                    (position + 1) as nat,
                                    pairs@.len(),
                                );
                            }
                            return Err(error);
                        },
                    };
                    work.refinement_evaluations = work.refinement_evaluations.saturating_add(steps);
                    work.exact_contact_evaluations = work.exact_contact_evaluations.saturating_add(
                        steps,
                    );
                    proof {
                        assert((refined + 1) * steps == refined * steps + steps) by (
                        nonlinear_arith);
                        refined = refined + 1;
                    }
                    let replace = match &row_best {
                        None => true,
                        Some(current) => hit_before_exec(&hit, current),
                    };
                    if replace {
                        row_best = Some(hit);
                    }
                },
            }
            position = position + 1;
        }
        if row_best.is_some() {
            proof {
                assert((numerator - 1) * count + count == numerator * count) by (nonlinear_arith);
            }
            return Ok((row_best, work));
        }
        proof {
            assert((numerator - 1) * count + count == numerator * count) by (nonlinear_arith);
            assert(refined * steps == 0);
            assert(0 * (steps as int) == 0);
        }
        numerator = numerator + 1;
    }
    Ok((None, work))
}

/// [`sampled_rotating_contact_search_profiled`] without the work report.
pub fn sampled_rotating_contact_search(
    boxes: &[RigidBox3d],
    config: RotatingContactSearchConfig3d,
) -> (result: Result<Option<RotatingContactSearchHit3d>, RotatingContactSearchError3d>)
    ensures
        result == match ordered_result(boxes@, config) {
            Err(error) => Err(error),
            Ok((found, _)) => Ok::<
                Option<RotatingContactSearchHit3d>,
                RotatingContactSearchError3d,
            >(found),
        },
{
    match sampled_rotating_contact_search_profiled(boxes, config) {
        Ok((found, _)) => Ok(found),
        Err(error) => Err(error),
    }
}

// ---------------------------------------------------------------------------------------------
// Agreement with the pair-by-pair search
// ---------------------------------------------------------------------------------------------

/// The earliest of the first `n` optional hits, kept one after another (the first on ties).
pub open spec fn earliest_of(hits: Seq<Option<RotatingContactSearchHit3d>>, n: nat) -> Option<
    RotatingContactSearchHit3d,
>
    decreases n,
{
    if n == 0 {
        None
    } else {
        keep_earlier(earliest_of(hits, (n - 1) as nat), hits[n - 1])
    }
}

/// `later` comes strictly after every hit in `hits`.
pub open spec fn after_all(hits: Seq<Option<RotatingContactSearchHit3d>>, later: RotatingContactSearchHit3d) -> bool {
    forall|j: int|
        0 <= j < hits.len() && (#[trigger] hits[j]) is Some ==> hit_before(hits[j]->Some_0, later)
}

proof fn lemma_hit_before_asymmetric(a: RotatingContactSearchHit3d, b: RotatingContactSearchHit3d)
    requires
        hit_before(a, b),
    ensures
        !hit_before(b, a),
{
}

pub(crate) proof fn lemma_earliest_is_member(hits: Seq<Option<RotatingContactSearchHit3d>>, n: nat)
    requires
        n <= hits.len(),
    ensures
        earliest_of(hits, n) matches Some(r) ==> exists|j: int| 0 <= j < n && hits[j] == Some(r),
    decreases n,
{
    if n > 0 {
        lemma_earliest_is_member(hits, (n - 1) as nat);
        lemma_keep_earlier_picks(earliest_of(hits, (n - 1) as nat), hits[n - 1]);
    }
}

pub(crate) proof fn lemma_earliest_present(hits: Seq<Option<RotatingContactSearchHit3d>>, n: nat, j: int)
    requires
        n <= hits.len(),
        0 <= j < n,
        hits[j] is Some,
    ensures
        earliest_of(hits, n) is Some,
    decreases n,
{
    if n - 1 > j {
        lemma_earliest_present(hits, (n - 1) as nat, j);
    }
}

/// Hits that come strictly after every kept hit do not change the earliest one once a kept hit
/// exists.
pub(crate) proof fn lemma_dominated_hits_ignored(
    full: Seq<Option<RotatingContactSearchHit3d>>,
    kept: Seq<Option<RotatingContactSearchHit3d>>,
    n: nat,
)
    requires
        n <= full.len(),
        full.len() == kept.len(),
        forall|i: int|
            0 <= i < full.len() ==> (#[trigger] kept[i]) == full[i] || (kept[i] is None
                && full[i] is Some && after_all(kept, full[i]->Some_0)),
    ensures
        earliest_of(full, n) == earliest_of(kept, n) || (earliest_of(kept, n) is None && (
        earliest_of(full, n) matches Some(x) && after_all(kept, x))),
    decreases n,
{
    if n > 0 {
        let m = (n - 1) as nat;
        lemma_dominated_hits_ignored(full, kept, m);
        lemma_earliest_is_member(kept, m);
        let i = m as int;
        assert(kept[i] == full[i] || (kept[i] is None && full[i] is Some && after_all(
            kept,
            full[i]->Some_0,
        )));
        let rf = earliest_of(full, m);
        let rk = earliest_of(kept, m);
        if kept[i] == full[i] {
            if rf != rk {
                if let Some(h) = kept[i] {
                    let x = rf->Some_0;
                    assert(hit_before(h, x));
                    lemma_hit_before_asymmetric(h, x);
                }
            }
        } else {
            let x = full[i]->Some_0;
            if rf == rk {
                if let Some(r) = rk {
                    let j = choose|j: int| 0 <= j < m && kept[j] == Some(r);
                    assert(kept[j] is Some);
                    assert(hit_before(r, x));
                    lemma_hit_before_asymmetric(r, x);
                }
            } else {
                lemma_keep_earlier_picks(rf, full[i]);
            }
        }
    }
}

/// What the pair-by-pair search finds for each candidate pair (nothing where it fails).
pub open spec fn reference_hits(
    boxes: Seq<RigidBox3d>,
    pairs: Seq<RotationalSweepPair3d>,
    config: RotatingContactSearchConfig3d,
) -> Seq<Option<RotatingContactSearchHit3d>> {
    Seq::new(
        pairs.len(),
        |i: int|
            match candidate_search(boxes, pairs[i], config) {
                Ok(found) => found,
                Err(_) => None,
            },
    )
}

proof fn lemma_search_over_fold(
    boxes: Seq<RigidBox3d>,
    pairs: Seq<RotationalSweepPair3d>,
    config: RotatingContactSearchConfig3d,
    n: nat,
)
    requires
        n <= pairs.len(),
    ensures
        search_over(boxes, pairs, config, n) is Ok ==> {
            &&& search_over(boxes, pairs, config, n) == Ok::<
                Option<RotatingContactSearchHit3d>,
                RotatingContactSearchError3d,
            >(earliest_of(reference_hits(boxes, pairs, config), n))
            &&& forall|i: int| 0 <= i < n ==> (#[trigger] candidate_search(boxes, pairs[i], config)) is Ok
        },
    decreases n,
{
    if n > 0 {
        lemma_search_over_fold(boxes, pairs, config, (n - 1) as nat);
    }
}

/// A refined hit of the bracket `(k - 1, k]` on a grid of `samples` lies in that coarse row:
/// `(k - 1) / samples < time <= k / samples`.
pub(crate) proof fn lemma_refined_time_in_row(
    left: RigidBox3d,
    right: RigidBox3d,
    pair: RotationalSweepPair3d,
    config: RotatingContactSearchConfig3d,
    k: int,
    contact: ObbContactSeed3d,
)
    requires
        1 <= k <= config.sample_count,
    ensures
        refined_hit(
            pair,
            refine(
                left,
                right,
                config,
                k - 1,
                k,
                config.sample_count as int,
                contact,
                config.refinement_steps as nat,
            ),
        ) matches Ok(hit) ==> {
            let t = hit.time;
            &&& t.denominator >= 1
            &&& (k - 1) * t.denominator < t.numerator * config.sample_count
            &&& t.numerator * config.sample_count <= k * t.denominator
        },
{
    let samples = config.sample_count as int;
    let steps = config.refinement_steps as nat;
    lemma_refine_bracket(left, right, config, k - 1, k, samples, contact, steps);
    lemma_refine_bounds(left, right, config, k - 1, k, samples, contact, steps);
    match refine(left, right, config, k - 1, k, samples, contact, steps) {
        Ok((u, d, _)) => {
            lemma_canonical_value(u, d);
            let t = canonical_time(u, d);
            let tn = t.numerator as int;
            let td = t.denominator as int;
            assert((k - 1) * td < tn * samples && tn * samples <= k * td) by (nonlinear_arith)
                requires
                    (k - 1) * d < u * samples,
                    u * samples <= k * d,
                    tn * d == u * td,
                    d >= 1,
                    td >= 1,
            ;
        },
        Err(_) => {},
    }
}

/// A time inside row `k` comes strictly before any time beyond it.
pub(crate) proof fn lemma_row_order(h: SampledContactTime3d, x: SampledContactTime3d, k: int, samples: int)
    requires
        h.denominator >= 1,
        x.denominator >= 1,
        samples >= 1,
        h.numerator * samples <= k * h.denominator,
        x.numerator * samples > k * x.denominator,
    ensures
        h.numerator * x.denominator < x.numerator * h.denominator,
{
    let hn = h.numerator as int;
    let hd = h.denominator as int;
    let xn = x.numerator as int;
    let xd = x.denominator as int;
    assert(hn * xd < xn * hd) by (nonlinear_arith)
        requires
            hd >= 1,
            xd >= 1,
            samples >= 1,
            hn * samples <= k * hd,
            xn * samples > k * xd,
    ;
}

/// What a coarse scan from grid point `k` found says about the grid points it passed.
proof fn lemma_coarse_scan_facts(
    left: RigidBox3d,
    right: RigidBox3d,
    free_flight: RigidBoxFreeFlightConfig3d,
    samples: u32,
    k: nat,
)
    requires
        k >= 1,
    ensures
        match coarse_scan(left, right, free_flight, samples, k) {
            Ok(Some((m, contact))) => {
                &&& k <= m <= samples
                &&& sampled_contact(left, right, free_flight, m as u32, samples) == Ok::<
                    Option<ObbContactSeed3d>,
                    RotatingContactSearchError3d,
                >(Some(contact))
                &&& forall|j: nat|
                    k <= j < m ==> #[trigger] sampled_contact(left, right, free_flight, j as u32, samples)
                        == Ok::<Option<ObbContactSeed3d>, RotatingContactSearchError3d>(None)
            },
            Ok(None) => forall|j: nat|
                k <= j <= samples ==> #[trigger] sampled_contact(
                    left,
                    right,
                    free_flight,
                    j as u32,
                    samples,
                ) == Ok::<Option<ObbContactSeed3d>, RotatingContactSearchError3d>(None),
            Err(_) => true,
        },
    decreases samples + 1 - k,
{
    if k <= samples {
        lemma_coarse_scan_facts(left, right, free_flight, samples, k + 1);
        match sampled_contact(left, right, free_flight, k as u32, samples) {
            Ok(None) => {
                assert forall|j: nat|
                    k <= j < k + 1 implies #[trigger] sampled_contact(
                        left,
                        right,
                        free_flight,
                        j as u32,
                        samples,
                    ) == Ok::<Option<ObbContactSeed3d>, RotatingContactSearchError3d>(None) by {
                    assert(j == k);
                }
            },
            _ => {},
        }
    }
}

/// What coarse row `k` holds for one pair: its refined hit where the row sees contact.
pub open spec fn row_hit(
    boxes: Seq<RigidBox3d>,
    pair: RotationalSweepPair3d,
    config: RotatingContactSearchConfig3d,
    k: nat,
) -> Option<RotatingContactSearchHit3d> {
    let left = box_with_id(boxes, pair.left);
    let right = box_with_id(boxes, pair.right);
    match sampled_contact(left, right, config.free_flight, k as u32, config.sample_count as u32) {
        Ok(Some(contact)) => match refined_hit(
            pair,
            refine(
                left,
                right,
                config,
                k - 1,
                k as int,
                config.sample_count as int,
                contact,
                config.refinement_steps as nat,
            ),
        ) {
            Ok(hit) => Some(hit),
            Err(_) => None,
        },
        _ => None,
    }
}

pub open spec fn row_hits(
    boxes: Seq<RigidBox3d>,
    pairs: Seq<RotationalSweepPair3d>,
    config: RotatingContactSearchConfig3d,
    k: nat,
) -> Seq<Option<RotatingContactSearchHit3d>> {
    Seq::new(pairs.len(), |i: int| row_hit(boxes, pairs[i], config, k))
}

/// Row `k` evaluates without failure for pair `pair`: its contact there is known and, where
/// present, refines.
pub open spec fn row_sound(
    boxes: Seq<RigidBox3d>,
    pair: RotationalSweepPair3d,
    config: RotatingContactSearchConfig3d,
    k: nat,
) -> bool {
    let left = box_with_id(boxes, pair.left);
    let right = box_with_id(boxes, pair.right);
    match sampled_contact(left, right, config.free_flight, k as u32, config.sample_count as u32) {
        Ok(Some(contact)) => refined_hit(
            pair,
            refine(
                left,
                right,
                config,
                k - 1,
                k as int,
                config.sample_count as int,
                contact,
                config.refinement_steps as nat,
            ),
        ) is Ok,
        Ok(None) => true,
        Err(_) => false,
    }
}

proof fn lemma_row_scan_fold(
    boxes: Seq<RigidBox3d>,
    pairs: Seq<RotationalSweepPair3d>,
    config: RotatingContactSearchConfig3d,
    k: nat,
    n: nat,
)
    requires
        n <= pairs.len(),
        forall|i: int| 0 <= i < n ==> #[trigger] row_sound(boxes, pairs[i], config, k),
    ensures
        row_scan(boxes, pairs, config, k, n) matches Ok((best, _)) && best == earliest_of(
            row_hits(boxes, pairs, config, k),
            n,
        ),
    decreases n,
{
    if n > 0 {
        lemma_row_scan_fold(boxes, pairs, config, k, (n - 1) as nat);
        assert(row_sound(boxes, pairs[n - 1], config, k));
    }
}

pub(crate) proof fn lemma_earliest_none(hits: Seq<Option<RotatingContactSearchHit3d>>, n: nat)
    requires
        n <= hits.len(),
        forall|i: int| 0 <= i < n ==> (#[trigger] hits[i]) is None,
    ensures
        earliest_of(hits, n) is None,
    decreases n,
{
    if n > 0 {
        lemma_earliest_none(hits, (n - 1) as nat);
    }
}

/// The contact of a pair at the interval start, as a hit at time zero.
pub open spec fn start_hit(boxes: Seq<RigidBox3d>, pair: RotationalSweepPair3d) -> Option<
    RotatingContactSearchHit3d,
> {
    match shape_contact(
        box_with_id(boxes, pair.left).spec_oriented_box(),
        box_with_id(boxes, pair.right).spec_oriented_box(),
    ) {
        Ok(Some(contact)) => Some(
            RotatingContactSearchHit3d { time: SampledContactTime3d::spec_zero(), pair, contact },
        ),
        _ => None,
    }
}

pub open spec fn start_hits(boxes: Seq<RigidBox3d>, pairs: Seq<RotationalSweepPair3d>) -> Seq<
    Option<RotatingContactSearchHit3d>,
> {
    Seq::new(pairs.len(), |i: int| start_hit(boxes, pairs[i]))
}

proof fn lemma_initial_scan_fold(
    boxes: Seq<RigidBox3d>,
    pairs: Seq<RotationalSweepPair3d>,
    n: nat,
)
    requires
        n <= pairs.len(),
        forall|i: int|
            0 <= i < n ==> holds_id(boxes, (#[trigger] pairs[i]).left) && holds_id(
                boxes,
                pairs[i].right,
            ) && shape_contact(
                box_with_id(boxes, pairs[i].left).spec_oriented_box(),
                box_with_id(boxes, pairs[i].right).spec_oriented_box(),
            ) is Ok,
    ensures
        initial_scan(boxes, pairs, n) == Ok::<
            Option<RotatingContactSearchHit3d>,
            RotatingContactSearchError3d,
        >(earliest_of(start_hits(boxes, pairs), n)),
    decreases n,
{
    if n > 0 {
        lemma_initial_scan_fold(boxes, pairs, (n - 1) as nat);
        assert(holds_id(boxes, pairs[n - 1].left));
    }
}

/// Coarse grid point `j` sees no contact for `pair`.
pub open spec fn quiet(
    boxes: Seq<RigidBox3d>,
    pair: RotationalSweepPair3d,
    config: RotatingContactSearchConfig3d,
    j: nat,
) -> bool {
    sampled_contact(
        box_with_id(boxes, pair.left),
        box_with_id(boxes, pair.right),
        config.free_flight,
        j as u32,
        config.sample_count as u32,
    ) == Ok::<Option<ObbContactSeed3d>, RotatingContactSearchError3d>(None)
}

/// The first coarse grid point at which a pair's scan sees contact (`sample_count + 1` for none).
pub open spec fn coarse_row(
    boxes: Seq<RigidBox3d>,
    pair: RotationalSweepPair3d,
    config: RotatingContactSearchConfig3d,
) -> int {
    match coarse_scan(
        box_with_id(boxes, pair.left),
        box_with_id(boxes, pair.right),
        config.free_flight,
        config.sample_count as u32,
        1,
    ) {
        Ok(Some((k, _))) => k as int,
        _ => config.sample_count + 1,
    }
}

/// The earliest coarse row with contact among the first `n` pairs.
pub open spec fn first_contact_row(
    boxes: Seq<RigidBox3d>,
    pairs: Seq<RotationalSweepPair3d>,
    config: RotatingContactSearchConfig3d,
    n: nat,
) -> int
    decreases n,
{
    if n == 0 {
        config.sample_count + 1
    } else {
        let previous = first_contact_row(boxes, pairs, config, (n - 1) as nat);
        let row = coarse_row(boxes, pairs[n - 1], config);
        if row < previous {
            row
        } else {
            previous
        }
    }
}

proof fn lemma_first_contact_row(
    boxes: Seq<RigidBox3d>,
    pairs: Seq<RotationalSweepPair3d>,
    config: RotatingContactSearchConfig3d,
    n: nat,
)
    requires
        n <= pairs.len(),
    ensures
        forall|i: int|
            0 <= i < n ==> first_contact_row(boxes, pairs, config, n) <= #[trigger] coarse_row(
                boxes,
                pairs[i],
                config,
            ),
        first_contact_row(boxes, pairs, config, n) <= config.sample_count ==> exists|i: int|
            0 <= i < n && #[trigger] coarse_row(boxes, pairs[i], config) == first_contact_row(
                boxes,
                pairs,
                config,
                n,
            ),
        first_contact_row(boxes, pairs, config, n) <= config.sample_count + 1,
    decreases n,
{
    if n > 0 {
        lemma_first_contact_row(boxes, pairs, config, (n - 1) as nat);
    }
}

/// What the pair-by-pair search of one pair, known to succeed with `found`, says about its
/// coarse rows.
pub open spec fn pair_summary(
    boxes: Seq<RigidBox3d>,
    pair: RotationalSweepPair3d,
    config: RotatingContactSearchConfig3d,
    found: Option<RotatingContactSearchHit3d>,
) -> bool {
    let row = coarse_row(boxes, pair, config);
    &&& holds_id(boxes, pair.left) && holds_id(boxes, pair.right)
    &&& shape_contact(
        box_with_id(boxes, pair.left).spec_oriented_box(),
        box_with_id(boxes, pair.right).spec_oriented_box(),
    ) is Ok
    &&& start_hit(boxes, pair) is Some ==> found == start_hit(boxes, pair)
    &&& start_hit(boxes, pair) is None ==> {
        &&& 1 <= row <= config.sample_count + 1
        &&& row <= config.sample_count ==> row_sound(boxes, pair, config, row as nat) && row_hit(
            boxes,
            pair,
            config,
            row as nat,
        ) == found && found is Some
        &&& row > config.sample_count ==> found is None
        &&& forall|j: nat|
            1 <= j < row && j <= config.sample_count ==> #[trigger] quiet(boxes, pair, config, j)
        &&& found matches Some(x) ==> {
            &&& x.time.denominator >= 1
            &&& (row - 1) * x.time.denominator < x.time.numerator * config.sample_count
        }
    }
}

proof fn lemma_pair_summary(
    boxes: Seq<RigidBox3d>,
    pair: RotationalSweepPair3d,
    config: RotatingContactSearchConfig3d,
    found: Option<RotatingContactSearchHit3d>,
)
    requires
        candidate_search(boxes, pair, config) == Ok::<
            Option<RotatingContactSearchHit3d>,
            RotatingContactSearchError3d,
        >(found),
        config.sample_count >= 1,
    ensures
        pair_summary(boxes, pair, config, found),
{
    let left = box_with_id(boxes, pair.left);
    let right = box_with_id(boxes, pair.right);
    let samples = config.sample_count as u32;
    lemma_coarse_scan_facts(left, right, config.free_flight, samples, 1);
    match coarse_scan(left, right, config.free_flight, samples, 1) {
        Ok(Some((k, contact))) => {
            lemma_refined_time_in_row(left, right, pair, config, k as int, contact);
            assert forall|j: nat|
                1 <= j < k && j <= config.sample_count implies #[trigger] quiet(
                boxes,
                pair,
                config,
                j,
            ) by {
                assert(sampled_contact(left, right, config.free_flight, j as u32, samples) == Ok::<
                    Option<ObbContactSeed3d>,
                    RotatingContactSearchError3d,
                >(None));
            }
        },
        Ok(None) => {
            assert forall|j: nat|
                1 <= j < config.sample_count + 1 && j <= config.sample_count implies #[trigger] quiet(
                boxes,
                pair,
                config,
                j,
            ) by {
                assert(sampled_contact(left, right, config.free_flight, j as u32, samples) == Ok::<
                    Option<ObbContactSeed3d>,
                    RotatingContactSearchError3d,
                >(None));
            }
        },
        Err(_) => {},
    }
}

/// Rows `k..target` without contact lead the row-ordered scan to row `target`.
proof fn lemma_ordered_rows_reach(
    boxes: Seq<RigidBox3d>,
    pairs: Seq<RotationalSweepPair3d>,
    config: RotatingContactSearchConfig3d,
    k: nat,
    target: nat,
)
    requires
        1 <= k <= target <= config.sample_count,
        forall|j: nat, i: int|
            k <= j < target && 0 <= i < pairs.len() ==> #[trigger] quiet(boxes, pairs[i], config, j),
        forall|i: int| 0 <= i < pairs.len() ==> #[trigger] row_sound(boxes, pairs[i], config, target),
        earliest_of(row_hits(boxes, pairs, config, target), pairs.len()) is Some,
    ensures
        ordered_rows(boxes, pairs, config, k) matches Ok((found, _, _)) && found == earliest_of(
            row_hits(boxes, pairs, config, target),
            pairs.len(),
        ),
    decreases target - k,
{
    if k == target {
        lemma_row_scan_fold(boxes, pairs, config, k, pairs.len());
    } else {
        assert forall|i: int| 0 <= i < pairs.len() implies #[trigger] row_sound(
            boxes,
            pairs[i],
            config,
            k,
        ) && row_hits(boxes, pairs, config, k)[i] is None by {
            assert(quiet(boxes, pairs[i], config, k));
        }
        assert forall|i: int| 0 <= i < pairs.len() implies (#[trigger] row_hits(
            boxes,
            pairs,
            config,
            k,
        )[i]) is None by {
            assert(quiet(boxes, pairs[i], config, k));
        }
        lemma_row_scan_fold(boxes, pairs, config, k, pairs.len());
        lemma_earliest_none(row_hits(boxes, pairs, config, k), pairs.len());
        lemma_ordered_rows_reach(boxes, pairs, config, k + 1, target);
    }
}

/// Rows from `k` on without contact end the row-ordered scan without a hit.
proof fn lemma_ordered_rows_quiet(
    boxes: Seq<RigidBox3d>,
    pairs: Seq<RotationalSweepPair3d>,
    config: RotatingContactSearchConfig3d,
    k: nat,
)
    requires
        k >= 1,
        forall|j: nat, i: int|
            k <= j <= config.sample_count && 0 <= i < pairs.len() ==> #[trigger] quiet(
                boxes,
                pairs[i],
                config,
                j,
            ),
    ensures
        ordered_rows(boxes, pairs, config, k) matches Ok((None, _, _)),
    decreases config.sample_count + 1 - k,
{
    if k <= config.sample_count {
        assert forall|i: int| 0 <= i < pairs.len() implies #[trigger] row_sound(
            boxes,
            pairs[i],
            config,
            k,
        ) && row_hits(boxes, pairs, config, k)[i] is None by {
            assert(quiet(boxes, pairs[i], config, k));
        }
        assert forall|i: int| 0 <= i < pairs.len() implies (#[trigger] row_hits(
            boxes,
            pairs,
            config,
            k,
        )[i]) is None by {
            assert(quiet(boxes, pairs[i], config, k));
        }
        lemma_row_scan_fold(boxes, pairs, config, k, pairs.len());
        lemma_earliest_none(row_hits(boxes, pairs, config, k), pairs.len());
        lemma_ordered_rows_quiet(boxes, pairs, config, k + 1);
    }
}

/// Every hit of row `k` comes before a hit whose time lies beyond row `k`.
proof fn lemma_row_hits_before(
    boxes: Seq<RigidBox3d>,
    pairs: Seq<RotationalSweepPair3d>,
    config: RotatingContactSearchConfig3d,
    k: nat,
    x: RotatingContactSearchHit3d,
)
    requires
        1 <= k <= config.sample_count,
        x.time.denominator >= 1,
        x.time.numerator * config.sample_count > k * x.time.denominator,
    ensures
        after_all(row_hits(boxes, pairs, config, k), x),
{
    let rows = row_hits(boxes, pairs, config, k);
    assert forall|j: int| 0 <= j < rows.len() && (#[trigger] rows[j]) is Some implies hit_before(
        rows[j]->Some_0,
        x,
    ) by {
        let pair = pairs[j];
        let left = box_with_id(boxes, pair.left);
        let right = box_with_id(boxes, pair.right);
        match sampled_contact(
            left,
            right,
            config.free_flight,
            k as u32,
            config.sample_count as u32,
        ) {
            Ok(Some(contact)) => {
                lemma_refined_time_in_row(left, right, pair, config, k as int, contact);
                let h = rows[j]->Some_0;
                lemma_row_order(h.time, x.time, k as int, config.sample_count as int);
            },
            _ => {},
        }
    }
}

/// The row-ordered search and the pair-by-pair search agree on a non-empty candidate list
/// whose pair-by-pair search succeeds.
proof fn lemma_orders_agree(
    boxes: Seq<RigidBox3d>,
    pairs: Seq<RotationalSweepPair3d>,
    config: RotatingContactSearchConfig3d,
)
    requires
        config.sample_count >= 1,
        pairs.len() > 0,
        search_over(boxes, pairs, config, pairs.len()) is Ok,
        forall|i: int|
            0 <= i < pairs.len() ==> (#[trigger] candidate_search(boxes, pairs[i], config)) is Ok,
    ensures
        ordered_outcome(boxes, pairs, config, initial_scan(boxes, pairs, pairs.len())) matches Ok(
            (found, _),
        ) && found == earliest_of(reference_hits(boxes, pairs, config), pairs.len()),
{
    let n = pairs.len();
    let samples = config.sample_count as int;
    let refs = reference_hits(boxes, pairs, config);
    assert forall|i: int| 0 <= i < n implies #[trigger] pair_summary(
        boxes,
        pairs[i],
        config,
        refs[i],
    ) by {
        assert(candidate_search(boxes, pairs[i], config) is Ok);
        lemma_pair_summary(boxes, pairs[i], config, refs[i]);
    }
    assert forall|i: int|
        0 <= i < n implies holds_id(boxes, (#[trigger] pairs[i]).left) && holds_id(
            boxes,
            pairs[i].right,
        ) && shape_contact(
            box_with_id(boxes, pairs[i].left).spec_oriented_box(),
            box_with_id(boxes, pairs[i].right).spec_oriented_box(),
        ) is Ok by {
        assert(pair_summary(boxes, pairs[i], config, refs[i]));
    }
    lemma_initial_scan_fold(boxes, pairs, n);
    let starts = start_hits(boxes, pairs);
    if exists|i: int| 0 <= i < n && (#[trigger] starts[i]) is Some {
        let first = choose|i: int| 0 <= i < n && (#[trigger] starts[i]) is Some;
        lemma_earliest_present(starts, n, first);
        assert forall|i: int| 0 <= i < n implies (#[trigger] starts[i]) == refs[i] || (
        starts[i] is None && refs[i] is Some && after_all(starts, refs[i]->Some_0)) by {
            assert(pair_summary(boxes, pairs[i], config, refs[i]));
            if starts[i] is None && refs[i] is Some {
                let x = refs[i]->Some_0;
                let row = coarse_row(boxes, pairs[i], config);
                assert(x.time.numerator * samples > 0) by (nonlinear_arith)
                    requires
                        (row - 1) * x.time.denominator < x.time.numerator * samples,
                        row >= 1,
                        x.time.denominator >= 1,
                ;
                assert(x.time.numerator > 0) by (nonlinear_arith)
                    requires
                        x.time.numerator * samples > 0,
                        samples >= 1,
                ;
                assert forall|j: int| 0 <= j < starts.len() && (#[trigger] starts[j]) is Some implies hit_before(
                    starts[j]->Some_0,
                    x,
                ) by {
                    let h = starts[j]->Some_0;
                    assert(starts[j] == start_hit(boxes, pairs[j]));
                    assert(h.time == SampledContactTime3d::spec_zero());
                    assert(h.time.numerator * x.time.denominator == 0);
                    assert(h.time.denominator == 1);
                    assert(x.time.numerator * h.time.denominator == x.time.numerator) by (
                    nonlinear_arith)
                        requires
                            h.time.denominator == 1,
                    ;
                }
            }
        }
        lemma_dominated_hits_ignored(refs, starts, n);
    } else {
        assert forall|i: int| 0 <= i < n implies (#[trigger] starts[i]) is None by {}
        lemma_earliest_none(starts, n);
        lemma_first_contact_row(boxes, pairs, config, n);
        let big = first_contact_row(boxes, pairs, config, n);
        assert forall|j: nat, i: int|
            1 <= j < big && j <= config.sample_count && 0 <= i < n implies #[trigger] quiet(
            boxes,
            pairs[i],
            config,
            j,
        ) by {
            assert(pair_summary(boxes, pairs[i], config, refs[i]));
            assert(starts[i] is None);
            assert(big <= coarse_row(boxes, pairs[i], config));
        }
        if big <= config.sample_count {
            let k = big as nat;
            let rows = row_hits(boxes, pairs, config, k);
            let witness = choose|i: int|
                0 <= i < n && #[trigger] coarse_row(boxes, pairs[i], config) == big;
            assert(pair_summary(boxes, pairs[witness], config, refs[witness]));
            assert(starts[witness] is None);
            assert(big >= 1);
            assert forall|i: int| 0 <= i < n implies #[trigger] row_sound(boxes, pairs[i], config, k)
                by {
                assert(pair_summary(boxes, pairs[i], config, refs[i]));
                assert(starts[i] is None);
                let row = coarse_row(boxes, pairs[i], config);
                if row > big {
                    assert(quiet(boxes, pairs[i], config, k));
                }
            }
            assert forall|i: int| 0 <= i < n implies (#[trigger] rows[i]) == refs[i] || (
            rows[i] is None && refs[i] is Some && after_all(rows, refs[i]->Some_0)) by {
                assert(pair_summary(boxes, pairs[i], config, refs[i]));
                assert(starts[i] is None);
                let row = coarse_row(boxes, pairs[i], config);
                if row > big {
                    assert(quiet(boxes, pairs[i], config, k));
                    assert(rows[i] is None);
                    if let Some(x) = refs[i] {
                        assert(big * x.time.denominator <= (row - 1) * x.time.denominator) by (
                        nonlinear_arith)
                            requires
                                big <= row - 1,
                                x.time.denominator >= 1,
                        ;
                        lemma_row_hits_before(boxes, pairs, config, k, x);
                    }
                }
            }
            assert(rows[witness] == refs[witness]);
            lemma_earliest_present(rows, n, witness);
            lemma_ordered_rows_reach(boxes, pairs, config, 1, k);
            lemma_dominated_hits_ignored(refs, rows, n);
        } else {
            assert forall|i: int| 0 <= i < n implies (#[trigger] refs[i]) is None by {
                assert(pair_summary(boxes, pairs[i], config, refs[i]));
                assert(starts[i] is None);
                assert(big <= coarse_row(boxes, pairs[i], config));
            }
            lemma_earliest_none(refs, n);
            lemma_ordered_rows_quiet(boxes, pairs, config, 1);
        }
    }
}

/// The globally row-ordered search finds exactly the hit of the pair-by-pair search whenever the
/// latter succeeds; failures of the resolution or broad-phase checks are the same in both.
pub proof fn lemma_ordered_search_agrees(
    boxes: Seq<RigidBox3d>,
    config: RotatingContactSearchConfig3d,
)
    ensures
        match search_result(boxes, config) {
            Ok(found) => ordered_result(boxes, config) matches Ok((ordered, _)) && ordered == found,
            Err(error) => (resolution_error(config) is Some || broad_phase_error(
                boxes,
                config.free_flight,
                boxes.len(),
            ) is Some) ==> ordered_result(boxes, config) == Err::<
                (Option<RotatingContactSearchHit3d>, ContactSearchWork3d),
                RotatingContactSearchError3d,
            >(error),
        },
{
    if resolution_error(config) is None && broad_phase_error(
        boxes,
        config.free_flight,
        boxes.len(),
    ) is None {
        let pairs = candidate_sequence(boxes, config.free_flight);
        lemma_search_over_fold(boxes, pairs, config, pairs.len());
        if search_over(boxes, pairs, config, pairs.len()) is Ok && pairs.len() > 0 {
            lemma_orders_agree(boxes, pairs, config);
        }
    }
}

} // verus!
