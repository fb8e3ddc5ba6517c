use vstd::prelude::*;

use crate::oriented_box::{ObbContactSeed3d, OrientedBox3d};
use crate::rigid_box::RigidBox3d;
use crate::rotating_broad_phase::{
    RotationalSweepPair3d, broad_phase_error, is_candidate_pair, lemma_no_duplicates,
    lemma_sorted_sequences_equal, rotational_sweep_candidate_pairs, strictly_sorted,
};
use crate::rotating_contact_search::{
    CoarseSampleCache3d, PairContactCache3d, RotatingContactSearchConfig3d,
    RotatingContactSearchError3d, RotatingContactSearchHit3d, SampledContactTime3d,
    candidate_sequence, distinct_ids, hit_before, hit_before_exec, index_of_body, keep_earlier,
    lemma_box_with_distinct_id, refine, refine_contact_bracket, refined_hit, resolution_error,
    reuses, sampled_contact, sampled_shape, shape_contact, validate_resolution,
};
use crate::rotating_contact_search_ordered::{
    after_all, capped, earliest_of, lemma_dominated_hits_ignored, lemma_earliest_is_member,
    lemma_earliest_none, lemma_earliest_present, lemma_refined_time_in_row, lemma_row_order, quiet,
};
use crate::rotating_recontact_search::{
    coarse_sample_limit, lemma_next_limit_bounded, lemma_recontact_over_positive, next_limit,
    recontact_over, recontact_pair, recontact_result, recontact_scan,
};
use crate::rotating_world::{box_with_id, holds_id};

verus! {

/// Work done by one globally time-ordered re-contact search.
#[derive(Clone, Copy, Debug, PartialEq, Eq, Structural)]
pub struct RecontactSearchWork3d {
    pub candidate_pairs: u64,
    pub initial_pair_evaluations: u64,
    pub coarse_rows: u64,
    pub coarse_pair_evaluations: u64,
    pub exact_contact_evaluations: u64,
    pub refinement_evaluations: u64,
}

/// The shape of a body at coarse grid point `k` (its start shape at `k == 0`).
pub open spec fn grid_shape(rigid_box: RigidBox3d, config: RotatingContactSearchConfig3d, k: nat) -> OrientedBox3d {
    if k == 0 {
        rigid_box.spec_oriented_box()
    } else {
        sampled_shape(rigid_box, config.free_flight, k as u32, config.sample_count as u32)->Ok_0
    }
}

/// The pair's shapes at grid point `k` differ from those at the previous grid point, so its
/// contact is evaluated afresh.
pub open spec fn fresh_at(
    left: RigidBox3d,
    right: RigidBox3d,
    config: RotatingContactSearchConfig3d,
    k: nat,
) -> bool {
    !(grid_shape(left, config, (k - 1) as nat) == grid_shape(left, config, k) && grid_shape(
        right,
        config,
        (k - 1) as nat,
    ) == grid_shape(right, config, k))
}

/// Over the first `n` pairs, the last clear grid point each starts from (none for a pair touching
/// at the start, else the start itself), or the first failure.
pub open spec fn recontact_initial(
    boxes: Seq<RigidBox3d>,
    pairs: Seq<RotationalSweepPair3d>,
    n: nat,
) -> Result<Seq<Option<nat>>, RotatingContactSearchError3d>
    decreases n,
{
    if n == 0 {
        Ok(Seq::empty())
    } else {
        match recontact_initial(boxes, pairs, (n - 1) as nat) {
            Err(error) => Err(error),
            Ok(clears) => {
                let pair = pairs[n - 1];
                if !holds_id(boxes, pair.left) {
                    Err(RotatingContactSearchError3d::MissingCandidateBody(pair.left))
                } else if !holds_id(boxes, pair.right) {
                    Err(RotatingContactSearchError3d::MissingCandidateBody(pair.right))
                } else {
                    match shape_contact(
                        box_with_id(boxes, pair.left).spec_oriented_box(),
                        box_with_id(boxes, pair.right).spec_oriented_box(),
                    ) {
                        Err(error) => Err(error),
                        Ok(contact) => Ok(
                            clears.push(
                                if contact is Some {
                                    None
                                } else {
                                    Some(0)
                                },
                            ),
                        ),
                    }
                }
            },
        }
    }
}

/// One pair at grid point `k` after its last clear grid point `clear`: the refined hit of a
/// contact after a clear one, and the pair's new last clear grid point; or the failure.
pub open spec fn recontact_step(
    left: RigidBox3d,
    right: RigidBox3d,
    pair: RotationalSweepPair3d,
    config: RotatingContactSearchConfig3d,
    k: nat,
    clear: Option<nat>,
) -> Result<(Option<RotatingContactSearchHit3d>, Option<nat>), RotatingContactSearchError3d> {
    match sampled_contact(left, right, config.free_flight, k as u32, config.sample_count as u32) {
        Err(error) => Err(error),
        Ok(None) => Ok((None, Some(k))),
        Ok(Some(contact)) => match clear {
            None => Ok((None, None)),
            Some(last) => match refined_hit(
                pair,
                refine(
                    left,
                    right,
                    config,
                    last as int,
                    k as int,
                    config.sample_count as int,
                    contact,
                    config.refinement_steps as nat,
                ),
            ) {
                Err(error) => Err(error),
                Ok(hit) => Ok((Some(hit), Some(last))),
            },
        },
    }
}

/// Grid row `k` over the first `n` pairs: the earliest hit, the pairs' new last clear grid
/// points, the number of refined hits and of fresh contact evaluations; or the first failure.
pub open spec fn recontact_row(
    boxes: Seq<RigidBox3d>,
    pairs: Seq<RotationalSweepPair3d>,
    config: RotatingContactSearchConfig3d,
    k: nat,
    clears: Seq<Option<nat>>,
    n: nat,
) -> Result<
    (Option<RotatingContactSearchHit3d>, Seq<Option<nat>>, nat, nat),
    RotatingContactSearchError3d,
>
    decreases n,
{
    if n == 0 {
        Ok((None, Seq::empty(), 0, 0))
    } else {
        match recontact_row(boxes, pairs, config, k, clears, (n - 1) as nat) {
            Err(error) => Err(error),
            Ok((best, next, refined, evaluated)) => {
                let pair = pairs[n - 1];
                let left = box_with_id(boxes, pair.left);
                let right = box_with_id(boxes, pair.right);
                match recontact_step(left, right, pair, config, k, clears[n - 1]) {
                    Err(error) => Err(error),
                    Ok((found, clear)) => Ok(
                        (
                            keep_earlier(best, found),
                            next.push(clear),
                            if found is Some {
                                refined + 1
                            } else {
                                refined
                            },
                            if fresh_at(left, right, config, k) {
                                evaluated + 1
                            } else {
                                evaluated
                            },
                        ),
                    ),
                }
            },
        }
    }
}

/// Grid rows `k..=sample_count` in order until a row holds a hit: that hit, the rows scanned, the
/// hits refined in the last row and the fresh contact evaluations of all rows; or the failure.
pub open spec fn recontact_rows(
    boxes: Seq<RigidBox3d>,
    pairs: Seq<RotationalSweepPair3d>,
    config: RotatingContactSearchConfig3d,
    k: nat,
    clears: Seq<Option<nat>>,
) -> Result<(Option<RotatingContactSearchHit3d>, nat, nat, nat), RotatingContactSearchError3d>
    decreases config.sample_count + 1 - k,
{
    if k == 0 || k > config.sample_count {
        Ok((None, config.sample_count as nat, 0, 0))
    } else {
        match recontact_row(boxes, pairs, config, k, clears, pairs.len()) {
            Err(error) => Err(error),
            Ok((Some(hit), _, refined, evaluated)) => Ok((Some(hit), k, refined, evaluated)),
            Ok((None, next, _, evaluated)) => match recontact_rows(
                boxes,
                pairs,
                config,
                k + 1,
                next,
            ) {
                Err(error) => Err(error),
                Ok((found, rows, refined, later)) => Ok((found, rows, refined, evaluated + later)),
            },
        }
    }
}

/// The work of a re-contact search over `pairs` candidates.
pub open spec fn recontact_work(pairs: int, rows: int, refined: int, evaluated: int, steps: int) -> RecontactSearchWork3d {
    RecontactSearchWork3d {
        candidate_pairs: capped(pairs),
        initial_pair_evaluations: capped(pairs),
        coarse_rows: capped(rows),
        coarse_pair_evaluations: capped(rows * pairs),
        exact_contact_evaluations: capped(pairs + evaluated + refined * steps),
        refinement_evaluations: capped(refined * steps),
    }
}

/// The globally time-ordered re-contact search with its work, or the failure.
pub open spec fn ordered_recontact_result(boxes: Seq<RigidBox3d>, config: RotatingContactSearchConfig3d) -> Result<
    (Option<RotatingContactSearchHit3d>, RecontactSearchWork3d),
    RotatingContactSearchError3d,
> {
    let steps = config.refinement_steps as int;
    match resolution_error(config) {
        Some(error) => Err(error),
        None => match broad_phase_error(boxes, config.free_flight, boxes.len()) {
            Some(error) => Err(RotatingContactSearchError3d::BroadPhase(error)),
            None => {
                let pairs = candidate_sequence(boxes, config.free_flight);
                let count = pairs.len() as int;
                if count == 0 {
                    Ok((None, recontact_work(0, 0, 0, 0, steps)))
                } else {
                    match recontact_initial(boxes, pairs, pairs.len()) {
                        Err(error) => Err(error),
                        Ok(clears) => match recontact_rows(boxes, pairs, config, 1, clears) {
                            Err(error) => Err(error),
                            Ok((found, rows, refined, evaluated)) => Ok(
                                (
                                    found,
                                    recontact_work(
                                        count,
                                        rows as int,
                                        refined as int,
                                        evaluated as int,
                                        steps,
                                    ),
                                ),
                            ),
                        },
                    }
                }
            },
        },
    }
}

/// `rows` with `extra` more fresh evaluations.
pub open spec fn add_evaluations(
    rows: Result<(Option<RotatingContactSearchHit3d>, nat, nat, nat), RotatingContactSearchError3d>,
    extra: nat,
) -> Result<(Option<RotatingContactSearchHit3d>, nat, nat, nat), RotatingContactSearchError3d> {
    match rows {
        Err(error) => Err(error),
        Ok((found, scanned, refined, evaluated)) => Ok((found, scanned, refined, evaluated + extra)),
    }
}

/// The exact-integer view of the last clear grid points.
pub open spec fn clear_points(clears: Seq<Option<u32>>) -> Seq<Option<nat>> {
    clears.map_values(
        |clear: Option<u32>|
            match clear {
                Some(value) => Some(value as nat),
                None => None,
            },
    )
}

/// A candidate pair with the indices of its two bodies.
pub open spec fn indexed(
    boxes: Seq<RigidBox3d>,
    pair: RotationalSweepPair3d,
    state: (RotationalSweepPair3d, usize, usize),
) -> bool {
    &&& state.0 == pair
    &&& state.1 < boxes.len()
    &&& state.2 < boxes.len()
    &&& box_with_id(boxes, pair.left) == boxes[state.1 as int]
    &&& box_with_id(boxes, pair.right) == boxes[state.2 as int]
}

proof fn lemma_initial_error_stable(
    boxes: Seq<RigidBox3d>,
    pairs: Seq<RotationalSweepPair3d>,
    m: nat,
    n: nat,
)
    requires
        m <= n,
        recontact_initial(boxes, pairs, m) is Err,
    ensures
        recontact_initial(boxes, pairs, n) == recontact_initial(boxes, pairs, m),
    decreases n - m,
{
    if m < n {
        lemma_initial_error_stable(boxes, pairs, m, (n - 1) as nat);
    }
}

proof fn lemma_row_error_stable(
    boxes: Seq<RigidBox3d>,
    pairs: Seq<RotationalSweepPair3d>,
    config: RotatingContactSearchConfig3d,
    k: nat,
    clears: Seq<Option<nat>>,
    m: nat,
    n: nat,
)
    requires
        m <= n,
        recontact_row(boxes, pairs, config, k, clears, m) is Err,
    ensures
        recontact_row(boxes, pairs, config, k, clears, n) == recontact_row(
            boxes,
            pairs,
            config,
            k,
            clears,
            m,
        ),
    decreases n - m,
{
    if m < n {
        lemma_row_error_stable(boxes, pairs, config, k, clears, m, (n - 1) as nat);
    }
}

/// One pair at grid point `numerator`, sampled through the caches.
fn recontact_step_exec(
    boxes: &[RigidBox3d],
    left_index: usize,
    right_index: usize,
    pair: RotationalSweepPair3d,
    config: RotatingContactSearchConfig3d,
    numerator: u32,
    clear: Option<u32>,
    cache: &mut CoarseSampleCache3d,
    contacts: &mut PairContactCache3d,
) -> (result: Result<
    (Option<RotatingContactSearchHit3d>, Option<u32>, bool),
    RotatingContactSearchError3d,
>)
    requires
        left_index < boxes@.len(),
        right_index < boxes@.len(),
        old(cache).well_formed(),
        old(cache).serves(boxes@, config.free_flight),
        old(cache).body_count() == boxes@.len(),
        old(cache).spec_denominator() == config.sample_count,
        1 <= numerator <= config.sample_count,
        old(contacts).well_formed(),
        reuses(
            old(contacts).kept(),
            grid_shape(boxes@[left_index as int], config, (numerator - 1) as nat),
            grid_shape(boxes@[right_index as int], config, (numerator - 1) as nat),
        ),
    ensures
        final(cache).well_formed(),
        final(cache).serves(boxes@, config.free_flight),
        final(cache).body_count() == boxes@.len(),
        final(cache).spec_denominator() == config.sample_count,
        final(contacts).well_formed(),
        match recontact_step(
            boxes@[left_index as int],
            boxes@[right_index as int],
            pair,
            config,
            numerator as nat,
            match clear {
                Some(value) => Some(value as nat),
                None => None,
            },
        ) {
            Err(error) => result == Err::<
                (Option<RotatingContactSearchHit3d>, Option<u32>, bool),
                RotatingContactSearchError3d,
            >(error),
            Ok((found, next)) => {
                &&& result is Ok
                &&& result->Ok_0.0 == found
                &&& next == match result->Ok_0.1 {
                    Some(value) => Some(value as nat),
                    None => None,
                }
                &&& result->Ok_0.2 == fresh_at(
                    boxes@[left_index as int],
                    boxes@[right_index as int],
                    config,
                    numerator as nat,
                )
                &&& reuses(
                    final(contacts).kept(),
                    grid_shape(boxes@[left_index as int], config, numerator as nat),
                    grid_shape(boxes@[right_index as int], config, numerator as nat),
                )
            },
        },
{
    let ghost ff = config.free_flight;
    let ghost left = boxes@[left_index as int];
    let ghost right = boxes@[right_index as int];
    proof {
        assert(old(cache).sources().contains_key(left_index as int) ==> old(cache).sources()[left_index as int]
            == (boxes@[left_index as int], ff));
    }
    let left_shape = match cache.sample_geometry(left_index, &boxes[left_index], config, numerator) {
        Ok(shape) => shape,
        Err(error) => return Err(error),
    };
    proof {
        assert forall|k: int| #![trigger cache.sources().contains_key(k)]
            cache.sources().contains_key(k) implies 0 <= k < boxes@.len() && cache.sources()[k] == (
            boxes@[k],
            ff,
        ) by {
            if k != left_index {
                assert(old(cache).sources().contains_key(k));
            }
        }
        assert(cache.sources().contains_key(right_index as int) ==> cache.sources()[right_index as int]
            == (boxes@[right_index as int], ff));
    }
    let right_shape = match cache.sample_geometry(
        right_index,
        &boxes[right_index],
        config,
        numerator,
    ) {
        Ok(shape) => shape,
        Err(error) => return Err(error),
    };
    proof {
        assert forall|k: int| #![trigger cache.sources().contains_key(k)]
            cache.sources().contains_key(k) implies 0 <= k < boxes@.len() && cache.sources()[k] == (
            boxes@[k],
            ff,
        ) by {
            if k != right_index {
                assert(k != right_index);
            }
        }
        assert(left_shape == grid_shape(left, config, numerator as nat));
        assert(right_shape == grid_shape(right, config, numerator as nat));
    }
    let (contact, evaluated) = contacts.contact_counted(&left_shape, &right_shape);
    let contact = match contact {
        Ok(contact) => contact,
        Err(error) => return Err(error),
    };
    match contact {
        None => Ok((None, Some(numerator), evaluated)),
        Some(found) => match clear {
            None => Ok((None, None, evaluated)),
            Some(last) => match refine_contact_bracket(
                &boxes[left_index],
                &boxes[right_index],
                pair,
                config,
                last,
                numerator,
                config.sample_count as u32,
                found,
            ) {
                Ok(hit) => Ok((Some(hit), Some(last), evaluated)),
                Err(error) => Err(error),
            },
        },
    }
}

/// Finds the earliest strictly positive sampled re-contact in global coarse-time order,
/// reporting the work done.
///
/// Every pair is first checked at the interval start (a pair touching there must be seen clear
/// before a contact counts). Every pair then advances through coarse row 1 before any reaches row
/// 2, and so on; the first row holding an eligible contact is refined pair by pair and its
/// earliest hit (ties to the smaller pair) is returned, no later row being evaluated. Each pair
/// keeps its last exact contact result and re-evaluates only when its sampled shapes change.
pub fn sampled_rotating_recontact_search_profiled(
    boxes: &[RigidBox3d],
    config: RotatingContactSearchConfig3d,
) -> (result: Result<(Option<RotatingContactSearchHit3d>, RecontactSearchWork3d), RotatingContactSearchError3d>)
    ensures
        result == ordered_recontact_result(boxes@, config),
{
    match validate_resolution(config) {
        Ok(()) => {},
        Err(error) => return Err(error),
    }
    let pairs = match rotational_sweep_candidate_pairs(boxes, config.free_flight) {
        Ok(pairs) => pairs,
        Err(error) => return Err(RotatingContactSearchError3d::BroadPhase(error)),
    };
    let ghost sequence = candidate_sequence(boxes@, config.free_flight);
    proof {
        assert(strictly_sorted(sequence) && forall|pair: RotationalSweepPair3d|
            sequence.contains(pair) <==> is_candidate_pair(boxes@, config.free_flight, pair));
        lemma_sorted_sequences_equal(pairs@, sequence);
        lemma_no_duplicates(boxes@, config.free_flight, boxes@.len());
    }
    let count = pairs.len() as u64;
    let steps = config.refinement_steps as u64;
    let mut work = RecontactSearchWork3d {
        candidate_pairs: count,
        initial_pair_evaluations: 0,
        coarse_rows: 0,
        coarse_pair_evaluations: 0,
        exact_contact_evaluations: 0,
        refinement_evaluations: 0,
    };
    if pairs.len() == 0 {
        return Ok((None, work));
    }
    let ghost target = ordered_recontact_result(boxes@, config);
    let mut cache = CoarseSampleCache3d::new(boxes.len(), config.sample_count as u32);
    let mut states: Vec<(RotationalSweepPair3d, usize, usize)> = Vec::new();
    let mut clears: Vec<Option<u32>> = Vec::new();
    let mut caches: Vec<PairContactCache3d> = Vec::new();
    assert(clear_points(clears@) =~= Seq::<Option<nat>>::empty());
    let mut index: usize = 0;
    while index < pairs.len()
        invariant
            index <= pairs@.len(),
            pairs@ == sequence,
            pairs@.len() > 0,
            count == pairs@.len(),
            target == ordered_recontact_result(boxes@, config),
            target == match recontact_initial(boxes@, pairs@, pairs@.len()) {
                Err(error) => Err(error),
                Ok(start) => match recontact_rows(boxes@, pairs@, config, 1, start) {
                    Err(error) => Err(error),
                    Ok((found, rows, refined, evaluated)) => Ok(
                        (
                            found,
                            recontact_work(
                                count as int,
                                rows as int,
                                refined as int,
                                evaluated as int,
                                config.refinement_steps as int,
                            ),
                        ),
                    ),
                },
            },
            distinct_ids(boxes@),
            config.sample_count >= 1,
            recontact_initial(boxes@, pairs@, index as nat) == Ok::<
                Seq<Option<nat>>,
                RotatingContactSearchError3d,
            >(clear_points(clears@)),
            states@.len() == index,
            clears@.len() == index,
            caches@.len() == index,
            forall|i: int| 0 <= i < index ==> indexed(boxes@, pairs@[i], #[trigger] states@[i]),
            forall|i: int|
                0 <= i < index ==> (#[trigger] caches@[i]).well_formed() && reuses(
                    caches@[i].kept(),
                    grid_shape(boxes@[states@[i].1 as int], config, 0),
                    grid_shape(boxes@[states@[i].2 as int], config, 0),
                ),
            work == (RecontactSearchWork3d {
                candidate_pairs: capped(count as int),
                initial_pair_evaluations: capped(index as int),
                coarse_rows: 0,
                coarse_pair_evaluations: 0,
                exact_contact_evaluations: capped(index as int),
                refinement_evaluations: 0,
            }),
            cache.well_formed(),
            cache.serves(boxes@, config.free_flight),
            cache.body_count() == boxes@.len(),
            cache.spec_denominator() == config.sample_count,
        decreases pairs.len() - index,
    {
        let pair = pairs[index];
        let left_index = match index_of_body(boxes, pair.left) {
            Some(found) => found,
            None => {
                proof {
                    lemma_initial_error_stable(boxes@, pairs@, (index + 1) as nat, pairs@.len());
                }
                return Err(RotatingContactSearchError3d::MissingCandidateBody(pair.left));
            },
        };
        let right_index = match index_of_body(boxes, pair.right) {
            Some(found) => found,
            None => {
                proof {
                    lemma_box_with_distinct_id(boxes@, left_index as int);
                    lemma_initial_error_stable(boxes@, pairs@, (index + 1) as nat, pairs@.len());
                }
                return Err(RotatingContactSearchError3d::MissingCandidateBody(pair.right));
            },
        };
        proof {
            lemma_box_with_distinct_id(boxes@, left_index as int);
            lemma_box_with_distinct_id(boxes@, right_index as int);
        }
        let start_left = cache.prepare_geometry(left_index, boxes[left_index].oriented_box());
        let start_right = cache.prepare_geometry(right_index, boxes[right_index].oriented_box());
        work.initial_pair_evaluations = work.initial_pair_evaluations.saturating_add(1);
        let mut contacts = PairContactCache3d::new();
        let (start, _) = contacts.contact_counted(&start_left, &start_right);
        work.exact_contact_evaluations = work.exact_contact_evaluations.saturating_add(1);
        let touching = match start {
            Ok(contact) => contact.is_some(),
            Err(error) => {
                proof {
                    lemma_initial_error_stable(boxes@, pairs@, (index + 1) as nat, pairs@.len());
                }
                return Err(error);
            },
        };
        let ghost before = clears@;
        clears.push(
            if touching {
                None
            } else {
                Some(0)
            },
        );
        proof {
            assert(clear_points(clears@) =~= clear_points(before).push(
                if touching {
                    None
                } else {
                    Some(0nat)
                },
            ));
        }
        states.push((pair, left_index, right_index));
        caches.push(contacts);
        index = index + 1;
    }
    let denominator = config.sample_count as u32;
    let ghost initial_clears = clear_points(clears@);
    let ghost mut evaluated_before: nat = 0;
    let mut numerator: u32 = 1;
    while numerator <= denominator
        invariant
            1 <= numerator <= denominator + 1,
            denominator == config.sample_count,
            pairs@.len() > 0,
            count == pairs@.len(),
            states@.len() == pairs@.len(),
            clears@.len() == pairs@.len(),
            caches@.len() == pairs@.len(),
            forall|i: int| 0 <= i < pairs@.len() ==> indexed(boxes@, pairs@[i], #[trigger] states@[i]),
            forall|i: int|
                0 <= i < pairs@.len() ==> (#[trigger] caches@[i]).well_formed() && reuses(
                    caches@[i].kept(),
                    grid_shape(boxes@[states@[i].1 as int], config, (numerator - 1) as nat),
                    grid_shape(boxes@[states@[i].2 as int], config, (numerator - 1) as nat),
                ),
            target == ordered_recontact_result(boxes@, config),
            target == match add_evaluations(
                recontact_rows(boxes@, pairs@, config, numerator as nat, clear_points(clears@)),
                evaluated_before,
            ) {
                Err(error) => Err(error),
                Ok((found, rows, refined, evaluated)) => Ok(
                    (
                        found,
                        recontact_work(
                            count as int,
                            rows as int,
                            refined as int,
                            evaluated as int,
                            config.refinement_steps as int,
                        ),
                    ),
                ),
            },
            work == recontact_work(
                count as int,
                numerator - 1,
                0,
                evaluated_before as int,
                steps as int,
            ),
            steps == config.refinement_steps,
            cache.well_formed(),
            cache.serves(boxes@, config.free_flight),
            cache.body_count() == boxes@.len(),
            cache.spec_denominator() == denominator,
        decreases denominator + 1 - numerator,
    {
        work.coarse_rows = work.coarse_rows.saturating_add(1);
        let ghost row_clears = clear_points(clears@);
        let mut next: Vec<Option<u32>> = Vec::new();
        let mut row_best: Option<RotatingContactSearchHit3d> = None;
        let ghost mut refined: nat = 0;
        let ghost mut evaluated_row: nat = 0;
        assert(clear_points(next@) =~= Seq::<Option<nat>>::empty());
        let mut position: usize = 0;
        while position < states.len()
            invariant
                position <= states@.len(),
                1 <= numerator <= denominator,
                denominator == config.sample_count,
                count == pairs@.len(),
                states@.len() == pairs@.len(),
                clears@.len() == pairs@.len(),
                caches@.len() == pairs@.len(),
                row_clears == clear_points(clears@),
                next@.len() == position,
                forall|i: int|
                    0 <= i < pairs@.len() ==> indexed(boxes@, pairs@[i], #[trigger] states@[i]),
                forall|i: int|
                    0 <= i < pairs@.len() ==> (#[trigger] caches@[i]).well_formed() && reuses(
                        caches@[i].kept(),
                        grid_shape(
                            boxes@[states@[i].1 as int],
                            config,
                            (if i < position {
                                numerator as int
                            } else {
                                numerator - 1
                            }) as nat,
                        ),
                        grid_shape(
                            boxes@[states@[i].2 as int],
                            config,
                            (if i < position {
                                numerator as int
                            } else {
                                numerator - 1
                            }) as nat,
                        ),
                    ),
                recontact_row(boxes@, pairs@, config, numerator as nat, row_clears, position as nat)
                    == Ok::<
                    (Option<RotatingContactSearchHit3d>, Seq<Option<nat>>, nat, nat),
                    RotatingContactSearchError3d,
                >((row_best, clear_points(next@), refined, evaluated_row)),
                row_best is None ==> refined == 0,
                work == (RecontactSearchWork3d {
                    candidate_pairs: capped(count as int),
                    initial_pair_evaluations: capped(count as int),
                    coarse_rows: capped(numerator as int),
                    coarse_pair_evaluations: capped((numerator - 1) * count + position),
                    exact_contact_evaluations: capped(
                        count + evaluated_before + evaluated_row + refined * steps,
                    ),
                    refinement_evaluations: capped(refined * steps),
                }),
                steps == config.refinement_steps,
                target == ordered_recontact_result(boxes@, config),
                target == match add_evaluations(
                    recontact_rows(boxes@, pairs@, config, numerator as nat, row_clears),
                    evaluated_before,
                ) {
                    Err(error) => Err(error),
                    Ok((found, rows, refined, evaluated)) => Ok(
                        (
                            found,
                            recontact_work(
                                count as int,
                                rows as int,
                                refined as int,
                                evaluated as int,
                                config.refinement_steps as int,
                            ),
                        ),
                    ),
                },
                cache.well_formed(),
                cache.serves(boxes@, config.free_flight),
                cache.body_count() == boxes@.len(),
                cache.spec_denominator() == denominator,
            decreases states.len() - position,
        {
            let (pair, left_index, right_index) = states[position];
            proof {
                assert(indexed(boxes@, pairs@[position as int], states@[position as int]));
                assert(caches@[position as int].well_formed());
            }
            work.coarse_pair_evaluations = work.coarse_pair_evaluations.saturating_add(1);
            let mut contacts = PairContactCache3d::new();
            let ghost caches_before = caches@;
            std::mem::swap(&mut contacts, &mut caches[position]);
            proof {
                assert(contacts == caches_before[position as int]);
            }
            let step = recontact_step_exec(
                boxes,
                left_index,
                right_index,
                pair,
                config,
                numerator,
                clears[position],
                &mut cache,
                &mut contacts,
            );
            let ghost caches_middle = caches@;
            caches.set(position, contacts);
            proof {
                assert forall|i: int| 0 <= i < pairs@.len() && i != position implies caches@[i]
                    == caches_before[i] by {
                    assert(caches@[i] == caches_middle[i]);
                }
            }
            let (found, clear, evaluated) = match step {
                Ok(step) => step,
                Err(error) => {
                    proof {
                        lemma_row_error_stable(
                            boxes@,
                            pairs@,
                            config,
                            numerator as nat,
                            row_clears,
                            (position + 1) as nat,
                            pairs@.len(),
                        );
                    }
                    return Err(error);
                },
            };
            if evaluated {
                work.exact_contact_evaluations = work.exact_contact_evaluations.saturating_add(1);
            }
            proof {
                if evaluated {
                    evaluated_row = evaluated_row + 1;
                }
            }
            let ghost next_before = next@;
            next.push(clear);
            proof {
                assert(clear_points(next@) =~= clear_points(next_before).push(
                    match clear {
                        Some(value) => Some(value as nat),
                        None => None,
                    },
                ));
            }
            if let Some(hit) = found {
                work.refinement_evaluations = work.refinement_evaluations.saturating_add(steps);
                work.exact_contact_evaluations = work.exact_contact_evaluations.saturating_add(
                    steps,
                );
                proof {
                    assert((refined + 1) * steps == refined * steps + steps) by (nonlinear_arith);
                    refined = refined + 1;
                }
                let replace = match &row_best {
                    None => true,
                    Some(current) => hit_before_exec(&hit, current),
                };
                if replace {
                    row_best = Some(hit);
                }
            }
            position = position + 1;
        }
        if row_best.is_some() {
            proof {
                assert((numerator - 1) * count + count == numerator * count) by (nonlinear_arith);
            }
            return Ok((row_best, work));
        }
        proof {
            assert((numerator - 1) * count + count == numerator * count) by (nonlinear_arith);
            assert(refined * steps == 0);
            evaluated_before = evaluated_before + evaluated_row;
        }
        clears = next;
        numerator = numerator + 1;
    }
    Ok((None, work))
}

/// [`sampled_rotating_recontact_search_profiled`] without the work report.
pub fn sampled_rotating_recontact_search(
    boxes: &[RigidBox3d],
    config: RotatingContactSearchConfig3d,
) -> (result: Result<Option<RotatingContactSearchHit3d>, RotatingContactSearchError3d>)
    ensures
        result == match ordered_recontact_result(boxes@, config) {
            Err(error) => Err(error),
            Ok((found, _)) => Ok::<
                Option<RotatingContactSearchHit3d>,
                RotatingContactSearchError3d,
            >(found),
        },
{
    match sampled_rotating_recontact_search_profiled(boxes, config) {
        Ok((found, _)) => Ok(found),
        Err(error) => Err(error),
    }
}

// ---------------------------------------------------------------------------------------------
// Agreement with the pair-by-pair re-contact search
// ---------------------------------------------------------------------------------------------

/// The pair was seen clear at the grid point before `k` (at the interval start for `k == 1`).
pub open spec fn clear_before(
    boxes: Seq<RigidBox3d>,
    pair: RotationalSweepPair3d,
    config: RotatingContactSearchConfig3d,
    k: nat,
) -> bool {
    if k <= 1 {
        shape_contact(
            box_with_id(boxes, pair.left).spec_oriented_box(),
            box_with_id(boxes, pair.right).spec_oriented_box(),
        ) == Ok::<Option<ObbContactSeed3d>, RotatingContactSearchError3d>(None)
    } else {
        quiet(boxes, pair, config, (k - 1) as nat)
    }
}

/// The last clear grid point a pair carries into grid point `k`.
pub open spec fn entry_clear(
    boxes: Seq<RigidBox3d>,
    pair: RotationalSweepPair3d,
    config: RotatingContactSearchConfig3d,
    k: nat,
) -> Option<nat> {
    if clear_before(boxes, pair, config, k) {
        Some((k - 1) as nat)
    } else {
        None
    }
}

pub open spec fn entry_clears(
    boxes: Seq<RigidBox3d>,
    pairs: Seq<RotationalSweepPair3d>,
    config: RotatingContactSearchConfig3d,
    k: nat,
) -> Seq<Option<nat>> {
    Seq::new(pairs.len(), |i: int| entry_clear(boxes, pairs[i], config, k))
}

/// Grid point `k` sees contact right after a clear grid point: a re-contact.
pub open spec fn recontact_at(
    boxes: Seq<RigidBox3d>,
    pair: RotationalSweepPair3d,
    config: RotatingContactSearchConfig3d,
    k: nat,
) -> bool {
    &&& clear_before(boxes, pair, config, k)
    &&& sampled_contact(
        box_with_id(boxes, pair.left),
        box_with_id(boxes, pair.right),
        config.free_flight,
        k as u32,
        config.sample_count as u32,
    ) matches Ok(Some(_))
}

/// Grid point `k` is evaluated without failure and holds no re-contact.
pub open spec fn step_passes(
    boxes: Seq<RigidBox3d>,
    pair: RotationalSweepPair3d,
    config: RotatingContactSearchConfig3d,
    k: nat,
) -> bool {
    &&& sampled_contact(
        box_with_id(boxes, pair.left),
        box_with_id(boxes, pair.right),
        config.free_flight,
        k as u32,
        config.sample_count as u32,
    ) is Ok
    &&& !recontact_at(boxes, pair, config, k)
}

/// The refined hit of a re-contact at grid point `k`, if there is one and it refines.
pub open spec fn recontact_hit(
    boxes: Seq<RigidBox3d>,
    pair: RotationalSweepPair3d,
    config: RotatingContactSearchConfig3d,
    k: nat,
) -> Option<RotatingContactSearchHit3d> {
    let left = box_with_id(boxes, pair.left);
    let right = box_with_id(boxes, pair.right);
    if clear_before(boxes, pair, config, k) {
        match sampled_contact(left, right, config.free_flight, k as u32, config.sample_count as u32) {
            Ok(Some(contact)) => match refined_hit(
                pair,
                refine(
                    left,
                    right,
                    config,
                    k - 1,
                    k as int,
                    config.sample_count as int,
                    contact,
                    config.refinement_steps as nat,
                ),
            ) {
                Ok(hit) => Some(hit),
                Err(_) => None,
            },
            _ => None,
        }
    } else {
        None
    }
}

pub open spec fn recontact_hits(
    boxes: Seq<RigidBox3d>,
    pairs: Seq<RotationalSweepPair3d>,
    config: RotatingContactSearchConfig3d,
    k: nat,
) -> Seq<Option<RotatingContactSearchHit3d>> {
    Seq::new(pairs.len(), |i: int| recontact_hit(boxes, pairs[i], config, k))
}

/// Grid point `k` evaluates without failure: it passes, or re-contacts with a refined hit.
pub open spec fn step_sound(
    boxes: Seq<RigidBox3d>,
    pair: RotationalSweepPair3d,
    config: RotatingContactSearchConfig3d,
    k: nat,
) -> bool {
    step_passes(boxes, pair, config, k) || (recontact_at(boxes, pair, config, k) && recontact_hit(
        boxes,
        pair,
        config,
        k,
    ) is Some)
}

proof fn lemma_step_outcome(
    boxes: Seq<RigidBox3d>,
    pair: RotationalSweepPair3d,
    config: RotatingContactSearchConfig3d,
    k: nat,
)
    requires
        k >= 1,
        step_sound(boxes, pair, config, k),
    ensures
        recontact_step(
            box_with_id(boxes, pair.left),
            box_with_id(boxes, pair.right),
            pair,
            config,
            k,
            entry_clear(boxes, pair, config, k),
        ) matches Ok((found, next)) && found == recontact_hit(boxes, pair, config, k) && (
        step_passes(boxes, pair, config, k) ==> found is None && next == entry_clear(
            boxes,
            pair,
            config,
            k + 1,
        )),
{
}

proof fn lemma_recontact_row_fold(
    boxes: Seq<RigidBox3d>,
    pairs: Seq<RotationalSweepPair3d>,
    config: RotatingContactSearchConfig3d,
    k: nat,
    n: nat,
)
    requires
        k >= 1,
        n <= pairs.len(),
        forall|i: int| 0 <= i < n ==> #[trigger] step_sound(boxes, pairs[i], config, k),
    ensures
        recontact_row(boxes, pairs, config, k, entry_clears(boxes, pairs, config, k), n) matches Ok(
            (best, next, _, _),
        ) && best == earliest_of(recontact_hits(boxes, pairs, config, k), n) && next.len() == n
            && forall|i: int|
            0 <= i < n && step_passes(boxes, pairs[i], config, k) ==> #[trigger] next[i]
                == entry_clear(boxes, pairs[i], config, k + 1),
    decreases n,
{
    if n > 0 {
        lemma_recontact_row_fold(boxes, pairs, config, k, (n - 1) as nat);
        assert(step_sound(boxes, pairs[n - 1], config, k));
        lemma_step_outcome(boxes, pairs[n - 1], config, k);
    }
}

proof fn lemma_recontact_initial_fold(
    boxes: Seq<RigidBox3d>,
    pairs: Seq<RotationalSweepPair3d>,
    config: RotatingContactSearchConfig3d,
    n: nat,
)
    requires
        n <= pairs.len(),
        forall|i: int|
            0 <= i < n ==> holds_id(boxes, (#[trigger] pairs[i]).left) && holds_id(
                boxes,
                pairs[i].right,
            ) && shape_contact(
                box_with_id(boxes, pairs[i].left).spec_oriented_box(),
                box_with_id(boxes, pairs[i].right).spec_oriented_box(),
            ) is Ok,
    ensures
        recontact_initial(boxes, pairs, n) matches Ok(clears) && clears =~= entry_clears(
            boxes,
            pairs,
            config,
            1,
        ).take(n as int),
    decreases n,
{
    if n > 0 {
        lemma_recontact_initial_fold(boxes, pairs, config, (n - 1) as nat);
        assert(holds_id(boxes, pairs[n - 1].left));
        assert(entry_clears(boxes, pairs, config, 1).take(n as int) =~= entry_clears(
            boxes,
            pairs,
            config,
            1,
        ).take(n - 1).push(entry_clear(boxes, pairs[n - 1], config, 1)));
    }
}

/// Grid rows `k..target` that all pass lead the row-ordered re-contact scan to row `target`.
proof fn lemma_recontact_rows_reach(
    boxes: Seq<RigidBox3d>,
    pairs: Seq<RotationalSweepPair3d>,
    config: RotatingContactSearchConfig3d,
    k: nat,
    target: nat,
)
    requires
        1 <= k <= target <= config.sample_count,
        forall|j: nat, i: int|
            k <= j < target && 0 <= i < pairs.len() ==> #[trigger] step_passes(
                boxes,
                pairs[i],
                config,
                j,
            ),
        forall|i: int| 0 <= i < pairs.len() ==> #[trigger] step_sound(boxes, pairs[i], config, target),
        earliest_of(recontact_hits(boxes, pairs, config, target), pairs.len()) is Some,
    ensures
        recontact_rows(boxes, pairs, config, k, entry_clears(boxes, pairs, config, k)) matches Ok(
            (found, _, _, _),
        ) && found == earliest_of(recontact_hits(boxes, pairs, config, target), pairs.len()),
    decreases target - k,
{
    let n = pairs.len();
    if k == target {
        lemma_recontact_row_fold(boxes, pairs, config, k, n);
    } else {
        assert forall|i: int| 0 <= i < n implies #[trigger] step_sound(boxes, pairs[i], config, k)
            by {
            assert(step_passes(boxes, pairs[i], config, k));
        }
        lemma_recontact_row_fold(boxes, pairs, config, k, n);
        let hits = recontact_hits(boxes, pairs, config, k);
        assert forall|i: int| 0 <= i < n implies (#[trigger] hits[i]) is None by {
            assert(step_passes(boxes, pairs[i], config, k));
        }
        lemma_earliest_none(hits, n);
        let next = recontact_row(boxes, pairs, config, k, entry_clears(boxes, pairs, config, k), n)->Ok_0.1;
        assert forall|i: int| 0 <= i < n implies #[trigger] next[i] == entry_clears(
            boxes,
            pairs,
            config,
            k + 1,
        )[i] by {
            assert(step_passes(boxes, pairs[i], config, k));
        }
        assert(next =~= entry_clears(boxes, pairs, config, k + 1));
        lemma_recontact_rows_reach(boxes, pairs, config, k + 1, target);
    }
}

/// Grid rows from `k` on that all pass end the row-ordered re-contact scan without a hit.
proof fn lemma_recontact_rows_quiet(
    boxes: Seq<RigidBox3d>,
    pairs: Seq<RotationalSweepPair3d>,
    config: RotatingContactSearchConfig3d,
    k: nat,
)
    requires
        k >= 1,
        forall|j: nat, i: int|
            k <= j <= config.sample_count && 0 <= i < pairs.len() ==> #[trigger] step_passes(
                boxes,
                pairs[i],
                config,
                j,
            ),
    ensures
        recontact_rows(boxes, pairs, config, k, entry_clears(boxes, pairs, config, k)) matches Ok(
            (None, _, _, _),
        ),
    decreases config.sample_count + 1 - k,
{
    let n = pairs.len();
    if k <= config.sample_count {
        assert forall|i: int| 0 <= i < n implies #[trigger] step_sound(boxes, pairs[i], config, k)
            by {
            assert(step_passes(boxes, pairs[i], config, k));
        }
        lemma_recontact_row_fold(boxes, pairs, config, k, n);
        let hits = recontact_hits(boxes, pairs, config, k);
        assert forall|i: int| 0 <= i < n implies (#[trigger] hits[i]) is None by {
            assert(step_passes(boxes, pairs[i], config, k));
        }
        lemma_earliest_none(hits, n);
        let next = recontact_row(boxes, pairs, config, k, entry_clears(boxes, pairs, config, k), n)->Ok_0.1;
        assert forall|i: int| 0 <= i < n implies #[trigger] next[i] == entry_clears(
            boxes,
            pairs,
            config,
            k + 1,
        )[i] by {
            assert(step_passes(boxes, pairs[i], config, k));
        }
        assert(next =~= entry_clears(boxes, pairs, config, k + 1));
        lemma_recontact_rows_quiet(boxes, pairs, config, k + 1);
    }
}

/// The first grid point `k..=limit` holding a re-contact of `pair` (`limit + 1` for none).
pub open spec fn first_recontact_row(
    boxes: Seq<RigidBox3d>,
    pair: RotationalSweepPair3d,
    config: RotatingContactSearchConfig3d,
    k: nat,
    limit: nat,
) -> nat
    decreases limit + 1 - k,
{
    if k == 0 || k > limit {
        limit + 1
    } else if recontact_at(boxes, pair, config, k) {
        k
    } else {
        first_recontact_row(boxes, pair, config, k + 1, limit)
    }
}

/// What a successful pair-by-pair re-contact scan of `pair` up to grid point `limit` says about
/// its grid points.
pub open spec fn recontact_summary(
    boxes: Seq<RigidBox3d>,
    pair: RotationalSweepPair3d,
    config: RotatingContactSearchConfig3d,
    k: nat,
    limit: nat,
    found: Option<RotatingContactSearchHit3d>,
) -> bool {
    let row = first_recontact_row(boxes, pair, config, k, limit);
    &&& k <= row <= limit + 1
    &&& forall|j: nat| k <= j < row ==> #[trigger] step_passes(boxes, pair, config, j)
    &&& row <= limit ==> recontact_at(boxes, pair, config, row) && step_sound(
        boxes,
        pair,
        config,
        row,
    ) && found == recontact_hit(boxes, pair, config, row) && found is Some
    &&& row > limit ==> found is None
}

proof fn lemma_recontact_scan_summary(
    boxes: Seq<RigidBox3d>,
    pair: RotationalSweepPair3d,
    config: RotatingContactSearchConfig3d,
    limit: nat,
    k: nat,
)
    requires
        1 <= k <= limit + 1,
    ensures
        recontact_scan(
            box_with_id(boxes, pair.left),
            box_with_id(boxes, pair.right),
            pair,
            config,
            limit,
            false,
            k,
            entry_clear(boxes, pair, config, k),
            None,
        ) matches Ok((found, _)) ==> recontact_summary(boxes, pair, config, k, limit, found),
    decreases limit + 1 - k,
{
    if k <= limit {
        lemma_recontact_scan_summary(boxes, pair, config, limit, k + 1);
        let left = box_with_id(boxes, pair.left);
        let right = box_with_id(boxes, pair.right);
        let scan = recontact_scan(
            left,
            right,
            pair,
            config,
            limit,
            false,
            k,
            entry_clear(boxes, pair, config, k),
            None,
        );
        if !recontact_at(boxes, pair, config, k) {
            assert(recontact_scan(
                left,
                right,
                pair,
                config,
                limit,
                false,
                k,
                entry_clear(boxes, pair, config, k),
                None,
            ) is Ok ==> scan == recontact_scan(
                left,
                right,
                pair,
                config,
                limit,
                false,
                k + 1,
                entry_clear(boxes, pair, config, k + 1),
                None,
            ) && step_passes(boxes, pair, config, k));
            if scan is Ok {
                let row = first_recontact_row(boxes, pair, config, k, limit);
                assert forall|j: nat| k <= j < row implies #[trigger] step_passes(
                    boxes,
                    pair,
                    config,
                    j,
                ) by {
                    if j > k {
                        assert(k + 1 <= j);
                    }
                }
            }
        }
    }
}

proof fn lemma_recontact_pair_summary(
    boxes: Seq<RigidBox3d>,
    pair: RotationalSweepPair3d,
    config: RotatingContactSearchConfig3d,
    limit: nat,
)
    ensures
        recontact_pair(
            box_with_id(boxes, pair.left),
            box_with_id(boxes, pair.right),
            pair,
            config,
            limit,
            false,
        ) matches Ok((found, _)) ==> {
            &&& shape_contact(
                box_with_id(boxes, pair.left).spec_oriented_box(),
                box_with_id(boxes, pair.right).spec_oriented_box(),
            ) is Ok
            &&& recontact_summary(boxes, pair, config, 1, limit, found)
        },
{
    lemma_recontact_scan_summary(boxes, pair, config, limit, 1);
}

/// A re-contact hit at grid point `k` lies in coarse row `k`.
proof fn lemma_recontact_hit_in_row(
    boxes: Seq<RigidBox3d>,
    pair: RotationalSweepPair3d,
    config: RotatingContactSearchConfig3d,
    k: nat,
)
    requires
        1 <= k <= config.sample_count,
    ensures
        recontact_hit(boxes, pair, config, k) matches Some(hit) ==> {
            let t = hit.time;
            &&& t.denominator >= 1
            &&& (k - 1) * t.denominator < t.numerator * config.sample_count
            &&& t.numerator * config.sample_count <= k * t.denominator
        },
{
    let left = box_with_id(boxes, pair.left);
    let right = box_with_id(boxes, pair.right);
    match sampled_contact(left, right, config.free_flight, k as u32, config.sample_count as u32) {
        Ok(Some(contact)) => {
            lemma_refined_time_in_row(left, right, pair, config, k as int, contact);
        },
        _ => {},
    }
}

/// The coarse limit of a time in coarse row `row` is `row`.
proof fn lemma_limit_of_row(time: SampledContactTime3d, samples: u16, row: int)
    requires
        1 <= row <= samples,
        time.denominator >= 1,
        (row - 1) * time.denominator < time.numerator * samples,
        time.numerator * samples <= row * time.denominator,
    ensures
        coarse_sample_limit(time, samples) == row,
{
    let d = time.denominator as int;
    let x = time.numerator * samples + d - 1;
    let q = x / d;
    vstd::arithmetic::div_mod::lemma_fundamental_div_mod(x, d);
    let rem = x % d;
    assert(0 <= rem < d);
    let ns = time.numerator * samples;
    assert(row * d <= x && x < (row + 1) * d) by (nonlinear_arith)
        requires
            (row - 1) * d < ns,
            ns <= row * d,
            x == ns + d - 1,
            d >= 1,
    ;
    assert(q == row) by (nonlinear_arith)
        requires
            x == d * q + rem,
            0 <= rem < d,
            row * d <= x,
            x < (row + 1) * d,
            d >= 1,
    ;
}

/// What the pair-by-pair re-contact search finds for candidate pair `i`, given what the pairs
/// before it found.
pub open spec fn recontact_found(
    boxes: Seq<RigidBox3d>,
    pairs: Seq<RotationalSweepPair3d>,
    config: RotatingContactSearchConfig3d,
    i: int,
) -> Option<RotatingContactSearchHit3d> {
    match recontact_over(boxes, pairs, config, Set::empty(), i as nat) {
        Ok((best, _)) => match recontact_pair(
            box_with_id(boxes, pairs[i].left),
            box_with_id(boxes, pairs[i].right),
            pairs[i],
            config,
            next_limit(best, config),
            false,
        ) {
            Ok((found, _)) => found,
            Err(_) => None,
        },
        Err(_) => None,
    }
}

pub open spec fn recontact_founds(
    boxes: Seq<RigidBox3d>,
    pairs: Seq<RotationalSweepPair3d>,
    config: RotatingContactSearchConfig3d,
) -> Seq<Option<RotatingContactSearchHit3d>> {
    Seq::new(pairs.len(), |i: int| recontact_found(boxes, pairs, config, i))
}

/// The coarse limit the pair-by-pair re-contact search gives candidate pair `i`.
pub open spec fn limit_before(
    boxes: Seq<RigidBox3d>,
    pairs: Seq<RotationalSweepPair3d>,
    config: RotatingContactSearchConfig3d,
    i: int,
) -> nat {
    match recontact_over(boxes, pairs, config, Set::empty(), i as nat) {
        Ok((best, _)) => next_limit(best, config),
        Err(_) => 0,
    }
}

proof fn lemma_recontact_over_fold(
    boxes: Seq<RigidBox3d>,
    pairs: Seq<RotationalSweepPair3d>,
    config: RotatingContactSearchConfig3d,
    n: nat,
)
    requires
        n <= pairs.len(),
        recontact_over(boxes, pairs, config, Set::empty(), n) is Ok,
    ensures
        forall|m: nat|
            m <= n ==> (#[trigger] recontact_over(boxes, pairs, config, Set::empty(), m)) is Ok
                && recontact_over(boxes, pairs, config, Set::empty(), m)->Ok_0.0 == earliest_of(
                recontact_founds(boxes, pairs, config),
                m,
            ),
        forall|i: int|
            0 <= i < n ==> holds_id(boxes, (#[trigger] pairs[i]).left) && holds_id(
                boxes,
                pairs[i].right,
            ) && recontact_pair(
                box_with_id(boxes, pairs[i].left),
                box_with_id(boxes, pairs[i].right),
                pairs[i],
                config,
                limit_before(boxes, pairs, config, i),
                false,
            ) is Ok,
    decreases n,
{
    if n > 0 {
        let m1 = (n - 1) as nat;
        let founds = recontact_founds(boxes, pairs, config);
        let pair = pairs[n - 1];
        assert(!Set::<(u64, u64)>::empty().contains(
            crate::rotating_recontact_search::pair_key(pair),
        ));
        let prev = recontact_over(boxes, pairs, config, Set::empty(), m1);
        assert(prev is Ok);
        lemma_recontact_over_fold(boxes, pairs, config, m1);
        assert(founds[n - 1] == recontact_found(boxes, pairs, config, n - 1));
        assert(recontact_over(boxes, pairs, config, Set::empty(), n)->Ok_0.0 == earliest_of(
            founds,
            n,
        ));
    }
}

/// The grid point of the first re-contact the pair-by-pair search sees for candidate pair `i`.
pub open spec fn pair_recontact_row(
    boxes: Seq<RigidBox3d>,
    pairs: Seq<RotationalSweepPair3d>,
    config: RotatingContactSearchConfig3d,
    i: int,
) -> nat {
    first_recontact_row(boxes, pairs[i], config, 1, limit_before(boxes, pairs, config, i))
}

/// The earliest such grid point among the first `n` candidate pairs.
pub open spec fn first_recontact_over(
    boxes: Seq<RigidBox3d>,
    pairs: Seq<RotationalSweepPair3d>,
    config: RotatingContactSearchConfig3d,
    n: nat,
) -> nat
    decreases n,
{
    if n == 0 {
        (config.sample_count + 1) as nat
    } else {
        let previous = first_recontact_over(boxes, pairs, config, (n - 1) as nat);
        let row = pair_recontact_row(boxes, pairs, config, n - 1);
        if row < previous {
            row
        } else {
            previous
        }
    }
}

proof fn lemma_first_recontact_over(
    boxes: Seq<RigidBox3d>,
    pairs: Seq<RotationalSweepPair3d>,
    config: RotatingContactSearchConfig3d,
    n: nat,
)
    requires
        n <= pairs.len(),
    ensures
        forall|i: int|
            0 <= i < n ==> first_recontact_over(boxes, pairs, config, n)
                <= #[trigger] pair_recontact_row(boxes, pairs, config, i),
        first_recontact_over(boxes, pairs, config, n) <= config.sample_count ==> exists|i: int|
            0 <= i < n && #[trigger] pair_recontact_row(boxes, pairs, config, i)
                == first_recontact_over(boxes, pairs, config, n),
        first_recontact_over(boxes, pairs, config, n) <= config.sample_count + 1,
    decreases n,
{
    if n > 0 {
        lemma_first_recontact_over(boxes, pairs, config, (n - 1) as nat);
    }
}

/// Every re-contact hit of grid point `k` comes before a hit whose time lies beyond row `k`.
proof fn lemma_recontact_hits_before(
    boxes: Seq<RigidBox3d>,
    pairs: Seq<RotationalSweepPair3d>,
    config: RotatingContactSearchConfig3d,
    k: nat,
    x: RotatingContactSearchHit3d,
)
    requires
        1 <= k <= config.sample_count,
        x.time.denominator >= 1,
        x.time.numerator * config.sample_count > k * x.time.denominator,
    ensures
        after_all(recontact_hits(boxes, pairs, config, k), x),
{
    let hits = recontact_hits(boxes, pairs, config, k);
    assert forall|j: int| 0 <= j < hits.len() && (#[trigger] hits[j]) is Some implies hit_before(
        hits[j]->Some_0,
        x,
    ) by {
        lemma_recontact_hit_in_row(boxes, pairs[j], config, k);
        lemma_row_order(hits[j]->Some_0.time, x.time, k as int, config.sample_count as int);
    }
}

/// What the pair-by-pair re-contact search, known to succeed, says about candidate pair `i`.
pub open spec fn pair_facts(
    boxes: Seq<RigidBox3d>,
    pairs: Seq<RotationalSweepPair3d>,
    config: RotatingContactSearchConfig3d,
    i: int,
) -> bool {
    &&& holds_id(boxes, pairs[i].left) && holds_id(boxes, pairs[i].right)
    &&& shape_contact(
        box_with_id(boxes, pairs[i].left).spec_oriented_box(),
        box_with_id(boxes, pairs[i].right).spec_oriented_box(),
    ) is Ok
    &&& recontact_summary(
        boxes,
        pairs[i],
        config,
        1,
        limit_before(boxes, pairs, config, i),
        recontact_founds(boxes, pairs, config)[i],
    )
    &&& limit_before(boxes, pairs, config, i) <= config.sample_count
}

proof fn lemma_pair_facts(
    boxes: Seq<RigidBox3d>,
    pairs: Seq<RotationalSweepPair3d>,
    config: RotatingContactSearchConfig3d,
)
    requires
        recontact_over(boxes, pairs, config, Set::empty(), pairs.len()) is Ok,
    ensures
        forall|i: int| 0 <= i < pairs.len() ==> #[trigger] pair_facts(boxes, pairs, config, i),
{
    let n = pairs.len();
    lemma_recontact_over_fold(boxes, pairs, config, n);
    assert forall|i: int| 0 <= i < n implies #[trigger] pair_facts(boxes, pairs, config, i) by {
        let m = i as nat;
        assert(recontact_over(boxes, pairs, config, Set::empty(), m) is Ok);
        assert(holds_id(boxes, pairs[i].left));
        lemma_recontact_pair_summary(boxes, pairs[i], config, limit_before(boxes, pairs, config, i));
        lemma_recontact_over_positive(boxes, pairs, config, Set::empty(), m);
        lemma_next_limit_bounded(recontact_over(boxes, pairs, config, Set::empty(), m)->Ok_0.0, config);
    }
}

/// Every candidate pair gets a coarse limit of at least the first re-contact grid point.
proof fn lemma_limits_cover_first_row(
    boxes: Seq<RigidBox3d>,
    pairs: Seq<RotationalSweepPair3d>,
    config: RotatingContactSearchConfig3d,
)
    requires
        recontact_over(boxes, pairs, config, Set::empty(), pairs.len()) is Ok,
        first_recontact_over(boxes, pairs, config, pairs.len()) <= config.sample_count,
        forall|i: int| 0 <= i < pairs.len() ==> #[trigger] pair_facts(boxes, pairs, config, i),
    ensures
        forall|i: int|
            0 <= i < pairs.len() ==> first_recontact_over(boxes, pairs, config, pairs.len())
                <= #[trigger] limit_before(boxes, pairs, config, i),
{
    let n = pairs.len();
    let founds = recontact_founds(boxes, pairs, config);
    let big = first_recontact_over(boxes, pairs, config, n);
    lemma_recontact_over_fold(boxes, pairs, config, n);
    lemma_first_recontact_over(boxes, pairs, config, n);
    assert forall|i: int| 0 <= i < n implies big <= #[trigger] limit_before(boxes, pairs, config, i)
        by {
        let m = i as nat;
        assert(recontact_over(boxes, pairs, config, Set::empty(), m) is Ok);
        let best = recontact_over(boxes, pairs, config, Set::empty(), m)->Ok_0.0;
        assert(best == earliest_of(founds, m));
        if let Some(h) = best {
            lemma_earliest_is_member(founds, m);
            let v = choose|v: int| 0 <= v < m && founds[v] == Some(h);
            assert(pair_facts(boxes, pairs, config, v));
            let row = pair_recontact_row(boxes, pairs, config, v);
            assert(row <= limit_before(boxes, pairs, config, v));
            lemma_recontact_hit_in_row(boxes, pairs[v], config, row);
            lemma_limit_of_row(h.time, config.sample_count, row as int);
        }
    }
}

/// With a re-contact at grid point `big`, the first among all candidate pairs, both searches
/// find the same hit.
proof fn lemma_recontact_orders_agree_on_hit(
    boxes: Seq<RigidBox3d>,
    pairs: Seq<RotationalSweepPair3d>,
    config: RotatingContactSearchConfig3d,
)
    requires
        recontact_over(boxes, pairs, config, Set::empty(), pairs.len()) is Ok,
        1 <= first_recontact_over(boxes, pairs, config, pairs.len()) <= config.sample_count,
        forall|i: int| 0 <= i < pairs.len() ==> #[trigger] pair_facts(boxes, pairs, config, i),
    ensures
        recontact_rows(boxes, pairs, config, 1, entry_clears(boxes, pairs, config, 1)) matches Ok(
            (found, _, _, _),
        ) && found == earliest_of(recontact_founds(boxes, pairs, config), pairs.len()),
{
    let n = pairs.len();
    let founds = recontact_founds(boxes, pairs, config);
    let big = first_recontact_over(boxes, pairs, config, n);
    lemma_first_recontact_over(boxes, pairs, config, n);
    lemma_limits_cover_first_row(boxes, pairs, config);
    assert forall|j: nat, i: int|
        1 <= j < big && 0 <= i < n implies #[trigger] step_passes(boxes, pairs[i], config, j) by {
        assert(pair_facts(boxes, pairs, config, i));
        assert(big <= pair_recontact_row(boxes, pairs, config, i));
        assert(big <= limit_before(boxes, pairs, config, i));
    }
    let k = big as nat;
    let hits = recontact_hits(boxes, pairs, config, k);
    assert forall|i: int| 0 <= i < n implies #[trigger] step_sound(boxes, pairs[i], config, k) && (
    hits[i] == founds[i] || (hits[i] is None && founds[i] is Some && after_all(
        hits,
        founds[i]->Some_0,
    ))) by {
        assert(pair_facts(boxes, pairs, config, i));
        let row = pair_recontact_row(boxes, pairs, config, i);
        assert(big <= row);
        assert(big <= limit_before(boxes, pairs, config, i));
        if row > big {
            assert(step_passes(boxes, pairs[i], config, k));
            assert(hits[i] is None);
            if let Some(x) = founds[i] {
                lemma_recontact_hit_in_row(boxes, pairs[i], config, row);
                assert(big * x.time.denominator <= (row - 1) * x.time.denominator) by (
                nonlinear_arith)
                    requires
                        big <= row - 1,
                        x.time.denominator >= 1,
                ;
                lemma_recontact_hits_before(boxes, pairs, config, k, x);
            }
        }
    }
    assert forall|i: int| 0 <= i < n implies (#[trigger] hits[i]) == founds[i] || (hits[i] is None
        && founds[i] is Some && after_all(hits, founds[i]->Some_0)) by {
        assert(step_sound(boxes, pairs[i], config, k));
    }
    let witness = choose|i: int|
        0 <= i < n && #[trigger] pair_recontact_row(boxes, pairs, config, i) == big;
    assert(pair_facts(boxes, pairs, config, witness));
    assert(big <= limit_before(boxes, pairs, config, witness));
    assert(hits[witness] == founds[witness]);
    lemma_earliest_present(hits, n, witness);
    lemma_recontact_rows_reach(boxes, pairs, config, 1, k);
    lemma_dominated_hits_ignored(founds, hits, n);
}

/// Without any re-contact, both searches find nothing.
proof fn lemma_recontact_orders_agree_quiet(
    boxes: Seq<RigidBox3d>,
    pairs: Seq<RotationalSweepPair3d>,
    config: RotatingContactSearchConfig3d,
)
    requires
        first_recontact_over(boxes, pairs, config, pairs.len()) > config.sample_count,
        forall|i: int| 0 <= i < pairs.len() ==> #[trigger] pair_facts(boxes, pairs, config, i),
    ensures
        recontact_rows(boxes, pairs, config, 1, entry_clears(boxes, pairs, config, 1)) matches Ok(
            (None, _, _, _),
        ),
        earliest_of(recontact_founds(boxes, pairs, config), pairs.len()) is None,
{
    let n = pairs.len();
    let samples = config.sample_count as int;
    let founds = recontact_founds(boxes, pairs, config);
    let big = first_recontact_over(boxes, pairs, config, n);
    lemma_first_recontact_over(boxes, pairs, config, n);
    assert forall|j: nat, i: int|
        1 <= j <= samples && 0 <= i < n implies #[trigger] step_passes(boxes, pairs[i], config, j)
        by {
        assert(pair_facts(boxes, pairs, config, i));
        assert(big <= pair_recontact_row(boxes, pairs, config, i));
    }
    assert forall|i: int| 0 <= i < n implies (#[trigger] founds[i]) is None by {
        assert(pair_facts(boxes, pairs, config, i));
        assert(big <= pair_recontact_row(boxes, pairs, config, i));
    }
    lemma_earliest_none(founds, n);
    lemma_recontact_rows_quiet(boxes, pairs, config, 1);
}

proof fn lemma_recontact_initial_entry(
    boxes: Seq<RigidBox3d>,
    pairs: Seq<RotationalSweepPair3d>,
    config: RotatingContactSearchConfig3d,
)
    requires
        forall|i: int| 0 <= i < pairs.len() ==> #[trigger] pair_facts(boxes, pairs, config, i),
    ensures
        recontact_initial(boxes, pairs, pairs.len()) == Ok::<
            Seq<Option<nat>>,
            RotatingContactSearchError3d,
        >(entry_clears(boxes, pairs, config, 1)),
{
    let n = pairs.len();
    assert forall|i: int|
        0 <= i < n implies holds_id(boxes, (#[trigger] pairs[i]).left) && holds_id(
            boxes,
            pairs[i].right,
        ) && shape_contact(
            box_with_id(boxes, pairs[i].left).spec_oriented_box(),
            box_with_id(boxes, pairs[i].right).spec_oriented_box(),
        ) is Ok by {
        assert(pair_facts(boxes, pairs, config, i));
    }
    lemma_recontact_initial_fold(boxes, pairs, config, n);
    assert(entry_clears(boxes, pairs, config, 1).take(n as int) =~= entry_clears(
        boxes,
        pairs,
        config,
        1,
    ));
}

/// The row-ordered and the pair-by-pair re-contact searches agree on a non-empty candidate list
/// whose pair-by-pair search succeeds.
proof fn lemma_recontact_orders_agree(
    boxes: Seq<RigidBox3d>,
    pairs: Seq<RotationalSweepPair3d>,
    config: RotatingContactSearchConfig3d,
)
    requires
        config.sample_count >= 1,
        pairs.len() > 0,
        recontact_over(boxes, pairs, config, Set::empty(), pairs.len()) is Ok,
    ensures
        recontact_initial(boxes, pairs, pairs.len()) matches Ok(clears) && recontact_rows(
            boxes,
            pairs,
            config,
            1,
            clears,
        ) matches Ok((found, _, _, _)) && found == recontact_over(
            boxes,
            pairs,
            config,
            Set::empty(),
            pairs.len(),
        )->Ok_0.0,
{
    let n = pairs.len();
    lemma_pair_facts(boxes, pairs, config);
    lemma_recontact_initial_entry(boxes, pairs, config);
    lemma_first_recontact_over(boxes, pairs, config, n);
    if first_recontact_over(boxes, pairs, config, n) <= config.sample_count {
        let witness = choose|i: int|
            0 <= i < n && #[trigger] pair_recontact_row(boxes, pairs, config, i)
                == first_recontact_over(boxes, pairs, config, n);
        assert(pair_facts(boxes, pairs, config, witness));
        lemma_recontact_orders_agree_on_hit(boxes, pairs, config);
    } else {
        lemma_recontact_orders_agree_quiet(boxes, pairs, config);
    }
    lemma_recontact_over_fold(boxes, pairs, config, n);
    assert(recontact_over(boxes, pairs, config, Set::empty(), n) is Ok);
}

/// The globally row-ordered re-contact search finds exactly the hit of the pair-by-pair
/// re-contact search (without contact histories) whenever the latter succeeds; failures of the
/// resolution or broad-phase checks are the same in both.
pub proof fn lemma_ordered_recontact_search_agrees(
    boxes: Seq<RigidBox3d>,
    config: RotatingContactSearchConfig3d,
)
    ensures
        match recontact_result(boxes, config, Set::empty()) {
            Ok((found, _)) => ordered_recontact_result(boxes, config) matches Ok((ordered, _))
                && ordered == found,
            Err(error) => (resolution_error(config) is Some || broad_phase_error(
                boxes,
                config.free_flight,
                boxes.len(),
            ) is Some) ==> ordered_recontact_result(boxes, config) == Err::<
                (Option<RotatingContactSearchHit3d>, RecontactSearchWork3d),
                RotatingContactSearchError3d,
            >(error),
        },
{
    if resolution_error(config) is None && broad_phase_error(
        boxes,
        config.free_flight,
        boxes.len(),
    ) is None {
        let pairs = candidate_sequence(boxes, config.free_flight);
        if recontact_over(boxes, pairs, config, Set::empty(), pairs.len()) is Ok && pairs.len() > 0 {
            lemma_recontact_orders_agree(boxes, pairs, config);
        }
    }
}

} // verus!
