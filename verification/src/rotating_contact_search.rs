use vstd::prelude::*;

use crate::body::BodyId;
use crate::oriented_box::{
    ObbContactSeed3d, OrientedBox3d, OrientedBoxError3d, contact_of, contact_seed, gcd,
    greatest_common_divisor, lemma_gcd_bounded,
};
use crate::rigid_box::RigidBox3d;
use crate::rigid_box_free_flight::{
    RigidBoxFreeFlightConfig3d, RigidBoxFreeFlightError3d, sample_rigid_box_free_flight,
    sampled_box,
};
use crate::rotating_broad_phase::{
    RotatingBroadPhaseError3d, RotationalSweepPair3d, broad_phase_error, is_candidate_pair,
    lemma_no_duplicates, lemma_sorted_sequences_equal, pair_less,
    rotational_sweep_candidate_pairs, strictly_sorted,
};
use crate::rotating_world::{box_with_id, holds_id};

verus! {

/// Most coarse samples one search keeps for reuse across the pairs that share a body.
pub const MAX_CACHED_COARSE_SAMPLES: usize = 4096;

/// Rational upper-bound time returned by the sampled rotating-contact search, as a fraction of
/// the searched interval.
#[derive(Clone, Copy, Debug, PartialEq, Eq, Structural)]
pub struct SampledContactTime3d {
    pub numerator: u32,
    pub denominator: u32,
}

impl SampledContactTime3d {
    pub open spec fn spec_zero() -> SampledContactTime3d {
        SampledContactTime3d { numerator: 0, denominator: 1 }
    }

    /// The start of the interval.
    pub fn zero() -> (time: SampledContactTime3d)
        ensures
            time == Self::spec_zero(),
    {
        SampledContactTime3d { numerator: 0, denominator: 1 }
    }
}

/// `numerator / denominator` in lowest terms.
pub open spec fn canonical_time(numerator: int, denominator: int) -> SampledContactTime3d {
    let divisor = gcd(numerator as nat, denominator as nat) as int;
    SampledContactTime3d {
        numerator: (numerator / divisor) as u32,
        denominator: (denominator / divisor) as u32,
    }
}

pub(crate) fn canonical(numerator: u32, denominator: u32) -> (time: SampledContactTime3d)
    requires
        denominator > 0,
    ensures
        time == canonical_time(numerator as int, denominator as int),
{
    let divisor = greatest_common_divisor(numerator as u128, denominator as u128);
    proof {
        lemma_gcd_bounded(numerator as nat, denominator as nat);
        vstd::arithmetic::div_mod::lemma_div_is_ordered_by_denominator(
            numerator as int,
            1,
            divisor as int,
        );
        vstd::arithmetic::div_mod::lemma_div_is_ordered_by_denominator(
            denominator as int,
            1,
            divisor as int,
        );
    }
    SampledContactTime3d {
        numerator: (numerator as u128 / divisor) as u32,
        denominator: (denominator as u128 / divisor) as u32,
    }
}

/// Sampling policy for rotating OBB contact search over one collision-free interval.
#[derive(Clone, Copy, Debug, PartialEq, Eq, Structural)]
pub struct RotatingContactSearchConfig3d {
    pub free_flight: RigidBoxFreeFlightConfig3d,
    pub sample_count: u16,
    pub refinement_steps: u8,
}

impl RotatingContactSearchConfig3d {
    pub fn new(free_flight: RigidBoxFreeFlightConfig3d, sample_count: u16, refinement_steps: u8) -> (config:
        RotatingContactSearchConfig3d)
        ensures
            config.free_flight == free_flight,
            config.sample_count == sample_count,
            config.refinement_steps == refinement_steps,
    {
        RotatingContactSearchConfig3d { free_flight, sample_count, refinement_steps }
    }
}

/// Earliest sampled rotating-box contact retained by the configured search grid.
#[derive(Clone, Copy, Debug, PartialEq, Eq)]
pub struct RotatingContactSearchHit3d {
    /// Upper sample or refinement bound at which contact is known to exist.
    pub time: SampledContactTime3d,
    pub pair: RotationalSweepPair3d,
    pub contact: ObbContactSeed3d,
}

#[derive(Clone, Copy, Debug, PartialEq, Eq, Structural)]
pub enum RotatingContactSearchError3d {
    ZeroSampleCount,
    ResolutionTooFine { sample_count: u16, refinement_steps: u8 },
    MissingCandidateBody(BodyId),
    BroadPhase(RotatingBroadPhaseError3d),
    FreeFlight(RigidBoxFreeFlightError3d),
    Contact(OrientedBoxError3d),
}

/// `value * 2^steps`.
pub open spec fn doubled(value: int, steps: nat) -> int
    decreases steps,
{
    if steps == 0 {
        value
    } else {
        2 * doubled(value, (steps - 1) as nat)
    }
}

pub proof fn lemma_doubled_monotone(value: int, m: nat, n: nat)
    requires
        value >= 0,
        m <= n,
    ensures
        doubled(value, m) <= doubled(value, n),
        doubled(value, n) >= 0,
    decreases n,
{
    if n > 0 {
        if m < n {
            lemma_doubled_monotone(value, m, (n - 1) as nat);
        } else {
            lemma_doubled_monotone(value, 0, (n - 1) as nat);
        }
    }
}

pub open spec fn too_fine(config: RotatingContactSearchConfig3d) -> RotatingContactSearchError3d {
    RotatingContactSearchError3d::ResolutionTooFine {
        sample_count: config.sample_count,
        refinement_steps: config.refinement_steps,
    }
}

/// The resolution check: at least one coarse sample, and a finest grid
/// `sample_count * 2^refinement_steps` within `u32`.
pub open spec fn resolution_error(config: RotatingContactSearchConfig3d) -> Option<
    RotatingContactSearchError3d,
> {
    if config.sample_count == 0 {
        Some(RotatingContactSearchError3d::ZeroSampleCount)
    } else if doubled(config.sample_count as int, config.refinement_steps as nat) > u32::MAX {
        Some(too_fine(config))
    } else {
        None
    }
}

pub(crate) fn validate_resolution(config: RotatingContactSearchConfig3d) -> (result: Result<
    (),
    RotatingContactSearchError3d,
>)
    ensures
        match result {
            Ok(()) => resolution_error(config) is None,
            Err(error) => resolution_error(config) == Some(error),
        },
{
    if config.sample_count == 0 {
        return Err(RotatingContactSearchError3d::ZeroSampleCount);
    }
    let mut value: u64 = config.sample_count as u64;
    let mut step: u8 = 0;
    while step < config.refinement_steps
        invariant
            step <= config.refinement_steps,
            config.sample_count >= 1,
            value == doubled(config.sample_count as int, step as nat),
            value <= u32::MAX,
        decreases config.refinement_steps - step,
    {
        value = value * 2;
        step = step + 1;
        if value > u32::MAX as u64 {
            proof {
                lemma_doubled_monotone(
                    config.sample_count as int,
                    step as nat,
                    config.refinement_steps as nat,
                );
            }
            return Err(
                RotatingContactSearchError3d::ResolutionTooFine {
                    sample_count: config.sample_count,
                    refinement_steps: config.refinement_steps,
                },
            );
        }
    }
    Ok(())
}

/// The shape of `rigid_box` sampled at `numerator / denominator` of the interval.
#[verifier::opaque]
pub open spec fn sampled_shape(
    rigid_box: RigidBox3d,
    config: RigidBoxFreeFlightConfig3d,
    numerator: u32,
    denominator: u32,
) -> Result<OrientedBox3d, RotatingContactSearchError3d> {
    match sampled_box(rigid_box, config, numerator, denominator) {
        Ok(sampled) => Ok(sampled.spec_oriented_box()),
        Err(error) => Err(RotatingContactSearchError3d::FreeFlight(error)),
    }
}

/// The exact contact of two shapes, failures mapped to search errors.
#[verifier::opaque]
pub open spec fn shape_contact(left: OrientedBox3d, right: OrientedBox3d) -> Result<
    Option<ObbContactSeed3d>,
    RotatingContactSearchError3d,
> {
    match contact_of(left, right) {
        Ok(contact) => Ok(contact),
        Err(error) => Err(RotatingContactSearchError3d::Contact(error)),
    }
}

/// The contact of both bodies sampled at `numerator / denominator` (left sampled first).
pub open spec fn sampled_contact(
    left: RigidBox3d,
    right: RigidBox3d,
    config: RigidBoxFreeFlightConfig3d,
    numerator: u32,
    denominator: u32,
) -> Result<Option<ObbContactSeed3d>, RotatingContactSearchError3d> {
    match sampled_shape(left, config, numerator, denominator) {
        Err(error) => Err(error),
        Ok(left_shape) => match sampled_shape(right, config, numerator, denominator) {
            Err(error) => Err(error),
            Ok(right_shape) => shape_contact(left_shape, right_shape),
        },
    }
}

/// The first coarse sample `k..=samples` of the grid `1 / samples` at which the pair touches,
/// with its contact, or the first failure met on the way.
pub open spec fn coarse_scan(
    left: RigidBox3d,
    right: RigidBox3d,
    config: RigidBoxFreeFlightConfig3d,
    samples: u32,
    k: nat,
) -> Result<Option<(nat, ObbContactSeed3d)>, RotatingContactSearchError3d>
    decreases samples + 1 - k,
{
    if k > samples || k == 0 {
        Ok(None)
    } else {
        match sampled_contact(left, right, config, k as u32, samples) {
            Err(error) => Err(error),
            Ok(Some(contact)) => Ok(Some((k, contact))),
            Ok(None) => coarse_scan(left, right, config, samples, k + 1),
        }
    }
}

/// Bisects the bracket `(lower / den, upper / den]` `steps` more times, keeping the contact side;
/// the result is the final upper numerator, denominator and contact. A term leaving `u32` fails
/// as a too-fine resolution.
pub open spec fn refine(
    left: RigidBox3d,
    right: RigidBox3d,
    config: RotatingContactSearchConfig3d,
    lower: int,
    upper: int,
    den: int,
    contact: ObbContactSeed3d,
    steps: nat,
) -> Result<(int, int, ObbContactSeed3d), RotatingContactSearchError3d>
    decreases steps,
{
    if steps == 0 {
        Ok((upper, den, contact))
    } else if lower + upper > u32::MAX || den * 2 > u32::MAX || lower * 2 > u32::MAX || upper * 2
        > u32::MAX {
        Err(too_fine(config))
    } else {
        let middle = lower + upper;
        match sampled_contact(left, right, config.free_flight, middle as u32, (den * 2) as u32) {
            Err(error) => Err(error),
            Ok(Some(found)) => refine(
                left,
                right,
                config,
                lower * 2,
                middle,
                den * 2,
                found,
                (steps - 1) as nat,
            ),
            Ok(None) => refine(
                left,
                right,
                config,
                middle,
                upper * 2,
                den * 2,
                contact,
                (steps - 1) as nat,
            ),
        }
    }
}

/// The sampled search of one pair: contact at the start is time zero; otherwise the first coarse
/// contact, refined.
pub open spec fn pair_search(
    left: RigidBox3d,
    right: RigidBox3d,
    pair: RotationalSweepPair3d,
    config: RotatingContactSearchConfig3d,
) -> Result<Option<RotatingContactSearchHit3d>, RotatingContactSearchError3d> {
    match shape_contact(left.spec_oriented_box(), right.spec_oriented_box()) {
        Err(error) => Err(error),
        Ok(Some(contact)) => Ok(
            Some(
                RotatingContactSearchHit3d {
                    time: SampledContactTime3d::spec_zero(),
                    pair,
                    contact,
                },
            ),
        ),
        Ok(None) => match coarse_scan(
            left,
            right,
            config.free_flight,
            config.sample_count as u32,
            1,
        ) {
            Err(error) => Err(error),
            Ok(None) => Ok(None),
            Ok(Some((k, contact))) => match refine(
                left,
                right,
                config,
                k - 1,
                k as int,
                config.sample_count as int,
                contact,
                config.refinement_steps as nat,
            ) {
                Err(error) => Err(error),
                Ok((upper, den, found)) => Ok(
                    Some(
                        RotatingContactSearchHit3d {
                            time: canonical_time(upper, den),
                            pair,
                            contact: found,
                        },
                    ),
                ),
            },
        },
    }
}

/// `a` comes strictly before `b`: an earlier time, or the same time and a smaller pair.
pub open spec fn hit_before(a: RotatingContactSearchHit3d, b: RotatingContactSearchHit3d) -> bool {
    let left = a.time.numerator * b.time.denominator;
    let right = b.time.numerator * a.time.denominator;
    left < right || (left == right && pair_less(a.pair, b.pair))
}

/// The sampled search of one candidate pair, its bodies looked up by id.
pub open spec fn candidate_search(
    boxes: Seq<RigidBox3d>,
    pair: RotationalSweepPair3d,
    config: RotatingContactSearchConfig3d,
) -> Result<Option<RotatingContactSearchHit3d>, RotatingContactSearchError3d> {
    if !holds_id(boxes, pair.left) {
        Err(RotatingContactSearchError3d::MissingCandidateBody(pair.left))
    } else if !holds_id(boxes, pair.right) {
        Err(RotatingContactSearchError3d::MissingCandidateBody(pair.right))
    } else {
        pair_search(box_with_id(boxes, pair.left), box_with_id(boxes, pair.right), pair, config)
    }
}

/// `best`, replaced by `found` when that comes strictly earlier.
pub open spec fn keep_earlier(
    best: Option<RotatingContactSearchHit3d>,
    found: Option<RotatingContactSearchHit3d>,
) -> Option<RotatingContactSearchHit3d> {
    match found {
        None => best,
        Some(hit) => match best {
            Some(current) => if hit_before(hit, current) {
                found
            } else {
                best
            },
            None => found,
        },
    }
}

/// The earliest hit over the first `n` pairs (the first such pair on ties), or the first failure.
pub open spec fn search_over(
    boxes: Seq<RigidBox3d>,
    pairs: Seq<RotationalSweepPair3d>,
    config: RotatingContactSearchConfig3d,
    n: nat,
) -> Result<Option<RotatingContactSearchHit3d>, RotatingContactSearchError3d>
    decreases n,
{
    if n == 0 {
        Ok(None)
    } else {
        match search_over(boxes, pairs, config, (n - 1) as nat) {
            Err(error) => Err(error),
            Ok(best) => match candidate_search(boxes, pairs[n - 1], config) {
                Err(error) => Err(error),
                Ok(found) => Ok(keep_earlier(best, found)),
            },
        }
    }
}

/// The broad phase's candidate pairs: strictly ascending, exactly the candidate pairs.
pub open spec fn candidate_sequence(
    boxes: Seq<RigidBox3d>,
    config: RigidBoxFreeFlightConfig3d,
) -> Seq<RotationalSweepPair3d> {
    choose|pairs: Seq<RotationalSweepPair3d>|
        strictly_sorted(pairs) && forall|pair: RotationalSweepPair3d|
            pairs.contains(pair) <==> is_candidate_pair(boxes, config, pair)
}

/// The earliest sampled contact among all broad-phase candidate pairs, or the failure.
pub open spec fn search_result(boxes: Seq<RigidBox3d>, config: RotatingContactSearchConfig3d) -> Result<
    Option<RotatingContactSearchHit3d>,
    RotatingContactSearchError3d,
> {
    match resolution_error(config) {
        Some(error) => Err(error),
        None => match broad_phase_error(boxes, config.free_flight, boxes.len()) {
            Some(error) => Err(RotatingContactSearchError3d::BroadPhase(error)),
            None => {
                let pairs = candidate_sequence(boxes, config.free_flight);
                search_over(boxes, pairs, config, pairs.len())
            },
        },
    }
}

/// Coarse samples of one search, kept per body index under a fixed denominator.
pub struct CoarseSampleCache3d {
    samples_by_body: Vec<Vec<OrientedBox3d>>,
    latest_geometry: Vec<Option<OrientedBox3d>>,
    preparations: usize,
    cached_entries: usize,
    denominator: u32,
    sources: Ghost<Map<int, (RigidBox3d, RigidBoxFreeFlightConfig3d)>>,
}

impl CoarseSampleCache3d {
    pub closed spec fn body_count(self) -> nat {
        self.samples_by_body@.len()
    }

    pub closed spec fn spec_denominator(self) -> u32 {
        self.denominator
    }

    /// The body and free-flight configuration each sampled body index stands for.
    pub closed spec fn sources(self) -> Map<int, (RigidBox3d, RigidBoxFreeFlightConfig3d)> {
        self.sources@
    }

    pub closed spec fn spec_len(self) -> nat {
        self.cached_entries as nat
    }

    /// The latest geometry prepared for each body index.
    pub closed spec fn spec_latest(self) -> Seq<Option<OrientedBox3d>> {
        self.latest_geometry@
    }

    /// The number of geometry preparations so far.
    pub closed spec fn spec_preparations(self) -> nat {
        self.preparations as nat
    }

    /// The number of samples kept for body `i`: those of its grid points `1..=kept_count(i)`.
    pub closed spec fn kept_count(self, i: int) -> nat {
        self.samples_by_body@[i]@.len()
    }

    /// A fresh sample of body `i` at grid point `numerator` is kept: the cache has room and the
    /// samples of the body stay contiguous.
    pub open spec fn keeps_fresh(self, i: int, numerator: u32) -> bool {
        self.spec_len() < MAX_CACHED_COARSE_SAMPLES && numerator - 1 == self.kept_count(i)
    }

    /// What sampling body `i` at grid point `numerator` with result `result` does to the cache:
    /// a kept sample is served without change; a failed sample changes nothing; a fresh sample is
    /// prepared (when `prepare` holds, as [`Self::prepare_geometry`] does) and kept per
    /// [`Self::keeps_fresh`].
    pub open spec fn sampled_update(
        before: Self,
        after: Self,
        i: int,
        source: (RigidBox3d, RigidBoxFreeFlightConfig3d),
        numerator: u32,
        prepare: bool,
        result: Result<OrientedBox3d, RotatingContactSearchError3d>,
    ) -> bool {
        if numerator - 1 < before.kept_count(i) || result is Err {
            after == before
        } else {
            let keeps = before.keeps_fresh(i, numerator);
            let shape = result->Ok_0;
            &&& after.spec_len() == if keeps {
                before.spec_len() + 1
            } else {
                before.spec_len()
            }
            &&& after.kept_count(i) == if keeps {
                before.kept_count(i) + 1
            } else {
                before.kept_count(i)
            }
            &&& forall|j: int|
                0 <= j < before.body_count() && j != i ==> #[trigger] after.kept_count(j)
                    == before.kept_count(j)
            &&& after.sources() == if keeps {
                before.sources().insert(i, source)
            } else {
                before.sources()
            }
            &&& !prepare ==> after.spec_latest() == before.spec_latest()
                && after.spec_preparations() == before.spec_preparations()
            &&& prepare && before.spec_latest()[i] == Some(shape) ==> after.spec_latest()
                == before.spec_latest() && after.spec_preparations() == before.spec_preparations()
            &&& prepare && before.spec_latest()[i] != Some(shape) ==> after.spec_latest()
                == before.spec_latest().update(i, Some(shape)) && after.spec_preparations() == if before.spec_preparations() < usize::MAX {
                before.spec_preparations() + 1
            } else {
                before.spec_preparations()
            }
        }
    }

    /// The kept sample `j` of body `i` is that body's sample at grid point `j + 1`.
    pub closed spec fn sample_kept(self, i: int, j: int) -> bool {
        &&& self.sources@.contains_key(i)
        &&& j + 1 <= self.denominator
        &&& sampled_shape(self.sources@[i].0, self.sources@[i].1, (j + 1) as u32, self.denominator)
            == Ok::<OrientedBox3d, RotatingContactSearchError3d>(self.samples_by_body@[i]@[j])
    }

    /// Every kept sample is the sample of its body at its grid point, and the cache is bounded.
    pub closed spec fn well_formed(self) -> bool {
        &&& self.cached_entries <= MAX_CACHED_COARSE_SAMPLES
        &&& self.latest_geometry@.len() == self.samples_by_body@.len()
        &&& forall|i: int, j: int|
            0 <= i < self.samples_by_body@.len() && 0 <= j < self.samples_by_body@[i]@.len()
                ==> #[trigger] self.sample_kept(i, j)
    }

    /// The cache was filled only from `boxes` under `config`.
    pub open spec fn serves(self, boxes: Seq<RigidBox3d>, config: RigidBoxFreeFlightConfig3d) -> bool {
        forall|k: int|
            #![trigger self.sources().contains_key(k)]
            self.sources().contains_key(k) ==> 0 <= k < boxes.len() && self.sources()[k] == (
            boxes[k],
            config,
            )
    }

    pub fn new(body_count: usize, denominator: u32) -> (cache: CoarseSampleCache3d)
        ensures
            cache.well_formed(),
            cache.body_count() == body_count,
            cache.spec_denominator() == denominator,
            cache.sources() == Map::<int, (RigidBox3d, RigidBoxFreeFlightConfig3d)>::empty(),
            cache.spec_len() == 0,
            cache.spec_preparations() == 0,
            cache.spec_latest() == Seq::new(body_count as nat, |i: int| None::<OrientedBox3d>),
    {
        let mut samples_by_body: Vec<Vec<OrientedBox3d>> = Vec::new();
        let mut latest_geometry: Vec<Option<OrientedBox3d>> = Vec::new();
        let mut index: usize = 0;
        while index < body_count
            invariant
                index <= body_count,
                samples_by_body@.len() == index,
                latest_geometry@.len() == index,
                forall|i: int| 0 <= i < index ==> (#[trigger] samples_by_body@[i])@.len() == 0,
                forall|i: int| 0 <= i < index ==> (#[trigger] latest_geometry@[i]) is None,
            decreases body_count - index,
        {
            samples_by_body.push(Vec::new());
            latest_geometry.push(None);
            index = index + 1;
        }
        assert(latest_geometry@ =~= Seq::new(body_count as nat, |i: int| None::<OrientedBox3d>));
        CoarseSampleCache3d {
            samples_by_body,
            latest_geometry,
            preparations: 0,
            cached_entries: 0,
            denominator,
            sources: Ghost(Map::empty()),
        }
    }

    /// The kept sample, or a fresh one (passed through [`Self::prepare_geometry`] when `prepare`
    /// holds) that is kept while the cache has room and the samples of the body stay contiguous.
    fn sample_with(
        &mut self,
        body_index: usize,
        rigid_box: &RigidBox3d,
        config: RigidBoxFreeFlightConfig3d,
        numerator: u32,
        prepare: bool,
    ) -> (result: Result<OrientedBox3d, RotatingContactSearchError3d>)
        requires
            old(self).well_formed(),
            body_index < old(self).body_count(),
            1 <= numerator <= old(self).spec_denominator(),
            old(self).sources().contains_key(body_index as int) ==> old(self).sources()[body_index
                as int] == (*rigid_box, config),
        ensures
            final(self).well_formed(),
            final(self).body_count() == old(self).body_count(),
            final(self).spec_denominator() == old(self).spec_denominator(),
            final(self).sources() == old(self).sources() || final(self).sources() == old(self).sources().insert(body_index as int, (*rigid_box, config)),
            final(self).spec_len() == old(self).spec_len() || final(self).spec_len() == old(self).spec_len() + 1,
            result == sampled_shape(*rigid_box, config, numerator, old(self).spec_denominator()),
            Self::sampled_update(
                *old(self),
                *final(self),
                body_index as int,
                (*rigid_box, config),
                numerator,
                prepare,
                result,
            ),
    {
        let sample_index = (numerator - 1) as usize;
        if sample_index < self.samples_by_body[body_index].len() {
            let sampled = self.samples_by_body[body_index][sample_index];
            proof {
                assert(self.samples_by_body@[body_index as int]@[sample_index as int] == sampled);
                assert(self.sample_kept(body_index as int, sample_index as int));
            }
            return Ok(sampled);
        }
        let sampled = match sample_rigid_box_free_flight(
            rigid_box,
            config,
            numerator,
            self.denominator,
        ) {
            Ok(sampled) => sampled.oriented_box(),
            Err(error) => {
                proof {
                    reveal(sampled_shape);
                }
                return Err(RotatingContactSearchError3d::FreeFlight(error));
            },
        };
        assert(sampled_shape(*rigid_box, config, numerator, self.denominator) == Ok::<
            OrientedBox3d,
            RotatingContactSearchError3d,
        >(sampled)) by {
            reveal(sampled_shape);
        }
        let sampled = if prepare {
            self.prepare_geometry(body_index, sampled)
        } else {
            sampled
        };
        let ghost before = *self;
        if self.cached_entries < MAX_CACHED_COARSE_SAMPLES && sample_index
            == self.samples_by_body[body_index].len() {
            let ghost previous = self.samples_by_body@;
            let mut samples = Vec::new();
            std::mem::swap(&mut samples, &mut self.samples_by_body[body_index]);
            samples.push(sampled);
            self.samples_by_body.set(body_index, samples);
            self.cached_entries = self.cached_entries + 1;
            self.sources = Ghost(self.sources@.insert(body_index as int, (*rigid_box, config)));
            proof {
                assert forall|i: int, j: int|
                    0 <= i < self.samples_by_body@.len() && 0 <= j
                        < self.samples_by_body@[i]@.len() implies #[trigger] self.sample_kept(i, j) by {
                    if i != body_index {
                        assert(self.samples_by_body@[i] == previous[i]);
                        assert(before.sample_kept(i, j));
                    } else if j < previous[i]@.len() {
                        assert(self.samples_by_body@[i]@[j] == previous[i]@[j]);
                        assert(before.sample_kept(i, j));
                    } else {
                        assert(j == sample_index);
                        assert(self.samples_by_body@[i]@[j] == sampled);
                    }
                }
                assert(self.well_formed());
                assert forall|j: int|
                    0 <= j < before.body_count() && j != body_index implies #[trigger] self.kept_count(j)
                    == before.kept_count(j) by {
                    assert(self.samples_by_body@[j] == previous[j]);
                }
            }
        }
        proof {
            assert(before.spec_len() == old(self).spec_len());
            assert(before.kept_count(body_index as int) == old(self).kept_count(body_index as int));
        }
        Ok(sampled)
    }

    /// The body at `body_index` sampled at `numerator / denominator`, kept for reuse while the
    /// cache has room and the samples of that body stay contiguous from the first grid point.
    pub fn sample_oriented_box(
        &mut self,
        body_index: usize,
        rigid_box: &RigidBox3d,
        config: RigidBoxFreeFlightConfig3d,
        numerator: u32,
    ) -> (result: Result<OrientedBox3d, RotatingContactSearchError3d>)
        requires
            old(self).well_formed(),
            body_index < old(self).body_count(),
            1 <= numerator <= old(self).spec_denominator(),
            old(self).sources().contains_key(body_index as int) ==> old(self).sources()[body_index
                as int] == (*rigid_box, config),
        ensures
            final(self).well_formed(),
            final(self).body_count() == old(self).body_count(),
            final(self).spec_denominator() == old(self).spec_denominator(),
            final(self).sources() == old(self).sources() || final(self).sources() == old(self).sources().insert(body_index as int, (*rigid_box, config)),
            final(self).spec_len() == old(self).spec_len() || final(self).spec_len() == old(self).spec_len() + 1,
            result == sampled_shape(*rigid_box, config, numerator, old(self).spec_denominator()),
            Self::sampled_update(
                *old(self),
                *final(self),
                body_index as int,
                (*rigid_box, config),
                numerator,
                false,
                result,
            ),
    {
        self.sample_with(body_index, rigid_box, config, numerator, false)
    }

    /// Number of kept samples.
    pub fn len(&self) -> (count: usize)
        ensures
            count == self.spec_len(),
    {
        self.cached_entries
    }

    /// Records `shape` as the latest geometry prepared for the body at `body_index`, counting a
    /// preparation only when it differs from the previous one.
    pub fn prepare_geometry(&mut self, body_index: usize, shape: OrientedBox3d) -> (prepared:
        OrientedBox3d)
        requires
            old(self).well_formed(),
            body_index < old(self).body_count(),
        ensures
            final(self).well_formed(),
            final(self).body_count() == old(self).body_count(),
            final(self).spec_denominator() == old(self).spec_denominator(),
            final(self).sources() == old(self).sources(),
            final(self).spec_len() == old(self).spec_len(),
            forall|j: int| #[trigger] final(self).kept_count(j) == old(self).kept_count(j),
            prepared == shape,
            old(self).spec_latest()[body_index as int] == Some(shape) ==> final(self).spec_latest()
                == old(self).spec_latest() && final(self).spec_preparations() == old(self).spec_preparations(),
            old(self).spec_latest()[body_index as int] != Some(shape) ==> final(self).spec_latest()
                == old(self).spec_latest().update(body_index as int, Some(shape)) && final(self).spec_preparations() == if old(self).spec_preparations() < usize::MAX {
                old(self).spec_preparations() + 1
            } else {
                old(self).spec_preparations()
            },
    {
        if let Some(previous) = self.latest_geometry[body_index] {
            if previous == shape {
                return previous;
            }
        }
        self.latest_geometry.set(body_index, Some(shape));
        self.preparations = self.preparations.saturating_add(1);
        proof {
            assert forall|i: int, j: int|
                0 <= i < self.samples_by_body@.len() && 0 <= j < self.samples_by_body@[i]@.len()
                    implies #[trigger] self.sample_kept(i, j) by {
                assert(old(self).sample_kept(i, j));
            }
        }
        shape
    }

    /// [`Self::sample_oriented_box`] under a search configuration, its result passed through
    /// [`Self::prepare_geometry`].
    pub fn sample_geometry(
        &mut self,
        body_index: usize,
        rigid_box: &RigidBox3d,
        config: RotatingContactSearchConfig3d,
        numerator: u32,
    ) -> (result: Result<OrientedBox3d, RotatingContactSearchError3d>)
        requires
            old(self).well_formed(),
            body_index < old(self).body_count(),
            1 <= numerator <= old(self).spec_denominator(),
            old(self).sources().contains_key(body_index as int) ==> old(self).sources()[body_index
                as int] == (*rigid_box, config.free_flight),
        ensures
            final(self).well_formed(),
            final(self).body_count() == old(self).body_count(),
            final(self).spec_denominator() == old(self).spec_denominator(),
            final(self).sources() == old(self).sources() || final(self).sources() == old(self).sources().insert(body_index as int, (*rigid_box, config.free_flight)),
            final(self).spec_len() == old(self).spec_len() || final(self).spec_len() == old(self).spec_len() + 1,
            result == sampled_shape(
                *rigid_box,
                config.free_flight,
                numerator,
                old(self).spec_denominator(),
            ),
            Self::sampled_update(
                *old(self),
                *final(self),
                body_index as int,
                (*rigid_box, config.free_flight),
                numerator,
                true,
                result,
            ),
    {
        self.sample_with(body_index, rigid_box, config.free_flight, numerator, true)
    }

    /// The latest geometry prepared for the body at `body_index`.
    pub fn latest_geometry(&self, body_index: usize) -> (latest: Option<OrientedBox3d>)
        requires
            body_index < self.body_count(),
            self.well_formed(),
        ensures
            latest == self.spec_latest()[body_index as int],
    {
        self.latest_geometry[body_index]
    }

    /// Number of geometry preparations so far.
    pub fn preparations(&self) -> (count: usize)
        ensures
            count == self.spec_preparations(),
    {
        self.preparations
    }
}

/// A kept pair result for exactly these shapes.
pub open spec fn reuses(
    kept: Option<(OrientedBox3d, OrientedBox3d, Option<ObbContactSeed3d>)>,
    left: OrientedBox3d,
    right: OrientedBox3d,
) -> bool {
    match kept {
        Some((kept_left, kept_right, _)) => kept_left == left && kept_right == right,
        None => false,
    }
}

/// One exact pair-contact result, reused while both shapes stay the same.
pub struct PairContactCache3d {
    previous: Option<(OrientedBox3d, OrientedBox3d, Option<ObbContactSeed3d>)>,
}

impl PairContactCache3d {
    /// The kept result is the exact contact of its shapes.
    pub closed spec fn well_formed(self) -> bool {
        match self.previous {
            Some((left, right, contact)) => shape_contact(left, right) == Ok::<
                Option<ObbContactSeed3d>,
                RotatingContactSearchError3d,
            >(contact),
            None => true,
        }
    }

    pub fn new() -> (cache: PairContactCache3d)
        ensures
            cache.well_formed(),
            cache.kept() is None,
    {
        PairContactCache3d { previous: None }
    }

    /// The shapes of the last evaluated pair and their contact.
    pub closed spec fn kept(self) -> Option<(OrientedBox3d, OrientedBox3d, Option<ObbContactSeed3d>)> {
        self.previous
    }

    /// [`Self::contact`], also telling whether the contact was evaluated afresh rather than
    /// reused.
    pub fn contact_counted(&mut self, left: &OrientedBox3d, right: &OrientedBox3d) -> (result: (
        Result<Option<ObbContactSeed3d>, RotatingContactSearchError3d>,
        bool,
    ))
        requires
            old(self).well_formed(),
        ensures
            final(self).well_formed(),
            result.0 == shape_contact(*left, *right),
            result.1 == !reuses(old(self).kept(), *left, *right),
            result.0 is Ok ==> final(self).kept() == Some((*left, *right, result.0->Ok_0)),
            result.0 is Err ==> final(self).kept() == old(self).kept(),
    {
        if let Some((kept_left, kept_right, contact)) = self.previous {
            if kept_left == *left && kept_right == *right {
                return (Ok(contact), false);
            }
        }
        proof {
            reveal(shape_contact);
        }
        match contact_seed(*left, *right) {
            Ok(contact) => {
                self.previous = Some((*left, *right, contact));
                (Ok(contact), true)
            },
            Err(error) => (Err(RotatingContactSearchError3d::Contact(error)), true),
        }
    }

    /// The exact contact of `left` and `right`, reusing the kept result for the same shapes.
    pub fn contact(&mut self, left: &OrientedBox3d, right: &OrientedBox3d) -> (result: Result<
        Option<ObbContactSeed3d>,
        RotatingContactSearchError3d,
    >)
        requires
            old(self).well_formed(),
        ensures
            final(self).well_formed(),
            result == shape_contact(*left, *right),
            result is Ok ==> final(self).kept() == Some((*left, *right, result->Ok_0)),
            result is Err ==> final(self).kept() == old(self).kept(),
    {
        if let Some((kept_left, kept_right, contact)) = self.previous {
            if kept_left == *left && kept_right == *right {
                return Ok(contact);
            }
        }
        proof {
            reveal(shape_contact);
        }
        match contact_seed(*left, *right) {
            Ok(contact) => {
                self.previous = Some((*left, *right, contact));
                Ok(contact)
            },
            Err(error) => Err(RotatingContactSearchError3d::Contact(error)),
        }
    }
}

/// No two bodies share an id.
pub open spec fn distinct_ids(boxes: Seq<RigidBox3d>) -> bool {
    forall|i: int, j: int|
        0 <= i < j < boxes.len() ==> #[trigger] boxes[i].body.id != #[trigger] boxes[j].body.id
}

/// With distinct ids, the body at `index` is the one [`box_with_id`] names.
pub proof fn lemma_box_with_distinct_id(boxes: Seq<RigidBox3d>, index: int)
    requires
        distinct_ids(boxes),
        0 <= index < boxes.len(),
    ensures
        holds_id(boxes, boxes[index].body.id),
        box_with_id(boxes, boxes[index].body.id) == boxes[index],
{
    let id = boxes[index].body.id;
    assert(boxes[index].body.id == id);
    let k = choose|i: int| 0 <= i < boxes.len() && (#[trigger] boxes[i]).body.id == id;
    if k < index {
        assert(boxes[k].body.id != boxes[index].body.id);
    } else if k > index {
        assert(boxes[index].body.id != boxes[k].body.id);
    }
}

/// The index of the body with id `id`, if any.
pub(crate) fn index_of_body(boxes: &[RigidBox3d], id: BodyId) -> (index: Option<usize>)
    ensures
        match index {
            Some(i) => i < boxes@.len() && boxes@[i as int].body.id == id,
            None => !holds_id(boxes@, id),
        },
{
    let mut index: usize = 0;
    while index < boxes.len()
        invariant
            index <= boxes@.len(),
            forall|k: int| 0 <= k < index ==> (#[trigger] boxes@[k]).body.id != id,
        decreases boxes.len() - index,
    {
        if boxes[index].body.id == id {
            return Some(index);
        }
        index = index + 1;
    }
    None
}

/// Once the scan over a prefix of pairs fails, it keeps that failure.
pub(crate) proof fn lemma_search_error_stable(
    boxes: Seq<RigidBox3d>,
    pairs: Seq<RotationalSweepPair3d>,
    config: RotatingContactSearchConfig3d,
    m: nat,
    n: nat,
)
    requires
        m <= n,
        search_over(boxes, pairs, config, m) is Err,
    ensures
        search_over(boxes, pairs, config, n) == search_over(boxes, pairs, config, m),
    decreases n - m,
{
    if m < n {
        lemma_search_error_stable(boxes, pairs, config, m, (n - 1) as nat);
    }
}

/// Once the coarse scan of a pair reaches its end or a result at `k`, earlier grid points that
/// were clear leave it unchanged.
pub(crate) fn hit_before_exec(a: &RotatingContactSearchHit3d, b: &RotatingContactSearchHit3d) -> (before: bool)
    ensures
        before == hit_before(*a, *b),
{
    proof {
        assert(a.time.numerator * b.time.denominator <= 0xffff_ffff * 0xffff_ffffint)
            by (nonlinear_arith)
            requires
                a.time.numerator <= 0xffff_ffff,
                b.time.denominator <= 0xffff_ffff,
        ;
        assert(b.time.numerator * a.time.denominator <= 0xffff_ffff * 0xffff_ffffint)
            by (nonlinear_arith)
            requires
                b.time.numerator <= 0xffff_ffff,
                a.time.denominator <= 0xffff_ffff,
        ;
    }
    let left = a.time.numerator as u64 * b.time.denominator as u64;
    let right = b.time.numerator as u64 * a.time.denominator as u64;
    left < right || (left == right && (a.pair.left.0 < b.pair.left.0 || (a.pair.left.0
        == b.pair.left.0 && a.pair.right.0 < b.pair.right.0)))
}

/// The hit of a finished refinement.
pub open spec fn refined_hit(
    pair: RotationalSweepPair3d,
    refined: Result<(int, int, ObbContactSeed3d), RotatingContactSearchError3d>,
) -> Result<RotatingContactSearchHit3d, RotatingContactSearchError3d> {
    match refined {
        Err(error) => Err(error),
        Ok((upper, den, found)) => Ok(
            RotatingContactSearchHit3d { time: canonical_time(upper, den), pair, contact: found },
        ),
    }
}

/// Both bodies sampled directly at `numerator / denominator`, then their exact contact.
pub(crate) fn pair_contact(
    left: &RigidBox3d,
    right: &RigidBox3d,
    config: RigidBoxFreeFlightConfig3d,
    numerator: u32,
    denominator: u32,
) -> (result: Result<Option<ObbContactSeed3d>, RotatingContactSearchError3d>)
    ensures
        result == sampled_contact(*left, *right, config, numerator, denominator),
{
    proof {
        reveal(sampled_shape);
        reveal(shape_contact);
    }
    let left_sample = match sample_rigid_box_free_flight(left, config, numerator, denominator) {
        Ok(sampled) => sampled,
        Err(error) => return Err(RotatingContactSearchError3d::FreeFlight(error)),
    };
    let right_sample = match sample_rigid_box_free_flight(right, config, numerator, denominator) {
        Ok(sampled) => sampled,
        Err(error) => return Err(RotatingContactSearchError3d::FreeFlight(error)),
    };
    match contact_seed(left_sample.oriented_box(), right_sample.oriented_box()) {
        Ok(contact) => Ok(contact),
        Err(error) => Err(RotatingContactSearchError3d::Contact(error)),
    }
}

/// Refines the bracket `(lower / denominator, upper / denominator]` by bisection.
pub(crate) fn refine_contact_bracket(
    left: &RigidBox3d,
    right: &RigidBox3d,
    pair: RotationalSweepPair3d,
    config: RotatingContactSearchConfig3d,
    lower: u32,
    upper: u32,
    denominator: u32,
    contact: ObbContactSeed3d,
) -> (result: Result<RotatingContactSearchHit3d, RotatingContactSearchError3d>)
    requires
        denominator >= 1,
    ensures
        result == refined_hit(
            pair,
            refine(
                *left,
                *right,
                config,
                lower as int,
                upper as int,
                denominator as int,
                contact,
                config.refinement_steps as nat,
            ),
        ),
{
    let ghost target = refine(
        *left,
        *right,
        config,
        lower as int,
        upper as int,
        denominator as int,
        contact,
        config.refinement_steps as nat,
    );
    let mut low = lower;
    let mut high = upper;
    let mut den = denominator;
    let mut kept = contact;
    let mut step: u8 = 0;
    while step < config.refinement_steps
        invariant
            step <= config.refinement_steps,
            den >= 1,
            target == refine(
                *left,
                *right,
                config,
                lower as int,
                upper as int,
                denominator as int,
                contact,
                config.refinement_steps as nat,
            ),
            target == refine(
                *left,
                *right,
                config,
                low as int,
                high as int,
                den as int,
                kept,
                (config.refinement_steps - step) as nat,
            ),
        decreases config.refinement_steps - step,
    {
        let ghost remaining = (config.refinement_steps - step) as nat;
        if low as u64 + high as u64 > u32::MAX as u64 || den > u32::MAX / 2 || low > u32::MAX / 2
            || high > u32::MAX / 2 {
            assert(target == Err::<(int, int, ObbContactSeed3d), RotatingContactSearchError3d>(
                too_fine(config),
            ));
            return Err(
                RotatingContactSearchError3d::ResolutionTooFine {
                    sample_count: config.sample_count,
                    refinement_steps: config.refinement_steps,
                },
            );
        }
        let middle = low + high;
        let doubled = den * 2;
        let sampled = pair_contact(left, right, config.free_flight, middle, doubled);
        match sampled {
            Err(error) => {
                assert(target == Err::<(int, int, ObbContactSeed3d), RotatingContactSearchError3d>(
                    error,
                ));
                return Err(error);
            },
            Ok(Some(found)) => {
                low = low * 2;
                high = middle;
                kept = found;
            },
            Ok(None) => {
                low = middle;
                high = high * 2;
            },
        }
        den = doubled;
        step = step + 1;
    }
    Ok(RotatingContactSearchHit3d { time: canonical(high, den), pair, contact: kept })
}

/// Both bodies sampled at coarse grid point `numerator` through the cache, then their exact
/// contact.
pub(crate) fn cached_pair_contact(
    boxes: &[RigidBox3d],
    left_index: usize,
    right_index: usize,
    config: RigidBoxFreeFlightConfig3d,
    numerator: u32,
    cache: &mut CoarseSampleCache3d,
) -> (result: Result<Option<ObbContactSeed3d>, RotatingContactSearchError3d>)
    requires
        left_index < boxes@.len(),
        right_index < boxes@.len(),
        old(cache).well_formed(),
        old(cache).serves(boxes@, config),
        old(cache).body_count() == boxes@.len(),
        1 <= numerator <= old(cache).spec_denominator(),
    ensures
        final(cache).well_formed(),
        final(cache).serves(boxes@, config),
        final(cache).body_count() == boxes@.len(),
        final(cache).spec_denominator() == old(cache).spec_denominator(),
        result == sampled_contact(
            boxes@[left_index as int],
            boxes@[right_index as int],
            config,
            numerator,
            old(cache).spec_denominator(),
        ),
{
    proof {
        assert(old(cache).sources().contains_key(left_index as int) ==> old(cache).sources()[left_index as int]
            == (boxes@[left_index as int], config));
    }
    let left_shape = match cache.sample_oriented_box(left_index, &boxes[left_index], config, numerator) {
        Ok(shape) => shape,
        Err(error) => return Err(error),
    };
    proof {
        assert forall|k: int| #![trigger cache.sources().contains_key(k)]
            cache.sources().contains_key(k) implies 0 <= k < boxes@.len() && cache.sources()[k] == (
            boxes@[k],
            config,
        ) by {
            if k != left_index {
                assert(old(cache).sources().contains_key(k));
            }
        }
        assert(cache.sources().contains_key(right_index as int) ==> cache.sources()[right_index as int]
            == (boxes@[right_index as int], config));
    }
    let right_shape = match cache.sample_oriented_box(
        right_index,
        &boxes[right_index],
        config,
        numerator,
    ) {
        Ok(shape) => shape,
        Err(error) => return Err(error),
    };
    proof {
        let middle = *cache;
        assert forall|k: int| #![trigger cache.sources().contains_key(k)]
            cache.sources().contains_key(k) implies 0 <= k < boxes@.len() && cache.sources()[k] == (
            boxes@[k],
            config,
        ) by {
            if k != right_index {
                assert(k != right_index);
            }
        }
    }
    proof {
        reveal(shape_contact);
    }
    match contact_seed(left_shape, right_shape) {
        Ok(contact) => Ok(contact),
        Err(error) => Err(RotatingContactSearchError3d::Contact(error)),
    }
}

/// The sampled search of the pair of bodies at `left_index` and `right_index`.
pub(crate) fn search_pair(
    boxes: &[RigidBox3d],
    left_index: usize,
    right_index: usize,
    pair: RotationalSweepPair3d,
    config: RotatingContactSearchConfig3d,
    cache: &mut CoarseSampleCache3d,
) -> (result: Result<Option<RotatingContactSearchHit3d>, RotatingContactSearchError3d>)
    requires
        left_index < boxes@.len(),
        right_index < boxes@.len(),
        old(cache).well_formed(),
        old(cache).serves(boxes@, config.free_flight),
        old(cache).body_count() == boxes@.len(),
        old(cache).spec_denominator() == config.sample_count,
        config.sample_count >= 1,
    ensures
        final(cache).well_formed(),
        final(cache).serves(boxes@, config.free_flight),
        final(cache).body_count() == boxes@.len(),
        final(cache).spec_denominator() == config.sample_count,
        result == pair_search(boxes@[left_index as int], boxes@[right_index as int], pair, config),
{
    let left = &boxes[left_index];
    let right = &boxes[right_index];
    proof {
        reveal(shape_contact);
    }
    match contact_seed(left.oriented_box(), right.oriented_box()) {
        Err(error) => return Err(RotatingContactSearchError3d::Contact(error)),
        Ok(Some(contact)) => {
            return Ok(
                Some(
                    RotatingContactSearchHit3d {
                        time: SampledContactTime3d::zero(),
                        pair,
                        contact,
                    },
                ),
            );
        },
        Ok(None) => {},
    }
    let denominator = config.sample_count as u32;
    let ghost ff = config.free_flight;
    let ghost scan = coarse_scan(*left, *right, ff, denominator, 1);
    let mut numerator: u32 = 1;
    while numerator <= denominator
        invariant
            1 <= numerator <= denominator + 1,
            denominator == config.sample_count,
            denominator >= 1,
            left_index < boxes@.len(),
            right_index < boxes@.len(),
            *left == boxes@[left_index as int],
            *right == boxes@[right_index as int],
            cache.well_formed(),
            cache.serves(boxes@, ff),
            cache.body_count() == boxes@.len(),
            cache.spec_denominator() == denominator,
            ff == config.free_flight,
            scan == coarse_scan(*left, *right, ff, denominator, 1),
            shape_contact(left.spec_oriented_box(), right.spec_oriented_box()) == Ok::<
                Option<ObbContactSeed3d>,
                RotatingContactSearchError3d,
            >(None),
            scan == coarse_scan(*left, *right, ff, denominator, numerator as nat),
        decreases denominator + 1 - numerator,
    {
        let found = cached_pair_contact(
            boxes,
            left_index,
            right_index,
            config.free_flight,
            numerator,
            cache,
        );
        match found {
            Err(error) => return Err(error),
            Ok(Some(contact)) => {
                return match refine_contact_bracket(
                    left,
                    right,
                    pair,
                    config,
                    numerator - 1,
                    numerator,
                    denominator,
                    contact,
                ) {
                    Ok(hit) => Ok(Some(hit)),
                    Err(error) => Err(error),
                };
            },
            Ok(None) => {},
        }
        numerator = numerator + 1;
    }
    Ok(None)
}

/// The sampled search of one candidate pair, its bodies looked up by id.
fn search_candidate(
    boxes: &[RigidBox3d],
    pair: RotationalSweepPair3d,
    config: RotatingContactSearchConfig3d,
    cache: &mut CoarseSampleCache3d,
) -> (result: Result<Option<RotatingContactSearchHit3d>, RotatingContactSearchError3d>)
    requires
        distinct_ids(boxes@),
        old(cache).well_formed(),
        old(cache).serves(boxes@, config.free_flight),
        old(cache).body_count() == boxes@.len(),
        old(cache).spec_denominator() == config.sample_count,
        config.sample_count >= 1,
    ensures
        final(cache).well_formed(),
        final(cache).serves(boxes@, config.free_flight),
        final(cache).body_count() == boxes@.len(),
        final(cache).spec_denominator() == config.sample_count,
        result == candidate_search(boxes@, pair, config),
{
    let left_index = match index_of_body(boxes, pair.left) {
        Some(found) => found,
        None => return Err(RotatingContactSearchError3d::MissingCandidateBody(pair.left)),
    };
    let right_index = match index_of_body(boxes, pair.right) {
        Some(found) => found,
        None => {
            proof {
                lemma_box_with_distinct_id(boxes@, left_index as int);
            }
            return Err(RotatingContactSearchError3d::MissingCandidateBody(pair.right));
        },
    };
    proof {
        lemma_box_with_distinct_id(boxes@, left_index as int);
        lemma_box_with_distinct_id(boxes@, right_index as int);
    }
    search_pair(boxes, left_index, right_index, pair, config, cache)
}

/// Searches candidate rotating-box pairs on a fixed sample grid and refines the first observed
/// contact bracket of each.
///
/// Candidate pairs come from the conservative rotating broad phase. Every narrow-phase sample is
/// rebuilt directly from the interval start and evaluated with exact SAT; coarse samples are kept
/// per body so pairs sharing a body reuse them. For each pair, the first coarse sample in contact
/// brackets the transition against the previous one, and bisection returns the contact side of
/// that bracket. The earliest hit wins, ties going to the smaller pair.
///
/// This is a sampled approximation, not analytic rotational CCD: a contact that begins and ends
/// between adjacent coarse samples is missed.
pub fn sampled_rotating_contact_search(
    boxes: &[RigidBox3d],
    config: RotatingContactSearchConfig3d,
) -> (result: Result<Option<RotatingContactSearchHit3d>, RotatingContactSearchError3d>)
    ensures
        result == search_result(boxes@, config),
{
    match validate_resolution(config) {
        Ok(()) => {},
        Err(error) => return Err(error),
    }
    let pairs = match rotational_sweep_candidate_pairs(boxes, config.free_flight) {
        Ok(pairs) => pairs,
        Err(error) => return Err(RotatingContactSearchError3d::BroadPhase(error)),
    };
    let ghost sequence = candidate_sequence(boxes@, config.free_flight);
    proof {
        assert(strictly_sorted(sequence) && forall|pair: RotationalSweepPair3d|
            sequence.contains(pair) <==> is_candidate_pair(boxes@, config.free_flight, pair));
        lemma_sorted_sequences_equal(pairs@, sequence);
        lemma_no_duplicates(boxes@, config.free_flight, boxes@.len());
    }
    if pairs.len() == 0 {
        return Ok(None);
    }
    let mut cache = CoarseSampleCache3d::new(boxes.len(), config.sample_count as u32);
    let mut best: Option<RotatingContactSearchHit3d> = None;
    let mut index: usize = 0;
    while index < pairs.len()
        invariant
            index <= pairs@.len(),
            pairs@ == sequence,
            search_result(boxes@, config) == search_over(boxes@, pairs@, config, pairs@.len()),
            distinct_ids(boxes@),
            config.sample_count >= 1,
            search_over(boxes@, pairs@, config, index as nat) == Ok::<
                Option<RotatingContactSearchHit3d>,
                RotatingContactSearchError3d,
            >(best),
            cache.well_formed(),
            cache.serves(boxes@, config.free_flight),
            cache.body_count() == boxes@.len(),
            cache.spec_denominator() == config.sample_count,
        decreases pairs.len() - index,
    {
        let pair = pairs[index];
        match search_candidate(boxes, pair, config, &mut cache) {
            Err(error) => {
                proof {
                    lemma_search_error_stable(
                        boxes@,
                        pairs@,
                        config,
                        (index + 1) as nat,
                        pairs@.len(),
                    );
                }
                return Err(error);
            },
            Ok(None) => {},
            Ok(Some(hit)) => {
                let replace = match &best {
                    None => true,
                    Some(current) => hit_before_exec(&hit, current),
                };
                if replace {
                    best = Some(hit);
                }
            },
        }
        index = index + 1;
    }
    Ok(best)
}

/// A time strictly after the interval start and not after its end, in lowest terms of a positive
/// denominator.
pub open spec fn positive_time_within_interval(time: SampledContactTime3d) -> bool {
    0 < time.numerator <= time.denominator
}

/// A time within the interval with a positive denominator.
pub open spec fn time_within_interval(time: SampledContactTime3d) -> bool {
    time.numerator <= time.denominator && time.denominator >= 1
}

/// Bisecting a bracket `(lower, upper]` with `0 <= lower < upper <= den` keeps the upper bound
/// positive and within the refined grid.
pub proof fn lemma_refine_bounds(
    left: RigidBox3d,
    right: RigidBox3d,
    config: RotatingContactSearchConfig3d,
    lower: int,
    upper: int,
    den: int,
    contact: ObbContactSeed3d,
    steps: nat,
)
    requires
        0 <= lower < upper <= den <= u32::MAX,
    ensures
        match refine(left, right, config, lower, upper, den, contact, steps) {
            Ok((u, d, _)) => 1 <= u <= d <= u32::MAX,
            Err(_) => true,
        },
    decreases steps,
{
    if steps > 0 && !(lower + upper > u32::MAX || den * 2 > u32::MAX || lower * 2 > u32::MAX
        || upper * 2 > u32::MAX) {
        let middle = lower + upper;
        lemma_refine_bounds(
            left,
            right,
            config,
            lower * 2,
            middle,
            den * 2,
            contact,
            (steps - 1) as nat,
        );
        match sampled_contact(left, right, config.free_flight, middle as u32, (den * 2) as u32) {
            Ok(Some(found)) => {
                lemma_refine_bounds(
                    left,
                    right,
                    config,
                    lower * 2,
                    middle,
                    den * 2,
                    found,
                    (steps - 1) as nat,
                );
            },
            Ok(None) => {
                lemma_refine_bounds(
                    left,
                    right,
                    config,
                    middle,
                    upper * 2,
                    den * 2,
                    contact,
                    (steps - 1) as nat,
                );
            },
            Err(_) => {},
        }
    }
}

/// Reducing `numerator / denominator` to lowest terms keeps a time within the interval, and a
/// positive one positive.
pub proof fn lemma_canonical_bounds(numerator: int, denominator: int)
    requires
        0 <= numerator <= denominator <= u32::MAX,
        denominator >= 1,
    ensures
        time_within_interval(canonical_time(numerator, denominator)),
        numerator >= 1 ==> positive_time_within_interval(canonical_time(numerator, denominator)),
        canonical_time(numerator, denominator).numerator == numerator / (gcd(
            numerator as nat,
            denominator as nat,
        ) as int),
        canonical_time(numerator, denominator).denominator == denominator / (gcd(
            numerator as nat,
            denominator as nat,
        ) as int),
{
    let g = gcd(numerator as nat, denominator as nat) as int;
    lemma_gcd_bounded(numerator as nat, denominator as nat);
    vstd::arithmetic::div_mod::lemma_div_is_ordered_by_denominator(numerator, 1, g);
    vstd::arithmetic::div_mod::lemma_div_is_ordered_by_denominator(denominator, 1, g);
    vstd::arithmetic::div_mod::lemma_div_is_ordered(numerator, denominator, g);
    vstd::arithmetic::div_mod::lemma_div_is_ordered(g, denominator, g);
    if numerator >= 1 {
        vstd::arithmetic::div_mod::lemma_div_is_ordered(g, numerator, g);
    }
    vstd::arithmetic::div_mod::lemma_div_pos_is_pos(numerator, g);
    vstd::arithmetic::div_mod::lemma_div_by_self(g);
}

/// The greatest common divisor divides both arguments.
proof fn lemma_gcd_divides(a: nat, b: nat)
    ensures
        gcd(a, b) > 0 ==> a % gcd(a, b) == 0 && b % gcd(a, b) == 0,
    decreases b,
{
    if b == 0 {
        if a > 0 {
            vstd::arithmetic::div_mod::lemma_mod_self_0(a as int);
        }
    } else {
        let r = a % b;
        vstd::arithmetic::div_mod::lemma_mod_bound(a as int, b as int);
        lemma_gcd_divides(b, r);
        let g = gcd(a, b) as int;
        assert(gcd(a, b) == gcd(b, r));
        if g > 0 {
            let p = (b as int) / g;
            let q = (r as int) / g;
            vstd::arithmetic::div_mod::lemma_fundamental_div_mod(b as int, g);
            vstd::arithmetic::div_mod::lemma_fundamental_div_mod(r as int, g);
            vstd::arithmetic::div_mod::lemma_fundamental_div_mod(a as int, b as int);
            let quotient = (a as int) / (b as int);
            assert(a == g * (quotient * p + q)) by (nonlinear_arith)
                requires
                    a == b * quotient + r,
                    b == g * p,
                    r == g * q,
            ;
            vstd::arithmetic::div_mod::lemma_mod_multiples_basic(quotient * p + q, g);
            assert((g * (quotient * p + q)) % g == 0) by {
                vstd::arithmetic::mul::lemma_mul_is_commutative(g, quotient * p + q);
            }
        }
    }
}

/// Reducing to lowest terms keeps the value: `canonical * denominator == numerator * canonical
/// denominator`.
pub proof fn lemma_canonical_value(numerator: int, denominator: int)
    requires
        0 <= numerator <= denominator <= u32::MAX,
        denominator >= 1,
    ensures
        canonical_time(numerator, denominator).numerator * denominator == numerator
            * canonical_time(numerator, denominator).denominator,
        canonical_time(numerator, denominator).denominator >= 1,
{
    lemma_canonical_bounds(numerator, denominator);
    lemma_gcd_bounded(numerator as nat, denominator as nat);
    lemma_gcd_divides(numerator as nat, denominator as nat);
    let g = gcd(numerator as nat, denominator as nat) as int;
    let a = numerator / g;
    let b = denominator / g;
    vstd::arithmetic::div_mod::lemma_fundamental_div_mod(numerator, g);
    vstd::arithmetic::div_mod::lemma_fundamental_div_mod(denominator, g);
    assert(a * denominator == numerator * b) by (nonlinear_arith)
        requires
            numerator == g * a,
            denominator == g * b,
    ;
}

/// Bisecting `(lower / den, upper / den]` keeps the refined upper bound `u / d` inside the
/// bracket: `lower / den < u / d <= upper / den`.
pub proof fn lemma_refine_bracket(
    left: RigidBox3d,
    right: RigidBox3d,
    config: RotatingContactSearchConfig3d,
    lower: int,
    upper: int,
    den: int,
    contact: ObbContactSeed3d,
    steps: nat,
)
    requires
        0 <= lower < upper <= den,
    ensures
        match refine(left, right, config, lower, upper, den, contact, steps) {
            Ok((u, d, _)) => lower * d < u * den && u * den <= upper * d && d >= 1,
            Err(_) => true,
        },
    decreases steps,
{
    if steps > 0 && !(lower + upper > u32::MAX || den * 2 > u32::MAX || lower * 2 > u32::MAX
        || upper * 2 > u32::MAX) {
        let middle = lower + upper;
        match sampled_contact(left, right, config.free_flight, middle as u32, (den * 2) as u32) {
            Ok(Some(found)) => {
                lemma_refine_bracket(
                    left,
                    right,
                    config,
                    lower * 2,
                    middle,
                    den * 2,
                    found,
                    (steps - 1) as nat,
                );
                match refine(left, right, config, lower * 2, middle, den * 2, found, (steps - 1) as nat) {
                    Ok((u, d, _)) => {
                        assert(lower * d < u * den && u * den <= upper * d) by (nonlinear_arith)
                            requires
                                lower * 2 * d < u * (den * 2),
                                u * (den * 2) <= middle * d,
                                middle == lower + upper,
                                lower < upper,
                                d >= 1,
                        ;
                    },
                    Err(_) => {},
                }
            },
            Ok(None) => {
                lemma_refine_bracket(
                    left,
                    right,
                    config,
                    middle,
                    upper * 2,
                    den * 2,
                    contact,
                    (steps - 1) as nat,
                );
                match refine(left, right, config, middle, upper * 2, den * 2, contact, (steps - 1) as nat) {
                    Ok((u, d, _)) => {
                        assert(lower * d < u * den && u * den <= upper * d) by (nonlinear_arith)
                            requires
                                middle * d < u * (den * 2),
                                u * (den * 2) <= upper * 2 * d,
                                middle == lower + upper,
                                lower < upper,
                                d >= 1,
                        ;
                    },
                    Err(_) => {},
                }
            },
            Err(_) => {},
        }
    } else if steps == 0 {
        assert(lower * den < upper * den) by (nonlinear_arith)
            requires
                lower < upper,
                den >= 1,
        ;
    }
}

/// Every refined hit of a bracket `(k - 1, k]` on a grid of `sample_count` lies in the interval
/// and strictly after its start.
pub proof fn lemma_refined_hit_positive(
    left: RigidBox3d,
    right: RigidBox3d,
    pair: RotationalSweepPair3d,
    config: RotatingContactSearchConfig3d,
    lower: int,
    upper: int,
    contact: ObbContactSeed3d,
)
    requires
        0 <= lower < upper <= config.sample_count,
    ensures
        match refined_hit(
            pair,
            refine(
                left,
                right,
                config,
                lower,
                upper,
                config.sample_count as int,
                contact,
                config.refinement_steps as nat,
            ),
        ) {
            Ok(hit) => positive_time_within_interval(hit.time) && hit.pair == pair,
            Err(_) => true,
        },
{
    lemma_refine_bounds(
        left,
        right,
        config,
        lower,
        upper,
        config.sample_count as int,
        contact,
        config.refinement_steps as nat,
    );
    match refine(
        left,
        right,
        config,
        lower,
        upper,
        config.sample_count as int,
        contact,
        config.refinement_steps as nat,
    ) {
        Ok((u, d, _)) => {
            lemma_canonical_bounds(u, d);
        },
        Err(_) => {},
    }
}

/// The first coarse contact of a scan from `k` lies at a grid point in `k..=samples`.
proof fn lemma_coarse_scan_bounds(
    left: RigidBox3d,
    right: RigidBox3d,
    config: RigidBoxFreeFlightConfig3d,
    samples: u32,
    k: nat,
)
    requires
        k >= 1,
    ensures
        match coarse_scan(left, right, config, samples, k) {
            Ok(Some((found, _))) => k <= found <= samples,
            _ => true,
        },
    decreases samples + 1 - k,
{
    if k <= samples {
        lemma_coarse_scan_bounds(left, right, config, samples, k + 1);
    }
}

/// A pair's sampled hit lies within the interval.
pub(crate) proof fn lemma_pair_search_within(
    left: RigidBox3d,
    right: RigidBox3d,
    pair: RotationalSweepPair3d,
    config: RotatingContactSearchConfig3d,
)
    ensures
        match pair_search(left, right, pair, config) {
            Ok(Some(hit)) => time_within_interval(hit.time) && hit.pair == pair,
            _ => true,
        },
{
    lemma_coarse_scan_bounds(left, right, config.free_flight, config.sample_count as u32, 1);
    match coarse_scan(left, right, config.free_flight, config.sample_count as u32, 1) {
        Ok(Some((k, contact))) => {
            lemma_refined_hit_positive(left, right, pair, config, k - 1, k as int, contact);
        },
        _ => {},
    }
}

/// Keeping the earlier of two hits keeps one of them.
pub proof fn lemma_keep_earlier_picks(
    best: Option<RotatingContactSearchHit3d>,
    found: Option<RotatingContactSearchHit3d>,
)
    ensures
        keep_earlier(best, found) == best || keep_earlier(best, found) == found,
{
}

proof fn lemma_search_over_within(
    boxes: Seq<RigidBox3d>,
    pairs: Seq<RotationalSweepPair3d>,
    config: RotatingContactSearchConfig3d,
    n: nat,
)
    ensures
        match search_over(boxes, pairs, config, n) {
            Ok(Some(hit)) => time_within_interval(hit.time),
            _ => true,
        },
    decreases n,
{
    if n > 0 {
        lemma_search_over_within(boxes, pairs, config, (n - 1) as nat);
        let pair = pairs[n - 1];
        lemma_pair_search_within(
            box_with_id(boxes, pair.left),
            box_with_id(boxes, pair.right),
            pair,
            config,
        );
        match search_over(boxes, pairs, config, (n - 1) as nat) {
            Ok(best) => match candidate_search(boxes, pair, config) {
                Ok(found) => lemma_keep_earlier_picks(best, found),
                Err(_) => {},
            },
            Err(_) => {},
        }
    }
}

/// Every hit of the sampled search lies within the searched interval: its time is a fraction
/// `numerator / denominator` with a positive denominator and a numerator not above it.
pub proof fn lemma_search_hits_within_interval(
    boxes: Seq<RigidBox3d>,
    config: RotatingContactSearchConfig3d,
)
    ensures
        match search_result(boxes, config) {
            Ok(Some(hit)) => time_within_interval(hit.time),
            _ => true,
        },
{
    let pairs = candidate_sequence(boxes, config.free_flight);
    lemma_search_over_within(boxes, pairs, config, pairs.len());
}

/// `contact` is the exact contact of the pair observed at `time`: at the interval start, or at a
/// sample `u / d` of the interval equal to `time`.
pub open spec fn observed_contact(
    left: RigidBox3d,
    right: RigidBox3d,
    config: RotatingContactSearchConfig3d,
    time: SampledContactTime3d,
    contact: ObbContactSeed3d,
) -> bool {
    ||| time == SampledContactTime3d::spec_zero() && shape_contact(
        left.spec_oriented_box(),
        right.spec_oriented_box(),
    ) == Ok::<Option<ObbContactSeed3d>, RotatingContactSearchError3d>(Some(contact))
    ||| exists|u: u32, d: u32|
        d >= 1 && u * time.denominator == time.numerator * d && #[trigger] sampled_contact(
            left,
            right,
            config.free_flight,
            u,
            d,
        ) == Ok::<Option<ObbContactSeed3d>, RotatingContactSearchError3d>(Some(contact))
}

/// Bisection keeps, as its contact, one actually sampled at a grid point equal to its upper bound.
proof fn lemma_refine_observed(
    left: RigidBox3d,
    right: RigidBox3d,
    config: RotatingContactSearchConfig3d,
    lower: int,
    upper: int,
    den: int,
    contact: ObbContactSeed3d,
    steps: nat,
    u0: u32,
    d0: u32,
)
    requires
        0 <= lower,
        0 <= upper,
        den >= 1,
        d0 >= 1,
        u0 * den == upper * d0,
        sampled_contact(left, right, config.free_flight, u0, d0) == Ok::<
            Option<ObbContactSeed3d>,
            RotatingContactSearchError3d,
        >(Some(contact)),
    ensures
        refine(left, right, config, lower, upper, den, contact, steps) matches Ok((u, d, found))
            ==> exists|u1: u32, d1: u32|
            d1 >= 1 && u1 * d == u * d1 && #[trigger] sampled_contact(
                left,
                right,
                config.free_flight,
                u1,
                d1,
            ) == Ok::<Option<ObbContactSeed3d>, RotatingContactSearchError3d>(Some(found)),
    decreases steps,
{
    if steps == 0 {
        assert(sampled_contact(left, right, config.free_flight, u0, d0) == Ok::<
            Option<ObbContactSeed3d>,
            RotatingContactSearchError3d,
        >(Some(contact)));
        assert(u0 * den == upper * d0);
    } else if !(lower + upper > u32::MAX || den * 2 > u32::MAX || lower * 2 > u32::MAX || upper * 2
        > u32::MAX) {
        let middle = lower + upper;
        match sampled_contact(left, right, config.free_flight, middle as u32, (den * 2) as u32) {
            Ok(Some(found)) => {
                lemma_refine_observed(
                    left,
                    right,
                    config,
                    lower * 2,
                    middle,
                    den * 2,
                    found,
                    (steps - 1) as nat,
                    middle as u32,
                    (den * 2) as u32,
                );
            },
            Ok(None) => {
                assert(u0 * (den * 2) == (upper * 2) * d0) by (nonlinear_arith)
                    requires
                        u0 * den == upper * d0,
                ;
                lemma_refine_observed(
                    left,
                    right,
                    config,
                    middle,
                    upper * 2,
                    den * 2,
                    contact,
                    (steps - 1) as nat,
                    u0,
                    d0,
                );
            },
            Err(_) => {},
        }
    }
}

/// A hit of the sampled search of one pair carries the exact contact observed at its time.
pub proof fn lemma_pair_hit_is_observed(
    left: RigidBox3d,
    right: RigidBox3d,
    pair: RotationalSweepPair3d,
    config: RotatingContactSearchConfig3d,
)
    ensures
        pair_search(left, right, pair, config) matches Ok(Some(hit)) ==> observed_contact(
            left,
            right,
            config,
            hit.time,
            hit.contact,
        ),
{
    let samples = config.sample_count as u32;
    lemma_coarse_scan_bounds(left, right, config.free_flight, samples, 1);
    if shape_contact(left.spec_oriented_box(), right.spec_oriented_box()) == Ok::<
        Option<ObbContactSeed3d>,
        RotatingContactSearchError3d,
    >(None) {
        lemma_coarse_scan_contact(left, right, config.free_flight, samples, 1);
        if let Ok(Some((k, contact))) = coarse_scan(left, right, config.free_flight, samples, 1) {
            let steps = config.refinement_steps as nat;
            lemma_refine_observed(
                left,
                right,
                config,
                k - 1,
                k as int,
                config.sample_count as int,
                contact,
                steps,
                k as u32,
                samples,
            );
            lemma_refine_bounds(
                left,
                right,
                config,
                k - 1,
                k as int,
                config.sample_count as int,
                contact,
                steps,
            );
            if let Ok((u, d, found)) = refine(
                left,
                right,
                config,
                k - 1,
                k as int,
                config.sample_count as int,
                contact,
                steps,
            ) {
                lemma_canonical_value(u, d);
                let time = canonical_time(u, d);
                let (u1, d1) = choose|u1: u32, d1: u32|
                    d1 >= 1 && u1 * d == u * d1 && #[trigger] sampled_contact(
                        left,
                        right,
                        config.free_flight,
                        u1,
                        d1,
                    ) == Ok::<Option<ObbContactSeed3d>, RotatingContactSearchError3d>(Some(found));
                let tn = time.numerator as int;
                let td = time.denominator as int;
                assert(u1 * td == tn * d1) by (nonlinear_arith)
                    requires
                        u1 * d == u * d1,
                        tn * d == u * td,
                        d >= 1,
                ;
                assert(sampled_contact(left, right, config.free_flight, u1, d1) == Ok::<
                    Option<ObbContactSeed3d>,
                    RotatingContactSearchError3d,
                >(Some(found)));
            }
        }
    }
}

/// The coarse contact a scan reports is the contact sampled at its grid point.
proof fn lemma_coarse_scan_contact(
    left: RigidBox3d,
    right: RigidBox3d,
    config: RigidBoxFreeFlightConfig3d,
    samples: u32,
    k: nat,
)
    ensures
        coarse_scan(left, right, config, samples, k) matches Ok(Some((m, contact)))
            ==> m <= u32::MAX && sampled_contact(left, right, config, m as u32, samples) == Ok::<
            Option<ObbContactSeed3d>,
            RotatingContactSearchError3d,
        >(Some(contact)),
    decreases samples + 1 - k,
{
    if !(k > samples || k == 0) {
        lemma_coarse_scan_contact(left, right, config, samples, k + 1);
    }
}

proof fn lemma_search_over_observed(
    boxes: Seq<RigidBox3d>,
    pairs: Seq<RotationalSweepPair3d>,
    config: RotatingContactSearchConfig3d,
    n: nat,
)
    ensures
        search_over(boxes, pairs, config, n) matches Ok(Some(hit)) ==> observed_contact(
            box_with_id(boxes, hit.pair.left),
            box_with_id(boxes, hit.pair.right),
            config,
            hit.time,
            hit.contact,
        ),
    decreases n,
{
    if n > 0 {
        lemma_search_over_observed(boxes, pairs, config, (n - 1) as nat);
        let pair = pairs[n - 1];
        let left = box_with_id(boxes, pair.left);
        let right = box_with_id(boxes, pair.right);
        lemma_pair_hit_is_observed(left, right, pair, config);
        lemma_pair_search_within(left, right, pair, config);
        match search_over(boxes, pairs, config, (n - 1) as nat) {
            Ok(best) => match candidate_search(boxes, pair, config) {
                Ok(found) => lemma_keep_earlier_picks(best, found),
                Err(_) => {},
            },
            Err(_) => {},
        }
    }
}

/// A hit of the sampled contact search is a time at which contact is known to exist: its contact
/// is the exact contact of its pair observed at the interval start or at a sample equal to its
/// time.
pub proof fn lemma_search_hits_are_observed_contacts(
    boxes: Seq<RigidBox3d>,
    config: RotatingContactSearchConfig3d,
)
    ensures
        search_result(boxes, config) matches Ok(Some(hit)) ==> observed_contact(
            box_with_id(boxes, hit.pair.left),
            box_with_id(boxes, hit.pair.right),
            config,
            hit.time,
            hit.contact,
        ),
{
    let pairs = candidate_sequence(boxes, config.free_flight);
    lemma_search_over_observed(boxes, pairs, config, pairs.len());
}

/// The refined hit of a bracket whose upper grid point was sampled in contact carries a contact
/// observed at its time.
pub(crate) proof fn lemma_refined_hit_observed(
    left: RigidBox3d,
    right: RigidBox3d,
    pair: RotationalSweepPair3d,
    config: RotatingContactSearchConfig3d,
    lower: int,
    upper: int,
    den: int,
    contact: ObbContactSeed3d,
    steps: nat,
)
    requires
        0 <= lower < upper <= den <= u32::MAX,
        sampled_contact(left, right, config.free_flight, upper as u32, den as u32) == Ok::<
            Option<ObbContactSeed3d>,
            RotatingContactSearchError3d,
        >(Some(contact)),
    ensures
        refined_hit(pair, refine(left, right, config, lower, upper, den, contact, steps)) matches Ok(
            hit,
        ) ==> hit.pair == pair && observed_contact(left, right, config, hit.time, hit.contact),
{
    lemma_refine_observed(
        left,
        right,
        config,
        lower,
        upper,
        den,
        contact,
        steps,
        upper as u32,
        den as u32,
    );
    lemma_refine_bounds(left, right, config, lower, upper, den, contact, steps);
    if let Ok((u, d, found)) = refine(left, right, config, lower, upper, den, contact, steps) {
        lemma_canonical_value(u, d);
        let time = canonical_time(u, d);
        let (u1, d1) = choose|u1: u32, d1: u32|
            d1 >= 1 && u1 * d == u * d1 && #[trigger] sampled_contact(
                left,
                right,
                config.free_flight,
                u1,
                d1,
            ) == Ok::<Option<ObbContactSeed3d>, RotatingContactSearchError3d>(Some(found));
        let tn = time.numerator as int;
        let td = time.denominator as int;
        assert(u1 * td == tn * d1) by (nonlinear_arith)
            requires
                u1 * d == u * d1,
                tn * d == u * td,
                d >= 1,
        ;
        assert(sampled_contact(left, right, config.free_flight, u1, d1) == Ok::<
            Option<ObbContactSeed3d>,
            RotatingContactSearchError3d,
        >(Some(found)));
    }
}

} // verus!
