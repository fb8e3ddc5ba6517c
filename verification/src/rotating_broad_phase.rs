use vstd::prelude::*;

use crate::body::{BodyId, BodyKind};
use crate::math::Vec3i;
use crate::rigid_box::{ContactPersistence3d, RigidBox3d, layers_collide};
use crate::rigid_box_free_flight::{
    RigidBoxFreeFlightConfig3d, RigidBoxFreeFlightError3d, free_flight_bounds,
    rigid_box_free_flight_sweep_bounds,
};
use crate::rotational_sweep::RotationalSweepBounds3d;

verus! {

/// Canonically ordered broad-phase candidate pair for rotating rigid boxes (`left < right`).
#[derive(Clone, Copy, Debug, PartialEq, Eq, Structural, PartialOrd, Ord, Hash)]
pub struct RotationalSweepPair3d {
    pub left: BodyId,
    pub right: BodyId,
}

#[derive(Clone, Copy, Debug, PartialEq, Eq, Structural)]
pub enum RotatingBroadPhaseError3d {
    DuplicateBodyId(BodyId),
    IncrementalQueryUnsynchronized(BodyId),
    FreeFlight(RigidBoxFreeFlightError3d),
}

impl From<RigidBoxFreeFlightError3d> for RotatingBroadPhaseError3d {
    fn from(value: RigidBoxFreeFlightError3d) -> (error: RotatingBroadPhaseError3d)
        ensures
            error == RotatingBroadPhaseError3d::FreeFlight(value),
    {
        RotatingBroadPhaseError3d::FreeFlight(value)
    }
}

impl vstd::std_specs::convert::FromSpecImpl<RigidBoxFreeFlightError3d> for RotatingBroadPhaseError3d {
    open spec fn obeys_from_spec() -> bool {
        true
    }

    open spec fn from_spec(value: RigidBoxFreeFlightError3d) -> RotatingBroadPhaseError3d {
        RotatingBroadPhaseError3d::FreeFlight(value)
    }
}

/// Two closed axis-aligned bounds intersect (touching counts).
pub open spec fn bounds_overlap(left: RotationalSweepBounds3d, right: RotationalSweepBounds3d) -> bool {
    &&& left.minimum[0] <= right.maximum[0] && right.minimum[0] <= left.maximum[0]
    &&& left.minimum[1] <= right.maximum[1] && right.minimum[1] <= left.maximum[1]
    &&& left.minimum[2] <= right.maximum[2] && right.minimum[2] <= left.maximum[2]
}

fn overlaps_on_axis(left: &RotationalSweepBounds3d, right: &RotationalSweepBounds3d, axis: usize) -> (overlap:
    bool)
    requires
        axis < 3,
    ensures
        overlap == (left.minimum[axis as int] <= right.maximum[axis as int]
            && right.minimum[axis as int] <= left.maximum[axis as int]),
{
    left.minimum[axis] <= right.maximum[axis] && right.minimum[axis] <= left.maximum[axis]
}

pub fn bounds_overlap_exec(left: &RotationalSweepBounds3d, right: &RotationalSweepBounds3d) -> (overlap:
    bool)
    ensures
        overlap == bounds_overlap(*left, *right),
{
    overlaps_on_axis(left, right, 0) && overlaps_on_axis(left, right, 1) && overlaps_on_axis(
        left,
        right,
        2,
    )
}

/// Whether the sweeps of two bodies under `config` make them a candidate pair: not both fixed,
/// overlapping conservative sweep bounds, and mutually accepted collision layers.
pub open spec fn is_candidate(left: RigidBox3d, right: RigidBox3d, config: RigidBoxFreeFlightConfig3d) -> bool {
    &&& !(left.body.kind == BodyKind::Fixed && right.body.kind == BodyKind::Fixed)
    &&& free_flight_bounds(left, config) is Ok
    &&& free_flight_bounds(right, config) is Ok
    &&& bounds_overlap(
        free_flight_bounds(left, config)->Ok_0,
        free_flight_bounds(right, config)->Ok_0,
    )
    &&& layers_collide(left.collision_layers, right.collision_layers)
}

/// The canonically ordered pair of two bodies.
pub open spec fn pair_of(left: RigidBox3d, right: RigidBox3d) -> RotationalSweepPair3d {
    if left.body.id.0 < right.body.id.0 {
        RotationalSweepPair3d { left: left.body.id, right: right.body.id }
    } else {
        RotationalSweepPair3d { left: right.body.id, right: left.body.id }
    }
}

pub open spec fn pair_less(left: RotationalSweepPair3d, right: RotationalSweepPair3d) -> bool {
    left.left.0 < right.left.0 || (left.left.0 == right.left.0 && left.right.0 < right.right.0)
}

/// The body at `index` repeats the id of an earlier body.
pub open spec fn duplicate_before(boxes: Seq<RigidBox3d>, index: int) -> bool {
    exists|earlier: int| 0 <= earlier < index && #[trigger] boxes[earlier].body.id == boxes[index].body.id
}

/// The failure reported after examining the first `n` bodies, if any: an invalid timestep first,
/// then in input order a repeated id or a body whose sweep bounds fail.
pub open spec fn broad_phase_error(
    boxes: Seq<RigidBox3d>,
    config: RigidBoxFreeFlightConfig3d,
    n: nat,
) -> Option<RotatingBroadPhaseError3d>
    decreases n,
{
    if n == 0 {
        match config.timestep_error() {
            Some(error) => Some(RotatingBroadPhaseError3d::FreeFlight(error)),
            None => None,
        }
    } else {
        let previous = broad_phase_error(boxes, config, (n - 1) as nat);
        if previous is Some {
            previous
        } else if duplicate_before(boxes, n - 1) {
            Some(RotatingBroadPhaseError3d::DuplicateBodyId(boxes[n - 1].body.id))
        } else {
            match free_flight_bounds(boxes[n - 1], config) {
                Err(error) => Some(RotatingBroadPhaseError3d::FreeFlight(error)),
                Ok(_) => None,
            }
        }
    }
}

/// `pair` is the canonical pair of two distinct input bodies that are candidates.
pub open spec fn is_candidate_pair(
    boxes: Seq<RigidBox3d>,
    config: RigidBoxFreeFlightConfig3d,
    pair: RotationalSweepPair3d,
) -> bool {
    exists|i: int, j: int|
        0 <= i < j < boxes.len() && is_candidate(boxes[i], boxes[j], config) && #[trigger] pair_of(
            boxes[i],
            boxes[j],
        ) == pair
}

pub open spec fn strictly_sorted(pairs: Seq<RotationalSweepPair3d>) -> bool {
    forall|a: int, b: int| 0 <= a < b < pairs.len() ==> pair_less(#[trigger] pairs[a], #[trigger] pairs[b])
}

proof fn lemma_broad_phase_error_prefix(
    boxes: Seq<RigidBox3d>,
    config: RigidBoxFreeFlightConfig3d,
    m: nat,
    n: nat,
)
    requires
        m <= n,
        broad_phase_error(boxes, config, n) is None,
    ensures
        broad_phase_error(boxes, config, m) is None,
    decreases n - m,
{
    if m < n {
        lemma_broad_phase_error_prefix(boxes, config, m, (n - 1) as nat);
    }
}

proof fn lemma_broad_phase_error_stable(
    boxes: Seq<RigidBox3d>,
    config: RigidBoxFreeFlightConfig3d,
    m: nat,
    n: nat,
)
    requires
        m <= n,
        broad_phase_error(boxes, config, m) is Some,
    ensures
        broad_phase_error(boxes, config, n) == broad_phase_error(boxes, config, m),
    decreases n - m,
{
    if m < n {
        lemma_broad_phase_error_stable(boxes, config, m, (n - 1) as nat);
    }
}

fn precedes(left: RotationalSweepPair3d, right: RotationalSweepPair3d) -> (less: bool)
    ensures
        less == pair_less(left, right),
{
    left.left.0 < right.left.0 || (left.left.0 == right.left.0 && left.right.0 < right.right.0)
}

/// Inserts `pair` into the strictly sorted `pairs`, unless it is already there.
fn insert_sorted(pairs: &mut Vec<RotationalSweepPair3d>, pair: RotationalSweepPair3d)
    requires
        strictly_sorted(old(pairs)@),
    ensures
        strictly_sorted(final(pairs)@),
        forall|p: RotationalSweepPair3d|
            final(pairs)@.contains(p) <==> (old(pairs)@.contains(p) || p == pair),
{
    let mut index: usize = 0;
    while index < pairs.len() && precedes(pairs[index], pair)
        invariant
            0 <= index <= pairs.len(),
            pairs@ == old(pairs)@,
            strictly_sorted(pairs@),
            forall|k: int| 0 <= k < index ==> pair_less(#[trigger] pairs@[k], pair),
        decreases pairs.len() - index,
    {
        index = index + 1;
    }
    if index < pairs.len() && pairs[index].left.0 == pair.left.0 && pairs[index].right.0
        == pair.right.0 {
        assert(pairs@[index as int] == pair);
        return;
    }
    let ghost before = pairs@;
    pairs.insert(index, pair);
    proof {
        assert(pairs@ == before.subrange(0, index as int).push(pair) + before.subrange(
            index as int,
            before.len() as int,
        ));
        assert forall|a: int, b: int| 0 <= a < b < pairs@.len() implies pair_less(
            #[trigger] pairs@[a],
            #[trigger] pairs@[b],
        ) by {
            if b < index {
                assert(pairs@[a] == before[a] && pairs@[b] == before[b]);
            } else if b == index {
                assert(pairs@[a] == before[a]);
            } else if a == index {
                assert(pairs@[b] == before[b - 1]);
                if index < before.len() {
                    assert(!pair_less(before[index as int], pair));
                    assert(before[index as int] != pair);
                    if b - 1 > index {
                        assert(pair_less(before[index as int], before[b - 1]));
                    }
                }
            } else if a < index {
                assert(pairs@[a] == before[a] && pairs@[b] == before[b - 1]);
            } else {
                assert(pairs@[a] == before[a - 1] && pairs@[b] == before[b - 1]);
            }
        }
        assert(before == old(pairs)@);
        assert forall|p: RotationalSweepPair3d| pairs@.contains(p) <==> (old(pairs)@.contains(p)
            || p == pair) by {
            if pairs@.contains(p) {
                let k = choose|k: int| 0 <= k < pairs@.len() && pairs@[k] == p;
                if k < index {
                    assert(before[k] == p);
                } else if k > index {
                    assert(before[k - 1] == p);
                }
            }
            if before.contains(p) {
                let k = choose|k: int| 0 <= k < before.len() && before[k] == p;
                if k < index {
                    assert(pairs@[k] == p);
                } else {
                    assert(pairs@[k + 1] == p);
                }
            }
            if p == pair {
                assert(pairs@[index as int] == p);
            }
        }
    }
}

/// Conservative, deterministically ordered candidate pairs for one rotating-box interval.
///
/// Every pair of distinct bodies that are not both fixed, whose free-flight sweep bounds overlap and
/// whose collision layers accept each other appears once, as `(smaller id, larger id)`, in ascending
/// order; the result does not depend on input order.
pub fn rotational_sweep_candidate_pairs(
    boxes: &[RigidBox3d],
    config: RigidBoxFreeFlightConfig3d,
) -> (result: Result<Vec<RotationalSweepPair3d>, RotatingBroadPhaseError3d>)
    ensures
        match result {
            Ok(pairs) => {
                &&& broad_phase_error(boxes@, config, boxes@.len()) is None
                &&& strictly_sorted(pairs@)
                &&& forall|pair: RotationalSweepPair3d|
                    pairs@.contains(pair) <==> is_candidate_pair(boxes@, config, pair)
            },
            Err(error) => broad_phase_error(boxes@, config, boxes@.len()) == Some(error),
        },
{
    match config.exact_timestep() {
        Ok(_) => {},
        Err(error) => {
            proof {
                lemma_broad_phase_error_stable(boxes@, config, 0, boxes@.len());
            }
            return Err(RotatingBroadPhaseError3d::FreeFlight(error));
        },
    }
    let mut bounds: Vec<RotationalSweepBounds3d> = Vec::new();
    let mut index: usize = 0;
    while index < boxes.len()
        invariant
            0 <= index <= boxes.len(),
            bounds.len() == index,
            broad_phase_error(boxes@, config, index as nat) is None,
            forall|k: int|
                0 <= k < index ==> free_flight_bounds(boxes@[k], config) == Ok::<
                    RotationalSweepBounds3d,
                    RigidBoxFreeFlightError3d,
                >(#[trigger] bounds@[k]),
        decreases boxes.len() - index,
    {
        let id = boxes[index].body.id;
        let mut earlier: usize = 0;
        while earlier < index
            invariant
                0 <= earlier <= index < boxes.len(),
                id == boxes@[index as int].body.id,
                forall|k: int| 0 <= k < earlier ==> #[trigger] boxes@[k].body.id != id,
            broad_phase_error(boxes@, config, index as nat) is None,
            decreases index - earlier,
        {
            if boxes[earlier].body.id.0 == id.0 {
                assert(boxes@[earlier as int].body.id == id);
                assert(duplicate_before(boxes@, index as int));
                assert(broad_phase_error(boxes@, config, (index + 1) as nat) == Some(
                    RotatingBroadPhaseError3d::DuplicateBodyId(id),
                ));
                proof {
                    lemma_broad_phase_error_stable(
                        boxes@,
                        config,
                        (index + 1) as nat,
                        boxes@.len(),
                    );
                }
                return Err(RotatingBroadPhaseError3d::DuplicateBodyId(id));
            }
            earlier = earlier + 1;
        }
        assert(!duplicate_before(boxes@, index as int));
        match rigid_box_free_flight_sweep_bounds(&boxes[index], config) {
            Ok(b) => bounds.push(b),
            Err(error) => {
                proof {
                    lemma_broad_phase_error_stable(boxes@, config, (index + 1) as nat, boxes@.len());
                }
                return Err(RotatingBroadPhaseError3d::FreeFlight(error));
            },
        }
        index = index + 1;
    }
    let mut pairs: Vec<RotationalSweepPair3d> = Vec::new();
    let mut i: usize = 0;
    while i < boxes.len()
        invariant
            0 <= i <= boxes.len(),
            bounds.len() == boxes.len(),
            forall|k: int|
                0 <= k < boxes.len() ==> free_flight_bounds(boxes@[k], config) == Ok::<
                    RotationalSweepBounds3d,
                    RigidBoxFreeFlightError3d,
                >(#[trigger] bounds@[k]),
            strictly_sorted(pairs@),
            forall|pair: RotationalSweepPair3d|
                pairs@.contains(pair) <==> exists|a: int, b: int|
                    0 <= a < i && a < b < boxes.len() && is_candidate(boxes@[a], boxes@[b], config)
                        && #[trigger] pair_of(boxes@[a], boxes@[b]) == pair,
        decreases boxes.len() - i,
    {
        let mut j: usize = i + 1;
        while j < boxes.len()
            invariant
                0 <= i < boxes.len(),
                i + 1 <= j <= boxes.len(),
                bounds.len() == boxes.len(),
                forall|k: int|
                    0 <= k < boxes.len() ==> free_flight_bounds(boxes@[k], config) == Ok::<
                        RotationalSweepBounds3d,
                        RigidBoxFreeFlightError3d,
                    >(#[trigger] bounds@[k]),
                strictly_sorted(pairs@),
                forall|pair: RotationalSweepPair3d|
                    pairs@.contains(pair) <==> exists|a: int, b: int|
                        ((0 <= a < i && a < b < boxes.len()) || (a == i && a < b < j))
                            && is_candidate(boxes@[a], boxes@[b], config) && #[trigger] pair_of(
                            boxes@[a],
                            boxes@[b],
                        ) == pair,
            decreases boxes.len() - j,
        {
            let left = &boxes[i];
            let right = &boxes[j];
            let ghost before = pairs@;
            let both_fixed = left.body.kind == BodyKind::Fixed && right.body.kind
                == BodyKind::Fixed;
            let candidate = !both_fixed && bounds_overlap_exec(&bounds[i], &bounds[j])
                && left.collision_layers.collides_with(right.collision_layers);
            proof {
                assert(bounds@[i as int] == free_flight_bounds(boxes@[i as int], config)->Ok_0);
                assert(bounds@[j as int] == free_flight_bounds(boxes@[j as int], config)->Ok_0);
                assert(candidate == is_candidate(boxes@[i as int], boxes@[j as int], config));
            }
            if candidate {
                let pair = if left.body.id.0 < right.body.id.0 {
                    RotationalSweepPair3d { left: left.body.id, right: right.body.id }
                } else {
                    RotationalSweepPair3d { left: right.body.id, right: left.body.id }
                };
                assert(pair == pair_of(boxes@[i as int], boxes@[j as int]));
                insert_sorted(&mut pairs, pair);
            }
            proof {
                assert forall|pair: RotationalSweepPair3d|
                    pairs@.contains(pair) <==> exists|a: int, b: int|
                        ((0 <= a < i && a < b < boxes.len()) || (a == i && a < b < j + 1))
                            && is_candidate(boxes@[a], boxes@[b], config) && #[trigger] pair_of(
                            boxes@[a],
                            boxes@[b],
                        ) == pair by {
                    if pair == pair_of(boxes@[i as int], boxes@[j as int]) && candidate {
                        assert(pairs@.contains(pair));
                    }
                    if exists|a: int, b: int|
                        ((0 <= a < i && a < b < boxes.len()) || (a == i && a < b < j + 1))
                            && is_candidate(boxes@[a], boxes@[b], config) && #[trigger] pair_of(
                            boxes@[a],
                            boxes@[b],
                        ) == pair {
                        let (a, b) = choose|a: int, b: int|
                            ((0 <= a < i && a < b < boxes.len()) || (a == i && a < b < j + 1))
                                && is_candidate(boxes@[a], boxes@[b], config) && #[trigger] pair_of(
                                boxes@[a],
                                boxes@[b],
                            ) == pair;
                        if !(a == i && b == j) {
                            assert(before.contains(pair));
                        }
                    }
                }
            }
            j = j + 1;
        }
        i = i + 1;
    }
    proof {
        assert forall|pair: RotationalSweepPair3d|
            pairs@.contains(pair) <==> is_candidate_pair(boxes@, config, pair) by {
            if pairs@.contains(pair) {
                let (a, b) = choose|a: int, b: int|
                    0 <= a < boxes.len() && a < b < boxes.len() && is_candidate(
                        boxes@[a],
                        boxes@[b],
                        config,
                    ) && #[trigger] pair_of(boxes@[a], boxes@[b]) == pair;
                assert(pair_of(boxes@[a], boxes@[b]) == pair);
            }
        }
    }
    Ok(pairs)
}

pub(crate) proof fn lemma_no_duplicates(boxes: Seq<RigidBox3d>, config: RigidBoxFreeFlightConfig3d, n: nat)
    requires
        n <= boxes.len(),
        broad_phase_error(boxes, config, n) is None,
    ensures
        forall|i: int, j: int| 0 <= i < j < n ==> #[trigger] boxes[i].body.id != #[trigger] boxes[j].body.id,
    decreases n,
{
    if n > 0 {
        lemma_no_duplicates(boxes, config, (n - 1) as nat);
        assert forall|i: int, j: int| 0 <= i < j < n implies #[trigger] boxes[i].body.id
            != #[trigger] boxes[j].body.id by {
            if j == n - 1 && boxes[i].body.id == boxes[j].body.id {
                assert(duplicate_before(boxes, n - 1));
            }
        }
    }
}

proof fn lemma_candidate_symmetric(left: RigidBox3d, right: RigidBox3d, config: RigidBoxFreeFlightConfig3d)
    ensures
        is_candidate(left, right, config) == is_candidate(right, left, config),
        left.body.id != right.body.id ==> pair_of(left, right) == pair_of(right, left),
{
    crate::rigid_box::lemma_layers_collide_symmetric(left.collision_layers, right.collision_layers);
}

proof fn lemma_candidate_pair_transfers(
    a: Seq<RigidBox3d>,
    b: Seq<RigidBox3d>,
    config: RigidBoxFreeFlightConfig3d,
    pair: RotationalSweepPair3d,
)
    requires
        forall|x: RigidBox3d| a.contains(x) ==> b.contains(x),
        broad_phase_error(a, config, a.len()) is None,
        broad_phase_error(b, config, b.len()) is None,
        is_candidate_pair(a, config, pair),
    ensures
        is_candidate_pair(b, config, pair),
{
    lemma_no_duplicates(a, config, a.len());
    lemma_no_duplicates(b, config, b.len());
    let (i, j) = choose|i: int, j: int|
        0 <= i < j < a.len() && is_candidate(a[i], a[j], config) && #[trigger] pair_of(a[i], a[j])
            == pair;
    assert(a.contains(a[i]));
    assert(a.contains(a[j]));
    let i2 = choose|k: int| 0 <= k < b.len() && b[k] == a[i];
    let j2 = choose|k: int| 0 <= k < b.len() && b[k] == a[j];
    assert(a[i].body.id != a[j].body.id);
    lemma_candidate_symmetric(a[i], a[j], config);
    if i2 < j2 {
        assert(pair_of(b[i2], b[j2]) == pair);
    } else {
        assert(i2 != j2);
        assert(pair_of(b[j2], b[i2]) == pair);
    }
}

pub(crate) proof fn lemma_sorted_sequences_equal(left: Seq<RotationalSweepPair3d>, right: Seq<RotationalSweepPair3d>)
    requires
        strictly_sorted(left),
        strictly_sorted(right),
        forall|p: RotationalSweepPair3d| left.contains(p) <==> right.contains(p),
    ensures
        left == right,
    decreases left.len(),
{
    if left.len() == 0 {
        if right.len() > 0 {
            assert(right.contains(right[0]));
        }
        assert(left =~= right);
    } else {
        assert(left.contains(left[0]));
        assert(right.len() > 0);
        assert(right.contains(right[0]));
        let k = choose|k: int| 0 <= k < right.len() && right[k] == left[0];
        let m = choose|m: int| 0 <= m < left.len() && left[m] == right[0];
        if k > 0 {
            assert(pair_less(right[0], right[k]));
            if m > 0 {
                assert(pair_less(left[0], left[m]));
            }
        }
        assert(left[0] == right[0]);
        let lt = left.drop_first();
        let rt = right.drop_first();
        assert forall|p: RotationalSweepPair3d| lt.contains(p) <==> rt.contains(p) by {
            if lt.contains(p) {
                let x = choose|x: int| 0 <= x < lt.len() && lt[x] == p;
                assert(left[x + 1] == p);
                assert(pair_less(left[0], left[x + 1]));
                assert(right.contains(p));
                let y = choose|y: int| 0 <= y < right.len() && right[y] == p;
                assert(y != 0);
                assert(rt[y - 1] == p);
            }
            if rt.contains(p) {
                let x = choose|x: int| 0 <= x < rt.len() && rt[x] == p;
                assert(right[x + 1] == p);
                assert(pair_less(right[0], right[x + 1]));
                assert(left.contains(p));
                let y = choose|y: int| 0 <= y < left.len() && left[y] == p;
                assert(y != 0);
                assert(lt[y - 1] == p);
            }
        }
        assert(strictly_sorted(lt)) by {
            assert forall|a: int, b: int| 0 <= a < b < lt.len() implies pair_less(
                #[trigger] lt[a],
                #[trigger] lt[b],
            ) by {
                assert(pair_less(left[a + 1], left[b + 1]));
            }
        }
        assert(strictly_sorted(rt)) by {
            assert forall|a: int, b: int| 0 <= a < b < rt.len() implies pair_less(
                #[trigger] rt[a],
                #[trigger] rt[b],
            ) by {
                assert(pair_less(right[a + 1], right[b + 1]));
            }
        }
        lemma_sorted_sequences_equal(lt, rt);
        assert(left =~= right) by {
            assert forall|x: int| 0 <= x < left.len() implies left[x] == right[x] by {
                if x > 0 {
                    assert(left[x] == lt[x - 1]);
                    assert(right[x] == rt[x - 1]);
                }
            }
        }
    }
}

/// Candidate pairs do not depend on input order: two inputs holding the same bodies, both
/// accepted, produce the same ordered pairs.
pub proof fn lemma_candidate_pairs_order_independent(
    first: Seq<RigidBox3d>,
    second: Seq<RigidBox3d>,
    config: RigidBoxFreeFlightConfig3d,
    first_pairs: Seq<RotationalSweepPair3d>,
    second_pairs: Seq<RotationalSweepPair3d>,
)
    requires
        forall|x: RigidBox3d| first.contains(x) <==> second.contains(x),
        broad_phase_error(first, config, first.len()) is None,
        broad_phase_error(second, config, second.len()) is None,
        strictly_sorted(first_pairs),
        strictly_sorted(second_pairs),
        forall|pair: RotationalSweepPair3d|
            first_pairs.contains(pair) <==> is_candidate_pair(first, config, pair),
        forall|pair: RotationalSweepPair3d|
            second_pairs.contains(pair) <==> is_candidate_pair(second, config, pair),
    ensures
        first_pairs == second_pairs,
{
    assert forall|pair: RotationalSweepPair3d| first_pairs.contains(pair) <==> second_pairs.contains(
        pair,
    ) by {
        if is_candidate_pair(first, config, pair) {
            lemma_candidate_pair_transfers(first, second, config, pair);
        }
        if is_candidate_pair(second, config, pair) {
            lemma_candidate_pair_transfers(second, first, config, pair);
        }
    }
    lemma_sorted_sequences_equal(first_pairs, second_pairs);
}

/// Query counters of a persistent broad phase.
#[derive(Clone, Copy, Debug, Default, PartialEq, Eq, Structural)]
pub struct RotatingBroadPhaseStats3d {
    pub queries: u64,
    pub rebuilds: u64,
    pub reuses: u64,
    pub incremental_updates: u64,
    pub reinserts: u64,
    pub partial_queries: u64,
    pub partial_body_updates: u64,
}

/// Each body of `boxes` with its sweep bounds under `config`.
pub open spec fn synced_view(boxes: Seq<RigidBox3d>, config: RigidBoxFreeFlightConfig3d) -> Seq<
    (RigidBox3d, RotationalSweepBounds3d),
> {
    Seq::new(boxes.len(), |i: int| (boxes[i], free_flight_bounds(boxes[i], config)->Ok_0))
}

/// No two synchronized bodies share an id.
pub open spec fn synced_ids_distinct(synced: Seq<(RigidBox3d, RotationalSweepBounds3d)>) -> bool {
    forall|i: int, j: int|
        0 <= i < j < synced.len() ==> (#[trigger] synced[i]).0.body.id != (#[trigger] synced[j]).0.body.id
}

/// The candidate pairs of `boxes` under `config` are exactly `pairs`.
pub open spec fn is_candidate_result(
    boxes: Seq<RigidBox3d>,
    config: RigidBoxFreeFlightConfig3d,
    pairs: Seq<RotationalSweepPair3d>,
) -> bool {
    &&& broad_phase_error(boxes, config, boxes.len()) is None
    &&& strictly_sorted(pairs)
    &&& forall|pair: RotationalSweepPair3d| pairs.contains(pair) <==> is_candidate_pair(boxes, config, pair)
}

/// `value` clamped into `i64`.
pub open spec fn clamp_i64(value: int) -> i64 {
    if value < i64::MIN {
        i64::MIN
    } else if value > i64::MAX {
        i64::MAX
    } else {
        value as i64
    }
}

/// The extent of `bounds` along `axis`, at least one.
pub open spec fn fat_margin(bounds: RotationalSweepBounds3d, axis: int) -> int {
    if bounds.maximum[axis] - bounds.minimum[axis] < 1 {
        1
    } else {
        bounds.maximum[axis] - bounds.minimum[axis]
    }
}

/// `bounds` widened on every side by its own extent (at least one), clamped into `i64`: the
/// retained envelope a body may move within before the broad phase must update it.
pub open spec fn fatten(bounds: RotationalSweepBounds3d) -> RotationalSweepBounds3d {
    RotationalSweepBounds3d {
        minimum: [
            clamp_i64(bounds.minimum[0] - fat_margin(bounds, 0)),
            clamp_i64(bounds.minimum[1] - fat_margin(bounds, 1)),
            clamp_i64(bounds.minimum[2] - fat_margin(bounds, 2)),
        ],
        maximum: [
            clamp_i64(bounds.maximum[0] + fat_margin(bounds, 0)),
            clamp_i64(bounds.maximum[1] + fat_margin(bounds, 1)),
            clamp_i64(bounds.maximum[2] + fat_margin(bounds, 2)),
        ],
    }
}

/// `outer` contains `inner`.
pub open spec fn contains_bounds(outer: RotationalSweepBounds3d, inner: RotationalSweepBounds3d) -> bool {
    &&& outer.minimum[0] <= inner.minimum[0] && inner.maximum[0] <= outer.maximum[0]
    &&& outer.minimum[1] <= inner.minimum[1] && inner.maximum[1] <= outer.maximum[1]
    &&& outer.minimum[2] <= inner.minimum[2] && inner.maximum[2] <= outer.maximum[2]
}

/// The new bodies are the held ones: as many, each held with the same kind.
pub open spec fn membership_matches(
    synced: Seq<(RigidBox3d, RotationalSweepBounds3d)>,
    boxes: Seq<RigidBox3d>,
) -> bool {
    &&& synced.len() == boxes.len()
    &&& forall|i: int|
        0 <= i < boxes.len() ==> holds_synced(synced, (#[trigger] boxes[i]).body.id)
            && synced[synced_index(synced, boxes[i].body.id)].0.body.kind == boxes[i].body.kind
}

/// The retained envelope of the held body carrying `id`.
pub open spec fn retained_fat(
    synced: Seq<(RigidBox3d, RotationalSweepBounds3d)>,
    fat: Seq<RotationalSweepBounds3d>,
    id: BodyId,
) -> RotationalSweepBounds3d {
    fat[synced_index(synced, id)]
}

/// The new exact bounds of entry `i` leave its retained envelope.
pub open spec fn escapes(
    synced: Seq<(RigidBox3d, RotationalSweepBounds3d)>,
    fat: Seq<RotationalSweepBounds3d>,
    exact: Seq<(RigidBox3d, RotationalSweepBounds3d)>,
    i: int,
) -> bool {
    !contains_bounds(retained_fat(synced, fat, exact[i].0.body.id), exact[i].1)
}

/// How many of the first `n` new entries escape.
pub open spec fn escape_count(
    synced: Seq<(RigidBox3d, RotationalSweepBounds3d)>,
    fat: Seq<RotationalSweepBounds3d>,
    exact: Seq<(RigidBox3d, RotationalSweepBounds3d)>,
    n: nat,
) -> nat
    decreases n,
{
    if n == 0 {
        0
    } else {
        escape_count(synced, fat, exact, (n - 1) as nat) + if escapes(synced, fat, exact, n - 1) {
            1nat
        } else {
            0nat
        }
    }
}

/// A full query rebuilds every envelope: the membership changed, or more than half escaped.
pub open spec fn rebuilds_all(
    synced: Seq<(RigidBox3d, RotationalSweepBounds3d)>,
    fat: Seq<RotationalSweepBounds3d>,
    boxes: Seq<RigidBox3d>,
    exact: Seq<(RigidBox3d, RotationalSweepBounds3d)>,
) -> bool {
    !membership_matches(synced, boxes) || escape_count(synced, fat, exact, exact.len()) > exact.len()
        / 2
}

/// The envelopes after a full query: all fresh on a rebuild, else fresh exactly for the escaped
/// bodies and retained for the others.
pub open spec fn refreshed_fat(
    synced: Seq<(RigidBox3d, RotationalSweepBounds3d)>,
    fat: Seq<RotationalSweepBounds3d>,
    boxes: Seq<RigidBox3d>,
    exact: Seq<(RigidBox3d, RotationalSweepBounds3d)>,
) -> Seq<RotationalSweepBounds3d> {
    Seq::new(
        exact.len(),
        |i: int|
            if rebuilds_all(synced, fat, boxes, exact) || escapes(synced, fat, exact, i) {
                fatten(exact[i].1)
            } else {
                retained_fat(synced, fat, exact[i].0.body.id)
            },
    )
}

/// What a full query does to the counters: one query, then one rebuild, one reuse when nothing
/// escaped, or one incremental update reinserting every escaped body.
pub open spec fn full_query_stats(
    before: RotatingBroadPhaseStats3d,
    synced: Seq<(RigidBox3d, RotationalSweepBounds3d)>,
    fat: Seq<RotationalSweepBounds3d>,
    boxes: Seq<RigidBox3d>,
    exact: Seq<(RigidBox3d, RotationalSweepBounds3d)>,
) -> RotatingBroadPhaseStats3d {
    let queried = RotatingBroadPhaseStats3d { queries: saturating_increment(before.queries), ..before };
    let escaped = escape_count(synced, fat, exact, exact.len());
    if rebuilds_all(synced, fat, boxes, exact) {
        RotatingBroadPhaseStats3d { rebuilds: saturating_increment(before.rebuilds), ..queried }
    } else if escaped == 0 {
        RotatingBroadPhaseStats3d { reuses: saturating_increment(before.reuses), ..queried }
    } else {
        RotatingBroadPhaseStats3d {
            incremental_updates: saturating_increment(before.incremental_updates),
            reinserts: saturating_add_count(before.reinserts, escaped),
            ..queried
        }
    }
}

/// A held body of the updated bodies `synced`, changed by a partial query, left its envelope.
pub open spec fn partial_escapes(
    synced: Seq<(RigidBox3d, RotationalSweepBounds3d)>,
    fat: Seq<RotationalSweepBounds3d>,
    changed: Seq<RigidBox3d>,
    i: int,
) -> bool {
    changed_id(changed, synced[i].0.body.id) && !contains_bounds(fat[i], synced[i].1)
}

pub open spec fn partial_escape_count(
    synced: Seq<(RigidBox3d, RotationalSweepBounds3d)>,
    fat: Seq<RotationalSweepBounds3d>,
    changed: Seq<RigidBox3d>,
    n: nat,
) -> nat
    decreases n,
{
    if n == 0 {
        0
    } else {
        partial_escape_count(synced, fat, changed, (n - 1) as nat) + if partial_escapes(
            synced,
            fat,
            changed,
            n - 1,
        ) {
            1nat
        } else {
            0nat
        }
    }
}

/// The envelopes after a successful partial query: fresh for every changed body that escaped.
pub open spec fn partially_refreshed_fat(
    synced: Seq<(RigidBox3d, RotationalSweepBounds3d)>,
    fat: Seq<RotationalSweepBounds3d>,
    changed: Seq<RigidBox3d>,
) -> Seq<RotationalSweepBounds3d> {
    Seq::new(
        fat.len(),
        |i: int|
            if partial_escapes(synced, fat, changed, i) {
                fatten(synced[i].1)
            } else {
                fat[i]
            },
    )
}

/// A broad phase kept across steps: it holds every body with its exact sweep bounds and a wider
/// retained envelope. A query whose bodies all stay inside their envelopes reuses them; escaped
/// bodies get fresh envelopes, and a membership change or a majority escape rebuilds them all.
/// Candidate pairs always come from the exact bounds.
pub struct RotatingBroadPhase3d {
    synced: Vec<(RigidBox3d, RotationalSweepBounds3d)>,
    fat: Vec<RotationalSweepBounds3d>,
    stats: RotatingBroadPhaseStats3d,
}

impl RotatingBroadPhase3d {
    #[verifier::type_invariant]
    spec fn envelopes_aligned(self) -> bool {
        &&& synced_ids_distinct(self.synced@)
        &&& self.fat@.len() == self.synced@.len()
    }

    /// The bodies the broad phase is synchronized with, each with its exact sweep bounds.
    pub closed spec fn spec_synced(self) -> Seq<(RigidBox3d, RotationalSweepBounds3d)> {
        self.synced@
    }

    /// The retained envelope of each synchronized body.
    pub closed spec fn spec_fat(self) -> Seq<RotationalSweepBounds3d> {
        self.fat@
    }

    pub closed spec fn spec_stats(self) -> RotatingBroadPhaseStats3d {
        self.stats
    }

    pub fn new() -> (broad_phase: RotatingBroadPhase3d)
        ensures
            broad_phase.spec_stats() == (RotatingBroadPhaseStats3d {
                queries: 0,
                rebuilds: 0,
                reuses: 0,
                incremental_updates: 0,
                reinserts: 0,
                partial_queries: 0,
                partial_body_updates: 0,
            }),
            broad_phase.spec_synced() == Seq::<(RigidBox3d, RotationalSweepBounds3d)>::empty(),
            broad_phase.spec_fat() == Seq::<RotationalSweepBounds3d>::empty(),
    {
        RotatingBroadPhase3d {
            synced: Vec::new(),
            fat: Vec::new(),
            stats: RotatingBroadPhaseStats3d {
                queries: 0,
                rebuilds: 0,
                reuses: 0,
                incremental_updates: 0,
                reinserts: 0,
                partial_queries: 0,
                partial_body_updates: 0,
            },
        }
    }

    pub fn stats(&self) -> (stats: RotatingBroadPhaseStats3d)
        ensures
            stats == self.spec_stats(),
    {
        self.stats
    }

    /// The candidate pairs of [`rotational_sweep_candidate_pairs`]. On success the broad phase
    /// holds the queried bodies with their exact bounds and refreshes their envelopes, counting a
    /// reuse, an incremental update or a rebuild; a failure changes nothing but the query count.
    pub fn candidate_pairs(&mut self, boxes: &[RigidBox3d], config: RigidBoxFreeFlightConfig3d) -> (result:
        Result<Vec<RotationalSweepPair3d>, RotatingBroadPhaseError3d>)
        ensures
            match result {
                Ok(pairs) => {
                    &&& is_candidate_result(boxes@, config, pairs@)
                    &&& final(self).spec_synced() == synced_view(boxes@, config)
                    &&& final(self).spec_fat() == refreshed_fat(
                        old(self).spec_synced(),
                        old(self).spec_fat(),
                        boxes@,
                        synced_view(boxes@, config),
                    )
                    &&& final(self).spec_stats() == full_query_stats(
                        old(self).spec_stats(),
                        old(self).spec_synced(),
                        old(self).spec_fat(),
                        boxes@,
                        synced_view(boxes@, config),
                    )
                },
                Err(error) => {
                    &&& broad_phase_error(boxes@, config, boxes@.len()) == Some(error)
                    &&& final(self).spec_synced() == old(self).spec_synced()
                    &&& final(self).spec_fat() == old(self).spec_fat()
                    &&& final(self).spec_stats() == (RotatingBroadPhaseStats3d {
                        queries: saturating_increment(old(self).spec_stats().queries),
                        ..old(self).spec_stats()
                    })
                },
            },
    {
        proof {
            use_type_invariant(&*self);
        }
        self.stats.queries = self.stats.queries.saturating_add(1);
        let pairs = match rotational_sweep_candidate_pairs(boxes, config) {
            Ok(pairs) => pairs,
            Err(error) => return Err(error),
        };
        let exact = sync_bounds(boxes, config);
        let matches = membership_exec(&self.synced, boxes);
        let (escaped, kept_fat) = if matches {
            escaped_envelopes(&self.synced, &self.fat, boxes, &exact)
        } else {
            (0, Vec::new())
        };
        let n = exact.len();
        let rebuild = !matches || escaped > n / 2;
        let fat = refresh_envelopes(&self.synced, &self.fat, boxes, &exact, rebuild, kept_fat);
        if rebuild {
            self.stats.rebuilds = self.stats.rebuilds.saturating_add(1);
        } else if escaped == 0 {
            self.stats.reuses = self.stats.reuses.saturating_add(1);
        } else {
            self.stats.incremental_updates = self.stats.incremental_updates.saturating_add(1);
            self.stats.reinserts = self.stats.reinserts.saturating_add(escaped as u64);
        }
        proof {
            assert(fat@.len() == exact@.len());
        }
        *self = RotatingBroadPhase3d { synced: exact, fat, stats: self.stats };
        Ok(pairs)
    }
}

/// What a partial query does: the held bodies as [`partial_sync`] leaves them; on success the
/// strictly sorted [`is_partial_pair`] pairs, refreshed envelopes for the changed bodies that
/// escaped, one reuse when none escaped or else one incremental update reinserting them, and the
/// changed bodies counted; on a failure the envelopes stay.
pub open spec fn partial_outcome(
    before: RotatingBroadPhase3d,
    after: RotatingBroadPhase3d,
    changed: Seq<RigidBox3d>,
    omit_transient: bool,
    result: Result<Vec<RotationalSweepPair3d>, RotatingBroadPhaseError3d>,
) -> bool {
    let (synced, error) = partial_sync(before.spec_synced(), changed, changed.len());
    let stats = before.spec_stats();
    let queried = RotatingBroadPhaseStats3d {
        queries: saturating_increment(stats.queries),
        partial_queries: saturating_increment(stats.partial_queries),
        ..stats
    };
    let escaped = partial_escape_count(synced, before.spec_fat(), changed, synced.len());
    &&& after.spec_synced() == synced
    &&& match error {
        Some(failure) => {
            &&& result == Err::<Vec<RotationalSweepPair3d>, RotatingBroadPhaseError3d>(failure)
            &&& after.spec_fat() == before.spec_fat()
            &&& after.spec_stats() == queried
        },
        None => {
            &&& result is Ok
            &&& strictly_sorted(result->Ok_0@)
            &&& forall|pair: RotationalSweepPair3d|
                result->Ok_0@.contains(pair) <==> is_partial_pair(synced, changed, omit_transient, pair)
            &&& after.spec_fat() == partially_refreshed_fat(synced, before.spec_fat(), changed)
            &&& after.spec_stats() == if escaped == 0 {
                RotatingBroadPhaseStats3d {
                    partial_body_updates: saturating_add_count(stats.partial_body_updates, changed.len()),
                    reuses: saturating_increment(stats.reuses),
                    ..queried
                }
            } else {
                RotatingBroadPhaseStats3d {
                    partial_body_updates: saturating_add_count(stats.partial_body_updates, changed.len()),
                    incremental_updates: saturating_increment(stats.incremental_updates),
                    reinserts: saturating_add_count(stats.reinserts, escaped),
                    ..queried
                }
            }
        },
    }
}

impl RotatingBroadPhase3d {
    fn changed_current_pairs(&mut self, changed: &[RigidBox3d], omit_transient: bool) -> (result:
        Result<Vec<RotationalSweepPair3d>, RotatingBroadPhaseError3d>)
        ensures
            partial_outcome(*old(self), *final(self), changed@, omit_transient, result),
    {
        proof {
            use_type_invariant(&*self);
        }
        self.stats.queries = self.stats.queries.saturating_add(1);
        self.stats.partial_queries = self.stats.partial_queries.saturating_add(1);
        let mut synced = copy_synced(&self.synced);
        let outcome = partial_sync_exec(&mut synced, changed);
        proof {
            lemma_partial_sync_len(old(self).synced@, changed@, changed@.len());
        }
        match outcome {
            Err(error) => {
                *self = RotatingBroadPhase3d { synced, fat: self.fat.clone(), stats: self.stats };
                Err(error)
            },
            Ok(()) => {
                let count = changed.len() as u64;
                let mut stats = self.stats;
                stats.partial_body_updates = stats.partial_body_updates.saturating_add(count);
                let (fat, escaped) = partial_envelopes(&synced, &self.fat, changed);
                if escaped == 0 {
                    stats.reuses = stats.reuses.saturating_add(1);
                } else {
                    stats.incremental_updates = stats.incremental_updates.saturating_add(1);
                    stats.reinserts = stats.reinserts.saturating_add(escaped as u64);
                }
                let pairs = partial_pairs(&synced, changed, omit_transient);
                *self = RotatingBroadPhase3d { synced, fat, stats };
                Ok(pairs)
            },
        }
    }

    /// Brings the changed bodies to their current (motionless) bounds and returns the strictly
    /// sorted candidate pairs that involve a changed body, leaving out pairs of changed
    /// impact-only bodies. A changed body that the broad phase does not hold, or whose kind or
    /// collision layers changed, fails as unsynchronized; bodies before a failure stay updated.
    pub fn candidate_pairs_for_changed_current_bodies(&mut self, changed: &[RigidBox3d]) -> (result:
        Result<Vec<RotationalSweepPair3d>, RotatingBroadPhaseError3d>)
        ensures
            partial_outcome(*old(self), *final(self), changed@, true, result),
    {
        self.changed_current_pairs(changed, true)
    }

    /// [`Self::candidate_pairs_for_changed_current_bodies`] for observable contact queries: the
    /// pairs of changed impact-only bodies are kept.
    pub fn candidate_pairs_for_changed_current_query_bodies(&mut self, changed: &[RigidBox3d]) -> (result:
        Result<Vec<RotationalSweepPair3d>, RotatingBroadPhaseError3d>)
        ensures
            partial_outcome(*old(self), *final(self), changed@, false, result),
    {
        self.changed_current_pairs(changed, false)
    }
}

proof fn lemma_partial_sync_len(
    synced: Seq<(RigidBox3d, RotationalSweepBounds3d)>,
    changed: Seq<RigidBox3d>,
    n: nat,
)
    ensures
        partial_sync(synced, changed, n).0.len() == synced.len(),
    decreases n,
{
    if n > 0 {
        lemma_partial_sync_len(synced, changed, (n - 1) as nat);
    }
}

fn clamp_to_i64(value: i128) -> (clamped: i64)
    ensures
        clamped == clamp_i64(value as int),
{
    if value < i64::MIN as i128 {
        i64::MIN
    } else if value > i64::MAX as i128 {
        i64::MAX
    } else {
        value as i64
    }
}

fn fatten_exec(bounds: &RotationalSweepBounds3d) -> (fat: RotationalSweepBounds3d)
    ensures
        fat == fatten(*bounds),
{
    let mut minimum: [i64; 3] = [0; 3];
    let mut maximum: [i64; 3] = [0; 3];
    let mut axis: usize = 0;
    while axis < 3
        invariant
            axis <= 3,
            forall|k: int|
                0 <= k < axis ==> minimum[k] == clamp_i64(bounds.minimum[k] - fat_margin(*bounds, k))
                    && maximum[k] == clamp_i64(bounds.maximum[k] + fat_margin(*bounds, k)),
        decreases 3 - axis,
    {
        let width = bounds.maximum[axis] as i128 - bounds.minimum[axis] as i128;
        let margin = if width < 1 {
            1
        } else {
            width
        };
        minimum[axis] = clamp_to_i64(bounds.minimum[axis] as i128 - margin);
        maximum[axis] = clamp_to_i64(bounds.maximum[axis] as i128 + margin);
        axis = axis + 1;
    }
    let fat = RotationalSweepBounds3d { minimum, maximum };
    assert(fat.minimum =~= fatten(*bounds).minimum);
    assert(fat.maximum =~= fatten(*bounds).maximum);
    fat
}

fn contains_bounds_exec(outer: &RotationalSweepBounds3d, inner: &RotationalSweepBounds3d) -> (contained:
    bool)
    ensures
        contained == contains_bounds(*outer, *inner),
{
    outer.minimum[0] <= inner.minimum[0] && inner.maximum[0] <= outer.maximum[0] && outer.minimum[1]
        <= inner.minimum[1] && inner.maximum[1] <= outer.maximum[1] && outer.minimum[2]
        <= inner.minimum[2] && inner.maximum[2] <= outer.maximum[2]
}

/// The position of the held body carrying `id`, if any.
fn find_synced(synced: &Vec<(RigidBox3d, RotationalSweepBounds3d)>, id: BodyId) -> (found: Option<usize>)
    requires
        synced_ids_distinct(synced@),
    ensures
        match found {
            Some(index) => holds_synced(synced@, id) && index == synced_index(synced@, id) && index
                < synced@.len(),
            None => !holds_synced(synced@, id),
        },
{
    let mut index: usize = 0;
    while index < synced.len()
        invariant
            index <= synced.len(),
            synced_ids_distinct(synced@),
            forall|e: int| 0 <= e < index ==> (#[trigger] synced@[e]).0.body.id != id,
        decreases synced.len() - index,
    {
        if synced[index].0.body.id.0 == id.0 {
            proof {
                assert(synced@[index as int].0.body.id == id);
                let chosen = synced_index(synced@, id);
                if chosen != index as int {
                    if chosen < index {
                        assert(synced@[chosen].0.body.id != synced@[index as int].0.body.id);
                    } else {
                        assert(synced@[index as int].0.body.id != synced@[chosen].0.body.id);
                    }
                }
            }
            return Some(index);
        }
        index = index + 1;
    }
    None
}

fn membership_exec(synced: &Vec<(RigidBox3d, RotationalSweepBounds3d)>, boxes: &[RigidBox3d]) -> (matches:
    bool)
    requires
        synced_ids_distinct(synced@),
    ensures
        matches == membership_matches(synced@, boxes@),
{
    if synced.len() != boxes.len() {
        return false;
    }
    let mut index: usize = 0;
    while index < boxes.len()
        invariant
            index <= boxes.len(),
            synced_ids_distinct(synced@),
            synced@.len() == boxes@.len(),
            forall|i: int|
                0 <= i < index ==> holds_synced(synced@, (#[trigger] boxes@[i]).body.id)
                    && synced@[synced_index(synced@, boxes@[i].body.id)].0.body.kind
                    == boxes@[i].body.kind,
        decreases boxes.len() - index,
    {
        match find_synced(synced, boxes[index].body.id) {
            None => {
                assert(!holds_synced(synced@, boxes@[index as int].body.id));
                return false;
            },
            Some(position) => {
                if synced[position].0.body.kind != boxes[index].body.kind {
                    return false;
                }
            },
        }
        index = index + 1;
    }
    true
}

/// For new bodies that are all held: the retained envelope of each and how many escape it.
fn escaped_envelopes(
    synced: &Vec<(RigidBox3d, RotationalSweepBounds3d)>,
    fat: &Vec<RotationalSweepBounds3d>,
    boxes: &[RigidBox3d],
    exact: &Vec<(RigidBox3d, RotationalSweepBounds3d)>,
) -> (result: (usize, Vec<RotationalSweepBounds3d>))
    requires
        synced_ids_distinct(synced@),
        fat@.len() == synced@.len(),
        exact@.len() == boxes@.len(),
        forall|i: int| 0 <= i < exact@.len() ==> (#[trigger] exact@[i]).0 == boxes@[i],
        membership_matches(synced@, boxes@),
    ensures
        result.0 == escape_count(synced@, fat@, exact@, exact@.len()),
        result.1@ == Seq::new(
            exact@.len(),
            |i: int| retained_fat(synced@, fat@, exact@[i].0.body.id),
        ),
{
    let mut count: usize = 0;
    let mut retained: Vec<RotationalSweepBounds3d> = Vec::new();
    let mut index: usize = 0;
    while index < exact.len()
        invariant
            index <= exact@.len(),
            synced_ids_distinct(synced@),
            fat@.len() == synced@.len(),
            exact@.len() == boxes@.len(),
            forall|i: int| 0 <= i < exact@.len() ==> (#[trigger] exact@[i]).0 == boxes@[i],
            membership_matches(synced@, boxes@),
            count == escape_count(synced@, fat@, exact@, index as nat),
            count <= index,
            retained@ == Seq::new(
                index as nat,
                |i: int| retained_fat(synced@, fat@, exact@[i].0.body.id),
            ),
        decreases exact.len() - index,
    {
        let id = exact[index].0.body.id;
        assert(exact@[index as int].0 == boxes@[index as int]);
        assert(holds_synced(synced@, boxes@[index as int].body.id));
        let position = match find_synced(synced, id) {
            Some(position) => position,
            None => {
                proof {
                    assert(false);
                }
                0
            },
        };
        let envelope = fat[position];
        if !contains_bounds_exec(&envelope, &exact[index].1) {
            count = count + 1;
        }
        retained.push(envelope);
        index = index + 1;
        assert(retained@ =~= Seq::new(
            index as nat,
            |i: int| retained_fat(synced@, fat@, exact@[i].0.body.id),
        ));
    }
    (count, retained)
}

/// The envelopes after a full query (see [`refreshed_fat`]).
fn refresh_envelopes(
    synced: &Vec<(RigidBox3d, RotationalSweepBounds3d)>,
    fat: &Vec<RotationalSweepBounds3d>,
    boxes: &[RigidBox3d],
    exact: &Vec<(RigidBox3d, RotationalSweepBounds3d)>,
    rebuild: bool,
    retained: Vec<RotationalSweepBounds3d>,
) -> (refreshed: Vec<RotationalSweepBounds3d>)
    requires
        rebuild == rebuilds_all(synced@, fat@, boxes@, exact@),
        !rebuild ==> retained@ == Seq::new(
            exact@.len(),
            |i: int| retained_fat(synced@, fat@, exact@[i].0.body.id),
        ),
    ensures
        refreshed@ == refreshed_fat(synced@, fat@, boxes@, exact@),
{
    let mut refreshed: Vec<RotationalSweepBounds3d> = Vec::new();
    let mut index: usize = 0;
    while index < exact.len()
        invariant
            index <= exact@.len(),
            rebuild == rebuilds_all(synced@, fat@, boxes@, exact@),
            !rebuild ==> retained@ == Seq::new(
                exact@.len(),
                |i: int| retained_fat(synced@, fat@, exact@[i].0.body.id),
            ),
            refreshed@ == refreshed_fat(synced@, fat@, boxes@, exact@).subrange(0, index as int),
        decreases exact.len() - index,
    {
        let envelope = if rebuild {
            fatten_exec(&exact[index].1)
        } else {
            let kept = retained[index];
            if contains_bounds_exec(&kept, &exact[index].1) {
                kept
            } else {
                fatten_exec(&exact[index].1)
            }
        };
        refreshed.push(envelope);
        index = index + 1;
        assert(refreshed@ =~= refreshed_fat(synced@, fat@, boxes@, exact@).subrange(0, index as int));
    }
    assert(refreshed@ =~= refreshed_fat(synced@, fat@, boxes@, exact@));
    refreshed
}

/// The envelopes after a successful partial query and how many changed bodies escaped.
fn partial_envelopes(
    synced: &Vec<(RigidBox3d, RotationalSweepBounds3d)>,
    fat: &Vec<RotationalSweepBounds3d>,
    changed: &[RigidBox3d],
) -> (result: (Vec<RotationalSweepBounds3d>, usize))
    requires
        fat@.len() == synced@.len(),
    ensures
        result.0@ == partially_refreshed_fat(synced@, fat@, changed@),
        result.1 == partial_escape_count(synced@, fat@, changed@, synced@.len()),
{
    let mut refreshed: Vec<RotationalSweepBounds3d> = Vec::new();
    let mut count: usize = 0;
    let mut index: usize = 0;
    while index < synced.len()
        invariant
            index <= synced@.len(),
            fat@.len() == synced@.len(),
            count <= index,
            count == partial_escape_count(synced@, fat@, changed@, index as nat),
            refreshed@ == partially_refreshed_fat(synced@, fat@, changed@).subrange(0, index as int),
        decreases synced.len() - index,
    {
        let envelope = if changed_contains(changed, synced[index].0.body.id) && !contains_bounds_exec(
            &fat[index],
            &synced[index].1,
        ) {
            count = count + 1;
            fatten_exec(&synced[index].1)
        } else {
            fat[index]
        };
        refreshed.push(envelope);
        index = index + 1;
        assert(refreshed@ =~= partially_refreshed_fat(synced@, fat@, changed@).subrange(
            0,
            index as int,
        ));
    }
    assert(refreshed@ =~= partially_refreshed_fat(synced@, fat@, changed@));
    (refreshed, count)
}

fn copy_synced(synced: &Vec<(RigidBox3d, RotationalSweepBounds3d)>) -> (copy: Vec<
    (RigidBox3d, RotationalSweepBounds3d),
>)
    ensures
        copy@ == synced@,
{
    let mut copy: Vec<(RigidBox3d, RotationalSweepBounds3d)> = Vec::new();
    let mut index: usize = 0;
    while index < synced.len()
        invariant
            index <= synced.len(),
            copy@ == synced@.subrange(0, index as int),
        decreases synced.len() - index,
    {
        copy.push(synced[index]);
        index = index + 1;
        assert(copy@ =~= synced@.subrange(0, index as int));
    }
    assert(copy@ =~= synced@);
    copy
}

/// `value + count`, saturating at `u64::MAX`.
pub open spec fn saturating_add_count(value: u64, count: nat) -> u64 {
    if value + count <= u64::MAX {
        (value + count) as u64
    } else {
        u64::MAX
    }
}

/// `value + 1`, saturating at `u64::MAX`.
pub open spec fn saturating_increment(value: u64) -> u64 {
    if value < u64::MAX {
        (value + 1) as u64
    } else {
        value
    }
}

/// The sweep bounds of every body of a query whose broad phase succeeded.
fn sync_bounds(boxes: &[RigidBox3d], config: RigidBoxFreeFlightConfig3d) -> (synced: Vec<
    (RigidBox3d, RotationalSweepBounds3d),
>)
    requires
        broad_phase_error(boxes@, config, boxes@.len()) is None,
    ensures
        synced@ == synced_view(boxes@, config),
        synced_ids_distinct(synced@),
{
    proof {
        lemma_no_duplicates(boxes@, config, boxes@.len());
    }
    let mut synced: Vec<(RigidBox3d, RotationalSweepBounds3d)> = Vec::new();
    let mut index: usize = 0;
    while index < boxes.len()
        invariant
            index <= boxes.len(),
            broad_phase_error(boxes@, config, boxes@.len()) is None,
            synced@ == synced_view(boxes@, config).subrange(0, index as int),
        decreases boxes.len() - index,
    {
        proof {
            lemma_broad_phase_error_prefix(boxes@, config, (index + 1) as nat, boxes@.len());
            lemma_broad_phase_error_prefix(boxes@, config, index as nat, boxes@.len());
        }
        match rigid_box_free_flight_sweep_bounds(&boxes[index], config) {
            Ok(bounds) => synced.push((boxes[index], bounds)),
            Err(_) => {
                proof {
                    assert(false);
                }
            },
        }
        index = index + 1;
        assert(synced@ =~= synced_view(boxes@, config).subrange(0, index as int));
    }
    assert(synced@ =~= synced_view(boxes@, config));
    synced
}

// ---------------------------------------------------------------------------------------------
// Partial queries at the current positions
// ---------------------------------------------------------------------------------------------

/// The configuration of a current-position query: no motion.
pub open spec fn current_config() -> RigidBoxFreeFlightConfig3d {
    RigidBoxFreeFlightConfig3d::spec_new(Vec3i::spec_zero(), 0, 1)
}

/// A synchronized body carries `id`.
pub open spec fn holds_synced(synced: Seq<(RigidBox3d, RotationalSweepBounds3d)>, id: BodyId) -> bool {
    exists|i: int| 0 <= i < synced.len() && (#[trigger] synced[i]).0.body.id == id
}

/// The position of the synchronized body carrying `id`.
pub open spec fn synced_index(synced: Seq<(RigidBox3d, RotationalSweepBounds3d)>, id: BodyId) -> int {
    choose|i: int| 0 <= i < synced.len() && (#[trigger] synced[i]).0.body.id == id
}

/// The synchronized bodies after the first `n` changed bodies are brought to their current
/// bounds, with the first failure met: a sweep failure, a repeated changed id, or a body that is
/// not synchronized or whose kind or collision layers changed. Bodies before a failure stay
/// updated.
pub open spec fn partial_sync(
    synced: Seq<(RigidBox3d, RotationalSweepBounds3d)>,
    changed: Seq<RigidBox3d>,
    n: nat,
) -> (Seq<(RigidBox3d, RotationalSweepBounds3d)>, Option<RotatingBroadPhaseError3d>)
    decreases n,
{
    if n == 0 {
        (synced, None)
    } else {
        let (state, error) = partial_sync(synced, changed, (n - 1) as nat);
        if error is Some {
            (state, error)
        } else {
            let body = changed[n - 1];
            let id = body.body.id;
            match free_flight_bounds(body, current_config()) {
                Err(failure) => (state, Some(RotatingBroadPhaseError3d::FreeFlight(failure))),
                Ok(bounds) => if duplicate_before(changed, n - 1) {
                    (state, Some(RotatingBroadPhaseError3d::DuplicateBodyId(id)))
                } else if !holds_synced(state, id) {
                    (state, Some(RotatingBroadPhaseError3d::IncrementalQueryUnsynchronized(id)))
                } else {
                    let index = synced_index(state, id);
                    if state[index].0.body.kind != body.body.kind || state[index].0.collision_layers
                        != body.collision_layers {
                        (state, Some(RotatingBroadPhaseError3d::IncrementalQueryUnsynchronized(id)))
                    } else {
                        (state.update(index, (body, bounds)), None)
                    }
                },
            }
        }
    }
}

/// Some changed body carries `id`.
pub open spec fn changed_id(changed: Seq<RigidBox3d>, id: BodyId) -> bool {
    exists|k: int| 0 <= k < changed.len() && (#[trigger] changed[k]).body.id == id
}

/// A changed impact-only body whose pairs a resting query leaves out.
pub open spec fn left_out(changed: Seq<RigidBox3d>, omit_transient: bool, body: RigidBox3d) -> bool {
    omit_transient && changed_id(changed, body.body.id) && body.contact_persistence
        == ContactPersistence3d::Transient
}

/// Synchronized body `i`, a changed one, and another body `j` form a partial-query pair: not both
/// fixed, overlapping retained bounds, accepted layers, and neither body left out.
pub open spec fn partial_candidate(
    synced: Seq<(RigidBox3d, RotationalSweepBounds3d)>,
    changed: Seq<RigidBox3d>,
    omit_transient: bool,
    i: int,
    j: int,
) -> bool {
    &&& 0 <= i < synced.len() && 0 <= j < synced.len() && i != j
    &&& changed_id(changed, synced[i].0.body.id)
    &&& !left_out(changed, omit_transient, synced[i].0)
    &&& !left_out(changed, omit_transient, synced[j].0)
    &&& !(synced[i].0.body.kind == BodyKind::Fixed && synced[j].0.body.kind == BodyKind::Fixed)
    &&& bounds_overlap(synced[i].1, synced[j].1)
    &&& layers_collide(synced[i].0.collision_layers, synced[j].0.collision_layers)
}

/// `pair` is the canonical pair of a partial-query candidate.
pub open spec fn is_partial_pair(
    synced: Seq<(RigidBox3d, RotationalSweepBounds3d)>,
    changed: Seq<RigidBox3d>,
    omit_transient: bool,
    pair: RotationalSweepPair3d,
) -> bool {
    exists|i: int, j: int|
        partial_candidate(synced, changed, omit_transient, i, j) && #[trigger] pair_of(
            synced[i].0,
            synced[j].0,
        ) == pair
}

fn changed_contains(changed: &[RigidBox3d], id: BodyId) -> (found: bool)
    ensures
        found == changed_id(changed@, id),
{
    let mut k: usize = 0;
    while k < changed.len()
        invariant
            k <= changed.len(),
            forall|e: int| 0 <= e < k ==> (#[trigger] changed@[e]).body.id != id,
        decreases changed.len() - k,
    {
        if changed[k].body.id.0 == id.0 {
            assert(changed@[k as int].body.id == id);
            return true;
        }
        k = k + 1;
    }
    false
}

fn left_out_exec(changed: &[RigidBox3d], omit_transient: bool, body: &RigidBox3d) -> (out: bool)
    ensures
        out == left_out(changed@, omit_transient, *body),
{
    omit_transient && body.contact_persistence == ContactPersistence3d::Transient
        && changed_contains(changed, body.body.id)
}

/// The strictly sorted canonical pairs of all partial-query candidates.
fn partial_pairs(
    synced: &Vec<(RigidBox3d, RotationalSweepBounds3d)>,
    changed: &[RigidBox3d],
    omit_transient: bool,
) -> (pairs: Vec<RotationalSweepPair3d>)
    ensures
        strictly_sorted(pairs@),
        forall|pair: RotationalSweepPair3d|
            pairs@.contains(pair) <==> is_partial_pair(synced@, changed@, omit_transient, pair),
{
    let mut pairs: Vec<RotationalSweepPair3d> = Vec::new();
    let mut i: usize = 0;
    while i < synced.len()
        invariant
            0 <= i <= synced.len(),
            strictly_sorted(pairs@),
            forall|pair: RotationalSweepPair3d|
                pairs@.contains(pair) <==> exists|a: int, b: int|
                    0 <= a < i && partial_candidate(synced@, changed@, omit_transient, a, b)
                        && #[trigger] pair_of(synced@[a].0, synced@[b].0) == pair,
        decreases synced.len() - i,
    {
        let source_changed = changed_contains(changed, synced[i].0.body.id);
        let source_left_out = left_out_exec(changed, omit_transient, &synced[i].0);
        let mut j: usize = 0;
        while j < synced.len()
            invariant
                0 <= i < synced.len(),
                0 <= j <= synced.len(),
                source_changed == changed_id(changed@, synced@[i as int].0.body.id),
                source_left_out == left_out(changed@, omit_transient, synced@[i as int].0),
                strictly_sorted(pairs@),
                forall|pair: RotationalSweepPair3d|
                    pairs@.contains(pair) <==> exists|a: int, b: int|
                        ((0 <= a < i) || (a == i && b < j)) && partial_candidate(
                            synced@,
                            changed@,
                            omit_transient,
                            a,
                            b,
                        ) && #[trigger] pair_of(synced@[a].0, synced@[b].0) == pair,
            decreases synced.len() - j,
        {
            let left = &synced[i];
            let right = &synced[j];
            let ghost before = pairs@;
            let candidate = i != j && source_changed && !source_left_out && !left_out_exec(
                changed,
                omit_transient,
                &right.0,
            ) && !(left.0.body.kind == BodyKind::Fixed && right.0.body.kind == BodyKind::Fixed)
                && bounds_overlap_exec(&left.1, &right.1) && left.0.collision_layers.collides_with(
                right.0.collision_layers,
            );
            assert(candidate == partial_candidate(
                synced@,
                changed@,
                omit_transient,
                i as int,
                j as int,
            ));
            if candidate {
                let pair = if left.0.body.id.0 < right.0.body.id.0 {
                    RotationalSweepPair3d { left: left.0.body.id, right: right.0.body.id }
                } else {
                    RotationalSweepPair3d { left: right.0.body.id, right: left.0.body.id }
                };
                assert(pair == pair_of(synced@[i as int].0, synced@[j as int].0));
                insert_sorted(&mut pairs, pair);
            }
            proof {
                assert forall|pair: RotationalSweepPair3d|
                    pairs@.contains(pair) <==> exists|a: int, b: int|
                        ((0 <= a < i) || (a == i && b < j + 1)) && partial_candidate(
                            synced@,
                            changed@,
                            omit_transient,
                            a,
                            b,
                        ) && #[trigger] pair_of(synced@[a].0, synced@[b].0) == pair by {
                    if pair == pair_of(synced@[i as int].0, synced@[j as int].0) && candidate {
                        assert(pairs@.contains(pair));
                    }
                    if exists|a: int, b: int|
                        ((0 <= a < i) || (a == i && b < j + 1)) && partial_candidate(
                            synced@,
                            changed@,
                            omit_transient,
                            a,
                            b,
                        ) && #[trigger] pair_of(synced@[a].0, synced@[b].0) == pair {
                        let (a, b) = choose|a: int, b: int|
                            ((0 <= a < i) || (a == i && b < j + 1)) && partial_candidate(
                                synced@,
                                changed@,
                                omit_transient,
                                a,
                                b,
                            ) && #[trigger] pair_of(synced@[a].0, synced@[b].0) == pair;
                        if !(a == i && b == j) {
                            assert(before.contains(pair));
                        }
                    }
                }
            }
            j = j + 1;
        }
        proof {
            assert forall|pair: RotationalSweepPair3d|
                pairs@.contains(pair) <==> exists|a: int, b: int|
                    0 <= a < i + 1 && partial_candidate(synced@, changed@, omit_transient, a, b)
                        && #[trigger] pair_of(synced@[a].0, synced@[b].0) == pair by {
                if exists|a: int, b: int|
                    0 <= a < i + 1 && partial_candidate(synced@, changed@, omit_transient, a, b)
                        && #[trigger] pair_of(synced@[a].0, synced@[b].0) == pair {
                    let (a, b) = choose|a: int, b: int|
                        0 <= a < i + 1 && partial_candidate(synced@, changed@, omit_transient, a, b)
                            && #[trigger] pair_of(synced@[a].0, synced@[b].0) == pair;
                    assert(b < synced@.len());
                }
            }
        }
        i = i + 1;
    }
    proof {
        assert forall|pair: RotationalSweepPair3d|
            pairs@.contains(pair) <==> is_partial_pair(synced@, changed@, omit_transient, pair) by {
            if is_partial_pair(synced@, changed@, omit_transient, pair) {
                let (a, b) = choose|a: int, b: int|
                    partial_candidate(synced@, changed@, omit_transient, a, b) && #[trigger] pair_of(
                        synced@[a].0,
                        synced@[b].0,
                    ) == pair;
                assert(pair_of(synced@[a].0, synced@[b].0) == pair);
            }
        }
    }
    pairs
}

proof fn lemma_partial_sync_error_stable(
    synced: Seq<(RigidBox3d, RotationalSweepBounds3d)>,
    changed: Seq<RigidBox3d>,
    m: nat,
    n: nat,
)
    requires
        m <= n,
        partial_sync(synced, changed, m).1 is Some,
    ensures
        partial_sync(synced, changed, n) == partial_sync(synced, changed, m),
    decreases n - m,
{
    if m < n {
        lemma_partial_sync_error_stable(synced, changed, m, (n - 1) as nat);
    }
}

/// Brings the changed bodies to their current bounds, stopping at the first failure.
fn partial_sync_exec(synced: &mut Vec<(RigidBox3d, RotationalSweepBounds3d)>, changed: &[RigidBox3d]) -> (result:
    Result<(), RotatingBroadPhaseError3d>)
    requires
        synced_ids_distinct(old(synced)@),
    ensures
        synced_ids_distinct(final(synced)@),
        final(synced)@ == partial_sync(old(synced)@, changed@, changed@.len()).0,
        match result {
            Ok(()) => partial_sync(old(synced)@, changed@, changed@.len()).1 is None,
            Err(error) => partial_sync(old(synced)@, changed@, changed@.len()).1 == Some(error),
        },
{
    let ghost original = synced@;
    let current = RigidBoxFreeFlightConfig3d::new(Vec3i::zero(), 0, 1);
    let mut k: usize = 0;
    while k < changed.len()
        invariant
            k <= changed.len(),
            current == current_config(),
            original == old(synced)@,
            synced_ids_distinct(synced@),
            synced@ == partial_sync(original, changed@, k as nat).0,
            partial_sync(original, changed@, k as nat).1 is None,
        decreases changed.len() - k,
    {
        let body = changed[k];
        let id = body.body.id;
        let bounds = match rigid_box_free_flight_sweep_bounds(&body, current) {
            Ok(bounds) => bounds,
            Err(failure) => {
                proof {
                    assert(partial_sync(original, changed@, (k + 1) as nat) == (
                        synced@,
                        Some(RotatingBroadPhaseError3d::FreeFlight(failure)),
                    ));
                    lemma_partial_sync_error_stable(
                        original,
                        changed@,
                        (k + 1) as nat,
                        changed@.len(),
                    );
                }
                return Err(RotatingBroadPhaseError3d::FreeFlight(failure));
            },
        };
        let mut earlier: usize = 0;
        while earlier < k
            invariant
                earlier <= k < changed.len(),
                id == changed@[k as int].body.id,
                body == changed@[k as int],
                original == old(synced)@,
                synced_ids_distinct(synced@),
                synced@ == partial_sync(original, changed@, k as nat).0,
                partial_sync(original, changed@, k as nat).1 is None,
                free_flight_bounds(body, current_config()) == Ok::<
                    RotationalSweepBounds3d,
                    RigidBoxFreeFlightError3d,
                >(bounds),
                forall|e: int| 0 <= e < earlier ==> (#[trigger] changed@[e]).body.id != id,
            decreases k - earlier,
        {
            if changed[earlier].body.id.0 == id.0 {
                proof {
                    assert(changed@[earlier as int].body.id == changed@[k as int].body.id);
                    assert(duplicate_before(changed@, k as int));
                    assert(partial_sync(original, changed@, (k + 1) as nat) == (
                        synced@,
                        Some(RotatingBroadPhaseError3d::DuplicateBodyId(id)),
                    ));
                    lemma_partial_sync_error_stable(
                        original,
                        changed@,
                        (k + 1) as nat,
                        changed@.len(),
                    );
                }
                return Err(RotatingBroadPhaseError3d::DuplicateBodyId(id));
            }
            earlier = earlier + 1;
        }
        assert(!duplicate_before(changed@, k as int));
        let mut index: usize = 0;
        while index < synced.len() && synced[index].0.body.id.0 != id.0
            invariant
                index <= synced.len(),
                forall|e: int| 0 <= e < index ==> (#[trigger] synced@[e]).0.body.id != id,
            decreases synced.len() - index,
        {
            index = index + 1;
        }
        if index == synced.len() {
            proof {
                assert(!holds_synced(synced@, id));
                assert(partial_sync(original, changed@, (k + 1) as nat) == (
                    synced@,
                    Some(RotatingBroadPhaseError3d::IncrementalQueryUnsynchronized(id)),
                ));
                lemma_partial_sync_error_stable(original, changed@, (k + 1) as nat, changed@.len());
            }
            return Err(RotatingBroadPhaseError3d::IncrementalQueryUnsynchronized(id));
        }
        proof {
            assert(synced@[index as int].0.body.id == id);
            let chosen = synced_index(synced@, id);
            if chosen != index as int {
                if chosen < index {
                    assert(synced@[chosen].0.body.id != synced@[index as int].0.body.id);
                } else {
                    assert(synced@[index as int].0.body.id != synced@[chosen].0.body.id);
                }
            }
        }
        let previous = synced[index].0;
        if previous.body.kind != body.body.kind || previous.collision_layers != body.collision_layers {
            proof {
                assert(partial_sync(original, changed@, (k + 1) as nat) == (
                    synced@,
                    Some(RotatingBroadPhaseError3d::IncrementalQueryUnsynchronized(id)),
                ));
                lemma_partial_sync_error_stable(original, changed@, (k + 1) as nat, changed@.len());
            }
            return Err(RotatingBroadPhaseError3d::IncrementalQueryUnsynchronized(id));
        }
        let ghost before = synced@;
        synced.set(index, (body, bounds));
        proof {
            assert forall|i: int, j: int| 0 <= i < j < synced@.len() implies (#[trigger] synced@[i]).0.body.id
                != (#[trigger] synced@[j]).0.body.id by {
                if i != index && j != index {
                    assert(synced@[i] == before[i] && synced@[j] == before[j]);
                } else if i == index {
                    assert(synced@[j] == before[j]);
                    assert(before[i].0.body.id == id);
                } else {
                    assert(synced@[i] == before[i]);
                    assert(before[j].0.body.id == id);
                }
            }
        }
        assert(partial_sync(original, changed@, (k + 1) as nat) == (synced@, None::<
            RotatingBroadPhaseError3d,
        >));
        k = k + 1;
    }
    Ok(())
}

} // verus!
