//! What the world's overlap and contact queries report, in terms of collision layers and the
//! separating-axis test.
use vstd::prelude::*;

use crate::body::BodyId;
use crate::oriented_box::{OrientedBox3d, sat_outcome};
use crate::rigid_box::{RigidBox3d, layers_collide};
use crate::rotating_world::{
    body_contacts_result, body_overlaps_result, box_with_id, contact_scan, current_bounds,
    first_dynamic_match, holds_id, overlap_query_result, overlap_scan,
};
use crate::rotational_sweep::RotationalSweepBounds3d;

verus! {

/// Whether a scan reports `other`: the subject itself only when it is to be included; any other
/// body when its layers are accepted (or no filter applies) and SAT finds it touching.
spec fn scan_reports(
    other: RigidBox3d,
    subject: OrientedBox3d,
    layers: crate::rigid_box::CollisionLayers3d,
    subject_id: Option<BodyId>,
    include_subject: bool,
    filter: bool,
) -> bool {
    if subject_id == Some(other.body.id) {
        include_subject
    } else {
        (!filter || layers_collide(layers, other.collision_layers)) && sat_outcome(
            subject,
            other.spec_oriented_box(),
        ) is Contact
    }
}

/// Whether one of the first `n` bodies with id `id` is reported by a scan.
spec fn reported_among(
    boxes: Seq<RigidBox3d>,
    subject: OrientedBox3d,
    layers: crate::rigid_box::CollisionLayers3d,
    subject_id: Option<BodyId>,
    include_subject: bool,
    filter: bool,
    id: BodyId,
    n: nat,
) -> bool {
    exists|k: int|
        0 <= k < n && (#[trigger] boxes[k]).body.id == id && scan_reports(
            boxes[k],
            subject,
            layers,
            subject_id,
            include_subject,
            filter,
        )
}

proof fn lemma_push_contains(ids: Seq<BodyId>, x: BodyId, id: BodyId)
    ensures
        ids.push(x).contains(id) == (ids.contains(id) || id == x),
{
    if ids.push(x).contains(id) {
        let i = choose|i: int| 0 <= i < ids.push(x).len() && ids.push(x)[i] == id;
        if i < ids.len() {
            assert(ids[i] == id);
        }
    }
    if ids.contains(id) {
        let i = choose|i: int| 0 <= i < ids.len() && ids[i] == id;
        assert(ids.push(x)[i] == id);
    }
    if id == x {
        assert(ids.push(x)[ids.len() as int] == id);
    }
}

#[verifier::rlimit(60)]
proof fn lemma_scan_step(
    boxes: Seq<RigidBox3d>,
    subject: OrientedBox3d,
    layers: crate::rigid_box::CollisionLayers3d,
    subject_id: Option<BodyId>,
    include_subject: bool,
    filter: bool,
    n: nat,
)
    requires
        n > 0,
    ensures
        overlap_scan(boxes, subject, layers, subject_id, include_subject, filter, n) matches Ok(result)
            ==> overlap_scan(boxes, subject, layers, subject_id, include_subject, filter, (n - 1) as nat)
            matches Ok(ids) && result == if scan_reports(
            boxes[n - 1],
            subject,
            layers,
            subject_id,
            include_subject,
            filter,
        ) {
            ids.push(boxes[n - 1].body.id)
        } else {
            ids
        },
{
}

proof fn lemma_reported_step(
    boxes: Seq<RigidBox3d>,
    subject: OrientedBox3d,
    layers: crate::rigid_box::CollisionLayers3d,
    subject_id: Option<BodyId>,
    include_subject: bool,
    filter: bool,
    id: BodyId,
    n: nat,
)
    requires
        n > 0,
    ensures
        reported_among(boxes, subject, layers, subject_id, include_subject, filter, id, n) == (
        reported_among(boxes, subject, layers, subject_id, include_subject, filter, id, (n - 1) as nat)
            || (boxes[n - 1].body.id == id && scan_reports(
            boxes[n - 1],
            subject,
            layers,
            subject_id,
            include_subject,
            filter,
        ))),
{
    if reported_among(boxes, subject, layers, subject_id, include_subject, filter, id, n) {
        let k = choose|k: int|
            0 <= k < n && (#[trigger] boxes[k]).body.id == id && scan_reports(
                boxes[k],
                subject,
                layers,
                subject_id,
                include_subject,
                filter,
            );
        if k < n - 1 {
            assert(reported_among(boxes, subject, layers, subject_id, include_subject, filter, id, (n - 1) as nat));
        }
    }
    if reported_among(boxes, subject, layers, subject_id, include_subject, filter, id, (n - 1) as nat) {
        let k = choose|k: int|
            0 <= k < n - 1 && (#[trigger] boxes[k]).body.id == id && scan_reports(
                boxes[k],
                subject,
                layers,
                subject_id,
                include_subject,
                filter,
            );
        assert(0 <= k < n);
    }
    if boxes[n - 1].body.id == id && scan_reports(boxes[n - 1], subject, layers, subject_id, include_subject, filter) {
        assert(boxes[n - 1].body.id == id);
    }
}

proof fn lemma_overlap_scan_members(
    boxes: Seq<RigidBox3d>,
    subject: OrientedBox3d,
    layers: crate::rigid_box::CollisionLayers3d,
    subject_id: Option<BodyId>,
    include_subject: bool,
    filter: bool,
    n: nat,
)
    requires
        n <= boxes.len(),
    ensures
        overlap_scan(boxes, subject, layers, subject_id, include_subject, filter, n) matches Ok(ids)
            ==> forall|id: BodyId|
            #![trigger ids.contains(id)]
            ids.contains(id) == reported_among(boxes, subject, layers, subject_id, include_subject, filter, id, n),
    decreases n,
{
    if n > 0 {
        lemma_overlap_scan_members(boxes, subject, layers, subject_id, include_subject, filter, (n - 1) as nat);
        lemma_scan_step(boxes, subject, layers, subject_id, include_subject, filter, n);
        match overlap_scan(boxes, subject, layers, subject_id, include_subject, filter, n) {
            Err(_) => {},
            Ok(result) => {
                let ids = overlap_scan(boxes, subject, layers, subject_id, include_subject, filter, (n - 1) as nat)->Ok_0;
                assert forall|id: BodyId| #![trigger result.contains(id)] result.contains(id) == reported_among(
                    boxes,
                    subject,
                    layers,
                    subject_id,
                    include_subject,
                    filter,
                    id,
                    n,
                ) by {
                    lemma_push_contains(ids, boxes[n - 1].body.id, id);
                    lemma_reported_step(boxes, subject, layers, subject_id, include_subject, filter, id, n);
                    assert(ids.contains(id) == reported_among(boxes, subject, layers, subject_id, include_subject, filter, id, (n - 1) as nat));
                }
            },
        }
    } else {
        assert forall|id: BodyId| !reported_among(boxes, subject, layers, subject_id, include_subject, filter, id, 0) by {}
    }
}

/// The overlaps of a known body are exactly the other bodies whose collision layers and the
/// subject's accept each other and whose current box the separating-axis test finds touching the
/// subject's; the subject itself is never reported.
pub proof fn lemma_body_overlaps_are_accepted_contacts(boxes: Seq<RigidBox3d>, body: BodyId)
    ensures
        body_overlaps_result(boxes, body) matches Ok(ids) ==> forall|id: BodyId|
            ids.contains(id) <==> exists|k: int|
                0 <= k < boxes.len() && (#[trigger] boxes[k]).body.id == id && id != body
                    && layers_collide(
                    box_with_id(boxes, body).collision_layers,
                    boxes[k].collision_layers,
                ) && sat_outcome(
                    box_with_id(boxes, body).spec_oriented_box(),
                    boxes[k].spec_oriented_box(),
                ) is Contact,
{
    if holds_id(boxes, body) {
        let subject = box_with_id(boxes, body);
        lemma_overlap_scan_members(
            boxes,
            subject.spec_oriented_box(),
            subject.collision_layers,
            Some(body),
            false,
            true,
            boxes.len(),
        );
    }
}

/// The overlaps of a query box equal to a dynamic body's current box are that body and the other
/// bodies whose layers and its accept each other and which touch the query; for any other query
/// they are every body touching it, whatever its layers.
pub proof fn lemma_overlap_query_members(boxes: Seq<RigidBox3d>, query: OrientedBox3d)
    ensures
        overlap_query_result(boxes, query) matches Ok(ids) ==> forall|id: BodyId|
            ids.contains(id) <==> exists|k: int|
                0 <= k < boxes.len() && (#[trigger] boxes[k]).body.id == id && match first_dynamic_match(
                    boxes,
                    query,
                    boxes.len(),
                ) {
                    Some(f) => id == boxes[f].body.id || (layers_collide(
                        boxes[f].collision_layers,
                        boxes[k].collision_layers,
                    ) && sat_outcome(query, boxes[k].spec_oriented_box()) is Contact),
                    None => sat_outcome(query, boxes[k].spec_oriented_box()) is Contact,
                },
{
    match first_dynamic_match(boxes, query, boxes.len()) {
        Some(f) => {
            lemma_overlap_scan_members(
                boxes,
                query,
                boxes[f].collision_layers,
                Some(boxes[f].body.id),
                true,
                true,
                boxes.len(),
            );
        },
        None => {
            lemma_overlap_scan_members(
                boxes,
                query,
                crate::rigid_box::CollisionLayers3d::spec_all(),
                None,
                false,
                false,
                boxes.len(),
            );
        },
    }
}

#[verifier::rlimit(60)]
#[verifier::spinoff_prover]
proof fn lemma_contact_scan_sound(
    boxes: Seq<RigidBox3d>,
    subject: RigidBox3d,
    subject_bounds: RotationalSweepBounds3d,
    n: nat,
)
    requires
        n <= boxes.len(),
    ensures
        contact_scan(boxes, subject, subject_bounds, n) matches Ok(contacts) ==> forall|c: int|
            0 <= c < contacts.len() ==> exists|k: int|
                0 <= k < n && (#[trigger] boxes[k]).body.id == (#[trigger] contacts[c]).other
                    && boxes[k].body.id != subject.body.id && layers_collide(
                    subject.collision_layers,
                    boxes[k].collision_layers,
                ) && sat_outcome(subject.spec_oriented_box(), boxes[k].spec_oriented_box()) is Contact,
    decreases n,
{
    if n > 0 {
        lemma_contact_scan_sound(boxes, subject, subject_bounds, (n - 1) as nat);
        match contact_scan(boxes, subject, subject_bounds, (n - 1) as nat) {
            Err(_) => {},
            Ok(earlier) => match contact_scan(boxes, subject, subject_bounds, n) {
                Err(_) => {},
                Ok(contacts) => {
                    assert forall|c: int| 0 <= c < contacts.len() implies exists|k: int|
                        0 <= k < n && (#[trigger] boxes[k]).body.id == (#[trigger] contacts[c]).other
                            && boxes[k].body.id != subject.body.id && layers_collide(
                            subject.collision_layers,
                            boxes[k].collision_layers,
                        ) && sat_outcome(subject.spec_oriented_box(), boxes[k].spec_oriented_box())
                            is Contact by {
                        if c < earlier.len() {
                            assert(contacts[c] == earlier[c]);
                            let k = choose|k: int|
                                0 <= k < n - 1 && (#[trigger] boxes[k]).body.id == (#[trigger] earlier[c]).other
                                    && boxes[k].body.id != subject.body.id && layers_collide(
                                    subject.collision_layers,
                                    boxes[k].collision_layers,
                                ) && sat_outcome(subject.spec_oriented_box(), boxes[k].spec_oriented_box())
                                    is Contact;
                            assert(0 <= k < n);
                        } else {
                            assert(contacts[c].other == boxes[n - 1].body.id);
                        }
                    }
                },
            },
        }
    }
}

/// Every current contact of a known body is with another body whose collision layers and the
/// subject's accept each other and whose current box the separating-axis test finds touching the
/// subject's.
pub proof fn lemma_body_contacts_are_accepted_contacts(boxes: Seq<RigidBox3d>, body: BodyId)
    ensures
        body_contacts_result(boxes, body) matches Ok(contacts) ==> forall|c: int|
            0 <= c < contacts.len() ==> exists|k: int|
                0 <= k < boxes.len() && (#[trigger] boxes[k]).body.id == (#[trigger] contacts[c]).other
                    && boxes[k].body.id != body && layers_collide(
                    box_with_id(boxes, body).collision_layers,
                    boxes[k].collision_layers,
                ) && sat_outcome(
                    box_with_id(boxes, body).spec_oriented_box(),
                    boxes[k].spec_oriented_box(),
                ) is Contact,
{
    if holds_id(boxes, body) {
        let subject = box_with_id(boxes, body);
        match current_bounds(subject) {
            Ok(bounds) => {
                lemma_contact_scan_sound(boxes, subject, bounds, boxes.len());
            },
            Err(_) => {},
        }
    }
}

} // verus!
