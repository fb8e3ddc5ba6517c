use vstd::prelude::*;

use crate::body::{BodyId, BodyKind};
use crate::fixed_geometry::{
    FixedGeometryPreparationCache3d, FixedGeometryPreparationMode3d,
    FixedGeometryPreparationStats3d,
};
use crate::interaction_policy::{InteractionCategory3d, InteractionPolicy3d, category_of};
use crate::math::Vec3i;
use crate::oriented_box::OrientedBox3d;
use crate::rigid_box::RigidBox3d;
use crate::rotating_world::{
    BodyCurrentContact3d, RotatingWorld3d, RotatingWorldConfig3d, RotatingWorldError3d,
    RotatingWorldStepReport3d, body_contacts_result, changed_ids, holds_id, ids_ascending,
    overlap_query_result, reports_contacts, reports_ids, velocity_update, world_step,
};

verus! {

/// Public rotating rigid-body world backed by one authoritative physics state, plus the derived
/// fixed-geometry preparation retained for genuine fixed bodies.
#[derive(Debug)]
pub struct EcsRotatingWorld3d {
    physics: RotatingWorld3d,
    fixed_geometry: FixedGeometryPreparationCache3d,
}

impl EcsRotatingWorld3d {
    pub closed spec fn spec_physics(self) -> RotatingWorld3d {
        self.physics
    }

    pub closed spec fn spec_fixed_geometry(self) -> FixedGeometryPreparationCache3d {
        self.fixed_geometry
    }

    pub fn new(config: RotatingWorldConfig3d) -> (world: EcsRotatingWorld3d)
        ensures
            world.spec_physics().spec_config() == config,
            world.spec_physics().spec_boxes() == Seq::<RigidBox3d>::empty(),
            world.spec_physics().spec_interaction().categories() == Map::<u64, u16>::empty(),
            world.spec_fixed_geometry().spec_mode() == FixedGeometryPreparationMode3d::Runtime,
            world.spec_fixed_geometry().spec_prepared() == Map::<
                u64,
                crate::oriented_box::OrientedBox3d,
            >::empty(),
            world.spec_fixed_geometry().spec_total_preparations() == 0,
    {
        EcsRotatingWorld3d {
            physics: RotatingWorld3d::new(config),
            fixed_geometry: FixedGeometryPreparationCache3d::new(),
        }
    }

    pub fn config(&self) -> (config: RotatingWorldConfig3d)
        ensures
            config == self.spec_physics().spec_config(),
    {
        self.physics.config()
    }

    pub fn body_interaction_category(&self, entity: BodyId) -> (category: InteractionCategory3d)
        ensures
            category.0 == category_of(self.spec_physics().spec_interaction().categories(), entity.0),
    {
        self.physics.body_interaction_category(entity)
    }

    pub fn set_body_interaction_category(
        &mut self,
        entity: BodyId,
        category: InteractionCategory3d,
    ) -> (result: Result<Option<InteractionCategory3d>, RotatingWorldError3d>)
        ensures
            final(self).spec_fixed_geometry() == old(self).spec_fixed_geometry(),
            final(self).spec_physics().spec_boxes() == old(self).spec_physics().spec_boxes(),
            match result {
                Err(error) => !holds_id(old(self).spec_physics().spec_boxes(), entity) && error
                    == RotatingWorldError3d::MissingBody(entity) && final(self).spec_physics()
                    .spec_interaction() == old(self).spec_physics().spec_interaction(),
                Ok(previous) => {
                    &&& holds_id(old(self).spec_physics().spec_boxes(), entity)
                    &&& category.0 == 0 ==> final(self).spec_physics().spec_interaction().categories()
                        == old(self).spec_physics().spec_interaction().categories().remove(
                        entity.0,
                    )
                    &&& category.0 != 0 ==> final(self).spec_physics().spec_interaction().categories()
                        == old(self).spec_physics().spec_interaction().categories().insert(
                        entity.0,
                        category.0,
                    )
                    &&& previous == (if old(self).spec_physics().spec_interaction().categories().contains_key(entity.0) {
                        Some(
                            InteractionCategory3d(
                                old(self).spec_physics().spec_interaction().categories()[entity.0],
                            ),
                        )
                    } else {
                        None
                    })
                },
            },
    {
        self.physics.set_body_interaction_category(entity, category)
    }

    pub fn set_default_interaction_policy(&mut self, policy: InteractionPolicy3d)
        ensures
            final(self).spec_fixed_geometry() == old(self).spec_fixed_geometry(),
            final(self).spec_physics().spec_boxes() == old(self).spec_physics().spec_boxes(),
            final(self).spec_physics().spec_interaction().spec_default_policy() == policy,
            final(self).spec_physics().spec_interaction().categories() == old(self).spec_physics().spec_interaction().categories(),
            final(self).spec_physics().spec_interaction().symmetric() == old(self).spec_physics().spec_interaction().symmetric(),
            final(self).spec_physics().spec_interaction().directional() == old(self).spec_physics().spec_interaction().directional(),
    {
        self.physics.set_default_interaction_policy(policy);
    }

    pub fn set_pair_interaction_policy(
        &mut self,
        left: InteractionCategory3d,
        right: InteractionCategory3d,
        policy: InteractionPolicy3d,
    ) -> (previous: Option<InteractionPolicy3d>)
        ensures
            final(self).spec_fixed_geometry() == old(self).spec_fixed_geometry(),
            final(self).spec_physics().spec_boxes() == old(self).spec_physics().spec_boxes(),
            final(self).spec_physics().spec_interaction().symmetric() == old(self).spec_physics().spec_interaction().symmetric().insert(
                crate::interaction_policy::canonical_key(left.0, right.0),
                policy,
            ),
            previous == (if old(self).spec_physics().spec_interaction().symmetric().contains_key(
                crate::interaction_policy::canonical_key(left.0, right.0),
            ) {
                Some(
                    old(self).spec_physics().spec_interaction().symmetric()[crate::interaction_policy::canonical_key(
                        left.0,
                        right.0,
                    )],
                )
            } else {
                None
            }),
            final(self).spec_physics().spec_interaction().categories() == old(self).spec_physics().spec_interaction().categories(),
            final(self).spec_physics().spec_interaction().directional() == old(self).spec_physics().spec_interaction().directional(),
    {
        self.physics.set_pair_interaction_policy(left, right, policy)
    }

    pub fn set_directional_interaction_policy(
        &mut self,
        source: InteractionCategory3d,
        target: InteractionCategory3d,
        policy: InteractionPolicy3d,
    ) -> (previous: Option<InteractionPolicy3d>)
        ensures
            final(self).spec_fixed_geometry() == old(self).spec_fixed_geometry(),
            final(self).spec_physics().spec_boxes() == old(self).spec_physics().spec_boxes(),
            final(self).spec_physics().spec_interaction().directional() == old(self).spec_physics().spec_interaction().directional().insert((source.0, target.0), policy),
            previous == (if old(self).spec_physics().spec_interaction().directional().contains_key(
                (source.0, target.0),
            ) {
                Some(old(self).spec_physics().spec_interaction().directional()[(source.0, target.0)])
            } else {
                None
            }),
            final(self).spec_physics().spec_interaction().categories() == old(self).spec_physics().spec_interaction().categories(),
            final(self).spec_physics().spec_interaction().symmetric() == old(self).spec_physics().spec_interaction().symmetric(),
    {
        self.physics.set_directional_interaction_policy(source, target, policy)
    }

    /// Switches between runtime preparation and retained prepare-at-load geometry; enabling the
    /// latter immediately retains every currently registered genuine fixed body.
    pub fn set_fixed_geometry_preparation_mode(&mut self, mode: FixedGeometryPreparationMode3d)
        ensures
            final(self).spec_physics() == old(self).spec_physics(),
            final(self).spec_fixed_geometry().spec_mode() == mode,
            forall|id: u64|
                final(self).spec_fixed_geometry().spec_prepared().contains_key(id) <==> (mode
                    == FixedGeometryPreparationMode3d::PrepareAtLoad && exists|k: int|
                    0 <= k < old(self).spec_physics().spec_boxes().len() && (#[trigger] old(self).spec_physics().spec_boxes()[k]).body.id.0 == id && old(self).spec_physics().spec_boxes()[k].body.kind == BodyKind::Fixed),
    {
        self.fixed_geometry.set_mode(mode, self.physics.boxes());
    }

    pub fn fixed_geometry_preparation_stats(&self) -> (stats: FixedGeometryPreparationStats3d)
        ensures
            stats.mode == self.spec_fixed_geometry().spec_mode(),
            stats.prepared_body_count == self.spec_fixed_geometry().spec_prepared().len(),
            stats.total_preparations == self.spec_fixed_geometry().spec_total_preparations(),
    {
        self.fixed_geometry.stats()
    }

    /// Adds one body to the authoritative world; the fixed-geometry preparation registers it only
    /// after the world accepted it.
    pub fn add_box(&mut self, rigid_box: RigidBox3d) -> (result: Result<(), RotatingWorldError3d>)
        ensures
            final(self).spec_physics().spec_config() == old(self).spec_physics().spec_config(),
            final(self).spec_physics().spec_interaction() == old(self).spec_physics().spec_interaction(),
            match result {
                Err(error) => holds_id(old(self).spec_physics().spec_boxes(), rigid_box.body.id)
                    && error == RotatingWorldError3d::DuplicateBody(rigid_box.body.id) && final(self).spec_physics().spec_boxes() == old(self).spec_physics().spec_boxes() && final(self).spec_fixed_geometry() == old(self).spec_fixed_geometry(),
                Ok(()) => {
                    &&& !holds_id(old(self).spec_physics().spec_boxes(), rigid_box.body.id)
                    &&& forall|b: RigidBox3d|
                        final(self).spec_physics().spec_boxes().contains(b) <==> (old(self).spec_physics().spec_boxes().contains(b) || b == rigid_box)
                    &&& final(self).spec_fixed_geometry().spec_mode() == old(self).spec_fixed_geometry().spec_mode()
                    &&& if old(self).spec_fixed_geometry().spec_mode()
                        == FixedGeometryPreparationMode3d::PrepareAtLoad && rigid_box.body.kind
                        == BodyKind::Fixed {
                        final(self).spec_fixed_geometry().spec_prepared() == old(self).spec_fixed_geometry().spec_prepared().insert(
                            rigid_box.body.id.0,
                            rigid_box.spec_oriented_box(),
                        )
                    } else {
                        final(self).spec_fixed_geometry().spec_prepared() == old(self).spec_fixed_geometry().spec_prepared() && final(self).spec_fixed_geometry().spec_total_preparations() == old(self).spec_fixed_geometry().spec_total_preparations()
                    }
                },
            },
    {
        let copy = rigid_box;
        let ghost old_boxes = self.physics.spec_boxes();
        match self.physics.add_box(rigid_box) {
            Ok(()) => {},
            Err(error) => return Err(error),
        }
        assert(!holds_id(old_boxes, copy.body.id));
        assert(forall|b: RigidBox3d| self.physics.spec_boxes().contains(b) <==> (old_boxes.contains(b)
            || b == copy));
        self.fixed_geometry.register_fixed(&copy);
        Ok(())
    }

    /// Removes one body and drops any retained preparation for it.
    pub fn remove_box(&mut self, entity: BodyId) -> (removed: Option<RigidBox3d>)
        ensures
            final(self).spec_physics().spec_config() == old(self).spec_physics().spec_config(),
            final(self).spec_physics().spec_interaction().categories() == old(self).spec_physics().spec_interaction().categories().remove(entity.0),
            match removed {
                None => !holds_id(old(self).spec_physics().spec_boxes(), entity) && final(self).spec_physics().spec_boxes() == old(self).spec_physics().spec_boxes() && final(self).spec_fixed_geometry() == old(self).spec_fixed_geometry(),
                Some(rigid_box) => {
                    &&& rigid_box.body.id == entity
                    &&& old(self).spec_physics().spec_boxes().contains(rigid_box)
                    &&& forall|b: RigidBox3d|
                        final(self).spec_physics().spec_boxes().contains(b) <==> (old(self).spec_physics().spec_boxes().contains(b) && b.body.id != entity)
                    &&& final(self).spec_fixed_geometry().spec_prepared() == old(self).spec_fixed_geometry().spec_prepared().remove(entity.0)
                    &&& final(self).spec_fixed_geometry().spec_mode() == old(self).spec_fixed_geometry().spec_mode()
                },
            },
    {
        let removed = match self.physics.remove_box(entity) {
            Some(removed) => removed,
            None => return None,
        };
        self.fixed_geometry.unregister(entity);
        Some(removed)
    }

    pub fn box_by_id(&self, entity: BodyId) -> (found: Option<&RigidBox3d>)
        ensures
            match found {
                Some(rigid_box) => rigid_box.body.id == entity && self.spec_physics().spec_boxes().contains(
                    *rigid_box,
                ),
                None => !holds_id(self.spec_physics().spec_boxes(), entity),
            },
    {
        self.physics.box_by_id(entity)
    }

    /// The bodies in stable entity-id order.
    pub fn boxes(&self) -> (boxes: &[RigidBox3d])
        ensures
            boxes@ == self.spec_physics().spec_boxes(),
            ids_ascending(boxes@),
    {
        self.physics.boxes()
    }

    /// The live entity ids in stable order.
    pub fn entities(&self) -> (entities: Vec<BodyId>)
        ensures
            entities@.len() == self.spec_physics().spec_boxes().len(),
            forall|k: int|
                0 <= k < entities@.len() ==> #[trigger] entities@[k] == self.spec_physics().spec_boxes()[k].body.id,
    {
        let boxes = self.physics.boxes();
        let mut entities: Vec<BodyId> = Vec::new();
        let mut index: usize = 0;
        while index < boxes.len()
            invariant
                0 <= index <= boxes@.len(),
                boxes@ == self.spec_physics().spec_boxes(),
                entities@.len() == index,
                forall|k: int| 0 <= k < index ==> #[trigger] entities@[k] == boxes@[k].body.id,
            decreases boxes.len() - index,
        {
            entities.push(boxes[index].body.id);
            index = index + 1;
        }
        entities
    }

    pub fn entity_count(&self) -> (count: usize)
        ensures
            count == self.spec_physics().spec_boxes().len(),
    {
        self.physics.boxes().len()
    }

    pub fn set_linear_velocity(&mut self, entity: BodyId, velocity: Vec3i) -> (result: Result<
        (),
        RotatingWorldError3d,
    >)
        ensures
            final(self).spec_fixed_geometry() == old(self).spec_fixed_geometry(),
            final(self).spec_physics().spec_config() == old(self).spec_physics().spec_config(),
            match result {
                Ok(()) => velocity_update(old(self).spec_physics().spec_boxes(), entity, velocity)
                    == Ok::<Seq<RigidBox3d>, RotatingWorldError3d>(
                    final(self).spec_physics().spec_boxes(),
                ),
                Err(error) => velocity_update(old(self).spec_physics().spec_boxes(), entity, velocity)
                    == Err::<Seq<RigidBox3d>, RotatingWorldError3d>(error) && final(self).spec_physics().spec_boxes() == old(self).spec_physics().spec_boxes(),
            },
    {
        self.physics.set_linear_velocity(entity, velocity)
    }

    /// Steps the physics state by `timestep_numerator / timestep_denominator` ticks; see
    /// [`RotatingWorld3d::step`]. The prepared fixed geometry is kept.
    pub fn step(&mut self, timestep_numerator: i32, timestep_denominator: i32) -> (result: Result<
        RotatingWorldStepReport3d,
        RotatingWorldError3d,
    >)
        ensures
            final(self).spec_fixed_geometry() == old(self).spec_fixed_geometry(),
            final(self).spec_physics().spec_config() == old(self).spec_physics().spec_config(),
            match world_step(
                old(self).spec_physics().spec_boxes(),
                old(self).spec_physics().spec_config(),
                timestep_numerator,
                timestep_denominator,
            ) {
                Err(error) => result == Err::<RotatingWorldStepReport3d, RotatingWorldError3d>(error)
                    && final(self).spec_physics().spec_boxes() == old(self).spec_physics().spec_boxes(),
                Ok(next) => {
                    &&& final(self).spec_physics().spec_boxes() == next
                    &&& result matches Ok(report)
                    &&& report.changed_body_ids@ == changed_ids(
                        old(self).spec_physics().spec_boxes(),
                        next,
                        next.len(),
                    )
                },
            },
    {
        self.physics.step(timestep_numerator, timestep_denominator)
    }

    /// Stable id-ordered overlaps of an arbitrary oriented query box.
    pub fn overlap_query(&self, query: OrientedBox3d) -> (result: Result<
        Vec<BodyId>,
        RotatingWorldError3d,
    >)
        ensures
            reports_ids(result, overlap_query_result(self.spec_physics().spec_boxes(), query)),
    {
        self.physics.overlap_query(query)
    }

    /// Exact current contacts of one known entity.
    pub fn body_contacts(&self, body: BodyId) -> (result: Result<
        Vec<BodyCurrentContact3d>,
        RotatingWorldError3d,
    >)
        ensures
            reports_contacts(result, body_contacts_result(self.spec_physics().spec_boxes(), body)),
    {
        self.physics.body_contacts(body)
    }
}

} // verus!
