//! Deterministic integer physics primitives for rotating rigid boxes.
mod angular;
mod body;
mod ecs_world;
mod fixed_geometry;
mod interaction_policy;
pub mod linear_contact;
mod math;
mod numeric;
mod persistent_tail;
mod repeated_rotating_events;
pub mod obb_friction;
mod obb_response;
mod oriented_box;
mod query;
mod rigid_box;
mod rigid_box_free_flight;
mod rotating_broad_phase;
mod rotating_contact_frontier;
mod rotating_contact_response;
mod rotating_contact_search;
pub mod rotating_contact_search_ordered;
mod rotating_new_contact_search;
mod rotating_recontact_search;
pub mod rotating_recontact_search_ordered;
mod rotating_world;
mod rotational_sweep;
mod wide;
mod world_query_laws;

pub use angular::{
    ANGULAR_VELOCITY_SCALE, AngularError3d, AngularState3d, AngularVelocity3d, BoxInertia3d,
    ORIENTATION_SCALE, Orientation3d, box_inertia, integer_sqrt,
};
pub use body::{BodyId, BodyKind, MATERIAL_SCALE, Material, RigidBody};
pub use ecs_world::EcsRotatingWorld3d;
pub use fixed_geometry::{
    FIXED_GEOMETRY_PREPARATION_VERSION, FixedGeometryPreparationCache3d,
    FixedGeometryPreparationMode3d, FixedGeometryPreparationStats3d, PreparedFixedGeometry3d,
    exact_bounds,
};
pub use linear_contact::{
    current_shape_is_passive_support, sweep_is_passive_support, uses_linear_response,
};
pub use math::Vec3i;
pub use interaction_policy::{
    InteractionCategory3d, InteractionPolicies3d, InteractionPolicy3d, canonical_key, category_of,
    resolve_policy, resolved_pass_limit,
};
pub use numeric::{NUMERICAL_BACKEND, NumericalBackend};
pub use obb_response::{
    ObbContactResponse3d, ObbContactResponseError3d, ObbResolvedContact3d, resolve_obb_contact,
    scale_ratio_vector,
};
pub use oriented_box::{
    ObbAxisFeature3d, ObbContactSeed3d, OrientedBox3d, OrientedBoxError3d, obb_contact_seed,
    oriented_box_vertices,
};
pub use query::{Aabb, QueryError, Ray};
pub use rigid_box::{
    CollisionLayers3d, ContactMode3d, ContactPersistence3d, RigidBox3d, RigidBoxError3d,
};
pub use repeated_rotating_events::{
    MAX_REPEATED_ROTATING_EVENTS, RepeatedRotatingEventAdvance3d, RepeatedRotatingEventConfig3d,
    RepeatedRotatingEventError3d, RepeatedRotatingEventWorkStats3d, RotatingResolvedEvent3d,
    advance_repeated_rotating_events,
};
pub use rigid_box_free_flight::{
    RigidBoxFreeFlightConfig3d, RigidBoxFreeFlightError3d, rigid_box_free_flight_sweep_bounds,
    sample_rigid_box_free_flight,
};
pub use wide::{compare_squared_ratios, wide_product};
pub use rotating_broad_phase::{
    RotatingBroadPhase3d, RotatingBroadPhaseError3d, RotatingBroadPhaseStats3d,
    RotationalSweepPair3d, rotational_sweep_candidate_pairs,
};
pub use rotating_contact_frontier::{
    RotatingContactFrontier3d, RotatingContactFrontierError3d, earliest_rotating_contact_frontier,
    next_rotating_contact_frontier,
};
pub use rotating_contact_response::{
    RotatingContactResponse3d, RotatingContactResponseError3d, RotatingContactResponseScratch3d,
    resolve_rotating_contact_frontier, resolve_rotating_contact_frontier_with_scratch,
};
pub use rotating_contact_search::{
    CoarseSampleCache3d, MAX_CACHED_COARSE_SAMPLES, PairContactCache3d, RotatingContactSearchConfig3d,
    RotatingContactSearchError3d, RotatingContactSearchHit3d, SampledContactTime3d,
    sampled_rotating_contact_search,
};
pub use rotating_new_contact_search::sampled_new_rotating_contact_search;
pub use rotating_recontact_search::{
    sampled_rotating_recontact_search, sampled_rotating_recontact_search_with_persistent_pairs,
};
pub use rotating_world::{
    BodyCurrentContact3d, RotatingWorld3d, RotatingWorldConfig3d, RotatingWorldError3d,
    RotatingWorldStepReport3d, RotatingWorldStepStats3d,
};
pub use rotational_sweep::{
    RotationalSweepBounds3d, RotationalSweepError3d, rotational_sweep_bounds,
    rotational_sweep_bounds_for_center_interval,
};
