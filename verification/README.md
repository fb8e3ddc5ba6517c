# physics_engine

Deterministic, integer-only physics primitives for rotating rigid boxes, written in Verus.
Every executable function carries a `requires`/`ensures` contract that Verus proves; there is
no floating point and no trusted code.

## Layout

- `src/math.rs`, `src/wide.rs`, `src/angular.rs`: fixed-point vectors, exact wide products and
  ratio comparisons, orientations, angular velocity, inertia and integer square roots.
- `src/body.rs`, `src/rigid_box.rs`, `src/oriented_box.rs`: bodies, boxes and the exact SAT
  contact seed between oriented boxes.
- `src/rotational_sweep.rs`, `src/rigid_box_free_flight.rs`: conservative sweep bounds and exact
  free-flight sampling over a rational timestep.
- `src/rotating_broad_phase.rs`: candidate pairs whose sweep bounds overlap, and a persistent
  broad phase that keeps a fattened envelope per body: a query whose bodies all stay inside their
  envelopes reuses them, a few escapes are refreshed incrementally, and a membership change or a
  majority of escapes rebuilds; partial current-position queries update only the changed bodies.
- `src/rotating_contact_search*.rs`, `src/rotating_recontact_search*.rs`,
  `src/rotating_new_contact_search.rs`: sampled first-contact and re-contact search, pair by pair
  and in global time order, with proofs that both orders find the same hit.
- `src/rotating_contact_frontier.rs`, `src/obb_response.rs`, `src/obb_friction.rs`,
  `src/rotating_contact_response.rs`: contact frontiers and their impulse response, with
  Coulomb friction kept inside its cone.
- `src/repeated_rotating_events.rs`: bounded repeated sampled-event advancement, with exact
  rational reduction of the remaining interval and stabilization of the contact islands that an
  event moved.
- `src/persistent_tail.rs`: the interval left after the events, consumed in slices short enough
  that bodies in persistent contact cannot pass through each other, replayed with more slices
  when a body could move too far.
- `src/interaction_policy.rs`, `src/linear_contact.rs`, `src/fixed_geometry.rs`,
  `src/rotating_world.rs`, `src/ecs_world.rs`: interaction policies, geometry preparation and
  the world that owns and steps the boxes.
- `tests/`: executable tests on concrete values.

## Scope

The world steps every body through the sampled events and the persistent tail. Every body is a
solid participant, and the dynamic ones receive a response; there is no sleeping or parking of
bodies, no ballistic spheres, no current-contact graph cache, and the persistent broad phase keeps
exact envelopes per body rather than a bounding-volume tree. Stabilization after an event
re-derives the current contacts instead of caching them between passes.
Timesteps are `i32` ratios: a remaining interval whose exact reduction leaves `i32` is refused.

The sweep bounds enclose the sphere of radius `ceil(|half extents|)` around every admissible
center. Vertices quantized through the fixed-point rotation can lie slightly outside that sphere.
