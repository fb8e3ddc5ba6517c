use physics_engine::{BodyId, InteractionCategory3d, InteractionPolicies3d, InteractionPolicy3d};

const CHARACTER: InteractionCategory3d = InteractionCategory3d(1);
const CRATE: InteractionCategory3d = InteractionCategory3d(2);
const GROUND: InteractionCategory3d = InteractionCategory3d(3);

#[test]
fn symmetric_pair_policy_is_order_independent() {
    let mut policies = InteractionPolicies3d::default();
    let cheap_resting =
        InteractionPolicy3d::default().with_fixed_boundary_stabilization_pass_limit(2);
    policies.set_pair_policy(CRATE, GROUND, cheap_resting);

    assert_eq!(policies.policy(CRATE, GROUND), cheap_resting);
    assert_eq!(policies.policy(GROUND, CRATE), cheap_resting);
}

#[test]
fn directional_override_wins_only_for_its_ordered_pair() {
    let mut policies = InteractionPolicies3d::default();
    let ordinary = InteractionPolicy3d::default().with_fixed_boundary_stabilization_pass_limit(4);
    let character_push =
        InteractionPolicy3d::default().with_fixed_boundary_stabilization_pass_limit(1);
    policies.set_pair_policy(CHARACTER, CRATE, ordinary);
    policies.set_directional_policy(CHARACTER, CRATE, character_push);

    assert_eq!(policies.policy(CHARACTER, CRATE), character_push);
    assert_eq!(policies.policy(CRATE, CHARACTER), ordinary);
}

#[test]
fn body_categories_drive_pair_resolution_without_becoming_material_state() {
    let character = BodyId(10);
    let crate_body = BodyId(20);
    let mut policies = InteractionPolicies3d::default();
    let tuned = InteractionPolicy3d::default().with_fixed_boundary_stabilization_pass_limit(3);
    policies.set_body_category(character, CHARACTER);
    policies.set_body_category(crate_body, CRATE);
    policies.set_pair_policy(CHARACTER, CRATE, tuned);

    assert_eq!(policies.policy_for_bodies(character, crate_body), tuned);
    assert_eq!(
        policies.body_category(BodyId(30)),
        InteractionCategory3d::default_category()
    );
}

#[test]
fn pair_budget_can_only_reduce_the_engine_hard_limit() {
    let unrestricted = InteractionPolicy3d::default();
    let cheap = InteractionPolicy3d::default().with_fixed_boundary_stabilization_pass_limit(2);
    let oversized = InteractionPolicy3d::default().with_fixed_boundary_stabilization_pass_limit(24);

    assert_eq!(unrestricted.fixed_boundary_stabilization_pass_limit(16), 16);
    assert_eq!(cheap.fixed_boundary_stabilization_pass_limit(16), 2);
    assert_eq!(oversized.fixed_boundary_stabilization_pass_limit(16), 16);
}

#[test]
fn resetting_body_to_default_category_removes_explicit_assignment() {
    let body = BodyId(7);
    let mut policies = InteractionPolicies3d::default();
    policies.set_body_category(body, CRATE);
    assert_eq!(policies.body_category(body), CRATE);

    policies.set_body_category(body, InteractionCategory3d::default_category());
    assert_eq!(
        policies.body_category(body),
        InteractionCategory3d::default_category()
    );
}

#[test]
fn category_values_round_trip_and_clear_returns_previous_assignment() {
    assert_eq!(InteractionCategory3d::new(9).value(), 9);
    let mut policies = InteractionPolicies3d::default();
    assert_eq!(policies.set_body_category(BodyId(1), CRATE), None);
    assert_eq!(policies.set_body_category(BodyId(1), GROUND), Some(CRATE));
    assert_eq!(policies.clear_body_category(BodyId(1)), Some(GROUND));
    assert_eq!(policies.clear_body_category(BodyId(1)), None);
}

#[test]
fn clearing_overrides_restores_the_default_policy() {
    let mut policies = InteractionPolicies3d::default();
    let fallback = InteractionPolicy3d::default().with_fixed_boundary_stabilization_pass_limit(5);
    let pair = InteractionPolicy3d::default().with_fixed_boundary_stabilization_pass_limit(2);
    policies.set_default_policy(fallback);
    assert_eq!(policies.default_policy(), fallback);
    policies.set_pair_policy(GROUND, CRATE, pair);
    policies.set_directional_policy(CRATE, GROUND, pair);
    assert_eq!(policies.clear_pair_policy(CRATE, GROUND), Some(pair));
    assert_eq!(policies.policy(GROUND, CRATE), fallback);
    assert_eq!(policies.policy(CRATE, GROUND), pair);
    assert_eq!(policies.clear_directional_policy(CRATE, GROUND), Some(pair));
    assert_eq!(policies.policy(CRATE, GROUND), fallback);
    assert_eq!(
        pair.configured_fixed_boundary_stabilization_pass_limit(),
        Some(2)
    );
    assert_eq!(
        InteractionPolicy3d::default().configured_fixed_boundary_stabilization_pass_limit(),
        None
    );
}
