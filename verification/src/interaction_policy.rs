use std::collections::BTreeMap;

use vstd::prelude::*;

use crate::body::BodyId;

verus! {

broadcast use vstd::laws_cmp::group_laws_cmp;

/// Stable, consumer-defined interaction category used to select pair behavior.
///
/// Category `0` is the default category of every body without an explicit assignment.
#[derive(Clone, Copy, Debug, PartialEq, Eq, Structural, Hash, PartialOrd, Ord)]
pub struct InteractionCategory3d(pub u16);

impl InteractionCategory3d {
    pub fn new(value: u16) -> (category: InteractionCategory3d)
        ensures
            category.0 == value,
    {
        InteractionCategory3d(value)
    }

    /// The category of every body without an explicit assignment.
    pub fn default_category() -> (category: InteractionCategory3d)
        ensures
            category.0 == 0,
    {
        InteractionCategory3d(0)
    }

    pub fn value(self) -> (value: u16)
        ensures
            value == self.0,
    {
        self.0
    }
}

impl Default for InteractionCategory3d {
    fn default() -> (category: InteractionCategory3d)
        ensures
            category.0 == 0,
    {
        InteractionCategory3d(0)
    }
}

/// Pair-specific simulation budget.
///
/// `None` keeps the engine's fixed-boundary stabilization budget; `Some(limit)` caps that stage for
/// the resolved category pair. A pair policy may reduce an engine hard limit but never raise it.
#[derive(Clone, Copy, Debug, PartialEq, Eq, Structural, Hash)]
pub struct InteractionPolicy3d {
    pub fixed_boundary_stabilization_pass_limit: Option<u8>,
}

impl Default for InteractionPolicy3d {
    fn default() -> (policy: InteractionPolicy3d)
        ensures
            policy.fixed_boundary_stabilization_pass_limit is None,
    {
        InteractionPolicy3d { fixed_boundary_stabilization_pass_limit: None }
    }
}

/// The engine budget that remains after applying a pair's optional cap.
pub open spec fn resolved_pass_limit(configured: Option<u8>, engine_limit: u8) -> u8 {
    match configured {
        Some(limit) => if limit < engine_limit {
            limit
        } else {
            engine_limit
        },
        None => engine_limit,
    }
}

impl InteractionPolicy3d {
    pub fn with_fixed_boundary_stabilization_pass_limit(self, limit: u8) -> (policy:
        InteractionPolicy3d)
        ensures
            policy.fixed_boundary_stabilization_pass_limit == Some(limit),
    {
        InteractionPolicy3d { fixed_boundary_stabilization_pass_limit: Some(limit) }
    }

    pub fn configured_fixed_boundary_stabilization_pass_limit(self) -> (limit: Option<u8>)
        ensures
            limit == self.fixed_boundary_stabilization_pass_limit,
    {
        self.fixed_boundary_stabilization_pass_limit
    }

    /// Resolves this pair's configured budget against the engine-owned hard limit.
    pub fn fixed_boundary_stabilization_pass_limit(self, engine_limit: u8) -> (limit: u8)
        ensures
            limit == resolved_pass_limit(self.fixed_boundary_stabilization_pass_limit, engine_limit),
            limit <= engine_limit,
    {
        match self.fixed_boundary_stabilization_pass_limit {
            Some(limit) => if limit < engine_limit {
                limit
            } else {
                engine_limit
            },
            None => engine_limit,
        }
    }
}

/// Orders a category pair so that symmetric lookups ignore argument order.
pub open spec fn canonical_key(left: u16, right: u16) -> (u16, u16) {
    if left <= right {
        (left, right)
    } else {
        (right, left)
    }
}

fn canonical_pair(left: InteractionCategory3d, right: InteractionCategory3d) -> (key: (u16, u16))
    ensures
        key == canonical_key(left.0, right.0),
{
    if left.0 <= right.0 {
        (left.0, right.0)
    } else {
        (right.0, left.0)
    }
}

/// Deterministic interaction-category and pair-policy registry.
///
/// Resolution order is directional override, symmetric pair override, then the default policy.
#[derive(Clone, Debug, PartialEq, Eq)]
pub struct InteractionPolicies3d {
    default_policy: InteractionPolicy3d,
    body_categories: BTreeMap<u64, u16>,
    symmetric_pairs: BTreeMap<(u16, u16), InteractionPolicy3d>,
    directional_pairs: BTreeMap<(u16, u16), InteractionPolicy3d>,
}

impl Default for InteractionPolicies3d {
    fn default() -> (policies: InteractionPolicies3d)
        ensures
            policies.spec_default_policy().fixed_boundary_stabilization_pass_limit is None,
            policies.categories() == Map::<u64, u16>::empty(),
            policies.symmetric() == Map::<(u16, u16), InteractionPolicy3d>::empty(),
            policies.directional() == Map::<(u16, u16), InteractionPolicy3d>::empty(),
    {
        InteractionPolicies3d::new()
    }
}

/// The category of `body` under the explicit assignments `categories`.
pub open spec fn category_of(categories: Map<u64, u16>, body: u64) -> u16 {
    if categories.contains_key(body) {
        categories[body]
    } else {
        0
    }
}

/// The policy resolved for the ordered category pair `(source, target)`.
pub open spec fn resolve_policy(
    directional: Map<(u16, u16), InteractionPolicy3d>,
    symmetric: Map<(u16, u16), InteractionPolicy3d>,
    default_policy: InteractionPolicy3d,
    source: u16,
    target: u16,
) -> InteractionPolicy3d {
    if directional.contains_key((source, target)) {
        directional[(source, target)]
    } else if symmetric.contains_key(canonical_key(source, target)) {
        symmetric[canonical_key(source, target)]
    } else {
        default_policy
    }
}

impl InteractionPolicies3d {
    /// The policy used when no override applies.
    pub closed spec fn spec_default_policy(&self) -> InteractionPolicy3d {
        self.default_policy
    }

    /// Explicit body-category assignments (never holds the default category `0`).
    pub closed spec fn categories(&self) -> Map<u64, u16> {
        self.body_categories@
    }

    /// Symmetric overrides, keyed by canonically ordered category pairs.
    pub closed spec fn symmetric(&self) -> Map<(u16, u16), InteractionPolicy3d> {
        self.symmetric_pairs@
    }

    /// Ordered (directional) overrides.
    pub closed spec fn directional(&self) -> Map<(u16, u16), InteractionPolicy3d> {
        self.directional_pairs@
    }

    /// The policy that [`Self::policy`] resolves for an ordered category pair.
    pub open spec fn spec_policy(&self, source: u16, target: u16) -> InteractionPolicy3d {
        resolve_policy(self.directional(), self.symmetric(), self.spec_default_policy(), source, target)
    }

    pub fn new() -> (policies: InteractionPolicies3d)
        ensures
            policies.spec_default_policy().fixed_boundary_stabilization_pass_limit is None,
            policies.categories() == Map::<u64, u16>::empty(),
            policies.symmetric() == Map::<(u16, u16), InteractionPolicy3d>::empty(),
            policies.directional() == Map::<(u16, u16), InteractionPolicy3d>::empty(),
    {
        InteractionPolicies3d {
            default_policy: InteractionPolicy3d { fixed_boundary_stabilization_pass_limit: None },
            body_categories: BTreeMap::new(),
            symmetric_pairs: BTreeMap::new(),
            directional_pairs: BTreeMap::new(),
        }
    }

    pub fn default_policy(&self) -> (policy: InteractionPolicy3d)
        ensures
            policy == self.spec_default_policy(),
    {
        self.default_policy
    }

    pub fn set_default_policy(&mut self, policy: InteractionPolicy3d)
        ensures
            final(self).spec_default_policy() == policy,
            final(self).categories() == old(self).categories(),
            final(self).symmetric() == old(self).symmetric(),
            final(self).directional() == old(self).directional(),
    {
        self.default_policy = policy;
    }

    /// Assigns one body to a category. Assigning the default category removes explicit state.
    pub fn set_body_category(&mut self, body: BodyId, category: InteractionCategory3d) -> (previous:
        Option<InteractionCategory3d>)
        ensures
            category.0 == 0 ==> final(self).categories() == old(self).categories().remove(body.0),
            category.0 != 0 ==> final(self).categories() == old(self).categories().insert(
                body.0,
                category.0,
            ),
            previous == (if old(self).categories().contains_key(body.0) {
                Some(InteractionCategory3d(old(self).categories()[body.0]))
            } else {
                None
            }),
            final(self).spec_default_policy() == old(self).spec_default_policy(),
            final(self).symmetric() == old(self).symmetric(),
            final(self).directional() == old(self).directional(),
    {
        let previous = if category.0 == 0 {
            self.body_categories.remove(&body.0)
        } else {
            self.body_categories.insert(body.0, category.0)
        };
        match previous {
            Some(value) => Some(InteractionCategory3d(value)),
            None => None,
        }
    }

    pub fn clear_body_category(&mut self, body: BodyId) -> (previous: Option<
        InteractionCategory3d,
    >)
        ensures
            final(self).categories() == old(self).categories().remove(body.0),
            previous == (if old(self).categories().contains_key(body.0) {
                Some(InteractionCategory3d(old(self).categories()[body.0]))
            } else {
                None
            }),
            final(self).spec_default_policy() == old(self).spec_default_policy(),
            final(self).symmetric() == old(self).symmetric(),
            final(self).directional() == old(self).directional(),
    {
        match self.body_categories.remove(&body.0) {
            Some(value) => Some(InteractionCategory3d(value)),
            None => None,
        }
    }

    pub fn body_category(&self, body: BodyId) -> (category: InteractionCategory3d)
        ensures
            category.0 == category_of(self.categories(), body.0),
    {
        match self.body_categories.get(&body.0) {
            Some(value) => InteractionCategory3d(*value),
            None => InteractionCategory3d(0),
        }
    }

    /// Sets a symmetric category-pair policy. Resolution is independent of argument order.
    pub fn set_pair_policy(
        &mut self,
        left: InteractionCategory3d,
        right: InteractionCategory3d,
        policy: InteractionPolicy3d,
    ) -> (previous: Option<InteractionPolicy3d>)
        ensures
            final(self).symmetric() == old(self).symmetric().insert(
                canonical_key(left.0, right.0),
                policy,
            ),
            previous == (if old(self).symmetric().contains_key(canonical_key(left.0, right.0)) {
                Some(old(self).symmetric()[canonical_key(left.0, right.0)])
            } else {
                None
            }),
            final(self).spec_default_policy() == old(self).spec_default_policy(),
            final(self).categories() == old(self).categories(),
            final(self).directional() == old(self).directional(),
    {
        self.symmetric_pairs.insert(canonical_pair(left, right), policy)
    }

    pub fn clear_pair_policy(&mut self, left: InteractionCategory3d, right: InteractionCategory3d) -> (previous:
        Option<InteractionPolicy3d>)
        ensures
            final(self).symmetric() == old(self).symmetric().remove(canonical_key(left.0, right.0)),
            previous == (if old(self).symmetric().contains_key(canonical_key(left.0, right.0)) {
                Some(old(self).symmetric()[canonical_key(left.0, right.0)])
            } else {
                None
            }),
            final(self).spec_default_policy() == old(self).spec_default_policy(),
            final(self).categories() == old(self).categories(),
            final(self).directional() == old(self).directional(),
    {
        let key = canonical_pair(left, right);
        self.symmetric_pairs.remove(&key)
    }

    /// Sets an ordered override for interactions whose initiator/target roles are meaningful.
    pub fn set_directional_policy(
        &mut self,
        source: InteractionCategory3d,
        target: InteractionCategory3d,
        policy: InteractionPolicy3d,
    ) -> (previous: Option<InteractionPolicy3d>)
        ensures
            final(self).directional() == old(self).directional().insert((source.0, target.0), policy),
            previous == (if old(self).directional().contains_key((source.0, target.0)) {
                Some(old(self).directional()[(source.0, target.0)])
            } else {
                None
            }),
            final(self).spec_default_policy() == old(self).spec_default_policy(),
            final(self).categories() == old(self).categories(),
            final(self).symmetric() == old(self).symmetric(),
    {
        self.directional_pairs.insert((source.0, target.0), policy)
    }

    pub fn clear_directional_policy(
        &mut self,
        source: InteractionCategory3d,
        target: InteractionCategory3d,
    ) -> (previous: Option<InteractionPolicy3d>)
        ensures
            final(self).directional() == old(self).directional().remove((source.0, target.0)),
            previous == (if old(self).directional().contains_key((source.0, target.0)) {
                Some(old(self).directional()[(source.0, target.0)])
            } else {
                None
            }),
            final(self).spec_default_policy() == old(self).spec_default_policy(),
            final(self).categories() == old(self).categories(),
            final(self).symmetric() == old(self).symmetric(),
    {
        let key = (source.0, target.0);
        self.directional_pairs.remove(&key)
    }

    /// Resolves one ordered category interaction.
    pub fn policy(&self, source: InteractionCategory3d, target: InteractionCategory3d) -> (policy:
        InteractionPolicy3d)
        ensures
            policy == self.spec_policy(source.0, target.0),
    {
        let directional_key = (source.0, target.0);
        match self.directional_pairs.get(&directional_key) {
            Some(policy) => *policy,
            None => {
                let key = canonical_pair(source, target);
                match self.symmetric_pairs.get(&key) {
                    Some(policy) => *policy,
                    None => self.default_policy,
                }
            },
        }
    }

    /// Resolves one ordered body interaction through the current body/category assignments.
    pub fn policy_for_bodies(&self, source: BodyId, target: BodyId) -> (policy: InteractionPolicy3d)
        ensures
            policy == self.spec_policy(
                category_of(self.categories(), source.0),
                category_of(self.categories(), target.0),
            ),
    {
        self.policy(self.body_category(source), self.body_category(target))
    }
}

/// Symmetric overrides are independent of argument order: without directional overrides for either
/// ordering, `(a, b)` and `(b, a)` resolve to the same policy.
pub proof fn lemma_symmetric_resolution_is_order_independent(
    policies: InteractionPolicies3d,
    left: u16,
    right: u16,
)
    requires
        !policies.directional().contains_key((left, right)),
        !policies.directional().contains_key((right, left)),
    ensures
        policies.spec_policy(left, right) == policies.spec_policy(right, left),
{
}

/// A directional override applies to its ordered pair only: setting `(source, target)` changes the
/// resolution of that ordered pair to the new policy and leaves every other ordered pair unchanged.
pub proof fn lemma_directional_override_is_local(
    before: InteractionPolicies3d,
    after: InteractionPolicies3d,
    source: u16,
    target: u16,
    policy: InteractionPolicy3d,
    other_source: u16,
    other_target: u16,
)
    requires
        after.directional() == before.directional().insert((source, target), policy),
        after.symmetric() == before.symmetric(),
        after.spec_default_policy() == before.spec_default_policy(),
    ensures
        after.spec_policy(source, target) == policy,
        (other_source, other_target) != (source, target) ==> after.spec_policy(
            other_source,
            other_target,
        ) == before.spec_policy(other_source, other_target),
{
}

/// A pair budget can only reduce the engine's hard limit: the resolved limit is the configured cap
/// when it is below the engine limit, and the engine limit otherwise.
pub proof fn lemma_pass_limit_never_exceeds_engine(policy: InteractionPolicy3d, engine_limit: u8)
    ensures
        resolved_pass_limit(policy.fixed_boundary_stabilization_pass_limit, engine_limit)
            <= engine_limit,
        policy.fixed_boundary_stabilization_pass_limit is None ==> resolved_pass_limit(
            policy.fixed_boundary_stabilization_pass_limit,
            engine_limit,
        ) == engine_limit,
{
}

/// Assigning the default category removes the body's explicit assignment, so it resolves to the
/// default category afterwards.
pub proof fn lemma_default_assignment_resolves_to_default(
    before: Map<u64, u16>,
    body: u64,
)
    ensures
        category_of(before.remove(body), body) == 0,
{
}

} // verus!
