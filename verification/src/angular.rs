use vstd::prelude::*;

use crate::body::{BodyKind, RigidBody};
use crate::math::round_div;
use crate::obb_response::{lemma_rounded_quotient_bounded, signed_round_div};

verus! {

/// Fixed-point scale of one quaternion unit: a unit quaternion has norm `ORIENTATION_SCALE`.
pub const ORIENTATION_SCALE: i32 = 1_073_741_824;

/// Fixed-point scale of angular velocity components (one radian per tick).
pub const ANGULAR_VELOCITY_SCALE: i32 = 65_536;

#[derive(Clone, Copy, Debug, PartialEq, Eq, Structural)]
pub enum AngularError3d {
    /// The quaternion has zero norm and therefore describes no rotation.
    ZeroOrientation,
    /// A box inertia tensor collapsed to zero on some principal axis.
    DegenerateInertia,
    /// An integrated quaternion component left the `i32` range.
    ArithmeticOverflow,
}

impl AngularError3d {
    /// Human-readable description of the failure.
    pub fn message(&self) -> (text: &'static str)
        ensures
            match self {
                AngularError3d::ZeroOrientation => text@ == "orientation quaternion has zero norm"@,
                AngularError3d::DegenerateInertia => text@ == "box inertia is zero on a principal axis"@,
                AngularError3d::ArithmeticOverflow => text@
                    == "integrated orientation left the i32 range"@,
            },
    {
        match self {
            AngularError3d::ZeroOrientation => "orientation quaternion has zero norm",
            AngularError3d::DegenerateInertia => "box inertia is zero on a principal axis",
            AngularError3d::ArithmeticOverflow => "integrated orientation left the i32 range",
        }
    }
}

/// `root` is the floor square root of `value`.
pub open spec fn is_floor_sqrt(value: int, root: int) -> bool {
    &&& 0 <= root
    &&& root * root <= value
    &&& value < (root + 1) * (root + 1)
}

proof fn lemma_square_monotone(a: int, b: int)
    requires
        0 <= a,
        a <= b,
    ensures
        a * a <= b * b,
{
    assert(a * a <= b * b) by (nonlinear_arith)
        requires
            0 <= a,
            a <= b,
    ;
}

/// Floor square root of a `u128`.
pub fn integer_sqrt(value: u128) -> (root: u128)
    ensures
        is_floor_sqrt(value as int, root as int),
        root <= 0xffff_ffff_ffff_ffffu128,
{
    let mut low: u128 = 0;
    let mut high: u128 = 0x1_0000_0000_0000_0000u128;
    assert(value < high * high) by (nonlinear_arith)
        requires
            high == 0x1_0000_0000_0000_0000u128,
            value <= u128::MAX,
    ;
    while high - low > 1
        invariant
            low < high,
            high <= 0x1_0000_0000_0000_0000u128,
            low * low <= value,
            value < high * high,
        decreases high - low,
    {
        let middle = low + (high - low) / 2;
        assert(middle * middle < 0x1_0000_0000_0000_0000_0000_0000_0000_0000int) by (nonlinear_arith)
            requires
                middle < 0x1_0000_0000_0000_0000u128,
        ;
        if middle * middle <= value {
            low = middle;
        } else {
            high = middle;
        }
    }
    low
}

/// Deterministic fixed-point orientation quaternion `(x, y, z, w)`.
#[derive(Clone, Copy, Debug, PartialEq, Eq, Structural, Hash)]
pub struct Orientation3d {
    pub x: i32,
    pub y: i32,
    pub z: i32,
    pub w: i32,
}

/// Squared Euclidean norm of the raw quaternion components.
pub open spec fn norm_squared(q: Orientation3d) -> int {
    q.x * q.x + q.y * q.y + q.z * q.z + q.w * q.w
}

/// A squared quaternion norm is never negative.
pub proof fn lemma_norm_squared_nonnegative(q: Orientation3d)
    ensures
        norm_squared(q) >= 0,
{
    let x = q.x as int;
    let y = q.y as int;
    let z = q.z as int;
    let w = q.w as int;
    assert(x * x + y * y + z * z + w * w >= 0) by (nonlinear_arith);
}

/// `result` is the sign-preserving floor rescaling of component `c` for a quaternion of squared
/// norm `norm`: `|result| = floor(sqrt(c^2 * S^2 / norm))` with `S = ORIENTATION_SCALE`.
pub open spec fn normalizes_component(c: int, norm: int, result: int) -> bool {
    let target = (c * c * (ORIENTATION_SCALE as int) * (ORIENTATION_SCALE as int)) / norm;
    &&& c >= 0 ==> result >= 0 && is_floor_sqrt(target, result)
    &&& c < 0 ==> result <= 0 && is_floor_sqrt(target, -result)
}

/// `out` is the deterministic normalization of the non-zero quaternion `q`.
pub open spec fn normalizes(q: Orientation3d, out: Orientation3d) -> bool {
    let n = norm_squared(q);
    &&& normalizes_component(q.x as int, n, out.x as int)
    &&& normalizes_component(q.y as int, n, out.y as int)
    &&& normalizes_component(q.z as int, n, out.z as int)
    &&& normalizes_component(q.w as int, n, out.w as int)
}

/// The deterministic normalization of `q` (meaningful when `norm_squared(q) > 0`).
pub open spec fn spec_normalized(q: Orientation3d) -> Orientation3d {
    choose|out: Orientation3d| normalizes(q, out)
}

/// The floor square root is unique.
pub proof fn lemma_floor_sqrt_unique(value: int, a: int, b: int)
    requires
        is_floor_sqrt(value, a),
        is_floor_sqrt(value, b),
    ensures
        a == b,
{
    if a < b {
        lemma_square_monotone(a + 1, b);
    }
    if b < a {
        lemma_square_monotone(b + 1, a);
    }
}

proof fn lemma_normalizes_component_unique(c: int, n: int, r1: int, r2: int)
    requires
        normalizes_component(c, n, r1),
        normalizes_component(c, n, r2),
    ensures
        r1 == r2,
{
    let target = (c * c * (ORIENTATION_SCALE as int) * (ORIENTATION_SCALE as int)) / n;
    if c >= 0 {
        lemma_floor_sqrt_unique(target, r1, r2);
    } else {
        lemma_floor_sqrt_unique(target, -r1, -r2);
    }
}

/// Normalization is a function: a quaternion has exactly one normalization.
pub proof fn lemma_normalizes_unique(q: Orientation3d, a: Orientation3d, b: Orientation3d)
    requires
        normalizes(q, a),
        normalizes(q, b),
    ensures
        a == b,
{
    let n = norm_squared(q);
    lemma_normalizes_component_unique(q.x as int, n, a.x as int, b.x as int);
    lemma_normalizes_component_unique(q.y as int, n, a.y as int, b.y as int);
    lemma_normalizes_component_unique(q.z as int, n, a.z as int, b.z as int);
    lemma_normalizes_component_unique(q.w as int, n, a.w as int, b.w as int);
}

/// Each component of `q` has magnitude at most `ORIENTATION_SCALE`.
pub open spec fn components_within_scale(q: Orientation3d) -> bool {
    &&& -ORIENTATION_SCALE <= q.x <= ORIENTATION_SCALE
    &&& -ORIENTATION_SCALE <= q.y <= ORIENTATION_SCALE
    &&& -ORIENTATION_SCALE <= q.z <= ORIENTATION_SCALE
    &&& -ORIENTATION_SCALE <= q.w <= ORIENTATION_SCALE
}

proof fn lemma_floor_div_bounded(a: int, n: int, s: int)
    requires
        0 <= a <= n,
        n > 0,
        s >= 0,
    ensures
        0 <= (a * s) / n <= s,
{
    assert(0 <= a * s <= n * s) by (nonlinear_arith)
        requires
            0 <= a <= n,
            s >= 0,
    ;
    vstd::arithmetic::div_mod::lemma_div_is_ordered(a * s, n * s, n);
    vstd::arithmetic::div_mod::lemma_div_by_multiple(s, n);
    assert(n * s == s * n) by (nonlinear_arith);
    vstd::arithmetic::div_mod::lemma_div_pos_is_pos(a * s, n);
}

proof fn lemma_root_within_scale(target: int, root: int)
    requires
        0 <= target <= (ORIENTATION_SCALE as int) * (ORIENTATION_SCALE as int),
        is_floor_sqrt(target, root),
    ensures
        root <= ORIENTATION_SCALE as int,
{
    if root > ORIENTATION_SCALE as int {
        lemma_square_monotone(ORIENTATION_SCALE as int + 1, root);
        assert((ORIENTATION_SCALE as int + 1) * (ORIENTATION_SCALE as int + 1) > (
        ORIENTATION_SCALE as int) * (ORIENTATION_SCALE as int)) by (nonlinear_arith);
    }
}

fn normalize_component(component: i32, norm: u128) -> (result: i32)
    requires
        norm > 0,
        (component as int) * (component as int) <= norm,
        norm <= 0x1_0000_0000_0000_0000u128,
    ensures
        normalizes_component(component as int, norm as int, result as int),
        -ORIENTATION_SCALE <= result <= ORIENTATION_SCALE,
{
    let wide = component as i64;
    let magnitude: u128 = if wide < 0 {
        (-wide) as u128
    } else {
        wide as u128
    };
    assert(magnitude * magnitude == (component as int) * (component as int)) by (nonlinear_arith)
        requires
            magnitude == component || magnitude == -component,
    ;
    let scale_squared: u128 = 1_152_921_504_606_846_976u128;
    assert(scale_squared == (ORIENTATION_SCALE as int) * (ORIENTATION_SCALE as int));
    assert(magnitude * magnitude * scale_squared <= 0x1_0000_0000_0000_0000int
        * 1_152_921_504_606_846_976int) by (nonlinear_arith)
        requires
            magnitude * magnitude <= 0x1_0000_0000_0000_0000int,
            scale_squared == 1_152_921_504_606_846_976int,
    ;
    let scaled = magnitude * magnitude * scale_squared;
    let target = scaled / norm;
    proof {
        lemma_floor_div_bounded(
            (magnitude * magnitude) as int,
            norm as int,
            scale_squared as int,
        );
        assert(((component as int) * (component as int) * (ORIENTATION_SCALE as int) * (
        ORIENTATION_SCALE as int)) == (magnitude * magnitude) as int * (scale_squared as int))
            by (nonlinear_arith)
            requires
                magnitude * magnitude == (component as int) * (component as int),
                scale_squared == (ORIENTATION_SCALE as int) * (ORIENTATION_SCALE as int),
        ;
    }
    let root = integer_sqrt(target);
    proof {
        lemma_root_within_scale(target as int, root as int);
    }
    if component < 0 {
        -(root as i32)
    } else {
        root as i32
    }
}

impl Orientation3d {
    pub fn new(x: i32, y: i32, z: i32, w: i32) -> (q: Orientation3d)
        ensures
            q.x == x && q.y == y && q.z == z && q.w == w,
    {
        Orientation3d { x, y, z, w }
    }

    pub open spec fn spec_identity() -> Orientation3d {
        Orientation3d { x: 0, y: 0, z: 0, w: ORIENTATION_SCALE }
    }

    /// The identity rotation at the engine's fixed-point scale.
    pub fn identity() -> (q: Orientation3d)
        ensures
            q == Orientation3d::spec_identity(),
    {
        Orientation3d { x: 0, y: 0, z: 0, w: ORIENTATION_SCALE }
    }

    /// Deterministically rescales the quaternion to norm `ORIENTATION_SCALE`, rounding every
    /// component toward zero so that the normalized norm never exceeds the scale.
    pub fn normalized(self) -> (result: Result<Orientation3d, AngularError3d>)
        ensures
            match result {
                Ok(q) => {
                    &&& norm_squared(self) > 0
                    &&& normalizes(self, q)
                    &&& q == spec_normalized(self)
                    &&& components_within_scale(q)
                },
                Err(e) => norm_squared(self) == 0 && e == AngularError3d::ZeroOrientation,
            },
    {
        let x = self.x as i64;
        let y = self.y as i64;
        let z = self.z as i64;
        let w = self.w as i64;
        proof {
            assert(0 <= x * x <= 0x4000_0000_0000_0000int) by (nonlinear_arith)
                requires
                    -0x8000_0000 <= x < 0x8000_0000,
            ;
            assert(0 <= y * y <= 0x4000_0000_0000_0000int) by (nonlinear_arith)
                requires
                    -0x8000_0000 <= y < 0x8000_0000,
            ;
            assert(0 <= z * z <= 0x4000_0000_0000_0000int) by (nonlinear_arith)
                requires
                    -0x8000_0000 <= z < 0x8000_0000,
            ;
            assert(0 <= w * w <= 0x4000_0000_0000_0000int) by (nonlinear_arith)
                requires
                    -0x8000_0000 <= w < 0x8000_0000,
            ;
        }
        let norm: u128 = (x * x) as u128 + (y * y) as u128 + (z * z) as u128 + (w * w) as u128;
        if norm == 0 {
            return Err(AngularError3d::ZeroOrientation);
        }
        let out = Orientation3d {
            x: normalize_component(self.x, norm),
            y: normalize_component(self.y, norm),
            z: normalize_component(self.z, norm),
            w: normalize_component(self.w, norm),
        };
        proof {
            lemma_normalizes_unique(self, out, spec_normalized(self));
        }
        Ok(out)
    }
}

/// Fixed-point angular velocity at [`ANGULAR_VELOCITY_SCALE`].
#[derive(Clone, Copy, Debug, PartialEq, Eq, Structural, Hash)]
pub struct AngularVelocity3d {
    pub x: i32,
    pub y: i32,
    pub z: i32,
}

impl AngularVelocity3d {
    pub fn new(x: i32, y: i32, z: i32) -> (v: AngularVelocity3d)
        ensures
            v.x == x && v.y == y && v.z == z,
    {
        AngularVelocity3d { x, y, z }
    }

    pub open spec fn spec_is_zero(self) -> bool {
        self.x == 0 && self.y == 0 && self.z == 0
    }

    pub fn is_zero(self) -> (zero: bool)
        ensures
            zero == self.spec_is_zero(),
    {
        self.x == 0 && self.y == 0 && self.z == 0
    }
}

impl Default for AngularVelocity3d {
    fn default() -> (v: AngularVelocity3d)
        ensures
            v.spec_is_zero(),
    {
        AngularVelocity3d { x: 0, y: 0, z: 0 }
    }
}

/// Orientation plus angular velocity of one rotating body.
#[derive(Clone, Copy, Debug, PartialEq, Eq, Structural, Hash)]
pub struct AngularState3d {
    pub orientation: Orientation3d,
    pub angular_velocity: AngularVelocity3d,
}

impl AngularState3d {
    pub fn new(orientation: Orientation3d, angular_velocity: AngularVelocity3d) -> (state:
        AngularState3d)
        ensures
            state.orientation == orientation,
            state.angular_velocity == angular_velocity,
    {
        AngularState3d { orientation, angular_velocity }
    }
}

/// Exact principal inertia of a solid box: axis `i` has inertia
/// `principal_numerators[i] / denominator` in mass-units times length squared.
#[derive(Clone, Copy, Debug, PartialEq, Eq)]
pub struct BoxInertia3d {
    pub principal_numerators: [u128; 3],
    pub denominator: u32,
}

/// `m * (a^2 + b^2)`: the numerator of a solid box's principal inertia about the axis whose
/// perpendicular half extents are `a` and `b` (the denominator is 3).
pub open spec fn inertia_numerator(mass: int, a: int, b: int) -> int {
    mass * (a * a + b * b)
}

fn squared(value: i32) -> (result: u128)
    ensures
        result == (value as int) * (value as int),
        result <= 0x4000_0000_0000_0000u128,
{
    let wide = value as i64;
    assert(0 <= wide * wide <= 0x4000_0000_0000_0000int) by (nonlinear_arith)
        requires
            -0x8000_0000 <= wide < 0x8000_0000,
    ;
    (wide * wide) as u128
}

fn inertia_axis(mass: u32, a: i32, b: i32) -> (result: u128)
    ensures
        result == inertia_numerator(mass as int, a as int, b as int),
{
    let sum = squared(a) + squared(b);
    assert(mass * sum <= 0xffff_ffffint * 0x8000_0000_0000_0000int) by (nonlinear_arith)
        requires
            mass <= 0xffff_ffff,
            sum <= 0x8000_0000_0000_0000int,
    ;
    (mass as u128) * sum
}

/// Principal inertia of a dynamic box from its mass and half extents.
pub fn box_inertia(body: &RigidBody) -> (result: Result<BoxInertia3d, AngularError3d>)
    ensures
        match result {
            Ok(inertia) => {
                &&& inertia.denominator == 3
                &&& inertia.principal_numerators[0] == inertia_numerator(
                    body.mass_units as int,
                    body.half_extents.y as int,
                    body.half_extents.z as int,
                )
                &&& inertia.principal_numerators[1] == inertia_numerator(
                    body.mass_units as int,
                    body.half_extents.x as int,
                    body.half_extents.z as int,
                )
                &&& inertia.principal_numerators[2] == inertia_numerator(
                    body.mass_units as int,
                    body.half_extents.x as int,
                    body.half_extents.y as int,
                )
                &&& inertia.principal_numerators[0] > 0
                &&& inertia.principal_numerators[1] > 0
                &&& inertia.principal_numerators[2] > 0
            },
            Err(e) => {
                &&& e == AngularError3d::DegenerateInertia
                &&& (inertia_numerator(
                    body.mass_units as int,
                    body.half_extents.y as int,
                    body.half_extents.z as int,
                ) == 0 || inertia_numerator(
                    body.mass_units as int,
                    body.half_extents.x as int,
                    body.half_extents.z as int,
                ) == 0 || inertia_numerator(
                    body.mass_units as int,
                    body.half_extents.x as int,
                    body.half_extents.y as int,
                ) == 0)
            },
        },
{
    let half = body.half_extents;
    let mass = body.mass_units;
    let numerators = [
        inertia_axis(mass, half.y, half.z),
        inertia_axis(mass, half.x, half.z),
        inertia_axis(mass, half.x, half.y),
    ];
    if numerators[0] == 0 || numerators[1] == 0 || numerators[2] == 0 {
        return Err(AngularError3d::DegenerateInertia);
    }
    Ok(BoxInertia3d { principal_numerators: numerators, denominator: 3 })
}


/// Numerators of the quaternion derivative `(0, omega) * q`, before the factor
/// `1 / (2 * ANGULAR_VELOCITY_SCALE)`.
pub open spec fn spin_rates(q: Orientation3d, omega: AngularVelocity3d) -> (int, int, int, int) {
    (
        q.w * omega.x + omega.y * q.z - omega.z * q.y,
        q.w * omega.y + omega.z * q.x - omega.x * q.z,
        q.w * omega.z + omega.x * q.y - omega.y * q.x,
        -(omega.x * q.x + omega.y * q.y + omega.z * q.z),
    )
}

/// `value + round(rate * n / (2 * ANGULAR_VELOCITY_SCALE * d))`.
pub open spec fn stepped_component(value: int, rate: int, n: int, d: int) -> int {
    value + round_div(rate * n, 2 * (ANGULAR_VELOCITY_SCALE as int) * d)
}

/// One explicit step `q + (t / 2) (0, omega) q` over `t = n / d` ticks, every component rounded
/// half away from zero; absent when a component leaves `i32`.
pub open spec fn stepped_orientation(q: Orientation3d, omega: AngularVelocity3d, n: int, d: int) -> Option<
    Orientation3d,
> {
    let (rx, ry, rz, rw) = spin_rates(q, omega);
    let x = stepped_component(q.x as int, rx, n, d);
    let y = stepped_component(q.y as int, ry, n, d);
    let z = stepped_component(q.z as int, rz, n, d);
    let w = stepped_component(q.w as int, rw, n, d);
    if i32::MIN <= x <= i32::MAX && i32::MIN <= y <= i32::MAX && i32::MIN <= z <= i32::MAX
        && i32::MIN <= w <= i32::MAX {
        Some(Orientation3d { x: x as i32, y: y as i32, z: z as i32, w: w as i32 })
    } else {
        None
    }
}

/// The orientation after spinning at `omega` for `n / d` ticks: unchanged without spin or time,
/// else the normalized explicit step.
pub open spec fn integrated_orientation(q: Orientation3d, omega: AngularVelocity3d, n: int, d: int) -> Result<
    Orientation3d,
    AngularError3d,
> {
    if omega.spec_is_zero() || n == 0 {
        Ok(q)
    } else {
        match stepped_orientation(q, omega, n, d) {
            None => Err(AngularError3d::ArithmeticOverflow),
            Some(stepped) => if norm_squared(stepped) == 0 {
                Err(AngularError3d::ZeroOrientation)
            } else {
                Ok(spec_normalized(stepped))
            },
        }
    }
}

/// `a * b + c * d - e * f` for `i32` operands.
fn rate_term(a: i32, b: i32, c: i32, d: i32, e: i32, f: i32) -> (result: i128)
    ensures
        result == (a as int) * (b as int) + (c as int) * (d as int) - (e as int) * (f as int),
        -0xc000_0000_0000_0000 <= result <= 0xc000_0000_0000_0000,
{
    proof {
        lemma_product_bounded(a as int, b as int);
        lemma_product_bounded(c as int, d as int);
        lemma_product_bounded(e as int, f as int);
    }
    (a as i128) * (b as i128) + (c as i128) * (d as i128) - (e as i128) * (f as i128)
}

proof fn lemma_product_bounded(a: int, b: int)
    requires
        i32::MIN <= a <= i32::MAX,
        i32::MIN <= b <= i32::MAX,
    ensures
        -0x4000_0000_0000_0000 <= a * b <= 0x4000_0000_0000_0000,
{
    assert(-0x4000_0000_0000_0000 <= a * b <= 0x4000_0000_0000_0000) by (nonlinear_arith)
        requires
            -0x8000_0000 <= a <= 0x7fff_ffff,
            -0x8000_0000 <= b <= 0x7fff_ffff,
    ;
}

/// `value + round(rate * n / scale)` when it fits `i32`.
fn step_component(value: i32, rate: i128, n: u64, scale: i128) -> (result: Option<i32>)
    requires
        -0xc000_0000_0000_0000 <= rate <= 0xc000_0000_0000_0000,
        n < 0x8000_0000_0000_0000,
        scale > 0,
    ensures
        match result {
            Some(component) => component == value + round_div(rate * n, scale as int),
            None => !(i32::MIN <= value + round_div(rate * n, scale as int) <= i32::MAX),
        },
{
    proof {
        assert(-0x6000_0000_0000_0000_0000_0000_0000_0000 <= rate * n
            <= 0x6000_0000_0000_0000_0000_0000_0000_0000) by (nonlinear_arith)
            requires
                -0xc000_0000_0000_0000 <= rate <= 0xc000_0000_0000_0000,
                0 <= n < 0x8000_0000_0000_0000,
        ;
    }
    let delta = signed_round_div(rate * (n as i128), scale);
    proof {
        let p = rate * n;
        if p >= 0 {
            lemma_rounded_quotient_bounded(p, scale as int);
        } else {
            lemma_rounded_quotient_bounded(-p, scale as int);
        }
    }
    let sum = value as i128 + delta;
    if sum < i32::MIN as i128 || sum > i32::MAX as i128 {
        None
    } else {
        Some(sum as i32)
    }
}

/// Spins `orientation` at `angular_velocity` for `numerator / denominator` ticks with one
/// deterministic explicit quaternion step, then renormalizes; without spin or time the
/// orientation is returned unchanged.
pub fn integrate_orientation_exact_ratio(
    orientation: Orientation3d,
    angular_velocity: AngularVelocity3d,
    numerator: u64,
    denominator: u64,
) -> (result: Result<Orientation3d, AngularError3d>)
    requires
        numerator < 0x8000_0000_0000_0000,
        1 <= denominator < 0x8000_0000_0000_0000,
    ensures
        result == integrated_orientation(
            orientation,
            angular_velocity,
            numerator as int,
            denominator as int,
        ),
{
    if angular_velocity.is_zero() || numerator == 0 {
        return Ok(orientation);
    }
    let q = orientation;
    let omega = angular_velocity;
    let rx = rate_term(q.w, omega.x, omega.y, q.z, omega.z, q.y);
    let ry = rate_term(q.w, omega.y, omega.z, q.x, omega.x, q.z);
    let rz = rate_term(q.w, omega.z, omega.x, q.y, omega.y, q.x);
    proof {
        lemma_product_bounded(omega.z as int, q.z as int);
        lemma_product_bounded(omega.x as int, q.x as int);
        lemma_product_bounded(omega.y as int, q.y as int);
    }
    let rw = -rate_term(omega.x, q.x, omega.y, q.y, 0, 0) - (omega.z as i128) * (q.z as i128);
    let scale = 131_072i128 * (denominator as i128);
    assert(scale == 2 * (ANGULAR_VELOCITY_SCALE as int) * (denominator as int));
    assert((rx as int, ry as int, rz as int, rw as int) == spin_rates(q, omega));
    let x = step_component(q.x, rx, numerator, scale);
    let y = step_component(q.y, ry, numerator, scale);
    let z = step_component(q.z, rz, numerator, scale);
    let w = step_component(q.w, rw, numerator, scale);
    match (x, y, z, w) {
        (Some(x), Some(y), Some(z), Some(w)) => {
            let stepped = Orientation3d { x, y, z, w };
            assert(stepped_orientation(q, omega, numerator as int, denominator as int) == Some(
                stepped,
            ));
            stepped.normalized()
        },
        _ => Err(AngularError3d::ArithmeticOverflow),
    }
}

} // verus!
