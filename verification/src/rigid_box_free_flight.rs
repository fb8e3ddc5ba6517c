use vstd::prelude::*;

use crate::angular::{
    AngularError3d, AngularState3d, AngularVelocity3d, integrate_orientation_exact_ratio,
    integrated_orientation,
};
use crate::body::{BodyId, BodyKind, RigidBody};
use crate::math::{Vec3i, round_div};
use crate::obb_response::{lemma_rounded_quotient_bounded, signed_round_div};
use crate::oriented_box::{gcd, greatest_common_divisor};
use crate::rigid_box::RigidBox3d;
use crate::rotational_sweep::{
    RotationalSweepBounds3d, RotationalSweepError3d, bounds_contain, center_interval_bounds,
    center_within, lemma_center_interval_bounds_enclose, rotational_sweep_bounds_for_center_interval,
    within_enclosing_sphere,
};

verus! {

/// Explicit timestep and acceleration for collision-free rotating-box motion over one interval.
///
/// The timestep is the ratio `timestep_numerator / timestep_denominator` of integer ticks; a
/// negative numerator or non-positive denominator is kept and reported when the timestep is used.
#[derive(Clone, Copy, Debug, PartialEq, Eq, Structural)]
pub struct RigidBoxFreeFlightConfig3d {
    pub gravity: Vec3i,
    timestep_numerator: i32,
    timestep_denominator: i32,
}

#[derive(Clone, Copy, Debug, PartialEq, Eq, Structural)]
pub enum RigidBoxFreeFlightError3d {
    NegativeTimestepNumerator(i128),
    NonPositiveTimestepDenominator(i128),
    ZeroFractionDenominator,
    FractionOutOfRange { numerator: u32, denominator: u32 },
    RatioTooLarge,
    ArithmeticOverflow(BodyId),
    Angular(AngularError3d),
    Sweep(RotationalSweepError3d),
}

impl From<AngularError3d> for RigidBoxFreeFlightError3d {
    fn from(value: AngularError3d) -> (error: RigidBoxFreeFlightError3d)
        ensures
            error == RigidBoxFreeFlightError3d::Angular(value),
    {
        RigidBoxFreeFlightError3d::Angular(value)
    }
}

impl vstd::std_specs::convert::FromSpecImpl<AngularError3d> for RigidBoxFreeFlightError3d {
    open spec fn obeys_from_spec() -> bool {
        true
    }

    open spec fn from_spec(value: AngularError3d) -> RigidBoxFreeFlightError3d {
        RigidBoxFreeFlightError3d::Angular(value)
    }
}

impl From<RotationalSweepError3d> for RigidBoxFreeFlightError3d {
    fn from(value: RotationalSweepError3d) -> (error: RigidBoxFreeFlightError3d)
        ensures
            error == RigidBoxFreeFlightError3d::Sweep(value),
    {
        RigidBoxFreeFlightError3d::Sweep(value)
    }
}

impl vstd::std_specs::convert::FromSpecImpl<RotationalSweepError3d> for RigidBoxFreeFlightError3d {
    open spec fn obeys_from_spec() -> bool {
        true
    }

    open spec fn from_spec(value: RotationalSweepError3d) -> RigidBoxFreeFlightError3d {
        RigidBoxFreeFlightError3d::Sweep(value)
    }
}

impl RigidBoxFreeFlightConfig3d {
    pub closed spec fn spec_gravity(self) -> Vec3i {
        self.gravity
    }

    pub closed spec fn spec_timestep_numerator(self) -> int {
        self.timestep_numerator as int
    }

    pub closed spec fn spec_timestep_denominator(self) -> int {
        self.timestep_denominator as int
    }

    /// The configuration that [`Self::new`] builds.
    pub closed spec fn spec_new(gravity: Vec3i, timestep_numerator: i32, timestep_denominator: i32) -> Self {
        RigidBoxFreeFlightConfig3d { gravity, timestep_numerator, timestep_denominator }
    }

    pub fn new(gravity: Vec3i, timestep_numerator: i32, timestep_denominator: i32) -> (config: Self)
        ensures
            config == Self::spec_new(gravity, timestep_numerator, timestep_denominator),
            config.spec_gravity() == gravity,
            config.spec_timestep_numerator() == timestep_numerator,
            config.spec_timestep_denominator() == timestep_denominator,
    {
        RigidBoxFreeFlightConfig3d { gravity, timestep_numerator, timestep_denominator }
    }

    /// The validation failure of the timestep, if any.
    pub open spec fn timestep_error(self) -> Option<RigidBoxFreeFlightError3d> {
        if self.spec_timestep_numerator() < 0 {
            Some(
                RigidBoxFreeFlightError3d::NegativeTimestepNumerator(
                    self.spec_timestep_numerator() as i128,
                ),
            )
        } else if self.spec_timestep_denominator() <= 0 {
            Some(
                RigidBoxFreeFlightError3d::NonPositiveTimestepDenominator(
                    self.spec_timestep_denominator() as i128,
                ),
            )
        } else {
            None
        }
    }

    /// The validated timestep as `(numerator, denominator)` with a positive denominator.
    pub fn exact_timestep(self) -> (result: Result<(u64, u64), RigidBoxFreeFlightError3d>)
        ensures
            match result {
                Ok((numerator, denominator)) => self.timestep_error() is None && numerator
                    == self.spec_timestep_numerator() && denominator
                    == self.spec_timestep_denominator() && numerator <= 0x7fff_ffff && 1
                    <= denominator <= 0x7fff_ffff,
                Err(error) => self.timestep_error() == Some(error),
            },
    {
        if self.timestep_numerator < 0 {
            return Err(
                RigidBoxFreeFlightError3d::NegativeTimestepNumerator(
                    self.timestep_numerator as i128,
                ),
            );
        }
        if self.timestep_denominator <= 0 {
            return Err(
                RigidBoxFreeFlightError3d::NonPositiveTimestepDenominator(
                    self.timestep_denominator as i128,
                ),
            );
        }
        Ok((self.timestep_numerator as u64, self.timestep_denominator as u64))
    }

    /// The timestep scaled by `fraction_numerator / fraction_denominator` (a fraction of at most
    /// one), in lowest terms with zero as `0 / 1`, gravity kept; or the failure, a reduced timestep
    /// outside `i32` reported as `RatioTooLarge`.
    pub open spec fn scaled_config(self, fraction_numerator: u32, fraction_denominator: u32) -> Result<
        Self,
        RigidBoxFreeFlightError3d,
    > {
        match self.timestep_error() {
            Some(error) => Err(error),
            None => if fraction_denominator == 0 {
                Err(RigidBoxFreeFlightError3d::ZeroFractionDenominator)
            } else if fraction_numerator > fraction_denominator {
                Err(
                    RigidBoxFreeFlightError3d::FractionOutOfRange {
                        numerator: fraction_numerator,
                        denominator: fraction_denominator,
                    },
                )
            } else {
                let scaled = reduced(
                    (self.spec_timestep_numerator() * fraction_numerator) as nat,
                    (self.spec_timestep_denominator() * fraction_denominator) as nat,
                );
                if scaled.0 <= i32::MAX && scaled.1 <= i32::MAX {
                    Ok(Self::spec_new(self.spec_gravity(), scaled.0 as i32, scaled.1 as i32))
                } else {
                    Err(RigidBoxFreeFlightError3d::RatioTooLarge)
                }
            },
        }
    }

    /// The timestep scaled exactly by `fraction_numerator / fraction_denominator`; see
    /// [`Self::scaled_config`].
    pub fn scaled_fraction(self, fraction_numerator: u32, fraction_denominator: u32) -> (result:
        Result<Self, RigidBoxFreeFlightError3d>)
        ensures
            result == self.scaled_config(fraction_numerator, fraction_denominator),
    {
        let (numerator, denominator) = match self.exact_timestep() {
            Ok(timestep) => timestep,
            Err(error) => return Err(error),
        };
        if fraction_denominator == 0 {
            return Err(RigidBoxFreeFlightError3d::ZeroFractionDenominator);
        }
        if fraction_numerator > fraction_denominator {
            return Err(
                RigidBoxFreeFlightError3d::FractionOutOfRange {
                    numerator: fraction_numerator,
                    denominator: fraction_denominator,
                },
            );
        }
        assert(numerator * fraction_numerator <= 0x8000_0000 * 0x1_0000_0000) by (nonlinear_arith)
            requires
                numerator <= 0x8000_0000,
                fraction_numerator < 0x1_0000_0000,
        ;
        assert(denominator * fraction_denominator <= 0x8000_0000 * 0x1_0000_0000)
            by (nonlinear_arith)
            requires
                denominator <= 0x8000_0000,
                fraction_denominator < 0x1_0000_0000,
        ;
        let product_numerator: u128 = numerator as u128 * fraction_numerator as u128;
        let product_denominator: u128 = denominator as u128 * fraction_denominator as u128;
        if product_numerator == 0 {
            return Ok(RigidBoxFreeFlightConfig3d { gravity: self.gravity, timestep_numerator: 0, timestep_denominator: 1 });
        }
        let divisor = greatest_common_divisor(product_numerator, product_denominator);
        proof {
            lemma_gcd_positive(product_numerator as nat, product_denominator as nat);
        }
        let reduced_numerator = product_numerator / divisor;
        let reduced_denominator = product_denominator / divisor;
        if reduced_numerator <= 0x7fff_ffff && reduced_denominator <= 0x7fff_ffff {
            Ok(
                RigidBoxFreeFlightConfig3d {
                    gravity: self.gravity,
                    timestep_numerator: reduced_numerator as i32,
                    timestep_denominator: reduced_denominator as i32,
                },
            )
        } else {
            Err(RigidBoxFreeFlightError3d::RatioTooLarge)
        }
    }

    /// The acceleration of the interval.
    pub fn gravity(self) -> (gravity: Vec3i)
        ensures
            gravity == self.spec_gravity(),
    {
        self.gravity
    }

    /// Whether the timestep is valid and zero.
    pub fn timestep_is_zero(self) -> (zero: bool)
        ensures
            zero == (self.timestep_error() is None && self.spec_timestep_numerator() == 0),
    {
        self.timestep_numerator == 0 && self.timestep_denominator > 0
    }
}

/// `numerator / denominator` in lowest terms, zero as `0 / 1`.
pub open spec fn reduced(numerator: nat, denominator: nat) -> (nat, nat) {
    if numerator == 0 {
        (0, 1)
    } else {
        (numerator / gcd(numerator, denominator), denominator / gcd(numerator, denominator))
    }
}

/// The greatest common divisor divides both numbers: the two cofactors.
pub proof fn lemma_gcd_divides(a: nat, b: nat) -> (cofactors: (int, int))
    ensures
        a == gcd(a, b) * cofactors.0,
        b == gcd(a, b) * cofactors.1,
    decreases b,
{
    if b == 0 {
        assert(a == gcd(a, b) * 1 && b == gcd(a, b) * 0);
        (1, 0)
    } else {
        let (k, l) = lemma_gcd_divides(b, a % b);
        let g = gcd(b, a % b);
        vstd::arithmetic::div_mod::lemma_fundamental_div_mod(a as int, b as int);
        let q = (a / b) as int;
        assert(a == g * (k * q + l)) by (nonlinear_arith)
            requires
                a == b * q + a % b,
                b == g * k,
                a % b == g * l,
        ;
        (k * q + l, k)
    }
}

/// Scaling a timestep keeps its exact value: the scaled ratio equals the timestep times the
/// fraction, with a positive denominator and the same gravity.
pub proof fn lemma_scaled_fraction_exact(
    config: RigidBoxFreeFlightConfig3d,
    fraction_numerator: u32,
    fraction_denominator: u32,
)
    ensures
        config.scaled_config(fraction_numerator, fraction_denominator) matches Ok(scaled) ==> {
            &&& scaled.spec_gravity() == config.spec_gravity()
            &&& scaled.spec_timestep_denominator() > 0
            &&& scaled.spec_timestep_numerator() * (config.spec_timestep_denominator()
                * fraction_denominator) == scaled.spec_timestep_denominator() * (
            config.spec_timestep_numerator() * fraction_numerator)
        },
{
    if config.scaled_config(fraction_numerator, fraction_denominator) is Ok {
        let n = config.spec_timestep_numerator();
        let d = config.spec_timestep_denominator();
        let p = n * fraction_numerator;
        let q = d * fraction_denominator;
        assert(p >= 0 && q > 0) by (nonlinear_arith)
            requires
                p == n * fraction_numerator,
                q == d * fraction_denominator,
                n >= 0,
                d > 0,
                fraction_numerator >= 0,
                fraction_denominator > 0,
        ;
        let scaled = reduced(p as nat, q as nat);
        if p != 0 {
            let g = gcd(p as nat, q as nat);
            lemma_gcd_positive(p as nat, q as nat);
            let (k, l) = lemma_gcd_divides(p as nat, q as nat);
            assert(k >= 0 && l > 0) by (nonlinear_arith)
                requires
                    p == g * k,
                    q == g * l,
                    p > 0,
                    q > 0,
                    g > 0,
            ;
            vstd::arithmetic::div_mod::lemma_div_by_multiple(k, g as int);
            vstd::arithmetic::div_mod::lemma_div_by_multiple(l, g as int);
            assert(g * k == k * g && g * l == l * g) by (nonlinear_arith);
            assert(k * q == l * p) by (nonlinear_arith)
                requires
                    p == g * k,
                    q == g * l,
            ;
            assert(scaled.0 == k && scaled.1 == l);
        } else {
            assert(scaled == (0nat, 1nat));
            let (a, b) = scaled;
            assert(a * q == b * p) by (nonlinear_arith)
                requires
                    a == 0,
                    b == 1,
                    p == 0,
            ;
        }
    }
}


/// The greatest common divisor of a positive number and any other is positive.
pub proof fn lemma_gcd_positive(a: nat, b: nat)
    requires
        a > 0,
    ensures
        gcd(a, b) > 0,
    decreases b,
{
    if b != 0 {
        lemma_gcd_positive(b, a % b);
    }
}

pub open spec fn abs(value: int) -> int {
    if value < 0 {
        -value
    } else {
        value
    }
}

/// `ceil(numerator / denominator)` for a non-negative numerator and positive denominator.
pub open spec fn ceil_div(numerator: int, denominator: int) -> int {
    (numerator + denominator - 1) / denominator
}

/// An upper bound on the distance travelled along one axis within the timestep `t = n / d`:
/// the speed bound `|v| + ceil(t |a|)` times `t`, rounded up.
pub open spec fn conservative_displacement(velocity: int, acceleration: int, n: int, d: int) -> int {
    ceil_div(n * (abs(velocity) + ceil_div(n * abs(acceleration), d)), d)
}

/// The axis-wise center interval every free-flight sample of `rigid_box` stays in over the
/// timestep `n / d`; absent where a bound leaves `i64`.
pub open spec fn free_flight_center_interval(rigid_box: RigidBox3d, gravity: Vec3i, n: int, d: int) -> Option<
    ([i64; 3], [i64; 3]),
> {
    let center = rigid_box.body.position;
    let velocity = rigid_box.body.velocity;
    if rigid_box.body.kind == BodyKind::Dynamic && n != 0 {
        let dx = conservative_displacement(velocity.x as int, gravity.x as int, n, d);
        let dy = conservative_displacement(velocity.y as int, gravity.y as int, n, d);
        let dz = conservative_displacement(velocity.z as int, gravity.z as int, n, d);
        if dx <= i64::MAX && dy <= i64::MAX && dz <= i64::MAX && center.x - dx >= i64::MIN
            && center.y - dy >= i64::MIN && center.z - dz >= i64::MIN && center.x + dx
            <= i64::MAX && center.y + dy <= i64::MAX && center.z + dz <= i64::MAX {
            Some(
                (
                    [(center.x - dx) as i64, (center.y - dy) as i64, (center.z - dz) as i64],
                    [(center.x + dx) as i64, (center.y + dy) as i64, (center.z + dz) as i64],
                ),
            )
        } else {
            None
        }
    } else {
        Some(
            (
                [center.x as i64, center.y as i64, center.z as i64],
                [center.x as i64, center.y as i64, center.z as i64],
            ),
        )
    }
}

/// Conservative bounds of every free-flight sample of `rigid_box` under `config`, or the failure:
/// an invalid timestep, a center bound leaving `i64`, or overflowing sweep bounds.
pub open spec fn free_flight_bounds(rigid_box: RigidBox3d, config: RigidBoxFreeFlightConfig3d) -> Result<
    RotationalSweepBounds3d,
    RigidBoxFreeFlightError3d,
> {
    match config.timestep_error() {
        Some(error) => Err(error),
        None => match free_flight_center_interval(
            rigid_box,
            config.spec_gravity(),
            config.spec_timestep_numerator(),
            config.spec_timestep_denominator(),
        ) {
            None => Err(RigidBoxFreeFlightError3d::ArithmeticOverflow(rigid_box.body.id)),
            Some((low, high)) => match center_interval_bounds(rigid_box.body.half_extents, low, high) {
                Ok(bounds) => Ok(bounds),
                Err(error) => Err(RigidBoxFreeFlightError3d::Sweep(error)),
            },
        },
    }
}

/// `ceil(numerator * value / denominator)` for a ratio whose terms come from `i32` values.
fn mul_ceil(numerator: u64, denominator: u64, value: u128) -> (result: u128)
    requires
        numerator <= 0x8000_0000,
        1 <= denominator <= 0x8000_0000,
        value <= 0x1_0000_0000_0000_0000,
    ensures
        result == ceil_div(numerator * value, denominator as int),
        result <= numerator * value,
{
    proof {
        assert(numerator * value <= 0x8000_0000 * 0x1_0000_0000_0000_0000int) by (nonlinear_arith)
            requires
                numerator <= 0x8000_0000,
                value <= 0x1_0000_0000_0000_0000,
        ;
        let p = numerator * value;
        let d = denominator as int;
        vstd::arithmetic::div_mod::lemma_div_pos_is_pos(p + d - 1, d);
        if p == 0 {
            vstd::arithmetic::div_mod::lemma_basic_div(d - 1, d);
        } else {
            vstd::arithmetic::div_mod::lemma_fundamental_div_mod(p + d - 1, d);
            vstd::arithmetic::div_mod::lemma_mod_bound(p + d - 1, d);
            let q = (p + d - 1) / d;
            assert(q <= p) by (nonlinear_arith)
                requires
                    p + d - 1 == d * q + (p + d - 1) % d,
                    0 <= (p + d - 1) % d < d,
                    p >= 1,
                    d >= 1,
                    q >= 0,
            ;
        }
    }
    let product = numerator as u128 * value;
    (product + denominator as u128 - 1) / denominator as u128
}

pub(crate) fn conservative_axis_displacement(velocity: i32, acceleration: i32, numerator: u64, denominator: u64) -> (result:
    u128)
    requires
        numerator <= 0x8000_0000,
        1 <= denominator <= 0x8000_0000,
    ensures
        result == conservative_displacement(
            velocity as int,
            acceleration as int,
            numerator as int,
            denominator as int,
        ),
{
    let acceleration_magnitude: u128 = if acceleration < 0 {
        (-(acceleration as i64)) as u128
    } else {
        acceleration as u128
    };
    let velocity_magnitude: u128 = if velocity < 0 {
        (-(velocity as i64)) as u128
    } else {
        velocity as u128
    };
    let acceleration_delta = mul_ceil(numerator, denominator, acceleration_magnitude);
    proof {
        assert(numerator * acceleration_magnitude <= 0x8000_0000 * 0x8000_0000int) by (
        nonlinear_arith)
            requires
                numerator <= 0x8000_0000,
                acceleration_magnitude <= 0x8000_0000,
        ;
    }
    let maximum_speed = velocity_magnitude + acceleration_delta;
    mul_ceil(numerator, denominator, maximum_speed)
}

/// Conservatively bounds every free-flight sample of `rigid_box` over the configured interval.
///
/// Per axis, the center interval uses an upper bound on speed after acceleration and then on
/// displacement, rounded up, so a velocity reversal inside the interval stays covered; arbitrary
/// orientation is enclosed by the circumscribed-sphere radius of the rotational sweep. Fixed bodies
/// and zero timesteps keep their current center.
pub fn rigid_box_free_flight_sweep_bounds(
    rigid_box: &RigidBox3d,
    config: RigidBoxFreeFlightConfig3d,
) -> (result: Result<RotationalSweepBounds3d, RigidBoxFreeFlightError3d>)
    ensures
        result == free_flight_bounds(*rigid_box, config),
{
    let (numerator, denominator) = match config.exact_timestep() {
        Ok(timestep) => timestep,
        Err(error) => return Err(error),
    };
    let id = rigid_box.body.id;
    let center = rigid_box.body.position;
    let mut center_minimum = [center.x as i64, center.y as i64, center.z as i64];
    let mut center_maximum = [center.x as i64, center.y as i64, center.z as i64];
    if rigid_box.body.kind == BodyKind::Dynamic && numerator != 0 {
        let velocity = rigid_box.body.velocity;
        let gravity = config.gravity;
        let dx = conservative_axis_displacement(velocity.x, gravity.x, numerator, denominator);
        let dy = conservative_axis_displacement(velocity.y, gravity.y, numerator, denominator);
        let dz = conservative_axis_displacement(velocity.z, gravity.z, numerator, denominator);
        if dx > i64::MAX as u128 || dy > i64::MAX as u128 || dz > i64::MAX as u128 {
            return Err(RigidBoxFreeFlightError3d::ArithmeticOverflow(id));
        }
        let (dx, dy, dz) = (dx as i64, dy as i64, dz as i64);
        let cx = center.x as i64;
        let cy = center.y as i64;
        let cz = center.z as i64;
        if cx < i64::MIN + dx || cy < i64::MIN + dy || cz < i64::MIN + dz || cx > i64::MAX - dx
            || cy > i64::MAX - dy || cz > i64::MAX - dz {
            return Err(RigidBoxFreeFlightError3d::ArithmeticOverflow(id));
        }
        center_minimum = [cx - dx, cy - dy, cz - dz];
        center_maximum = [cx + dx, cy + dy, cz + dz];
    }
    proof {
        let interval = free_flight_center_interval(
            *rigid_box,
            config.spec_gravity(),
            numerator as int,
            denominator as int,
        );
        assert(interval is Some);
        assert(center_minimum =~= interval->Some_0.0);
        assert(center_maximum =~= interval->Some_0.1);
    }
    match rotational_sweep_bounds_for_center_interval(
        rigid_box.body.half_extents,
        center_minimum,
        center_maximum,
    ) {
        Ok(bounds) => Ok(bounds),
        Err(error) => Err(RigidBoxFreeFlightError3d::Sweep(error)),
    }
}

/// The sample time `timestep * numerator / denominator` as `(n, d)` with `d > 0`, or the failure:
/// an invalid timestep, then a zero fraction denominator, then a fraction above one.
pub open spec fn sample_time(config: RigidBoxFreeFlightConfig3d, numerator: u32, denominator: u32) -> Result<
    (int, int),
    RigidBoxFreeFlightError3d,
> {
    match config.timestep_error() {
        Some(error) => Err(error),
        None => if denominator == 0 {
            Err(RigidBoxFreeFlightError3d::ZeroFractionDenominator)
        } else if numerator > denominator {
            Err(RigidBoxFreeFlightError3d::FractionOutOfRange { numerator, denominator })
        } else {
            Ok(
                (
                    config.spec_timestep_numerator() * numerator,
                    config.spec_timestep_denominator() * denominator,
                ),
            )
        },
    }
}

/// One semi-implicit axis step over `n / d` ticks: gravity first changes the velocity, then the
/// new velocity moves the position, each change rounded half away from zero; absent when either
/// leaves `i32`.
pub open spec fn advanced_axis(position: int, velocity: int, gravity: int, n: int, d: int) -> Option<
    (int, int),
> {
    let next_velocity = velocity + round_div(gravity * n, d);
    let next_position = position + round_div(next_velocity * n, d);
    if i32::MIN <= next_velocity <= i32::MAX && i32::MIN <= next_position <= i32::MAX {
        Some((next_velocity, next_position))
    } else {
        None
    }
}

/// `rigid_box` sampled `numerator / denominator` of the way through the configured interval,
/// directly from its start state, or the failure.
///
/// Fixed bodies and zero sample times are returned unchanged. A dynamic body advances each axis
/// semi-implicitly; its orientation spins at its angular velocity unless rotation is locked, in
/// which case the orientation is kept and the angular velocity becomes zero.
pub open spec fn sampled_box(
    rigid_box: RigidBox3d,
    config: RigidBoxFreeFlightConfig3d,
    numerator: u32,
    denominator: u32,
) -> Result<RigidBox3d, RigidBoxFreeFlightError3d> {
    match sample_time(config, numerator, denominator) {
        Err(error) => Err(error),
        Ok((n, d)) => if n == 0 || rigid_box.body.kind == BodyKind::Fixed {
            Ok(rigid_box)
        } else {
            let body = rigid_box.body;
            let gravity = config.spec_gravity();
            match (
                advanced_axis(body.position.x as int, body.velocity.x as int, gravity.x as int, n, d),
                advanced_axis(body.position.y as int, body.velocity.y as int, gravity.y as int, n, d),
                advanced_axis(body.position.z as int, body.velocity.z as int, gravity.z as int, n, d),
            ) {
                (Some((vx, px)), Some((vy, py)), Some((vz, pz))) => {
                    let moved = RigidBody {
                        position: Vec3i { x: px as i32, y: py as i32, z: pz as i32 },
                        velocity: Vec3i { x: vx as i32, y: vy as i32, z: vz as i32 },
                        ..body
                    };
                    if rigid_box.rotation_locked {
                        Ok(
                            RigidBox3d {
                                body: moved,
                                angular: AngularState3d {
                                    orientation: rigid_box.angular.orientation,
                                    angular_velocity: AngularVelocity3d { x: 0, y: 0, z: 0 },
                                },
                                ..rigid_box
                            },
                        )
                    } else {
                        match integrated_orientation(
                            rigid_box.angular.orientation,
                            rigid_box.angular.angular_velocity,
                            n,
                            d,
                        ) {
                            Err(error) => Err(RigidBoxFreeFlightError3d::Angular(error)),
                            Ok(orientation) => Ok(
                                RigidBox3d {
                                    body: moved,
                                    angular: AngularState3d { orientation, ..rigid_box.angular },
                                    ..rigid_box
                                },
                            ),
                        }
                    }
                },
                _ => Err(RigidBoxFreeFlightError3d::ArithmeticOverflow(body.id)),
            }
        },
    }
}

/// `(velocity, position)` after one semi-implicit axis step, when both fit `i32`.
fn advance_axis(position: i32, velocity: i32, gravity: i32, n: u64, d: u64) -> (result: Option<
    (i32, i32),
>)
    requires
        n < 0x8000_0000_0000_0000,
        1 <= d < 0x8000_0000_0000_0000,
    ensures
        match result {
            Some((v, p)) => advanced_axis(position as int, velocity as int, gravity as int, n as int, d as int)
                == Some((v as int, p as int)),
            None => advanced_axis(position as int, velocity as int, gravity as int, n as int, d as int)
                is None,
        },
{
    proof {
        assert(-0x4000_0000_0000_0000_0000_0000 <= gravity * n <= 0x4000_0000_0000_0000_0000_0000)
            by (nonlinear_arith)
            requires
                i32::MIN <= gravity <= i32::MAX,
                0 <= n < 0x8000_0000_0000_0000,
        ;
        let g = gravity * n;
        if g >= 0 {
            lemma_rounded_quotient_bounded(g, d as int);
        } else {
            lemma_rounded_quotient_bounded(-g, d as int);
        }
    }
    let velocity_delta = signed_round_div(gravity as i128 * n as i128, d as i128);
    let next_velocity = velocity as i128 + velocity_delta;
    if next_velocity < i32::MIN as i128 || next_velocity > i32::MAX as i128 {
        return None;
    }
    let next_velocity = next_velocity as i32;
    proof {
        assert(-0x4000_0000_0000_0000_0000_0000 <= next_velocity * n
            <= 0x4000_0000_0000_0000_0000_0000) by (nonlinear_arith)
            requires
                i32::MIN <= next_velocity <= i32::MAX,
                0 <= n < 0x8000_0000_0000_0000,
        ;
        let m = next_velocity * n;
        if m >= 0 {
            lemma_rounded_quotient_bounded(m, d as int);
        } else {
            lemma_rounded_quotient_bounded(-m, d as int);
        }
    }
    let position_delta = signed_round_div(next_velocity as i128 * n as i128, d as i128);
    let next_position = position as i128 + position_delta;
    if next_position < i32::MIN as i128 || next_position > i32::MAX as i128 {
        return None;
    }
    Some((next_velocity, next_position as i32))
}

/// Samples one rotating box directly from the start of a collision-free interval.
///
/// Every fraction is reconstructed from the same start state, so the number of samples never
/// alters motion. `numerator / denominator` must lie within `0..=1`.
pub fn sample_rigid_box_free_flight(
    rigid_box: &RigidBox3d,
    config: RigidBoxFreeFlightConfig3d,
    numerator: u32,
    denominator: u32,
) -> (result: Result<RigidBox3d, RigidBoxFreeFlightError3d>)
    ensures
        result == sampled_box(*rigid_box, config, numerator, denominator),
{
    let (timestep_numerator, timestep_denominator) = match config.exact_timestep() {
        Ok(timestep) => timestep,
        Err(error) => return Err(error),
    };
    if denominator == 0 {
        return Err(RigidBoxFreeFlightError3d::ZeroFractionDenominator);
    }
    if numerator > denominator {
        return Err(RigidBoxFreeFlightError3d::FractionOutOfRange { numerator, denominator });
    }
    proof {
        assert(timestep_numerator * numerator < 0x8000_0000_0000_0000) by (nonlinear_arith)
            requires
                timestep_numerator < 0x8000_0000,
                numerator <= 0xffff_ffff,
        ;
        assert(1 <= timestep_denominator * denominator < 0x8000_0000_0000_0000) by (nonlinear_arith)
            requires
                1 <= timestep_denominator < 0x8000_0000,
                1 <= denominator <= 0xffff_ffff,
        ;
    }
    let n = timestep_numerator * numerator as u64;
    let d = timestep_denominator * denominator as u64;
    if n == 0 || rigid_box.body.kind == BodyKind::Fixed {
        return Ok(*rigid_box);
    }
    let body = rigid_box.body;
    let gravity = config.gravity;
    let x = advance_axis(body.position.x, body.velocity.x, gravity.x, n, d);
    let y = advance_axis(body.position.y, body.velocity.y, gravity.y, n, d);
    let z = advance_axis(body.position.z, body.velocity.z, gravity.z, n, d);
    let ((vx, px), (vy, py), (vz, pz)) = match (x, y, z) {
        (Some(x), Some(y), Some(z)) => (x, y, z),
        _ => return Err(RigidBoxFreeFlightError3d::ArithmeticOverflow(body.id)),
    };
    let moved = RigidBody {
        position: Vec3i { x: px, y: py, z: pz },
        velocity: Vec3i { x: vx, y: vy, z: vz },
        ..body
    };
    if rigid_box.rotation_locked {
        return Ok(
            RigidBox3d {
                body: moved,
                angular: AngularState3d {
                    orientation: rigid_box.angular.orientation,
                    angular_velocity: AngularVelocity3d { x: 0, y: 0, z: 0 },
                },
                ..*rigid_box
            },
        );
    }
    match integrate_orientation_exact_ratio(
        rigid_box.angular.orientation,
        rigid_box.angular.angular_velocity,
        n,
        d,
    ) {
        Err(error) => Err(RigidBoxFreeFlightError3d::Angular(error)),
        Ok(orientation) => Ok(
            RigidBox3d {
                body: moved,
                angular: AngularState3d { orientation, ..rigid_box.angular },
                ..*rigid_box
            },
        ),
    }
}

/// The validated configuration with a zero timestep: bounds of the current shapes.
pub open spec fn zero_time(config: RigidBoxFreeFlightConfig3d) -> Result<
    RigidBoxFreeFlightConfig3d,
    RigidBoxFreeFlightError3d,
> {
    match config.timestep_error() {
        Some(error) => Err(error),
        None => Ok(RigidBoxFreeFlightConfig3d::spec_new(config.spec_gravity(), 0, 1)),
    }
}

pub(crate) fn validated_zero_time(config: RigidBoxFreeFlightConfig3d) -> (result: Result<
    RigidBoxFreeFlightConfig3d,
    RigidBoxFreeFlightError3d,
>)
    ensures
        result == zero_time(config),
{
    match config.exact_timestep() {
        Ok(_) => Ok(RigidBoxFreeFlightConfig3d::new(config.gravity, 0, 1)),
        Err(error) => Err(error),
    }
}

// ---------------------------------------------------------------------------------------------
// Every sample stays inside the sweep bounds
// ---------------------------------------------------------------------------------------------

/// `d * ceil(x / d)` reaches `x`, and any `q` with `x <= q * d` is at least `ceil(x / d)`.
proof fn lemma_ceil_div_facts(x: int, d: int, q: int)
    requires
        x >= 0,
        d >= 1,
    ensures
        ceil_div(x, d) >= 0,
        x <= ceil_div(x, d) * d,
        x <= q * d ==> ceil_div(x, d) <= q,
{
    let c = ceil_div(x, d);
    vstd::arithmetic::div_mod::lemma_fundamental_div_mod(x + d - 1, d);
    let rem = (x + d - 1) % d;
    assert(0 <= rem < d);
    assert(c >= 0 && x <= c * d) by (nonlinear_arith)
        requires
            x + d - 1 == d * c + rem,
            0 <= rem < d,
            x >= 0,
            d >= 1,
    ;
    if x <= q * d {
        assert(c <= q) by (nonlinear_arith)
            requires
                x + d - 1 == d * c + rem,
                0 <= rem,
                x <= q * d,
                d >= 1,
        ;
    }
}

/// A rounded quotient is no larger in magnitude than the rounded-up quotient of the magnitude.
proof fn lemma_round_within_ceil(x: int, d: int)
    requires
        d >= 1,
    ensures
        abs(round_div(x, d)) <= ceil_div(abs(x), d),
{
    let a = abs(x);
    let r = (a + d / 2) / d;
    assert(round_div(x, d) == r || round_div(x, d) == -r);
    vstd::arithmetic::div_mod::lemma_fundamental_div_mod(a + d / 2, d);
    let rem = (a + d / 2) % d;
    assert(0 <= rem < d);
    assert(d / 2 <= d - 1);
    assert(r >= 0 && a <= r * d + d - 1 - (d - 1 - d / 2)) by (nonlinear_arith)
        requires
            a + d / 2 == d * r + rem,
            0 <= rem < d,
            a >= 0,
            d >= 1,
            d / 2 >= 0,
    ;
    lemma_ceil_div_facts(a, d, r);
    assert(r * d <= a + d / 2) by (nonlinear_arith)
        requires
            a + d / 2 == d * r + rem,
            0 <= rem,
    ;
    let c = ceil_div(a, d);
    assert(r <= c) by (nonlinear_arith)
        requires
            r * d <= a + d / 2,
            a <= c * d,
            d / 2 < d,
            d >= 1,
    ;
}

/// For a sample time `n / d` not later than `big_n / big_d`, `ceil(a n / d) <= ceil(a big_n / big_d)`.
proof fn lemma_ceil_share_monotone(a: int, n: int, d: int, big_n: int, big_d: int, b: int)
    requires
        0 <= a <= b,
        n >= 0,
        d >= 1,
        big_n >= 0,
        big_d >= 1,
        n * big_d <= big_n * d,
    ensures
        ceil_div(a * n, d) <= ceil_div(b * big_n, big_d),
{
    assert(a * n >= 0 && b * big_n >= 0) by (nonlinear_arith)
        requires
            a >= 0,
            b >= 0,
            n >= 0,
            big_n >= 0,
    ;
    let q = ceil_div(b * big_n, big_d);
    lemma_ceil_div_facts(b * big_n, big_d, q);
    assert(a * n <= q * d) by (nonlinear_arith)
        requires
            0 <= a <= b,
            n >= 0,
            d >= 1,
            big_d >= 1,
            n * big_d <= big_n * d,
            b * big_n <= q * big_d,
    ;
    lemma_ceil_div_facts(a * n, d, q);
}

/// One semi-implicit axis step over `n / d`, not later than `big_n / big_d`, moves the position
/// by at most the conservative displacement over `big_n / big_d`.
proof fn lemma_axis_step_within(
    position: int,
    velocity: int,
    gravity: int,
    n: int,
    d: int,
    big_n: int,
    big_d: int,
)
    requires
        n >= 0,
        d >= 1,
        big_n >= 0,
        big_d >= 1,
        n * big_d <= big_n * d,
        advanced_axis(position, velocity, gravity, n, d) is Some,
    ensures
        abs(advanced_axis(position, velocity, gravity, n, d)->Some_0.1 - position)
            <= conservative_displacement(velocity, gravity, big_n, big_d),
{
    let (next_velocity, next_position) = advanced_axis(position, velocity, gravity, n, d)->Some_0;
    assert(abs(gravity * n) == abs(gravity) * n) by (nonlinear_arith)
        requires
            n >= 0,
    ;
    lemma_round_within_ceil(gravity * n, d);
    lemma_ceil_share_monotone(abs(gravity), n, d, big_n, big_d, abs(gravity));
    let speed = abs(velocity) + ceil_div(big_n * abs(gravity), big_d);
    assert(abs(gravity) * big_n == big_n * abs(gravity)) by (nonlinear_arith);
    assert(abs(next_velocity) <= speed);
    assert(abs(next_velocity * n) == abs(next_velocity) * n) by (nonlinear_arith)
        requires
            n >= 0,
    ;
    lemma_round_within_ceil(next_velocity * n, d);
    lemma_ceil_share_monotone(abs(next_velocity), n, d, big_n, big_d, speed);
    assert(speed * big_n == big_n * speed) by (nonlinear_arith);
}

/// Every free-flight sample of a body over the configured interval keeps its center inside the
/// center interval of [`free_flight_bounds`], so the bounds contain every point of the enclosing
/// sphere of every sample, whatever its orientation, including samples past an interior velocity
/// reversal.
pub proof fn lemma_free_flight_samples_within_bounds(
    rigid_box: RigidBox3d,
    config: RigidBoxFreeFlightConfig3d,
    numerator: u32,
    denominator: u32,
    point: [i64; 3],
)
    requires
        free_flight_bounds(rigid_box, config) is Ok,
        sampled_box(rigid_box, config, numerator, denominator) is Ok,
        within_enclosing_sphere(
            point,
            sampled_box(rigid_box, config, numerator, denominator)->Ok_0.body.position,
            rigid_box.body.half_extents,
        ),
    ensures
        bounds_contain(free_flight_bounds(rigid_box, config)->Ok_0, point),
{
    let sample = sampled_box(rigid_box, config, numerator, denominator)->Ok_0;
    let big_n = config.spec_timestep_numerator();
    let big_d = config.spec_timestep_denominator();
    let gravity = config.spec_gravity();
    let (low, high) = free_flight_center_interval(rigid_box, gravity, big_n, big_d)->Some_0;
    let (n, d) = sample_time(config, numerator, denominator)->Ok_0;
    assert(n * big_d <= big_n * d) by (nonlinear_arith)
        requires
            n == big_n * numerator,
            d == big_d * denominator,
            numerator <= denominator,
            big_n >= 0,
            big_d >= 1,
    ;
    assert(n >= 0 && d >= 1) by (nonlinear_arith)
        requires
            n == big_n * numerator,
            d == big_d * denominator,
            big_n >= 0,
            big_d >= 1,
            denominator >= 1,
    ;
    let body = rigid_box.body;
    if n == 0 || body.kind == BodyKind::Fixed {
        if body.kind == BodyKind::Dynamic && big_n != 0 {
            lemma_ceil_div_facts(big_n * (abs(body.velocity.x as int) + ceil_div(big_n * abs(gravity.x as int), big_d)), big_d, 0);
            lemma_ceil_div_facts(big_n * (abs(body.velocity.y as int) + ceil_div(big_n * abs(gravity.y as int), big_d)), big_d, 0);
            lemma_ceil_div_facts(big_n * (abs(body.velocity.z as int) + ceil_div(big_n * abs(gravity.z as int), big_d)), big_d, 0);
            lemma_ceil_div_facts(big_n * abs(gravity.x as int), big_d, 0);
            lemma_ceil_div_facts(big_n * abs(gravity.y as int), big_d, 0);
            lemma_ceil_div_facts(big_n * abs(gravity.z as int), big_d, 0);
            assert(big_n * abs(gravity.x as int) >= 0 && big_n * abs(gravity.y as int) >= 0 && big_n
                * abs(gravity.z as int) >= 0) by (nonlinear_arith)
                requires
                    big_n >= 0,
            ;
            assert(forall|v: int, c: int| v >= 0 && c >= 0 ==> #[trigger] (big_n * (v + c)) >= 0)
                by (nonlinear_arith)
                requires
                    big_n >= 0,
            ;
        }
    } else {
        lemma_axis_step_within(body.position.x as int, body.velocity.x as int, gravity.x as int, n, d, big_n, big_d);
        lemma_axis_step_within(body.position.y as int, body.velocity.y as int, gravity.y as int, n, d, big_n, big_d);
        lemma_axis_step_within(body.position.z as int, body.velocity.z as int, gravity.z as int, n, d, big_n, big_d);
        assert(big_n != 0) by (nonlinear_arith)
            requires
                n == big_n * numerator,
                n != 0,
        ;
        let dx = conservative_displacement(body.velocity.x as int, gravity.x as int, big_n, big_d);
        let dy = conservative_displacement(body.velocity.y as int, gravity.y as int, big_n, big_d);
        let dz = conservative_displacement(body.velocity.z as int, gravity.z as int, big_n, big_d);
        assert(low[0] == body.position.x - dx && high[0] == body.position.x + dx);
        assert(low[1] == body.position.y - dy && high[1] == body.position.y + dy);
        assert(low[2] == body.position.z - dz && high[2] == body.position.z + dz);
        assert(sample.body.position.x == advanced_axis(body.position.x as int, body.velocity.x as int, gravity.x as int, n, d)->Some_0.1);
        assert(sample.body.position.y == advanced_axis(body.position.y as int, body.velocity.y as int, gravity.y as int, n, d)->Some_0.1);
        assert(sample.body.position.z == advanced_axis(body.position.z as int, body.velocity.z as int, gravity.z as int, n, d)->Some_0.1);
    }
    assert(center_within(sample.body.position, low, high));
    lemma_center_interval_bounds_enclose(body.half_extents, low, high, sample.body.position, point);
}

} // verus!
