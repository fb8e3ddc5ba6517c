use vstd::prelude::*;

use crate::angular::{AngularError3d, integer_sqrt, is_floor_sqrt, norm_squared};
use crate::math::Vec3i;
use crate::oriented_box::OrientedBox3d;

verus! {

/// Conservative axis-aligned bounds for one translating, arbitrarily rotating box.
#[derive(Clone, Copy, Debug, PartialEq, Eq)]
pub struct RotationalSweepBounds3d {
    pub minimum: [i64; 3],
    pub maximum: [i64; 3],
}

/// `point` lies inside `bounds` (boundaries included).
pub open spec fn bounds_contain(bounds: RotationalSweepBounds3d, point: [i64; 3]) -> bool {
    &&& bounds.minimum[0] <= point[0] <= bounds.maximum[0]
    &&& bounds.minimum[1] <= point[1] <= bounds.maximum[1]
    &&& bounds.minimum[2] <= point[2] <= bounds.maximum[2]
}

impl RotationalSweepBounds3d {
    pub fn contains(self, point: [i64; 3]) -> (inside: bool)
        ensures
            inside == bounds_contain(self, point),
    {
        point[0] >= self.minimum[0] && point[0] <= self.maximum[0] && point[1] >= self.minimum[1]
            && point[1] <= self.maximum[1] && point[2] >= self.minimum[2] && point[2]
            <= self.maximum[2]
    }
}

#[derive(Clone, Copy, Debug, PartialEq, Eq, Structural)]
pub enum RotationalSweepError3d {
    ShapeMismatch,
    InvalidHalfExtents,
    Angular(AngularError3d),
    ArithmeticOverflow,
}

impl From<AngularError3d> for RotationalSweepError3d {
    fn from(value: AngularError3d) -> (error: RotationalSweepError3d)
        ensures
            error == RotationalSweepError3d::Angular(value),
    {
        RotationalSweepError3d::Angular(value)
    }
}

impl vstd::std_specs::convert::FromSpecImpl<AngularError3d> for RotationalSweepError3d {
    open spec fn obeys_from_spec() -> bool {
        true
    }

    open spec fn from_spec(value: AngularError3d) -> RotationalSweepError3d {
        RotationalSweepError3d::Angular(value)
    }
}

/// The squared Euclidean norm of the half extents.
pub open spec fn extent_norm_squared(half_extents: Vec3i) -> int {
    half_extents.x * half_extents.x + half_extents.y * half_extents.y + half_extents.z
        * half_extents.z
}

/// `radius` is the ceiling of the Euclidean norm of the half extents: the radius of a sphere that
/// encloses the box in every orientation.
pub open spec fn is_enclosing_radius(half_extents: Vec3i, radius: int) -> bool {
    let squared = extent_norm_squared(half_extents);
    &&& radius >= 0
    &&& squared <= radius * radius
    &&& (radius == 0 || (radius - 1) * (radius - 1) < squared)
}

pub open spec fn valid_extents(half_extents: Vec3i) -> bool {
    half_extents.x > 0 && half_extents.y > 0 && half_extents.z > 0
}

pub open spec fn interval_fits(low: [i64; 3], high: [i64; 3], radius: int) -> bool {
    forall|axis: int|
        0 <= axis < 3 ==> i64::MIN <= #[trigger] low[axis] - radius && high[axis] + radius
            <= i64::MAX
}

/// The ceiling of the Euclidean norm of the half extents (see [`is_enclosing_radius`]).
pub open spec fn enclosing_radius(half_extents: Vec3i) -> int {
    choose|radius: int| is_enclosing_radius(half_extents, radius)
}

/// The enclosing cube of `radius` swept over the center interval `[low, high]`.
pub open spec fn swept_bounds(low: [i64; 3], high: [i64; 3], radius: int) -> RotationalSweepBounds3d {
    RotationalSweepBounds3d {
        minimum: [(low[0] - radius) as i64, (low[1] - radius) as i64, (low[2] - radius) as i64],
        maximum: [(high[0] + radius) as i64, (high[1] + radius) as i64, (high[2] + radius) as i64],
    }
}

/// Bounds of a box with `half_extents` whose center stays in `[low, high]`, or an overflow.
pub open spec fn center_interval_bounds(half_extents: Vec3i, low: [i64; 3], high: [i64; 3]) -> Result<
    RotationalSweepBounds3d,
    RotationalSweepError3d,
> {
    let radius = enclosing_radius(half_extents);
    if interval_fits(low, high, radius) {
        Ok(swept_bounds(low, high, radius))
    } else {
        Err(RotationalSweepError3d::ArithmeticOverflow)
    }
}

/// The enclosing radius is the one any exhibited enclosing radius names.
pub proof fn lemma_enclosing_radius_is(half_extents: Vec3i, radius: int)
    requires
        is_enclosing_radius(half_extents, radius),
    ensures
        enclosing_radius(half_extents) == radius,
{
    lemma_enclosing_radius_unique(half_extents, enclosing_radius(half_extents), radius);
}

fn orientation_independent_radius(half_extents: Vec3i) -> (radius: i64)
    ensures
        is_enclosing_radius(half_extents, radius as int),
        0 <= radius <= 0x1_0000_0000,
{
    let x = half_extents.x as i64;
    let y = half_extents.y as i64;
    let z = half_extents.z as i64;
    proof {
        assert(0 <= x * x <= 0x4000_0000_0000_0000int) by (nonlinear_arith)
            requires
                -0x8000_0000 <= x < 0x8000_0000,
        ;
        assert(0 <= y * y <= 0x4000_0000_0000_0000int) by (nonlinear_arith)
            requires
                -0x8000_0000 <= y < 0x8000_0000,
        ;
        assert(0 <= z * z <= 0x4000_0000_0000_0000int) by (nonlinear_arith)
            requires
                -0x8000_0000 <= z < 0x8000_0000,
        ;
    }
    let squared: u128 = (x * x) as u128 + (y * y) as u128 + (z * z) as u128;
    assert(squared == extent_norm_squared(half_extents));
    let floor = integer_sqrt(squared);
    proof {
        if floor >= 0x1_0000_0000 {
            assert(floor * floor >= 0x1_0000_0000int * 0x1_0000_0000int) by (nonlinear_arith)
                requires
                    floor >= 0x1_0000_0000int,
            ;
        }
    }
    assert(floor < 0x1_0000_0000);
    if floor * floor == squared {
        proof {
            if floor > 0 {
                assert((floor - 1) * (floor - 1) < floor * floor) by (nonlinear_arith)
                    requires
                        floor > 0,
                ;
            }
        }
        floor as i64
    } else {
        assert(floor * floor < squared);
        assert(((floor + 1) - 1) * ((floor + 1) - 1) == floor * floor);
        (floor + 1) as i64
    }
}

/// One axis of the swept cube: `[low - radius, high + radius]`, or `None` where it leaves `i64`.
fn sweep_axis(low: i64, high: i64, radius: i64) -> (result: Option<(i64, i64)>)
    requires
        radius >= 0,
    ensures
        match result {
            Some((minimum, maximum)) => minimum == low - radius && maximum == high + radius,
            None => !(i64::MIN <= low - radius && high + radius <= i64::MAX),
        },
{
    if low < i64::MIN + radius || high > i64::MAX - radius {
        None
    } else {
        Some((low - radius, high + radius))
    }
}

/// Conservative bounds of a box of the given half extents whose center stays in the axis-wise
/// interval `[center_minimum, center_maximum]` while its orientation changes arbitrarily.
pub fn rotational_sweep_bounds_for_center_interval(
    half_extents: Vec3i,
    center_minimum: [i64; 3],
    center_maximum: [i64; 3],
) -> (result: Result<RotationalSweepBounds3d, RotationalSweepError3d>)
    ensures
        is_enclosing_radius(half_extents, enclosing_radius(half_extents)),
        result == center_interval_bounds(half_extents, center_minimum, center_maximum),
{
    let radius = orientation_independent_radius(half_extents);
    let ghost r = radius as int;
    proof {
        lemma_enclosing_radius_is(half_extents, r);
    }
    let x = sweep_axis(center_minimum[0], center_maximum[0], radius);
    let y = sweep_axis(center_minimum[1], center_maximum[1], radius);
    let z = sweep_axis(center_minimum[2], center_maximum[2], radius);
    match (x, y, z) {
        (Some((x0, x1)), Some((y0, y1)), Some((z0, z1))) => {
            let bounds = RotationalSweepBounds3d { minimum: [x0, y0, z0], maximum: [x1, y1, z1] };
            assert(interval_fits(center_minimum, center_maximum, r));
            assert(bounds.minimum =~= swept_bounds(center_minimum, center_maximum, r).minimum);
            assert(bounds.maximum =~= swept_bounds(center_minimum, center_maximum, r).maximum);
            Ok(bounds)
        },
        _ => {
            proof {
                assert forall|other: int| is_enclosing_radius(half_extents, other) implies !interval_fits(
                    center_minimum,
                    center_maximum,
                    other,
                ) by {
                    lemma_enclosing_radius_unique(half_extents, other, r);
                    if x is None {
                        assert(!(i64::MIN <= center_minimum[0] - other && center_maximum[0] + other <= i64::MAX));
                    } else if y is None {
                        assert(!(i64::MIN <= center_minimum[1] - other && center_maximum[1] + other <= i64::MAX));
                    } else {
                        assert(!(i64::MIN <= center_minimum[2] - other && center_maximum[2] + other <= i64::MAX));
                    }
                }
            }
            Err(RotationalSweepError3d::ArithmeticOverflow)
        },
    }
}

proof fn lemma_enclosing_radius_unique(half_extents: Vec3i, a: int, b: int)
    requires
        is_enclosing_radius(half_extents, a),
        is_enclosing_radius(half_extents, b),
    ensures
        a == b,
{
    let s = extent_norm_squared(half_extents);
    if a < b {
        assert(a * a <= (b - 1) * (b - 1)) by (nonlinear_arith)
            requires
                0 <= a,
                a <= b - 1,
        ;
    }
    if b < a {
        assert(b * b <= (a - 1) * (a - 1)) by (nonlinear_arith)
            requires
                0 <= b,
                b <= a - 1,
        ;
    }
}

/// The error that [`rotational_sweep_bounds`] reports before any bound arithmetic, if any.
pub open spec fn sweep_validation_error(start: OrientedBox3d, end: OrientedBox3d) -> Option<
    RotationalSweepError3d,
> {
    if !valid_extents(start.half_extents) {
        Some(RotationalSweepError3d::InvalidHalfExtents)
    } else if norm_squared(start.orientation) == 0 {
        Some(RotationalSweepError3d::Angular(AngularError3d::ZeroOrientation))
    } else if !valid_extents(end.half_extents) {
        Some(RotationalSweepError3d::InvalidHalfExtents)
    } else if norm_squared(end.orientation) == 0 {
        Some(RotationalSweepError3d::Angular(AngularError3d::ZeroOrientation))
    } else if start.half_extents != end.half_extents {
        Some(RotationalSweepError3d::ShapeMismatch)
    } else {
        None
    }
}

pub open spec fn center_low(start: OrientedBox3d, end: OrientedBox3d) -> [i64; 3] {
    [
        if start.center.x <= end.center.x {
            start.center.x as i64
        } else {
            end.center.x as i64
        },
        if start.center.y <= end.center.y {
            start.center.y as i64
        } else {
            end.center.y as i64
        },
        if start.center.z <= end.center.z {
            start.center.z as i64
        } else {
            end.center.z as i64
        },
    ]
}

pub open spec fn center_high(start: OrientedBox3d, end: OrientedBox3d) -> [i64; 3] {
    [
        if start.center.x >= end.center.x {
            start.center.x as i64
        } else {
            end.center.x as i64
        },
        if start.center.y >= end.center.y {
            start.center.y as i64
        } else {
            end.center.y as i64
        },
        if start.center.z >= end.center.z {
            start.center.z as i64
        } else {
            end.center.z as i64
        },
    ]
}

fn validate_endpoint(box_shape: OrientedBox3d) -> (result: Result<(), RotationalSweepError3d>)
    ensures
        match result {
            Ok(()) => valid_extents(box_shape.half_extents) && norm_squared(box_shape.orientation)
                > 0,
            Err(e) => if !valid_extents(box_shape.half_extents) {
                e == RotationalSweepError3d::InvalidHalfExtents
            } else {
                norm_squared(box_shape.orientation) == 0 && e == RotationalSweepError3d::Angular(
                    AngularError3d::ZeroOrientation,
                )
            },
        },
{
    if box_shape.half_extents.x <= 0 || box_shape.half_extents.y <= 0 || box_shape.half_extents.z
        <= 0 {
        return Err(RotationalSweepError3d::InvalidHalfExtents);
    }
    match box_shape.orientation.normalized() {
        Ok(_) => Ok(()),
        Err(error) => Err(RotationalSweepError3d::Angular(error)),
    }
}

/// Conservatively bounds a box whose center stays inside the axis-wise interval between two
/// endpoints while its orientation may change arbitrarily: the box is enclosed by a sphere whose
/// radius is the ceiling of the norm of its half extents, swept over the endpoint center interval.
pub fn rotational_sweep_bounds(start: OrientedBox3d, end: OrientedBox3d) -> (result: Result<
    RotationalSweepBounds3d,
    RotationalSweepError3d,
>)
    ensures
        sweep_validation_error(start, end) is None ==> is_enclosing_radius(
            start.half_extents,
            enclosing_radius(start.half_extents),
        ),
        result == match sweep_validation_error(start, end) {
            Some(error) => Err(error),
            None => center_interval_bounds(
                start.half_extents,
                center_low(start, end),
                center_high(start, end),
            ),
        },
{
    match validate_endpoint(start) {
        Ok(()) => {},
        Err(e) => return Err(e),
    }
    match validate_endpoint(end) {
        Ok(()) => {},
        Err(e) => return Err(e),
    }
    if start.half_extents != end.half_extents {
        return Err(RotationalSweepError3d::ShapeMismatch);
    }
    let low = [
        if start.center.x <= end.center.x {
            start.center.x as i64
        } else {
            end.center.x as i64
        },
        if start.center.y <= end.center.y {
            start.center.y as i64
        } else {
            end.center.y as i64
        },
        if start.center.z <= end.center.z {
            start.center.z as i64
        } else {
            end.center.z as i64
        },
    ];
    let high = [
        if start.center.x >= end.center.x {
            start.center.x as i64
        } else {
            end.center.x as i64
        },
        if start.center.y >= end.center.y {
            start.center.y as i64
        } else {
            end.center.y as i64
        },
        if start.center.z >= end.center.z {
            start.center.z as i64
        } else {
            end.center.z as i64
        },
    ];
    assert(low == center_low(start, end));
    assert(high == center_high(start, end));
    rotational_sweep_bounds_for_center_interval(start.half_extents, low, high)
}

/// `point` lies within the sphere around `center` that encloses a box of `half_extents` in every
/// orientation: its squared distance to `center` is at most the squared norm of the half extents.
pub open spec fn within_enclosing_sphere(point: [i64; 3], center: Vec3i, half_extents: Vec3i) -> bool {
    (point[0] - center.x) * (point[0] - center.x) + (point[1] - center.y) * (point[1] - center.y) + (
    point[2] - center.z) * (point[2] - center.z) <= extent_norm_squared(half_extents)
}

/// `center` lies in the axis-wise interval `[low, high]`.
pub open spec fn center_within(center: Vec3i, low: [i64; 3], high: [i64; 3]) -> bool {
    &&& low[0] <= center.x <= high[0]
    &&& low[1] <= center.y <= high[1]
    &&& low[2] <= center.z <= high[2]
}

proof fn lemma_ceil_sqrt_exists(n: int) -> (root: int)
    requires
        n >= 0,
    ensures
        root >= 0,
        n <= root * root,
        root == 0 || (root - 1) * (root - 1) < n,
    decreases n,
{
    if n == 0 {
        0
    } else {
        let r = lemma_ceil_sqrt_exists(n - 1);
        if n <= r * r {
            r
        } else {
            assert((r + 1) * (r + 1) == r * r + 2 * r + 1) by (nonlinear_arith);
            assert(r * r >= 0) by (nonlinear_arith);
            r + 1
        }
    }
}

/// Every box has an enclosing radius.
pub proof fn lemma_enclosing_radius_exists(half_extents: Vec3i)
    ensures
        is_enclosing_radius(half_extents, enclosing_radius(half_extents)),
{
    let hx = half_extents.x as int;
    let hy = half_extents.y as int;
    let hz = half_extents.z as int;
    assert(hx * hx + hy * hy + hz * hz >= 0) by (nonlinear_arith);
    let r = lemma_ceil_sqrt_exists(extent_norm_squared(half_extents));
    lemma_enclosing_radius_is(half_extents, r);
}

proof fn lemma_axis_within_radius(offset: int, rest: int, squared: int, radius: int)
    requires
        rest >= 0,
        offset * offset + rest <= squared,
        squared <= radius * radius,
        radius >= 0,
    ensures
        -radius <= offset <= radius,
{
    assert(-radius <= offset <= radius) by (nonlinear_arith)
        requires
            offset * offset <= radius * radius,
            radius >= 0,
    ;
}

/// The bounds of a center interval contain every point of the enclosing sphere of a box of the
/// same half extents centered anywhere in the interval, whatever its orientation: arbitrary
/// rotation never leaves them.
pub proof fn lemma_center_interval_bounds_enclose(
    half_extents: Vec3i,
    low: [i64; 3],
    high: [i64; 3],
    center: Vec3i,
    point: [i64; 3],
)
    requires
        center_interval_bounds(half_extents, low, high) is Ok,
        center_within(center, low, high),
        within_enclosing_sphere(point, center, half_extents),
    ensures
        bounds_contain(center_interval_bounds(half_extents, low, high)->Ok_0, point),
{
    lemma_enclosing_radius_exists(half_extents);
    let r = enclosing_radius(half_extents);
    let squared = extent_norm_squared(half_extents);
    let dx = point[0] - center.x;
    let dy = point[1] - center.y;
    let dz = point[2] - center.z;
    assert(dx * dx >= 0 && dy * dy >= 0 && dz * dz >= 0) by (nonlinear_arith);
    lemma_axis_within_radius(dx, dy * dy + dz * dz, squared, r);
    lemma_axis_within_radius(dy, dx * dx + dz * dz, squared, r);
    lemma_axis_within_radius(dz, dx * dx + dy * dy, squared, r);
    assert(i64::MIN <= low[0] - r && high[0] + r <= i64::MAX);
    assert(i64::MIN <= low[1] - r && high[1] + r <= i64::MAX);
    assert(i64::MIN <= low[2] - r && high[2] + r <= i64::MAX);
}

/// The rotational sweep bounds of two endpoint shapes contain every point of the enclosing sphere
/// of the box centered anywhere in the axis-wise interval between the endpoint centers, whatever
/// its orientation.
pub proof fn lemma_rotational_sweep_bounds_enclose(
    start: OrientedBox3d,
    end: OrientedBox3d,
    center: Vec3i,
    point: [i64; 3],
)
    requires
        sweep_validation_error(start, end) is None,
        center_interval_bounds(start.half_extents, center_low(start, end), center_high(start, end)) is Ok,
        center_within(center, center_low(start, end), center_high(start, end)),
        within_enclosing_sphere(point, center, start.half_extents),
    ensures
        bounds_contain(
            center_interval_bounds(
                start.half_extents,
                center_low(start, end),
                center_high(start, end),
            )->Ok_0,
            point,
        ),
{
    lemma_center_interval_bounds_enclose(
        start.half_extents,
        center_low(start, end),
        center_high(start, end),
        center,
        point,
    );
}

} // verus!
