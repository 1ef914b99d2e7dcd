//! The spherical great-circle kernel: distance between two points and points
//! along the great-circle arc between them.

use vstd::prelude::*;
use crate::fixed::{
    abs, angle_of, angle_spec, asin_sq, asin_sq_spec, cos_fx, cos_spec, isqrt, isqrt_spec,
    next_term, series, sin_core_spec, sin_fx, sin_spec, HALF_PI_FX, PI_FX, SCALE,
};
use crate::types::{check_point, Distance, GeodistError, Point, EARTH_RADIUS_NANOMETERS};

verus! {

/// Nanodegrees in half a turn.
pub const HALF_TURN_NDEG: u128 = 180_000_000_000;

/// Nanodegrees in a full turn.
pub const FULL_TURN_NDEG: u128 = 360_000_000_000;

/// `|d| * pi / div` in fixed point, carrying the sign of `d`.
pub open spec fn scaled_rad(d: int, div: int) -> int {
    let m = abs(d) * PI_FX / div;
    if d < 0 {
        -m
    } else {
        m
    }
}

/// An angle in nanodegrees, in fixed-point radians.
pub open spec fn rad(d: int) -> int {
    scaled_rad(d, HALF_TURN_NDEG as int)
}

/// Half an angle in nanodegrees, in fixed-point radians.
pub open spec fn half_rad(d: int) -> int {
    scaled_rad(d, FULL_TURN_NDEG as int)
}

fn scaled_rad_fx(d: i128, div: u128) -> (r: i128)
    requires
        -FULL_TURN_NDEG <= d <= FULL_TURN_NDEG,
        div == HALF_TURN_NDEG || div == FULL_TURN_NDEG,
        abs(d as int) <= div,
    ensures
        r == scaled_rad(d as int, div as int),
        -PI_FX <= r <= PI_FX,
{
    let m: u128 = if d < 0 {
        (-d) as u128
    } else {
        d as u128
    };
    assert(m * PI_FX <= div * PI_FX) by (nonlinear_arith)
        requires
            m <= div,
    ;
    assert(m * PI_FX / (div as int) <= PI_FX) by (nonlinear_arith)
        requires
            m * PI_FX <= div * PI_FX,
            div > 0,
    ;
    let v: u128 = m * PI_FX / div;
    if d < 0 {
        -(v as i128)
    } else {
        v as i128
    }
}

/// The haversine of the central angle, `sin^2(dlat/2) + cos(lat1) cos(lat2)
/// sin^2(dlon/2)`, at scale `SCALE^2` and clamped to one, so that separations
/// far below a millimetre still register.
pub open spec fn haversine_spec(p1: Point, p2: Point) -> int {
    let s1 = sin_spec(half_rad(p2.lat - p1.lat));
    let s2 = sin_spec(half_rad(p2.lon - p1.lon));
    let c1 = cos_spec(rad(p1.lat as int));
    let c2 = cos_spec(rad(p2.lat as int));
    let cc = c1 * c2 / (SCALE as int);
    let sq = s2 * s2;
    let h = s1 * s1 + cc * (sq / (SCALE as int)) + cc * (sq % (SCALE as int)) / (SCALE as int);
    if h > SCALE * SCALE {
        (SCALE * SCALE) as int
    } else {
        h
    }
}

/// Half the central angle for a haversine `a` at scale `SCALE^2`:
/// `asin(sqrt(a))`, taken from the complement when `a` is above one half so
/// the bisection stays well conditioned.
pub open spec fn half_angle_spec(a: int) -> int {
    if a <= SCALE * SCALE / 2 {
        asin_sq_spec(a)
    } else {
        HALF_PI_FX - asin_sq_spec(SCALE * SCALE - a)
    }
}

/// Central angle between two valid points, fixed-point radians in `[0, pi]`.
#[verifier::opaque]
pub open spec fn central_angle_spec(p1: Point, p2: Point) -> int {
    2 * half_angle_spec(haversine_spec(p1, p2))
}

/// The central angle times the Earth's radius, rounded to nanometers.
#[verifier::opaque]
pub open spec fn arc_length_spec(p1: Point, p2: Point) -> int {
    (central_angle_spec(p1, p2) * EARTH_RADIUS_NANOMETERS + SCALE / 2) / (SCALE as int)
}

/// Largest distance the kernel reports: half the circumference, rounded up.
pub const MAX_DISTANCE_NM: u64 = 20_015_114_442_035_924;

/// Great-circle distance in nanometers between two valid points; the arc
/// length always lies in `[0, MAX_DISTANCE_NM]`, which the bounds state.
pub open spec fn distance_spec(p1: Point, p2: Point) -> int {
    let d = arc_length_spec(p1, p2);
    if d < 0 {
        0
    } else if d > MAX_DISTANCE_NM {
        MAX_DISTANCE_NM as int
    } else {
        d
    }
}

/// The outcome of measuring between two points: validation of the first point,
/// then of the second, then the distance.
pub open spec fn geodesic_spec(p1: Point, p2: Point) -> Result<nat, GeodistError> {
    match check_point(p1) {
        Err(e) => Err(e),
        Ok(_) => match check_point(p2) {
            Err(e) => Err(e),
            Ok(_) => Ok(distance_spec(p1, p2) as nat),
        },
    }
}

proof fn lemma_square_abs(s: int)
    ensures
        s * s == abs(s) * abs(s),
        0 <= s * s,
{
    assert(s * s == abs(s) * abs(s)) by (nonlinear_arith);
    assert(0 <= s * s) by (nonlinear_arith);
}

fn haversine_fx(p1: Point, p2: Point) -> (r: u128)
    requires
        p1.valid(),
        p2.valid(),
    ensures
        r == haversine_spec(p1, p2),
        r <= SCALE * SCALE,
{
    let s1: i128 = sin_fx(scaled_rad_fx(p2.lat as i128 - p1.lat as i128, FULL_TURN_NDEG));
    let s2: i128 = sin_fx(scaled_rad_fx(p2.lon as i128 - p1.lon as i128, FULL_TURN_NDEG));
    let c1: i128 = cos_fx(scaled_rad_fx(p1.lat as i128, HALF_TURN_NDEG));
    let c2: i128 = cos_fx(scaled_rad_fx(p2.lat as i128, HALF_TURN_NDEG));
    assert(rad(p1.lat as int) <= HALF_PI_FX && rad(p1.lat as int) >= -HALF_PI_FX) by (
    nonlinear_arith)
        requires
            abs(p1.lat as int) <= 90_000_000_000,
            rad(p1.lat as int) == scaled_rad(p1.lat as int, 180_000_000_000),
            scaled_rad(p1.lat as int, 180_000_000_000) == (if p1.lat < 0 {
                -(abs(p1.lat as int) * PI_FX / 180_000_000_000)
            } else {
                abs(p1.lat as int) * PI_FX / 180_000_000_000
            }),
            PI_FX == 2 * HALF_PI_FX,
            HALF_PI_FX == 113187804032455044,
    ;
    assert(rad(p2.lat as int) <= HALF_PI_FX && rad(p2.lat as int) >= -HALF_PI_FX) by (
    nonlinear_arith)
        requires
            abs(p2.lat as int) <= 90_000_000_000,
            rad(p2.lat as int) == scaled_rad(p2.lat as int, 180_000_000_000),
            scaled_rad(p2.lat as int, 180_000_000_000) == (if p2.lat < 0 {
                -(abs(p2.lat as int) * PI_FX / 180_000_000_000)
            } else {
                abs(p2.lat as int) * PI_FX / 180_000_000_000
            }),
            PI_FX == 2 * HALF_PI_FX,
            HALF_PI_FX == 113187804032455044,
    ;
    let m1: u128 = if s1 < 0 {
        (-s1) as u128
    } else {
        s1 as u128
    };
    let m2: u128 = if s2 < 0 {
        (-s2) as u128
    } else {
        s2 as u128
    };
    proof {
        lemma_square_abs(s1 as int);
        lemma_square_abs(s2 as int);
    }
    let u1: u128 = c1 as u128;
    let u2: u128 = c2 as u128;
    assert(m1 * m1 <= SCALE * SCALE && m2 * m2 <= SCALE * SCALE && u1 * u2 <= SCALE * SCALE) by (
    nonlinear_arith)
        requires
            m1 <= SCALE,
            m2 <= SCALE,
            u1 <= SCALE,
            u2 <= SCALE,
    ;
    let first: u128 = m1 * m1;
    let cc: u128 = u1 * u2 / SCALE;
    let sq: u128 = m2 * m2;
    assert(cc <= SCALE) by (nonlinear_arith)
        requires
            u1 * u2 <= SCALE * SCALE,
            cc == u1 * u2 / SCALE as int,
    ;
    let q: u128 = sq / SCALE;
    let rem: u128 = sq % SCALE;
    assert(q <= SCALE) by (nonlinear_arith)
        requires
            sq <= SCALE * SCALE,
            q == sq as int / SCALE as int,
    ;
    assert(cc * q <= SCALE * SCALE && cc * rem <= SCALE * SCALE) by (nonlinear_arith)
        requires
            cc <= SCALE,
            q <= SCALE,
            rem < SCALE,
    ;
    assert(cc * rem / (SCALE as int) <= SCALE) by (nonlinear_arith)
        requires
            cc * rem <= SCALE * SCALE,
    ;
    let h: u128 = first + cc * q + cc * rem / SCALE;
    if h > SCALE * SCALE {
        SCALE * SCALE
    } else {
        h
    }
}

fn half_angle_fx(a: u128) -> (r: u128)
    requires
        a <= SCALE * SCALE,
    ensures
        r == half_angle_spec(a as int),
        r <= HALF_PI_FX,
{
    if a <= SCALE * SCALE / 2 {
        asin_sq(a)
    } else {
        HALF_PI_FX - asin_sq(SCALE * SCALE - a)
    }
}

/// Central angle between two valid points in fixed-point radians.
pub fn central_angle(p1: Point, p2: Point) -> (r: u128)
    requires
        p1.valid(),
        p2.valid(),
    ensures
        r == central_angle_spec(p1, p2),
        r <= PI_FX,
{
    reveal(central_angle_spec);
    2 * half_angle_fx(haversine_fx(p1, p2))
}

/// Great-circle distance in nanometers between two valid points.
pub fn distance_nm(p1: Point, p2: Point) -> (r: u64)
    requires
        p1.valid(),
        p2.valid(),
    ensures
        r == distance_spec(p1, p2),
        r <= MAX_DISTANCE_NM,
{
    reveal(arc_length_spec);
    let c: u128 = central_angle(p1, p2);
    assert((c * EARTH_RADIUS_NANOMETERS + SCALE / 2) / (SCALE as int) <= MAX_DISTANCE_NM) by (
    nonlinear_arith)
        requires
            c <= PI_FX,
            PI_FX == 226375608064910088,
            SCALE == 72057594037927936,
            EARTH_RADIUS_NANOMETERS == 6_371_008_800_000_000,
            MAX_DISTANCE_NM == 20_015_114_442_035_924,
    ;
    ((c * EARTH_RADIUS_NANOMETERS + SCALE / 2) / SCALE) as u64
}

/// Great-circle distance between two points given in nanodegrees.
///
/// Both points are validated first (the first point before the second,
/// latitude before longitude); the distance is in nanometers.
pub fn geodesic_distance(p1: Point, p2: Point) -> (r: Result<Distance, GeodistError>)
    ensures
        match r {
            Ok(d) => geodesic_spec(p1, p2) == Ok::<nat, GeodistError>(d.view_nm()),
            Err(e) => geodesic_spec(p1, p2) == Err::<nat, GeodistError>(e),
        },
{
    match p1.validate() {
        Err(e) => return Err(e),
        Ok(()) => {},
    }
    match p2.validate() {
        Err(e) => return Err(e),
        Ok(()) => {},
    }
    Ok(Distance::from_nanometers(distance_nm(p1, p2)))
}

/// The baseline spherical kernel.
#[derive(Debug, Clone, Copy, Default)]
pub struct Spherical;

impl Spherical {
    /// Great-circle distance between two points, validated first.
    pub fn geodesic_distance(&self, p1: Point, p2: Point) -> (r: Result<Distance, GeodistError>)
        ensures
            match r {
                Ok(d) => geodesic_spec(p1, p2) == Ok::<nat, GeodistError>(d.view_nm()),
                Err(e) => geodesic_spec(p1, p2) == Err::<nat, GeodistError>(e),
            },
    {
        geodesic_distance(p1, p2)
    }
}

/// `a * b / SCALE`, truncated toward zero.
pub open spec fn tmul(a: int, b: int) -> int {
    let m = abs(a) * abs(b) / (SCALE as int);
    if (a < 0) != (b < 0) {
        -m
    } else {
        m
    }
}

fn tmul_fx(a: i128, b: i128) -> (r: i128)
    requires
        -SCALE <= a <= SCALE,
        -SCALE <= b <= SCALE,
    ensures
        r == tmul(a as int, b as int),
        -SCALE <= r <= SCALE,
{
    let ma: u128 = if a < 0 {
        (-a) as u128
    } else {
        a as u128
    };
    let mb: u128 = if b < 0 {
        (-b) as u128
    } else {
        b as u128
    };
    assert(ma * mb <= SCALE * SCALE) by (nonlinear_arith)
        requires
            ma <= SCALE,
            mb <= SCALE,
    ;
    assert(ma * mb / (SCALE as int) <= SCALE) by (nonlinear_arith)
        requires
            ma * mb <= SCALE * SCALE,
    ;
    let m: u128 = ma * mb / SCALE;
    if (a < 0) != (b < 0) {
        -(m as i128)
    } else {
        m as i128
    }
}

/// A fixed-point angle in `[0, pi]` as nanodegrees, rounded to nearest.
pub open spec fn ndeg_of(theta: int) -> int {
    (theta * HALF_TURN_NDEG + HALF_PI_FX) / (PI_FX as int)
}

/// The point on the unit sphere for `p`, in fixed point.
pub open spec fn unit_x(p: Point) -> int {
    tmul(cos_spec(rad(p.lat as int)), cos_spec(rad(p.lon as int)))
}

pub open spec fn unit_y(p: Point) -> int {
    tmul(cos_spec(rad(p.lat as int)), sin_spec(rad(p.lon as int)))
}

pub open spec fn unit_z(p: Point) -> int {
    sin_spec(rad(p.lat as int))
}

/// The point with the direction `(x, y, z)`.
pub open spec fn point_of_direction(x: int, y: int, z: int) -> Point {
    let lat_angle = angle_spec(abs(z), isqrt_spec(x * x + y * y));
    let lat = if z < 0 {
        -ndeg_of(lat_angle)
    } else {
        ndeg_of(lat_angle)
    };
    let phi = angle_spec(abs(y), abs(x));
    let base = if x >= 0 {
        phi
    } else {
        PI_FX - phi
    };
    let lon = if y < 0 {
        -ndeg_of(base)
    } else {
        ndeg_of(base)
    };
    Point { lat: lat as i64, lon: lon as i64 }
}

/// Spherical linear interpolation: the point a fraction `step / n` of the way
/// along the arc from `a` to `b`, whose central angle is `delta`.
pub open spec fn interpolate_spec(a: Point, b: Point, delta: int, step: int, n: int) -> Point {
    let wa = sin_spec((n - step) * delta / n);
    let wb = sin_spec(step * delta / n);
    point_of_direction(
        tmul(wa, unit_x(a)) + tmul(wb, unit_x(b)),
        tmul(wa, unit_y(a)) + tmul(wb, unit_y(b)),
        tmul(wa, unit_z(a)) + tmul(wb, unit_z(b)),
    )
}

pub fn ndeg_of_fx(theta: u128) -> (r: i64)
    requires
        theta <= PI_FX,
    ensures
        r == ndeg_of(theta as int),
        0 <= r <= HALF_TURN_NDEG,
        theta <= HALF_PI_FX ==> r <= 90_000_000_000,
{
    assert(ndeg_of(theta as int) <= HALF_TURN_NDEG) by (nonlinear_arith)
        requires
            theta <= PI_FX,
            PI_FX == 226375608064910088,
            HALF_PI_FX == 113187804032455044,
            HALF_TURN_NDEG == 180_000_000_000,
            ndeg_of(theta as int) == (theta * HALF_TURN_NDEG + HALF_PI_FX) / (PI_FX as int),
    ;
    assert(theta <= HALF_PI_FX ==> ndeg_of(theta as int) <= 90_000_000_000) by (nonlinear_arith)
        requires
            PI_FX == 226375608064910088,
            HALF_PI_FX == 113187804032455044,
            HALF_TURN_NDEG == 180_000_000_000,
            ndeg_of(theta as int) == (theta * HALF_TURN_NDEG + HALF_PI_FX) / (PI_FX as int),
    ;
    ((theta * HALF_TURN_NDEG + HALF_PI_FX) / PI_FX) as i64
}

fn point_of_direction_fx(x: i128, y: i128, z: i128) -> (r: Point)
    requires
        -2 * SCALE <= x <= 2 * SCALE,
        -2 * SCALE <= y <= 2 * SCALE,
        -2 * SCALE <= z <= 2 * SCALE,
    ensures
        r == point_of_direction(x as int, y as int, z as int),
        r.valid(),
{
    let ax: u128 = if x < 0 {
        (-x) as u128
    } else {
        x as u128
    };
    let ay: u128 = if y < 0 {
        (-y) as u128
    } else {
        y as u128
    };
    let az: u128 = if z < 0 {
        (-z) as u128
    } else {
        z as u128
    };
    assert(ax * ax + ay * ay < crate::fixed::SQRT_LIMIT) by (nonlinear_arith)
        requires
            ax <= 2 * SCALE,
            ay <= 2 * SCALE,
            SCALE == 72057594037927936,
            crate::fixed::SQRT_LIMIT == 1329227995784915872903807060280344576,
    ;
    assert(x * x + y * y == ax * ax + ay * ay) by (nonlinear_arith)
        requires
            ax == abs(x as int),
            ay == abs(y as int),
    ;
    let h: u128 = isqrt(ax * ax + ay * ay);
    assert(h <= crate::fixed::COMPONENT_LIMIT) by (nonlinear_arith)
        requires
            h * h <= ax * ax + ay * ay,
            ax <= 2 * SCALE,
            ay <= 2 * SCALE,
            SCALE == 72057594037927936,
            crate::fixed::COMPONENT_LIMIT == 576460752303423488,
    ;
    let lat_angle: u128 = angle_of(az, h);
    let lat_abs: i64 = ndeg_of_fx(lat_angle);
    let lat: i64 = if z < 0 {
        -lat_abs
    } else {
        lat_abs
    };
    let phi: u128 = angle_of(ay, ax);
    let base: u128 = if x >= 0 {
        phi
    } else {
        PI_FX - phi
    };
    let lon_abs: i64 = ndeg_of_fx(base);
    let lon: i64 = if y < 0 {
        -lon_abs
    } else {
        lon_abs
    };
    Point { lat, lon }
}

/// Fixed-point unit vector of a valid point.
fn unit_vector(p: Point) -> (r: (i128, i128, i128))
    requires
        p.valid(),
    ensures
        r.0 == unit_x(p),
        r.1 == unit_y(p),
        r.2 == unit_z(p),
        -SCALE <= r.0 <= SCALE,
        -SCALE <= r.1 <= SCALE,
        -SCALE <= r.2 <= SCALE,
{
    let lat: i128 = scaled_rad_fx(p.lat as i128, HALF_TURN_NDEG);
    let lon: i128 = scaled_rad_fx(p.lon as i128, HALF_TURN_NDEG);
    let cl: i128 = cos_fx(lat);
    (tmul_fx(cl, cos_fx(lon)), tmul_fx(cl, sin_fx(lon)), sin_fx(lat))
}

/// The point `step / n` of the way from `a` to `b` along their great circle.
pub fn interpolate(a: Point, b: Point, delta: u128, step: u64, n: u64) -> (r: Point)
    requires
        a.valid(),
        b.valid(),
        delta <= PI_FX,
        0 < n,
        step <= n,
    ensures
        r == interpolate_spec(a, b, delta as int, step as int, n as int),
        r.valid(),
{
    assert(0 <= (n - step) * delta / (n as int) <= delta && 0 <= step * delta / (n as int)
        <= delta) by (nonlinear_arith)
        requires
            0 < n,
            0 <= step <= n,
            0 <= delta,
    ;
    assert((n - step) * delta <= n * PI_FX && step * delta <= n * PI_FX) by (nonlinear_arith)
        requires
            0 < n,
            0 <= step <= n,
            0 <= delta <= PI_FX,
    ;
    let n128: u128 = n as u128;
    let wa: i128 = sin_fx((((n128 - step as u128) * delta) / n128) as i128);
    let wb: i128 = sin_fx(((step as u128 * delta) / n128) as i128);
    let (ax, ay, az) = unit_vector(a);
    let (bx, by, bz) = unit_vector(b);
    point_of_direction_fx(
        tmul_fx(wa, ax) + tmul_fx(wb, bx),
        tmul_fx(wa, ay) + tmul_fx(wb, by),
        tmul_fx(wa, az) + tmul_fx(wb, bz),
    )
}

/// Distances for many `(origin, destination)` pairs, in order; the first
/// invalid point fails the whole batch.
pub fn geodesic_distances(pairs: &[(Point, Point)]) -> (r: Result<Vec<u64>, GeodistError>)
    ensures
        match r {
            Ok(v) => v@.len() == pairs@.len() && forall|i: int|
                0 <= i < pairs@.len() ==> geodesic_spec(pairs@[i].0, pairs@[i].1) == Ok::<
                    nat,
                    GeodistError,
                >(#[trigger] v@[i] as nat),
            Err(e) => exists|i: int|
                0 <= i < pairs@.len() && geodesic_spec(pairs@[i].0, pairs@[i].1) == Err::<
                    nat,
                    GeodistError,
                >(e) && forall|j: int|
                    0 <= j < i ==> (#[trigger] geodesic_spec(pairs@[j].0, pairs@[j].1)) is Ok,
        },
{
    let mut out: Vec<u64> = Vec::new();
    let mut i: usize = 0;
    while i < pairs.len()
        invariant
            0 <= i <= pairs@.len(),
            out@.len() == i,
            forall|j: int|
                0 <= j < i ==> geodesic_spec(pairs@[j].0, pairs@[j].1) == Ok::<nat, GeodistError>(
                    #[trigger] out@[j] as nat,
                ),
        decreases pairs@.len() - i,
    {
        let (a, b) = pairs[i];
        match geodesic_distance(a, b) {
            Err(e) => {
                assert(forall|j: int| 0 <= j < i ==> (#[trigger] geodesic_spec(pairs@[j].0, pairs@[j].1)) is Ok) by {
                    assert forall|j: int| 0 <= j < i implies (#[trigger] geodesic_spec(
                        pairs@[j].0,
                        pairs@[j].1,
                    )) is Ok by {
                        assert(geodesic_spec(pairs@[j].0, pairs@[j].1) == Ok::<nat, GeodistError>(
                            out@[j] as nat,
                        ));
                    }
                }
                return Err(e);
            },
            Ok(d) => {
                out.push(d.nanometers());
            },
        }
        i = i + 1;
    }
    Ok(out)
}

proof fn lemma_series_of_zero(x2: int, k: int, n: nat)
    requires
        k >= 0,
    ensures
        series(0, x2, k, n) == 0,
    decreases n,
{
    if n > 0 {
        assert(0 * x2 == 0);
        assert((2 * k + 2) * (2 * k + 3) > 0) by (nonlinear_arith)
            requires
                k >= 0,
        ;
        assert(next_term(0, x2, k) == 0);
        lemma_series_of_zero(x2, k + 1, (n - 1) as nat);
    }
}

/// The distance from a point to itself is zero.
pub proof fn lemma_distance_to_self(p: Point)
    ensures
        distance_spec(p, p) == 0,
{
    reveal(arc_length_spec);
    reveal(central_angle_spec);
    assert(half_rad(0) == 0);
    lemma_series_of_zero(0, 0, crate::fixed::SERIES_TERMS as nat);
    assert(0 * crate::fixed::GUARD == 0);
    assert(0int * 0int / (crate::fixed::FINE as int) == 0);
    assert(sin_core_spec(0) == 0);
    assert(sin_spec(0) == 0);
    let cc = cos_spec(rad(p.lat as int)) * cos_spec(rad(p.lat as int)) / (SCALE as int);
    assert(0int * 0int == 0);
    assert(0int / (SCALE as int) == 0 && 0int % (SCALE as int) == 0);
    assert(cc * 0 == 0);
    assert(haversine_spec(p, p) == 0);
    assert(half_angle_spec(0) == 0);
}

} // verus!
