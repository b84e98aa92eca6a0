//! Great-circle distance model on fixed-point coordinates.
//!
//! Coordinates are given in micro-degrees (`i64`), angles are carried in
//! nano-radians at scale [`SCALE`], and the result is a distance in
//! milli-kilometres on a sphere of radius 6371 km, following the haversine
//! formula. Sine, cosine and arcsine are evaluated as truncated Taylor
//! series in integer arithmetic, so the whole computation is exact with
//! respect to the specification functions below.

use vstd::prelude::*;

verus! {

use vstd::arithmetic::div_mod::lemma_div_is_ordered;
use vstd::arithmetic::div_mod::lemma_div_is_ordered_by_denominator;

/// Fixed-point scale of angles and of the haversine intermediate values:
/// the stored integer `x` stands for the real number `x / SCALE`.
pub const SCALE: u64 = 1_000_000_000;

/// The circle constant at scale [`SCALE`], rounded to the nearest unit.
pub const PI_NANO: u64 = 3_141_592_654;

/// Half of [`PI_NANO`].
pub const HALF_PI_NANO: u64 = 1_570_796_327;

/// Largest admissible latitude, in micro-degrees (90 degrees).
pub const LAT_UDEG_MAX: i64 = 90_000_000;

/// Largest admissible longitude, in micro-degrees (180 degrees).
pub const LON_UDEG_MAX: i64 = 180_000_000;

/// Upper bound on every distance the model can return, in milli-km
/// (half the circumference of the 6371 km sphere, rounded up).
pub const DIST_MKM_MAX: u64 = 20_015_087;

/// Taylor coefficients of arcsine at scale [`SCALE`]:
/// `(2k)! / (4^k (k!)^2 (2k+1))` for `k = 0, ..., 9`.
pub const ASIN_C0: u64 = 1_000_000_000;
pub const ASIN_C1: u64 = 166_666_666;
pub const ASIN_C2: u64 = 75_000_000;
pub const ASIN_C3: u64 = 44_642_857;
pub const ASIN_C4: u64 = 30_381_944;
pub const ASIN_C5: u64 = 22_372_159;
pub const ASIN_C6: u64 = 17_352_764;
pub const ASIN_C7: u64 = 13_964_843;
pub const ASIN_C8: u64 = 11_551_800;
pub const ASIN_C9: u64 = 9_761_609;

pub open spec fn valid_lat(lat: int) -> bool {
    -(LAT_UDEG_MAX as int) <= lat <= LAT_UDEG_MAX as int
}

pub open spec fn valid_lon(lon: int) -> bool {
    -(LON_UDEG_MAX as int) <= lon <= LON_UDEG_MAX as int
}

pub open spec fn abs_diff(a: int, b: int) -> int {
    if a >= b {
        a - b
    } else {
        b - a
    }
}

/// One step of the descending Horner evaluation of sine and cosine:
/// `1 - y * u / k` at scale [`SCALE`].
pub open spec fn horner_down(y: int, u: int, k: int) -> int {
    SCALE as int - y * u / (k * (SCALE as int))
}

/// One step of the ascending Horner evaluation of arcsine:
/// `c + y * h` at scale [`SCALE`].
pub open spec fn horner_up(y: int, h: int, c: int) -> int {
    c + y * h / (SCALE as int)
}

/// Sine of `x` nano-radians, `0 <= x <= HALF_PI_NANO`, as a Taylor
/// polynomial through the eleventh power.
pub open spec fn sin_poly(x: int) -> int {
    let y = x * x / (SCALE as int);
    let u1 = horner_down(y, SCALE as int, 110);
    let u2 = horner_down(y, u1, 72);
    let u3 = horner_down(y, u2, 42);
    let u4 = horner_down(y, u3, 20);
    let u5 = horner_down(y, u4, 6);
    x * u5 / (SCALE as int)
}

/// Cosine of `x` nano-radians, `0 <= x <= HALF_PI_NANO`, as a Taylor
/// polynomial through the tenth power, clamped at zero.
pub open spec fn cos_poly(x: int) -> int {
    let y = x * x / (SCALE as int);
    let v1 = horner_down(y, SCALE as int, 90);
    let v2 = horner_down(y, v1, 56);
    let v3 = horner_down(y, v2, 30);
    let v4 = horner_down(y, v3, 12);
    let t = y * v4 / (2 * (SCALE as int));
    if t >= SCALE as int {
        0
    } else {
        SCALE as int - t
    }
}

/// Arcsine of `t` at scale [`SCALE`], `0 <= t <= 707_106_782` (that is,
/// arguments up to the sine of a quarter turn), as a ten-term Taylor series.
pub open spec fn asin_poly(t: int) -> int {
    let y = t * t / (SCALE as int);
    let h9 = ASIN_C9 as int;
    let h8 = horner_up(y, h9, ASIN_C8 as int);
    let h7 = horner_up(y, h8, ASIN_C7 as int);
    let h6 = horner_up(y, h7, ASIN_C6 as int);
    let h5 = horner_up(y, h6, ASIN_C5 as int);
    let h4 = horner_up(y, h5, ASIN_C4 as int);
    let h3 = horner_up(y, h4, ASIN_C3 as int);
    let h2 = horner_up(y, h3, ASIN_C2 as int);
    let h1 = horner_up(y, h2, ASIN_C1 as int);
    let h0 = horner_up(y, h1, ASIN_C0 as int);
    t * h0 / (SCALE as int)
}

pub open spec fn is_sqrt(n: int, r: int) -> bool {
    0 <= r && r * r <= n && n < (r + 1) * (r + 1)
}

/// The integer square root, characterized by [`is_sqrt`].
pub open spec fn sqrt_floor(n: int) -> int {
    choose|r: int| is_sqrt(n, r)
}

/// Half of the angle subtended by a coordinate difference of `dudeg`
/// micro-degrees, in nano-radians.
pub open spec fn half_angle_nano(dudeg: int) -> int {
    dudeg * (PI_NANO as int) / 360_000_000
}

/// The magnitude of a latitude of `lat` micro-degrees, in nano-radians.
pub open spec fn lat_angle_nano(lat: int) -> int {
    abs_diff(lat, 0) * (PI_NANO as int) / 180_000_000
}

/// Sine over `[0, PI_NANO]`, folding the second quadrant onto the first.
pub open spec fn sin_reduced(x: int) -> int {
    if x > HALF_PI_NANO as int {
        sin_poly(PI_NANO as int - x)
    } else {
        sin_poly(x)
    }
}

/// The haversine intermediate `a`: the squared sine of the half great-circle
/// angle, from the absolute coordinate differences (micro-degrees) and the
/// product `cc` of the two latitude cosines (scale `SCALE * SCALE`).
/// Clamped at `SCALE` (the value 1) against fixed-point overshoot.
pub open spec fn haversine_a(dlat_udeg: int, dlon_udeg: int, cc: int) -> int {
    let s1 = sin_poly(half_angle_nano(dlat_udeg));
    let s2 = sin_reduced(half_angle_nano(dlon_udeg));
    let s1sq = s1 * s1 / (SCALE as int);
    let s2sq = s2 * s2 / (SCALE as int);
    let a0 = s1sq + (cc / (SCALE as int)) * s2sq / (SCALE as int);
    if a0 > SCALE as int {
        SCALE as int
    } else {
        a0
    }
}

/// The central angle `2 * asin(sqrt(a))` in nano-radians, evaluated through
/// the complementary identity when `a` exceeds one half, so that the
/// arcsine argument never leaves `[0, sin(pi/4)]`.
pub open spec fn central_angle_nano(a: int) -> int {
    if 2 * a <= SCALE as int {
        2 * asin_poly(sqrt_floor(a * (SCALE as int)))
    } else {
        PI_NANO as int - 2 * asin_poly(sqrt_floor((SCALE as int - a) * (SCALE as int)))
    }
}

/// Distance in milli-kilometres from the absolute coordinate differences
/// and the product of the latitude cosines.
pub open spec fn dist_core(dlat_udeg: int, dlon_udeg: int, cc: int) -> int {
    central_angle_nano(haversine_a(dlat_udeg, dlon_udeg, cc)) * 6371 / 1_000_000
}

/// The great-circle distance between two points given in micro-degrees,
/// in milli-kilometres: the full specification of [`distance`].
pub open spec fn dist_mkm(lat1: int, lon1: int, lat2: int, lon2: int) -> int {
    dist_core(
        abs_diff(lat1, lat2),
        abs_diff(lon1, lon2),
        cos_poly(lat_angle_nano(lat1)) * cos_poly(lat_angle_nano(lat2)),
    )
}

/// `a * b / d <= amax * bmax / d` for non-negative bounded factors.
proof fn lemma_mul_div_le(a: int, b: int, amax: int, bmax: int, d: int)
    requires
        0 <= a <= amax,
        0 <= b <= bmax,
        0 < d,
    ensures
        a * b / d <= amax * bmax / d,
{
    assert(a * b <= amax * bmax) by (nonlinear_arith)
        requires
            0 <= a <= amax,
            0 <= b <= bmax,
    ;
    lemma_div_is_ordered(a * b, amax * bmax, d);
}

/// The integer square root is unique.
proof fn lemma_is_sqrt_unique(n: int, r1: int, r2: int)
    requires
        is_sqrt(n, r1),
        is_sqrt(n, r2),
    ensures
        r1 == r2,
{
    assert(r1 == r2) by (nonlinear_arith)
        requires
            0 <= r1 && r1 * r1 <= n && n < (r1 + 1) * (r1 + 1),
            0 <= r2 && r2 * r2 <= n && n < (r2 + 1) * (r2 + 1),
    ;
}

fn horner_down_exec(y: u64, u: u64, k: u64) -> (r: u64)
    requires
        y <= 2_470_000_000,
        u <= SCALE,
        6 <= k <= 110,
    ensures
        r as int == horner_down(y as int, u as int, k as int),
        r <= SCALE,
{
    proof {
        assert((y as int) * (u as int) <= 2_470_000_000 * (SCALE as int)) by (nonlinear_arith)
            requires
                y as int <= 2_470_000_000,
                u as int <= SCALE as int,
                0 <= y as int,
                0 <= u as int,
        ;
        lemma_div_is_ordered((y as int) * (u as int), 2_470_000_000 * (SCALE as int),
            (k as int) * (SCALE as int));
        lemma_div_is_ordered_by_denominator(2_470_000_000 * (SCALE as int),
            6 * (SCALE as int), (k as int) * (SCALE as int));
    }
    let q: u128 = (y as u128) * (u as u128) / ((k as u128) * (SCALE as u128));
    SCALE - (q as u64)
}

fn horner_up_exec(y: u64, h: u64, c: u64) -> (r: u64)
    requires
        y <= 502_000_000,
        h <= 2_200_000_000,
        c <= SCALE,
    ensures
        r as int == horner_up(y as int, h as int, c as int),
        r <= 2_200_000_000,
{
    proof {
        assert((y as int) * (h as int) <= 502_000_000 * 2_200_000_000) by (nonlinear_arith)
            requires
                y as int <= 502_000_000,
                h as int <= 2_200_000_000,
                0 <= y as int,
                0 <= h as int,
        ;
        lemma_div_is_ordered((y as int) * (h as int), 502_000_000int * 2_200_000_000int,
            SCALE as int);
    }
    let q: u128 = (y as u128) * (h as u128) / (SCALE as u128);
    c + (q as u64)
}

fn sin_poly_exec(x: u64) -> (r: u64)
    requires
        x <= HALF_PI_NANO,
    ensures
        r as int == sin_poly(x as int),
        r <= HALF_PI_NANO,
{
    proof {
        assert((x as int) * (x as int) <= (HALF_PI_NANO as int) * (HALF_PI_NANO as int))
            by (nonlinear_arith)
            requires
                0 <= x as int <= HALF_PI_NANO as int,
        ;
        lemma_div_is_ordered((x as int) * (x as int),
            (HALF_PI_NANO as int) * (HALF_PI_NANO as int), SCALE as int);
    }
    let y: u64 = ((x as u128) * (x as u128) / (SCALE as u128)) as u64;
    let u1 = horner_down_exec(y, SCALE, 110);
    let u2 = horner_down_exec(y, u1, 72);
    let u3 = horner_down_exec(y, u2, 42);
    let u4 = horner_down_exec(y, u3, 20);
    let u5 = horner_down_exec(y, u4, 6);
    proof {
        assert((x as int) * (u5 as int) <= (HALF_PI_NANO as int) * (SCALE as int))
            by (nonlinear_arith)
            requires
                0 <= x as int <= HALF_PI_NANO as int,
                0 <= u5 as int <= SCALE as int,
        ;
        lemma_div_is_ordered((x as int) * (u5 as int),
            (HALF_PI_NANO as int) * (SCALE as int), SCALE as int);
    }
    let r: u64 = ((x as u128) * (u5 as u128) / (SCALE as u128)) as u64;
    r
}

fn cos_poly_exec(x: u64) -> (r: u64)
    requires
        x <= HALF_PI_NANO,
    ensures
        r as int == cos_poly(x as int),
        r <= SCALE,
{
    proof {
        assert((x as int) * (x as int) <= (HALF_PI_NANO as int) * (HALF_PI_NANO as int))
            by (nonlinear_arith)
            requires
                0 <= x as int <= HALF_PI_NANO as int,
        ;
        lemma_div_is_ordered((x as int) * (x as int),
            (HALF_PI_NANO as int) * (HALF_PI_NANO as int), SCALE as int);
    }
    let y: u64 = ((x as u128) * (x as u128) / (SCALE as u128)) as u64;
    let v1 = horner_down_exec(y, SCALE, 90);
    let v2 = horner_down_exec(y, v1, 56);
    let v3 = horner_down_exec(y, v2, 30);
    let v4 = horner_down_exec(y, v3, 12);
    proof {
        assert((y as int) * (v4 as int) <= 2_470_000_000 * (SCALE as int)) by (nonlinear_arith)
            requires
                0 <= y as int <= 2_470_000_000,
                0 <= v4 as int <= SCALE as int,
        ;
        lemma_div_is_ordered((y as int) * (v4 as int), 2_470_000_000 * (SCALE as int),
            2 * (SCALE as int));
    }
    let t: u64 = ((y as u128) * (v4 as u128) / (2 * (SCALE as u128))) as u64;
    if t >= SCALE {
        0
    } else {
        SCALE - t
    }
}

fn asin_poly_exec(t: u64) -> (r: u64)
    requires
        t <= 707_106_782,
    ensures
        r as int == asin_poly(t as int),
        r <= 1_556_000_000,
{
    proof {
        assert((t as int) * (t as int) <= 707_106_782 * 707_106_782) by (nonlinear_arith)
            requires
                0 <= t as int <= 707_106_782,
        ;
        lemma_div_is_ordered((t as int) * (t as int), 707_106_782int * 707_106_782int,
            SCALE as int);
    }
    let y: u64 = ((t as u128) * (t as u128) / (SCALE as u128)) as u64;
    let h8 = horner_up_exec(y, ASIN_C9, ASIN_C8);
    let h7 = horner_up_exec(y, h8, ASIN_C7);
    let h6 = horner_up_exec(y, h7, ASIN_C6);
    let h5 = horner_up_exec(y, h6, ASIN_C5);
    let h4 = horner_up_exec(y, h5, ASIN_C4);
    let h3 = horner_up_exec(y, h4, ASIN_C3);
    let h2 = horner_up_exec(y, h3, ASIN_C2);
    let h1 = horner_up_exec(y, h2, ASIN_C1);
    let h0 = horner_up_exec(y, h1, ASIN_C0);
    proof {
        assert((t as int) * (h0 as int) <= 707_106_782 * 2_200_000_000) by (nonlinear_arith)
            requires
                0 <= t as int <= 707_106_782,
                0 <= h0 as int <= 2_200_000_000,
        ;
        lemma_div_is_ordered((t as int) * (h0 as int), 707_106_782int * 2_200_000_000int,
            SCALE as int);
    }
    let r: u64 = ((t as u128) * (h0 as u128) / (SCALE as u128)) as u64;
    r
}

/// The integer square root of `n`, by binary search.
fn isqrt(n: u64) -> (r: u64)
    ensures
        is_sqrt(n as int, r as int),
        r as int == sqrt_floor(n as int),
        r <= 4_294_967_295,
{
    let mut lo: u64 = 0;
    let mut hi: u64 = 4_294_967_296;
    proof {
        assert((hi as int) * (hi as int) > n as int) by (nonlinear_arith)
            requires
                hi as int == 4_294_967_296,
                n as int <= 0xffff_ffff_ffff_ffff,
        ;
    }
    while lo + 1 < hi
        invariant
            lo < hi,
            hi <= 4_294_967_296,
            (lo as int) * (lo as int) <= n as int,
            (n as int) < (hi as int) * (hi as int),
        decreases hi - lo,
    {
        let mid: u64 = lo + (hi - lo) / 2;
        proof {
            assert((mid as int) * (mid as int) <= 4_294_967_296int * 4_294_967_296int)
                by (nonlinear_arith)
                requires
                    0 <= mid as int <= 4_294_967_296,
            ;
        }
        if (mid as u128) * (mid as u128) <= n as u128 {
            lo = mid;
        } else {
            hi = mid;
        }
    }
    proof {
        assert(is_sqrt(n as int, lo as int));
        lemma_is_sqrt_unique(n as int, lo as int, sqrt_floor(n as int));
    }
    lo
}

/// The great-circle distance in milli-kilometres between two points given
/// in micro-degrees, on the 6371 km sphere.
pub fn distance(lat1: i64, lon1: i64, lat2: i64, lon2: i64) -> (d: u64)
    requires
        valid_lat(lat1 as int),
        valid_lon(lon1 as int),
        valid_lat(lat2 as int),
        valid_lon(lon2 as int),
    ensures
        d as int == dist_mkm(lat1 as int, lon1 as int, lat2 as int, lon2 as int),
        d <= DIST_MKM_MAX,
{
    let dlat: u64 = if lat1 >= lat2 {
        (lat1 - lat2) as u64
    } else {
        (lat2 - lat1) as u64
    };
    let dlon: u64 = if lon1 >= lon2 {
        (lon1 - lon2) as u64
    } else {
        (lon2 - lon1) as u64
    };
    proof {
        lemma_div_is_ordered((dlat as int) * (PI_NANO as int),
            180_000_000 * (PI_NANO as int), 360_000_000);
        lemma_div_is_ordered((dlon as int) * (PI_NANO as int),
            360_000_000 * (PI_NANO as int), 360_000_000);
    }
    let ha_lat: u64 = dlat * PI_NANO / 360_000_000;
    let ha_lon_raw: u64 = dlon * PI_NANO / 360_000_000;
    let ha_lon: u64 = if ha_lon_raw > HALF_PI_NANO {
        PI_NANO - ha_lon_raw
    } else {
        ha_lon_raw
    };
    let s1: u64 = sin_poly_exec(ha_lat);
    let s2: u64 = sin_poly_exec(ha_lon);
    proof {
        assert(s2 as int == sin_reduced(half_angle_nano(dlon as int)));
    }
    let abs1: u64 = if lat1 >= 0 {
        lat1 as u64
    } else {
        (-lat1) as u64
    };
    let abs2: u64 = if lat2 >= 0 {
        lat2 as u64
    } else {
        (-lat2) as u64
    };
    proof {
        lemma_div_is_ordered((abs1 as int) * (PI_NANO as int),
            90_000_000 * (PI_NANO as int), 180_000_000);
        lemma_div_is_ordered((abs2 as int) * (PI_NANO as int),
            90_000_000 * (PI_NANO as int), 180_000_000);
    }
    let alat1: u64 = abs1 * PI_NANO / 180_000_000;
    let alat2: u64 = abs2 * PI_NANO / 180_000_000;
    let c1: u64 = cos_poly_exec(alat1);
    let c2: u64 = cos_poly_exec(alat2);
    proof {
        assert((s1 as int) * (s1 as int) <= (HALF_PI_NANO as int) * (HALF_PI_NANO as int))
            by (nonlinear_arith)
            requires
                0 <= s1 as int <= HALF_PI_NANO as int,
        ;
        assert((s2 as int) * (s2 as int) <= (HALF_PI_NANO as int) * (HALF_PI_NANO as int))
            by (nonlinear_arith)
            requires
                0 <= s2 as int <= HALF_PI_NANO as int,
        ;
        lemma_div_is_ordered((s1 as int) * (s1 as int),
            (HALF_PI_NANO as int) * (HALF_PI_NANO as int), SCALE as int);
        lemma_div_is_ordered((s2 as int) * (s2 as int),
            (HALF_PI_NANO as int) * (HALF_PI_NANO as int), SCALE as int);
    }
    let s1sq: u64 = ((s1 as u128) * (s1 as u128) / (SCALE as u128)) as u64;
    let s2sq: u64 = ((s2 as u128) * (s2 as u128) / (SCALE as u128)) as u64;
    proof {
        assert((c1 as int) * (c2 as int) <= (SCALE as int) * (SCALE as int))
            by (nonlinear_arith)
            requires
                0 <= c1 as int <= SCALE as int,
                0 <= c2 as int <= SCALE as int,
        ;
        lemma_div_is_ordered((c1 as int) * (c2 as int), (SCALE as int) * (SCALE as int),
            SCALE as int);
    }
    let cc: u128 = (c1 as u128) * (c2 as u128);
    let ccd: u64 = (cc / (SCALE as u128)) as u64;
    proof {
        lemma_mul_div_le(ccd as int, s2sq as int, SCALE as int, 2_470_000_000,
            SCALE as int);
    }
    let term: u64 = ((ccd as u128) * (s2sq as u128) / (SCALE as u128)) as u64;
    let a0: u64 = s1sq + term;
    let a: u64 = if a0 > SCALE {
        SCALE
    } else {
        a0
    };
    let ghost spec_a: int = haversine_a(dlat as int, dlon as int, (c1 as int) * (c2 as int));
    proof {
        assert(a as int == spec_a);
    }
    let c_nano: u64 = if 2 * a <= SCALE {
        let sq: u64 = isqrt(a * SCALE);
        proof {
            assert(sq as int <= 707_106_781) by (nonlinear_arith)
                requires
                    0 <= sq as int,
                    (sq as int) * (sq as int) <= 500_000_000_000_000_000,
            ;
        }
        2 * asin_poly_exec(sq)
    } else {
        let sq: u64 = isqrt((SCALE - a) * SCALE);
        proof {
            assert(sq as int <= 707_106_781) by (nonlinear_arith)
                requires
                    0 <= sq as int,
                    (sq as int) * (sq as int) <= 500_000_000_000_000_000,
            ;
        }
        PI_NANO - 2 * asin_poly_exec(sq)
    };
    proof {
        assert(c_nano as int == central_angle_nano(spec_a));
        lemma_div_is_ordered((c_nano as int) * 6371, (PI_NANO as int) * 6371, 1_000_000);
    }
    c_nano * 6371 / 1_000_000
}

/// The distance model is symmetric in its two points.
pub proof fn lemma_distance_symmetric(lat1: int, lon1: int, lat2: int, lon2: int)
    ensures
        dist_mkm(lat1, lon1, lat2, lon2) == dist_mkm(lat2, lon2, lat1, lon1),
{
    assert(abs_diff(lat1, lat2) == abs_diff(lat2, lat1));
    assert(abs_diff(lon1, lon2) == abs_diff(lon2, lon1));
    assert(cos_poly(lat_angle_nano(lat1)) * cos_poly(lat_angle_nano(lat2))
        == cos_poly(lat_angle_nano(lat2)) * cos_poly(lat_angle_nano(lat1)))
        by (nonlinear_arith);
}

/// The distance from any point to itself is zero.
pub proof fn lemma_distance_self_zero(lat: int, lon: int)
    ensures
        dist_mkm(lat, lon, lat, lon) == 0,
{
    let cc = cos_poly(lat_angle_nano(lat)) * cos_poly(lat_angle_nano(lat));
    assert(half_angle_nano(0) == 0);
    assert(sin_poly(0) == 0);
    assert(sin_reduced(0) == 0);
    assert(haversine_a(0, 0, cc) == 0);
    assert(is_sqrt(0, 0));
    lemma_is_sqrt_unique(0, 0, sqrt_floor(0));
    assert(sqrt_floor(0) == 0);
    assert(asin_poly(0) == 0);
    assert(central_angle_nano(0) == 0);
    assert(dist_core(0, 0, cc) == 0);
}

} // verus!
