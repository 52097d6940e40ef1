//! 16.16 fixed-point scalars, vectors and rotation matrices.
//!
//! Geometry is carried as signed 64-bit values holding `value * 65536`,
//! so every transform is exact integer arithmetic with truncation
//! toward zero, and the contracts can state each coordinate to the
//! unit. Division and multiplication truncate toward zero, as the
//! corresponding machine operations on magnitudes do.

use vstd::arithmetic::div_mod::lemma_div_is_ordered;
use vstd::arithmetic::div_mod::lemma_div_pos_is_pos;
use vstd::prelude::*;

verus! {

/// The fixed-point representation of one: `1.0` is stored as `65536`.
pub const FX_ONE: i64 = 65536;

/// Truncating division toward zero, the machine semantics of the
/// magnitude-based divisions below.
pub open spec fn trunc_div(n: int, d: int) -> int
    recommends
        d > 0,
{
    if n >= 0 {
        n / d
    } else {
        -((-n) / d)
    }
}

/// The fixed-point product: the mathematical product scaled back down
/// by `65536`, truncated toward zero.
pub open spec fn fxm(a: int, b: int) -> int {
    trunc_div(a * b, 65536)
}

/// Truncating division keeps magnitudes: if `|n| <= m` then
/// `|trunc_div(n, d)| <= m / d`.
pub proof fn lemma_trunc_div_bound(n: int, d: int, m: int)
    requires
        d > 0,
        0 <= m,
        -m <= n <= m,
    ensures
        -(m / d) <= trunc_div(n, d) <= m / d,
{
    if n >= 0 {
        lemma_div_is_ordered(n, m, d);
        lemma_div_pos_is_pos(n, d);
    } else {
        lemma_div_is_ordered(-n, m, d);
        lemma_div_pos_is_pos(-n, d);
    }
}

/// Truncating division of a multiple of the divisor recovers the
/// factor exactly: `trunc_div(x * d, d) == x`.
pub proof fn lemma_trunc_div_exact(x: int, d: int)
    requires
        d > 0,
    ensures
        trunc_div(x * d, d) == x,
{
    assert(x * d == d * x) by (nonlinear_arith);
    if x >= 0 {
        assert(d * x >= 0) by (nonlinear_arith)
            requires
                d > 0 && x >= 0,
        ;
        vstd::arithmetic::div_mod::lemma_div_multiples_vanish(x, d);
    } else {
        assert(d * x < 0) by (nonlinear_arith)
            requires
                d > 0 && x < 0,
        ;
        assert(-(d * x) == d * (-x)) by (nonlinear_arith);
        vstd::arithmetic::div_mod::lemma_div_multiples_vanish(-x, d);
    }
}

/// Truncating division toward zero of `n` by `d > 0`.
pub fn div_trunc(n: i64, d: i64) -> (r: i64)
    requires
        d > 0,
        n > i64::MIN,
    ensures
        r as int == trunc_div(n as int, d as int),
{
    if n >= 0 {
        let q: u64 = (n as u64) / (d as u64);
        q as i64
    } else {
        let q: u64 = ((-n) as u64) / (d as u64);
        proof {
            lemma_div_pos_is_pos(-(n as int), d as int);
            lemma_div_is_ordered(-(n as int), i64::MAX as int, d as int);
            vstd::arithmetic::div_mod::lemma_div_nonincreasing(i64::MAX as int, d as int);
        }
        -(q as i64)
    }
}

/// The fixed-point product of `a` and `b`. The asymmetric argument
/// bounds fit the transform chain: a matrix entry or partial result
/// on the left, a coordinate or scale factor on the right.
pub fn fx_mul(a: i64, b: i64) -> (r: i64)
    requires
        -0x100_0000_0000 <= a <= 0x100_0000_0000,
        -0x4000_0000 <= b <= 0x4000_0000,
    ensures
        r as int == fxm(a as int, b as int),
        -0x40_0000_0000_0000 <= r <= 0x40_0000_0000_0000,
{
    let neg: bool = (a < 0) != (b < 0);
    let ma: u128 = if a >= 0 {
        a as u128
    } else {
        (-a) as u128
    };
    let mb: u128 = if b >= 0 {
        b as u128
    } else {
        (-b) as u128
    };
    proof {
        assert(ma * mb <= 0x100_0000_0000 * 0x4000_0000) by (nonlinear_arith)
            requires
                0 <= ma <= 0x100_0000_0000,
                0 <= mb <= 0x4000_0000,
        ;
    }
    let mag: u128 = (ma * mb) / 65536;
    proof {
        lemma_div_is_ordered((ma * mb) as int, 0x100_0000_0000int * 0x4000_0000, 65536);
        lemma_div_pos_is_pos((ma * mb) as int, 65536);
        if a >= 0 && b >= 0 {
            assert(ma * mb == a * b) by (nonlinear_arith)
                requires
                    ma == a as int && mb == b as int,
            ;
        } else if a < 0 && b < 0 {
            assert(ma * mb == a * b) by (nonlinear_arith)
                requires
                    ma == -(a as int) && mb == -(b as int),
            ;
        } else if a < 0 {
            assert(ma * mb == -(a * b)) by (nonlinear_arith)
                requires
                    ma == -(a as int) && mb == b as int,
            ;
        } else {
            assert(ma * mb == -(a * b)) by (nonlinear_arith)
                requires
                    ma == a as int && mb == -(b as int),
            ;
        }
    }
    if neg {
        -(mag as i64)
    } else {
        mag as i64
    }
}

/// A 3D vector in 16.16 fixed point.
#[derive(Clone, Copy, Debug, PartialEq, Eq, Structural)]
pub struct Vec3 {
    pub x: i64,
    pub y: i64,
    pub z: i64,
}

/// A 3x3 matrix in 16.16 fixed point, held by rows; the library uses
/// it for rotations, whose entries stay within a few units.
#[derive(Clone, Copy, Debug, PartialEq, Eq, Structural)]
pub struct Mat3 {
    pub r0: Vec3,
    pub r1: Vec3,
    pub r2: Vec3,
}

/// The identity matrix.
pub open spec fn mat3_identity() -> Mat3 {
    Mat3 {
        r0: Vec3 { x: 65536, y: 0, z: 0 },
        r1: Vec3 { x: 0, y: 65536, z: 0 },
        r2: Vec3 { x: 0, y: 0, z: 65536 },
    }
}

impl Mat3 {
    /// The identity rotation: leaves every vector unchanged.
    pub fn identity() -> (m: Mat3)
        ensures
            m == mat3_identity(),
    {
        Mat3 {
            r0: Vec3 { x: FX_ONE, y: 0, z: 0 },
            r1: Vec3 { x: 0, y: FX_ONE, z: 0 },
            r2: Vec3 { x: 0, y: 0, z: FX_ONE },
        }
    }
}

/// A vector's components as mathematical integers.
pub open spec fn vec_view(v: Vec3) -> (int, int, int) {
    (v.x as int, v.y as int, v.z as int)
}

/// A coordinate small enough for the transform chain: at most 4096
/// world units in magnitude.
pub open spec fn coord_ok(c: int) -> bool {
    -0x1000_0000 <= c <= 0x1000_0000
}

/// All three coordinates of a vector in range.
pub open spec fn vec_ok(v: Vec3) -> bool {
    coord_ok(v.x as int) && coord_ok(v.y as int) && coord_ok(v.z as int)
}

/// A rotation matrix entry in range: at most 32 units in magnitude,
/// far beyond any rotation's actual entries.
pub open spec fn entry_ok(e: int) -> bool {
    -0x20_0000 <= e <= 0x20_0000
}

/// All nine entries of a matrix in range.
pub open spec fn mat_ok(m: Mat3) -> bool {
    entry_ok(m.r0.x as int) && entry_ok(m.r0.y as int) && entry_ok(m.r0.z as int) && entry_ok(
        m.r1.x as int,
    ) && entry_ok(m.r1.y as int) && entry_ok(m.r1.z as int) && entry_ok(m.r2.x as int) && entry_ok(
        m.r2.y as int,
    ) && entry_ok(m.r2.z as int)
}

/// A scale factor in range: at most 1024 in magnitude.
pub open spec fn scale_ok(s: int) -> bool {
    -0x400_0000 <= s <= 0x400_0000
}

/// A translation component in range.
pub open spec fn trans_ok(t: int) -> bool {
    -0x4000_0000_0000 <= t <= 0x4000_0000_0000
}

/// One row of a matrix applied to a point: the fixed-point dot
/// product.
pub open spec fn row_dot(r: Vec3, p: (int, int, int)) -> int {
    fxm(r.x as int, p.0) + fxm(r.y as int, p.1) + fxm(r.z as int, p.2)
}

/// A rotation matrix applied to a point.
pub open spec fn rot_apply(m: Mat3, p: (int, int, int)) -> (int, int, int) {
    (row_dot(m.r0, p), row_dot(m.r1, p), row_dot(m.r2, p))
}

/// Per-axis scaling applied to a point.
pub open spec fn scale_apply(s: Vec3, p: (int, int, int)) -> (int, int, int) {
    (fxm(p.0, s.x as int), fxm(p.1, s.y as int), fxm(p.2, s.z as int))
}

/// Translation applied to a point.
pub open spec fn translate_apply(t: Vec3, p: (int, int, int)) -> (int, int, int) {
    (p.0 + t.x, p.1 + t.y, p.2 + t.z)
}

/// A fixed-point coordinate as a screen pixel coordinate: the whole
/// part, truncated toward zero and saturated to the pixel range.
pub open spec fn pixel_of(v: int) -> int {
    let t = trunc_div(v, 65536);
    if t < -32768 {
        -32768
    } else if t > 32767 {
        32767
    } else {
        t
    }
}

/// Truncates a fixed-point coordinate to its screen pixel coordinate,
/// saturating at the pixel range like a float-to-integer cast.
pub fn to_pixel(v: i64) -> (p: i16)
    requires
        v > i64::MIN,
    ensures
        p as int == pixel_of(v as int),
{
    let t: i64 = div_trunc(v, 65536);
    proof {
        lemma_trunc_div_bound(v as int, 65536, i64::MAX as int);
    }
    if t < -32768 {
        -32768
    } else if t > 32767 {
        32767
    } else {
        t as i16
    }
}

/// The screen coordinate of a normalized device coordinate: scaled
/// by half the screen dimension and shifted to the screen center,
/// then truncated to a pixel.
pub open spec fn ndc_to_screen_spec(ndc: int, dim: int) -> int {
    pixel_of(fxm((dim / 2) * 65536, ndc) + (dim / 2) * 65536)
}

/// Remaps a fixed-point normalized device coordinate from the
/// [-1, 1] range onto a screen axis of `dim` pixels:
/// `screen = ndc * (dim / 2) + dim / 2`, truncated to a pixel.
pub fn ndc_to_screen(ndc: i64, dim: u16) -> (p: i16)
    requires
        -0x4000_0000 <= ndc <= 0x4000_0000,
    ensures
        p as int == ndc_to_screen_spec(ndc as int, dim as int),
{
    let half: i64 = (dim / 2) as i64 * FX_ONE;
    let scaled: i64 = fx_mul(half, ndc);
    to_pixel(scaled + half)
}

/// The identity matrix leaves every point unchanged: rotating by it
/// is exactly no rotation.
pub proof fn lemma_identity_rotation(p: (int, int, int))
    ensures
        rot_apply(mat3_identity(), p) == p,
{
    lemma_trunc_div_exact(p.0, 65536);
    lemma_trunc_div_exact(p.1, 65536);
    lemma_trunc_div_exact(p.2, 65536);
    assert(65536 * p.0 == p.0 * 65536) by (nonlinear_arith);
    assert(65536 * p.1 == p.1 * 65536) by (nonlinear_arith);
    assert(65536 * p.2 == p.2 * 65536) by (nonlinear_arith);
    assert(0 * p.0 == 0) by (nonlinear_arith);
    assert(0 * p.1 == 0) by (nonlinear_arith);
    assert(0 * p.2 == 0) by (nonlinear_arith);
}

} // verus!
