//! Vectors in three-dimensional Euclidean space, in fixed-point
//! coordinates: a stored component of [`crate::math::SCALE`] stands for
//! a real component of one.
//!
//! Every executable operation carries an exact contract over the
//! mathematical model [`vmodel`], a triple of unbounded integers.

use vstd::prelude::*;

use crate::math::{
    lemma_mul_bounds, lemma_sqrt_floor_lower, lemma_sqrt_floor_upper, lemma_tdiv_bounded,
    sqrt_floor, tdiv, tdiv_i64, SCALE,
};
use crate::math::isqrt_u128;

verus! {

/// Largest coordinate accepted by the products inside `dot` and `cross`.
pub const COORD_MAX: i64 = 0x2000_0000;

/// Largest coordinate accepted by `norm` and the additive operations.
pub const NORM_MAX: i64 = 0x2000_0000_0000;

/// Bound kept by ray directions and surface normals: twice the unit size.
pub const UNIT_MAX: i64 = 2 * 65536;

/// Fixed offset, in stored units, used by `step_away` to push a point
/// off a surface (about `2^-10` of a unit).
pub const STEP_FROM_ORIGIN: i64 = 64;

/// Vector in 3 dimension Euclidean space.
#[derive(Clone, Copy, Debug, PartialEq, Eq, Structural)]
pub struct Vector {
    pub x: i64,
    pub y: i64,
    pub z: i64,
}

/// The mathematical value of a vector: its coordinates as unbounded integers.
pub open spec fn vmodel(v: Vector) -> (int, int, int) {
    (v.x as int, v.y as int, v.z as int)
}

/// All three coordinates have magnitude at most `b`.
pub open spec fn sbounded(a: (int, int, int), b: int) -> bool {
    &&& -b <= a.0 <= b
    &&& -b <= a.1 <= b
    &&& -b <= a.2 <= b
}

/// Dot product of two integer triples.
pub open spec fn sdot(a: (int, int, int), b: (int, int, int)) -> int {
    a.0 * b.0 + a.1 * b.1 + a.2 * b.2
}

pub open spec fn sadd(a: (int, int, int), b: (int, int, int)) -> (int, int, int) {
    (a.0 + b.0, a.1 + b.1, a.2 + b.2)
}

pub open spec fn ssub(a: (int, int, int), b: (int, int, int)) -> (int, int, int) {
    (a.0 - b.0, a.1 - b.1, a.2 - b.2)
}

/// Exact scaling by an integer factor.
pub open spec fn sscale(a: (int, int, int), k: int) -> (int, int, int) {
    (a.0 * k, a.1 * k, a.2 * k)
}

/// Fixed-point scaling: multiply by `k` stored units and divide by the scale.
pub open spec fn sscaled(a: (int, int, int), k: int) -> (int, int, int) {
    (tdiv(a.0 * k, SCALE as int), tdiv(a.1 * k, SCALE as int), tdiv(a.2 * k, SCALE as int))
}

pub open spec fn scross(a: (int, int, int), b: (int, int, int)) -> (int, int, int) {
    (a.1 * b.2 - a.2 * b.1, -(a.0 * b.2) + a.2 * b.0, a.0 * b.1 - a.1 * b.0)
}

/// The stored magnitude: floor of the square root of the dot square.
pub open spec fn ssize(a: (int, int, int)) -> int {
    sqrt_floor(sdot(a, a))
}

/// Normalization in fixed point: each coordinate is brought to scale and
/// divided by the magnitude.  Undefined (`None`) exactly for the zero vector.
pub open spec fn snorm(a: (int, int, int)) -> Option<(int, int, int)> {
    if a == (0int, 0int, 0int) {
        None
    } else {
        let s = ssize(a);
        Some((tdiv(a.0 * SCALE, s), tdiv(a.1 * SCALE, s), tdiv(a.2 * SCALE, s)))
    }
}

/// Fixed-point mirror reflection of `d` about the unit normal `n`:
/// `d - 2 (d . n) n`, with the double dot product brought back to scale.
pub open spec fn sreflect(d: (int, int, int), n: (int, int, int)) -> (int, int, int) {
    ssub(
        d,
        (
            tdiv(2 * sdot(d, n) * n.0, (SCALE * SCALE) as int),
            tdiv(2 * sdot(d, n) * n.1, (SCALE * SCALE) as int),
            tdiv(2 * sdot(d, n) * n.2, (SCALE * SCALE) as int),
        ),
    )
}

/// Mirror reflection at unit scale, for a normal of unit dot square:
/// the ideal form of [`sreflect`], free of rounding.
pub open spec fn sreflect_exact(d: (int, int, int), n: (int, int, int)) -> (int, int, int) {
    ssub(d, sscale(n, 2 * sdot(d, n)))
}

/// Reflection about a unit normal flips the normal component of the
/// direction and preserves its magnitude: for every `d` and every `n`
/// with `n . n == 1` and `d . n < 0`, the reflected direction satisfies
/// `reflect(d, n) . n == -(d . n)`.
pub proof fn lemma_reflect_flips_normal_component(d: (int, int, int), n: (int, int, int))
    by (nonlinear_arith)
    requires
        sdot(n, n) == 1,
        sdot(d, n) < 0,
    ensures
        sdot(sreflect_exact(d, n), n) == -sdot(d, n),
{
}

impl Vector {
    /// Return new Vector (Point in Euclidean space) with given coordinates.
    pub fn new(x: i64, y: i64, z: i64) -> (r: Vector)
        ensures
            r == (Vector { x, y, z }),
    {
        Vector { x, y, z }
    }

    /// Return new Vector with given coordinates from array.
    pub fn new_from_arr(xyz: &[i64; 3]) -> (r: Vector)
        ensures
            r == (Vector { x: xyz[0], y: xyz[1], z: xyz[2] }),
    {
        Vector { x: xyz[0], y: xyz[1], z: xyz[2] }
    }

    /// Componentwise sum.
    pub fn add(&self, rhs: &Vector) -> (r: Vector)
        requires
            i64::MIN <= self.x + rhs.x <= i64::MAX,
            i64::MIN <= self.y + rhs.y <= i64::MAX,
            i64::MIN <= self.z + rhs.z <= i64::MAX,
        ensures
            vmodel(r) == sadd(vmodel(*self), vmodel(*rhs)),
    {
        Vector { x: self.x + rhs.x, y: self.y + rhs.y, z: self.z + rhs.z }
    }

    /// Componentwise difference.
    pub fn sub(&self, rhs: &Vector) -> (r: Vector)
        requires
            i64::MIN <= self.x - rhs.x <= i64::MAX,
            i64::MIN <= self.y - rhs.y <= i64::MAX,
            i64::MIN <= self.z - rhs.z <= i64::MAX,
        ensures
            vmodel(r) == ssub(vmodel(*self), vmodel(*rhs)),
    {
        Vector { x: self.x - rhs.x, y: self.y - rhs.y, z: self.z - rhs.z }
    }

    /// Fixed-point scaling: each coordinate times `k` stored units.
    pub fn scaled(&self, k: i64) -> (r: Vector)
        requires
            sbounded(vmodel(*self), UNIT_MAX as int),
            -NORM_MAX <= k <= NORM_MAX,
        ensures
            vmodel(r) == sscaled(vmodel(*self), k as int),
            sbounded(vmodel(r), 2 * (if k >= 0 { k as int } else { -(k as int) })),
    {
        proof {
            lemma_mul_bounds(self.x as int, k as int, UNIT_MAX as int, NORM_MAX as int);
            lemma_mul_bounds(self.y as int, k as int, UNIT_MAX as int, NORM_MAX as int);
            lemma_mul_bounds(self.z as int, k as int, UNIT_MAX as int, NORM_MAX as int);
        }
        let px: i64 = self.x * k;
        let py: i64 = self.y * k;
        let pz: i64 = self.z * k;
        proof {
            let ka = if k >= 0 { k as int } else { -(k as int) };
            lemma_mul_bounds(self.x as int, k as int, UNIT_MAX as int, ka);
            lemma_mul_bounds(self.y as int, k as int, UNIT_MAX as int, ka);
            lemma_mul_bounds(self.z as int, k as int, UNIT_MAX as int, ka);
            lemma_tdiv_bounded(px as int, SCALE as int, 2 * ka);
            lemma_tdiv_bounded(py as int, SCALE as int, 2 * ka);
            lemma_tdiv_bounded(pz as int, SCALE as int, 2 * ka);
            assert(UNIT_MAX as int * ka == (2 * ka) * (SCALE as int)) by (nonlinear_arith)
                requires
                    UNIT_MAX == 2 * 65536i64,
                    SCALE == 65536i64,
            ;
        }
        Vector {
            x: tdiv_i64(px, SCALE),
            y: tdiv_i64(py, SCALE),
            z: tdiv_i64(pz, SCALE),
        }
    }

    /// Return scalar or dot product of two Vectors (scalar).
    pub fn dot(&self, rhs: &Vector) -> (r: i64)
        requires
            sbounded(vmodel(*self), COORD_MAX as int),
            sbounded(vmodel(*rhs), COORD_MAX as int),
        ensures
            r == sdot(vmodel(*self), vmodel(*rhs)),
    {
        proof {
            lemma_mul_bounds(self.x as int, rhs.x as int, COORD_MAX as int, COORD_MAX as int);
            lemma_mul_bounds(self.y as int, rhs.y as int, COORD_MAX as int, COORD_MAX as int);
            lemma_mul_bounds(self.z as int, rhs.z as int, COORD_MAX as int, COORD_MAX as int);
        }
        self.x * rhs.x + self.y * rhs.y + self.z * rhs.z
    }

    /// Return dot product of Vector by itself (scalar).
    pub fn dot2(&self) -> (r: i64)
        requires
            sbounded(vmodel(*self), COORD_MAX as int),
        ensures
            r == sdot(vmodel(*self), vmodel(*self)),
            r >= 0,
    {
        proof {
            lemma_sq_nonneg(self.x as int);
            lemma_sq_nonneg(self.y as int);
            lemma_sq_nonneg(self.z as int);
        }
        self.dot(self)
    }

    /// Return cross product of two Vectors (Vector).
    pub fn cross(&self, rhs: &Vector) -> (r: Vector)
        requires
            sbounded(vmodel(*self), COORD_MAX as int),
            sbounded(vmodel(*rhs), COORD_MAX as int),
        ensures
            vmodel(r) == scross(vmodel(*self), vmodel(*rhs)),
    {
        proof {
            lemma_mul_bounds(self.y as int, rhs.z as int, COORD_MAX as int, COORD_MAX as int);
            lemma_mul_bounds(self.z as int, rhs.y as int, COORD_MAX as int, COORD_MAX as int);
            lemma_mul_bounds(self.x as int, rhs.z as int, COORD_MAX as int, COORD_MAX as int);
            lemma_mul_bounds(self.z as int, rhs.x as int, COORD_MAX as int, COORD_MAX as int);
            lemma_mul_bounds(self.x as int, rhs.y as int, COORD_MAX as int, COORD_MAX as int);
            lemma_mul_bounds(self.y as int, rhs.x as int, COORD_MAX as int, COORD_MAX as int);
        }
        Vector {
            x: self.y * rhs.z - self.z * rhs.y,
            y: -(self.x * rhs.z) + self.z * rhs.x,
            z: self.x * rhs.y - self.y * rhs.x,
        }
    }

    /// Return size (length) of the Vector, in stored units.
    pub fn size(&self) -> (r: i64)
        requires
            sbounded(vmodel(*self), COORD_MAX as int),
        ensures
            r == ssize(vmodel(*self)),
            r >= 0,
    {
        let d2: i64 = self.dot2();
        proof {
            lemma_sqrt_floor_upper(d2 as int, 0x1_0000_0000_0000_0000int - 1);
            lemma_sqrt_floor_lower(d2 as int, 0);
        }
        let r64: u64 = isqrt_u128(d2 as u128);
        proof {
            lemma_sqrt_floor_upper(d2 as int, 0x7fff_ffff_ffff_ffffint);
        }
        r64 as i64
    }

    /// Normalize: bring the Vector to unit size.  Undefined for the zero
    /// vector, for which `None` is returned.
    pub fn norm(&self) -> (r: Option<Vector>)
        requires
            sbounded(vmodel(*self), NORM_MAX as int),
        ensures
            r is Some <==> vmodel(*self) != (0int, 0int, 0int),
            r is Some ==> Some(vmodel(r->Some_0)) == snorm(vmodel(*self)),
            r is Some ==> sbounded(vmodel(r->Some_0), SCALE as int),
    {
        if self.x == 0 && self.y == 0 && self.z == 0 {
            return None;
        }
        proof {
            lemma_mul_bounds(self.x as int, self.x as int, NORM_MAX as int, NORM_MAX as int);
            lemma_mul_bounds(self.y as int, self.y as int, NORM_MAX as int, NORM_MAX as int);
            lemma_mul_bounds(self.z as int, self.z as int, NORM_MAX as int, NORM_MAX as int);
            lemma_sq_nonneg(self.x as int);
            lemma_sq_nonneg(self.y as int);
            lemma_sq_nonneg(self.z as int);
        }
        let xx: i128 = (self.x as i128) * (self.x as i128);
        let yy: i128 = (self.y as i128) * (self.y as i128);
        let zz: i128 = (self.z as i128) * (self.z as i128);
        let d2: i128 = xx + yy + zz;
        proof {
            lemma_sum_squares_pos(self.x as int, self.y as int, self.z as int);
        }
        let s64: u64 = isqrt_u128(d2 as u128);
        proof {
            lemma_sqrt_floor_lower(d2 as int, 1);
            lemma_sqrt_floor_upper(d2 as int, 0x4000_0000_0000_0000int);
        }
        let size: i64 = s64 as i64;
        proof {
            lemma_mul_bounds(self.x as int, SCALE as int, NORM_MAX as int, SCALE as int);
            lemma_mul_bounds(self.y as int, SCALE as int, NORM_MAX as int, SCALE as int);
            lemma_mul_bounds(self.z as int, SCALE as int, NORM_MAX as int, SCALE as int);
        }
        let nx_num: i64 = self.x * SCALE;
        let ny_num: i64 = self.y * SCALE;
        let nz_num: i64 = self.z * SCALE;
        proof {
            lemma_coord_le_size(self.x as int, self.y as int, self.z as int);
            lemma_mul_bounds(self.x as int, SCALE as int, size as int, SCALE as int);
            lemma_mul_bounds(self.y as int, SCALE as int, size as int, SCALE as int);
            lemma_mul_bounds(self.z as int, SCALE as int, size as int, SCALE as int);
            assert(size as int * SCALE as int == SCALE as int * size as int) by (nonlinear_arith);
            lemma_tdiv_bounded(nx_num as int, size as int, SCALE as int);
            lemma_tdiv_bounded(ny_num as int, size as int, SCALE as int);
            lemma_tdiv_bounded(nz_num as int, size as int, SCALE as int);
        }
        Some(Vector {
            x: tdiv_i64(nx_num, size),
            y: tdiv_i64(ny_num, size),
            z: tdiv_i64(nz_num, size),
        })
    }

    /// Mirror reflection about the unit normal `n`.  `None` when the
    /// direction does not point against the surface (`d . n >= 0`), or
    /// when rounding would carry the result outside the direction bound.
    pub fn reflect(&self, n: &Vector) -> (r: Option<Vector>)
        requires
            sbounded(vmodel(*self), UNIT_MAX as int),
            sbounded(vmodel(*n), UNIT_MAX as int),
        ensures
            r is Some <==> (sdot(vmodel(*self), vmodel(*n)) < 0 && sbounded(
                sreflect(vmodel(*self), vmodel(*n)),
                UNIT_MAX as int,
            )),
            r is Some ==> vmodel(r->Some_0) == sreflect(vmodel(*self), vmodel(*n)),
    {
        proof {
            lemma_mul_bounds(self.x as int, n.x as int, UNIT_MAX as int, UNIT_MAX as int);
            lemma_mul_bounds(self.y as int, n.y as int, UNIT_MAX as int, UNIT_MAX as int);
            lemma_mul_bounds(self.z as int, n.z as int, UNIT_MAX as int, UNIT_MAX as int);
        }
        let d: i64 = self.x * n.x + self.y * n.y + self.z * n.z;
        if d >= 0 {
            return None;
        }
        let d2: i64 = 2 * d;
        proof {
            assert(-103079215104 <= 2 * sdot(vmodel(*self), vmodel(*n)) <= 103079215104)
                by (nonlinear_arith)
                requires
                    sbounded(vmodel(*self), 131072),
                    sbounded(vmodel(*n), 131072),
            ;
            lemma_mul_bounds(d2 as int, n.x as int, 103079215104, 131072);
            lemma_mul_bounds(d2 as int, n.y as int, 103079215104, 131072);
            lemma_mul_bounds(d2 as int, n.z as int, 103079215104, 131072);
        }
        let qx: i64 = tdiv_i64(d2 * n.x, SCALE * SCALE);
        let qy: i64 = tdiv_i64(d2 * n.y, SCALE * SCALE);
        let qz: i64 = tdiv_i64(d2 * n.z, SCALE * SCALE);
        let rx: i64 = self.x - qx;
        let ry: i64 = self.y - qy;
        let rz: i64 = self.z - qz;
        if -UNIT_MAX <= rx && rx <= UNIT_MAX && -UNIT_MAX <= ry && ry <= UNIT_MAX && -UNIT_MAX
            <= rz && rz <= UNIT_MAX {
            Some(Vector { x: rx, y: ry, z: rz })
        } else {
            None
        }
    }

    /// Step away from a surface point along the normal, so that a
    /// secondary ray does not immediately intersect the surface it
    /// starts on.
    pub fn step_away(&self, n: &Vector) -> (r: Vector)
        requires
            sbounded(vmodel(*self), NORM_MAX as int),
            sbounded(vmodel(*n), UNIT_MAX as int),
        ensures
            vmodel(r) == sadd(
                vmodel(*self),
                sscaled(vmodel(*n), STEP_FROM_ORIGIN as int),
            ),
            -(2 * STEP_FROM_ORIGIN) <= vmodel(r).0 - vmodel(*self).0 <= 2 * STEP_FROM_ORIGIN,
            -(2 * STEP_FROM_ORIGIN) <= vmodel(r).1 - vmodel(*self).1 <= 2 * STEP_FROM_ORIGIN,
            -(2 * STEP_FROM_ORIGIN) <= vmodel(r).2 - vmodel(*self).2 <= 2 * STEP_FROM_ORIGIN,
    {
        let off = n.scaled(STEP_FROM_ORIGIN);
        self.add(&off)
    }

    /// Whether every coordinate has magnitude at most `b`.
    pub fn in_bounds(&self, b: i64) -> (r: bool)
        requires
            b >= 0,
        ensures
            r == sbounded(vmodel(*self), b as int),
    {
        -b <= self.x && self.x <= b && -b <= self.y && self.y <= b && -b <= self.z && self.z <= b
    }

    /// Return new Vector with random direction and random size in `[0, 1]`.
    ///
    /// The components of the direction are sampled uniformly from the
    /// non-negative unit interval before normalization, so the direction
    /// is biased toward the positive octant; the rescaling factor is a
    /// second independent sample.
    pub fn new_rand() -> (r: Vector)
        ensures
            sbounded(vmodel(r), SCALE as int),
    {
        let a: u32 = sample_u32();
        let b: u32 = sample_u32();
        let c: u32 = sample_u32();
        let v = Vector { x: (a % 65537) as i64, y: (b % 65537) as i64, z: (c % 65537) as i64 };
        match v.norm() {
            None => Vector { x: 0, y: 0, z: 0 },
            Some(u) => {
                let f: u32 = sample_u32();
                let k: i64 = (f % 65537) as i64;
                let w = u.scaled(k);
                proof {
                    lemma_mul_bounds(u.x as int, k as int, SCALE as int, SCALE as int);
                    lemma_mul_bounds(u.y as int, k as int, SCALE as int, SCALE as int);
                    lemma_mul_bounds(u.z as int, k as int, SCALE as int, SCALE as int);
                    assert(SCALE as int * SCALE as int == SCALE as int * SCALE as int);
                    lemma_tdiv_bounded(u.x as int * k as int, SCALE as int, SCALE as int);
                    lemma_tdiv_bounded(u.y as int * k as int, SCALE as int, SCALE as int);
                    lemma_tdiv_bounded(u.z as int * k as int, SCALE as int, SCALE as int);
                }
                w
            },
        }
    }
}

/// Relies on `rand::random`: draws an unconstrained 32-bit sample from
/// the process-wide generator; nothing is promised of its value.
pub assume_specification<T>[ rand::random::<T> ]() -> (r: T)
    where
        rand::distributions::Standard: rand::distributions::Distribution<T>,
;

/// One fresh 32-bit sample for the jitter; each call may differ.
fn sample_u32() -> u32 {
    rand::random::<u32>()
}

/// Normalization is exactly unit-length on axis-aligned vectors: a
/// vector with one positive coordinate normalizes to the stored unit
/// vector along that axis, whose dot square is exactly the unit.
pub proof fn lemma_norm_axis_exact(a: int)
    requires
        a > 0,
    ensures
        snorm((a, 0, 0)) == Some((SCALE as int, 0int, 0int)),
        sdot((SCALE as int, 0int, 0int), (SCALE as int, 0int, 0int)) == SCALE * SCALE,
{
    let v = (a, 0int, 0int);
    assert(0int * 0int == 0) by (nonlinear_arith);
    assert(sdot(v, v) == a * a);
    assert(a * a <= a * a && a * a < (a + 1) * (a + 1)) by (nonlinear_arith)
        requires
            a > 0,
    ;
    crate::math::lemma_sqrt_floor_unique(a * a, a);
    assert(ssize(v) == a);
    assert(a * SCALE == SCALE * a) by (nonlinear_arith);
    vstd::arithmetic::div_mod::lemma_div_by_multiple(SCALE as int, a);
    assert(tdiv(a * SCALE, a) == SCALE as int);
    assert(0int * SCALE as int == 0) by (nonlinear_arith);
    vstd::arithmetic::div_mod::lemma_div_of0(a);
    assert(tdiv(0 * SCALE, a) == 0);
    assert(SCALE as int * SCALE as int == SCALE * SCALE);
}

proof fn lemma_sq_nonneg(a: int)
    by (nonlinear_arith)
    ensures
        a * a >= 0,
{
}

pub proof fn lemma_sum_squares_pos(x: int, y: int, z: int)
    by (nonlinear_arith)
    requires
        !(x == 0 && y == 0 && z == 0),
    ensures
        x * x + y * y + z * z >= 1,
{
}

/// Each coordinate's magnitude is at most the stored size of the vector.
proof fn lemma_coord_le_size(x: int, y: int, z: int)
    ensures
        -ssize((x, y, z)) <= x <= ssize((x, y, z)),
        -ssize((x, y, z)) <= y <= ssize((x, y, z)),
        -ssize((x, y, z)) <= z <= ssize((x, y, z)),
{
    let n = sdot((x, y, z), (x, y, z));
    let ax = if x >= 0 { x } else { -x };
    let ay = if y >= 0 { y } else { -y };
    let az = if z >= 0 { z } else { -z };
    assert(ax * ax <= n && ay * ay <= n && az * az <= n && n >= 0) by (nonlinear_arith)
        requires
            n == x * x + y * y + z * z,
            ax == if x >= 0 { x } else { -x },
            ay == if y >= 0 { y } else { -y },
            az == if z >= 0 { z } else { -z },
    ;
    lemma_sqrt_floor_lower(n, ax);
    lemma_sqrt_floor_lower(n, ay);
    lemma_sqrt_floor_lower(n, az);
}

} // verus!
