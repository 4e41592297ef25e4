//! Shapes of the scene and their ray intersection.  The one shape kind
//! is the sphere, kept as a closed variant so that further kinds can be
//! added as new variants with a dispatch match.

use vstd::prelude::*;

use crate::math::{
    isqrt_u128, lemma_mul_bounds, lemma_sqrt_floor_lower, lemma_sqrt_floor_upper, sqrt_floor,
    tdiv, tdiv_i64, SCALE,
};
use crate::raytracer::ray::Ray;
use crate::raytracer::vector::{sbounded, scross, sdot, snorm, ssub, vmodel, Vector, UNIT_MAX};

verus! {

/// Largest stored coordinate accepted for scene data (centers of shapes,
/// origins of lights): `2^26` units, a world of about `2^10` on each side.
pub const SCENE_MAX: i64 = 0x400_0000;

/// Largest stored coordinate a ray origin may reach: secondary rays are
/// only cast while their origin stays inside this volume.
pub const RAY_MAX: i64 = 0x1000_0000;

/// Largest accepted squared radius, `SCENE_MAX` squared.
pub const RADIUS2_MAX: i64 = 0x10_0000_0000_0000;

/// Roots of a ray-shape intersection, as stored distances along the ray.
#[derive(Clone, Copy, Debug, PartialEq, Eq, Structural)]
pub enum Intersec {
    One(i64),
    Two(i64, i64),
    Miss,
}

/// The mathematical value of an intersection result.
pub enum IntersecModel {
    One(int),
    Two(int, int),
    Miss,
}

pub open spec fn intersec_model(i: Intersec) -> IntersecModel {
    match i {
        Intersec::One(d) => IntersecModel::One(d as int),
        Intersec::Two(d1, d2) => IntersecModel::Two(d1 as int, d2 as int),
        Intersec::Miss => IntersecModel::Miss,
    }
}

pub open spec fn opt_model(o: Option<i64>) -> Option<int> {
    match o {
        Option::Some(d) => Option::Some(d as int),
        Option::None => Option::None,
    }
}

/// The geometric sphere test: the center is projected onto the ray; a
/// projection behind or at the origin reports no intersection, else the
/// squared distance from center to the ray line decides between zero,
/// one and two roots.  All quantities are in stored units: the dot of
/// two scaled vectors carries the scale twice, so the squared radius is
/// brought to the scale of the fourth power and the roots back to single
/// scale.
pub open spec fn sphere_intersec_model(
    center: (int, int, int),
    radius2: int,
    orig: (int, int, int),
    dir: (int, int, int),
) -> IntersecModel {
    let oc = ssub(center, orig);
    let oc_dir = sdot(oc, dir);
    if oc_dir <= 0 {
        IntersecModel::Miss
    } else {
        let h2 = sdot(scross(oc, dir), scross(oc, dir));
        let k = radius2 * (SCALE as int * SCALE as int) - h2;
        if k < 0 {
            IntersecModel::Miss
        } else if k == 0 {
            IntersecModel::One(tdiv(oc_dir, SCALE as int))
        } else {
            let hc = sqrt_floor(k);
            IntersecModel::Two(tdiv(oc_dir - hc, SCALE as int), tdiv(oc_dir + hc, SCALE as int))
        }
    }
}

/// Root selection: negative roots lie behind the ray origin and are
/// discarded; of the remaining roots the smaller is returned.
pub open spec fn closer_model(m: IntersecModel) -> Option<int> {
    match m {
        IntersecModel::Miss => Option::None,
        IntersecModel::One(d) => Option::Some(d),
        IntersecModel::Two(d1, d2) => if d1 >= 0 && d2 >= 0 {
            Option::Some(if d1 < d2 { d1 } else { d2 })
        } else if d1 >= 0 {
            Option::Some(d1)
        } else if d2 >= 0 {
            Option::Some(d2)
        } else {
            Option::None
        },
    }
}

impl Intersec {
    /// Reduce the roots to the nearest visible one.
    pub fn get_closer(self) -> (r: Option<i64>)
        ensures
            opt_model(r) == closer_model(intersec_model(self)),
    {
        match self {
            Self::Miss => None,
            Self::One(d) => Some(d),
            Self::Two(d1, d2) => {
                if d1 >= 0 && d2 >= 0 {
                    if d1 < d2 {
                        Some(d1)
                    } else {
                        Some(d2)
                    }
                } else if d1 >= 0 {
                    Some(d1)
                } else if d2 >= 0 {
                    Some(d2)
                } else {
                    None
                }
            },
        }
    }
}

#[derive(Clone, Copy, Debug, PartialEq, Eq, Structural)]
pub struct Sphere {
    pub center: Vector,
    pub radius2: i64,
}

/// A sphere's scene data is well formed when its center lies in the
/// scene volume and its squared radius is in range.
pub open spec fn sphere_wf(s: Sphere) -> bool {
    &&& sbounded(vmodel(s.center), SCENE_MAX as int)
    &&& 0 <= s.radius2 <= RADIUS2_MAX
}

/// A ray is well formed while its origin stays inside the ray volume and
/// its direction inside the unit bound.
pub open spec fn ray_wf(r: Ray) -> bool {
    &&& sbounded(vmodel(r.orig), RAY_MAX as int)
    &&& sbounded(vmodel(r.dir), UNIT_MAX as int)
}

pub fn new_sphere(center: Vector, radius: i64) -> (r: Shape)
    requires
        -SCENE_MAX <= radius <= SCENE_MAX,
    ensures
        r == Shape::Sphere(Sphere { center, radius2: (radius * radius) as i64 }),
        0 <= r->Sphere_0.radius2 <= RADIUS2_MAX,
{
    proof {
        lemma_mul_bounds(radius as int, radius as int, SCENE_MAX as int, SCENE_MAX as int);
        lemma_sq_nonneg_local(radius as int);
    }
    Shape::Sphere(Sphere { center, radius2: radius * radius })
}

proof fn lemma_sq_nonneg_local(a: int)
    by (nonlinear_arith)
    ensures
        a * a >= 0,
{
}

/// A shape of the scene: a closed set of variants dispatched by match.
#[derive(Clone, Copy, Debug, PartialEq, Eq, Structural)]
pub enum Shape {
    Sphere(Sphere),
}

impl Sphere {
    /// Roots of the ray against this sphere.
    pub fn intersec(&self, ray: &Ray) -> (r: Intersec)
        requires
            sphere_wf(*self),
            ray_wf(*ray),
        ensures
            intersec_model(r) == sphere_intersec_model(
                vmodel(self.center),
                self.radius2 as int,
                vmodel(ray.orig),
                vmodel(ray.dir),
            ),
    {
        let oc = self.center.sub(ray.get_orig());
        let oc_dir = oc.dot(ray.get_dir());
        if oc_dir <= 0 {
            return Intersec::Miss;
        }
        let cr = oc.cross(ray.get_dir());
        proof {
            lemma_mul_bounds(
                vmodel(oc).0,
                vmodel(ray.dir).2,
                0x2000_0000int,
                0x2_0000int,
            );
            lemma_cross_bound(vmodel(oc), vmodel(ray.dir));
            lemma_mul_bounds(cr.x as int, cr.x as int, 0x1_0000_0000_0000int, 0x1_0000_0000_0000int);
            lemma_mul_bounds(cr.y as int, cr.y as int, 0x1_0000_0000_0000int, 0x1_0000_0000_0000int);
            lemma_mul_bounds(cr.z as int, cr.z as int, 0x1_0000_0000_0000int, 0x1_0000_0000_0000int);
            lemma_sq_nonneg_local(cr.x as int);
            lemma_sq_nonneg_local(cr.y as int);
            lemma_sq_nonneg_local(cr.z as int);
        }
        let cx: i128 = (cr.x as i128) * (cr.x as i128);
        let cy: i128 = (cr.y as i128) * (cr.y as i128);
        let cz: i128 = (cr.z as i128) * (cr.z as i128);
        let h2: i128 = cx + cy + cz;
        proof {
            lemma_mul_bounds(
                self.radius2 as int,
                SCALE as int * SCALE as int,
                RADIUS2_MAX as int,
                0x1_0000_0000int,
            );
        }
        let r2s: i128 = (self.radius2 as i128) * ((SCALE as i128) * (SCALE as i128));
        let k: i128 = r2s - h2;
        if k < 0 {
            return Intersec::Miss;
        }
        if k == 0 {
            return Intersec::One(tdiv_i64(oc_dir, SCALE));
        }
        let hc64: u64 = isqrt_u128(k as u128);
        proof {
            lemma_sqrt_floor_upper(k as int, 0x4000_0000_0000int);
        }
        let hc: i64 = hc64 as i64;
        proof {
            assert(-0xC000_0000_0000 <= sdot(vmodel(oc), vmodel(ray.dir)) <= 0xC000_0000_0000)
                by (nonlinear_arith)
                requires
                    sbounded(vmodel(oc), 0x2000_0000),
                    sbounded(vmodel(ray.dir), 0x2_0000),
            ;
        }
        Intersec::Two(tdiv_i64(oc_dir - hc, SCALE), tdiv_i64(oc_dir + hc, SCALE))
    }

    /// The outward unit normal at a surface point; undefined (`None`)
    /// when the point coincides with the center.
    pub fn norm(&self, point: &Vector) -> (r: Option<Vector>)
        requires
            sbounded(vmodel(self.center), SCENE_MAX as int),
            sbounded(vmodel(*point), RAY_MAX as int),
        ensures
            r is Some <==> vmodel(*point) != vmodel(self.center),
            r is Some ==> Some(vmodel(r->Some_0)) == snorm(
                ssub(vmodel(*point), vmodel(self.center)),
            ),
            r is Some ==> sbounded(vmodel(r->Some_0), SCALE as int),
    {
        let d = point.sub(&self.center);
        d.norm()
    }
}

impl Shape {
    /// Roots of the ray against this shape.
    pub fn intersec(&self, ray: &Ray) -> (r: Intersec)
        requires
            shape_wf(*self),
            ray_wf(*ray),
        ensures
            intersec_model(r) == shape_intersec_model(*self, *ray),
    {
        match self {
            Shape::Sphere(s) => s.intersec(ray),
        }
    }

    /// The outward unit normal at a surface point.
    pub fn norm(&self, point: &Vector) -> (r: Option<Vector>)
        requires
            shape_wf(*self),
            sbounded(vmodel(*point), RAY_MAX as int),
        ensures
            match *self {
                Shape::Sphere(s) => {
                    &&& (r is Some <==> vmodel(*point) != vmodel(s.center))
                    &&& (r is Some ==> Some(vmodel(r->Some_0)) == snorm(
                        ssub(vmodel(*point), vmodel(s.center)),
                    ))
                },
            },
            r is Some ==> sbounded(vmodel(r->Some_0), SCALE as int),
    {
        match self {
            Shape::Sphere(s) => s.norm(point),
        }
    }
}

pub open spec fn shape_wf(s: Shape) -> bool {
    match s {
        Shape::Sphere(sp) => sphere_wf(sp),
    }
}

pub open spec fn shape_intersec_model(s: Shape, ray: Ray) -> IntersecModel {
    match s {
        Shape::Sphere(sp) => sphere_intersec_model(
            vmodel(sp.center),
            sp.radius2 as int,
            vmodel(ray.orig),
            vmodel(ray.dir),
        ),
    }
}

/// Sphere intersection is idempotent: two evaluations against the same
/// sphere and the same ray yield identical roots, since each is pinned
/// to the same mathematical function of the pair alone.
pub proof fn lemma_intersec_idempotent(r1: Intersec, r2: Intersec, s: Sphere, ray: Ray)
    requires
        intersec_model(r1) == sphere_intersec_model(
            vmodel(s.center),
            s.radius2 as int,
            vmodel(ray.orig),
            vmodel(ray.dir),
        ),
        intersec_model(r2) == sphere_intersec_model(
            vmodel(s.center),
            s.radius2 as int,
            vmodel(ray.orig),
            vmodel(ray.dir),
        ),
    ensures
        r1 == r2,
{
}

/// A ray whose origin sits exactly at the sphere's center reports no
/// intersection: the center's projection onto the ray is zero, and the
/// test demands a strictly positive projection.
pub proof fn lemma_ray_from_center_misses(
    center: (int, int, int),
    radius2: int,
    dir: (int, int, int),
)
    ensures
        sphere_intersec_model(center, radius2, center, dir) == IntersecModel::Miss,
{
    let oc = ssub(center, center);
    assert(oc == (0int, 0int, 0int));
    assert(sdot((0int, 0int, 0int), dir) == 0) by (nonlinear_arith);
}

/// A ray aimed exactly at a sphere's center from outside hits it at two
/// roots, the near one short of the center by the radius and the far
/// one past it by the radius: with a direction of exactly unit dot
/// square and the center `k` direction-steps from the origin, the roots
/// are `k * SCALE -/+ rho` for a sphere of stored radius `rho`.
pub proof fn lemma_aimed_at_center_roots(
    orig: (int, int, int),
    dir: (int, int, int),
    k: int,
    rho: int,
)
    requires
        sdot(dir, dir) == SCALE * SCALE,
        k > 0,
        0 < rho < k * SCALE,
    ensures
        sphere_intersec_model(
            (orig.0 + k * dir.0, orig.1 + k * dir.1, orig.2 + k * dir.2),
            rho * rho,
            orig,
            dir,
        ) == IntersecModel::Two(k * SCALE - rho, k * SCALE + rho),
        closer_model(
            sphere_intersec_model(
                (orig.0 + k * dir.0, orig.1 + k * dir.1, orig.2 + k * dir.2),
                rho * rho,
                orig,
                dir,
            ),
        ) == Option::Some(k * SCALE - rho),
{
    let center = (orig.0 + k * dir.0, orig.1 + k * dir.1, orig.2 + k * dir.2);
    let oc = ssub(center, orig);
    assert(oc == (k * dir.0, k * dir.1, k * dir.2));
    let oc_dir = sdot(oc, dir);
    assert(oc_dir == k * (SCALE * SCALE)) by (nonlinear_arith)
        requires
            oc == (k * dir.0, k * dir.1, k * dir.2),
            oc_dir == sdot(oc, dir),
            sdot(dir, dir) == SCALE * SCALE,
    ;
    assert(oc_dir > 0) by (nonlinear_arith)
        requires
            oc_dir == k * (SCALE * SCALE),
            k > 0,
            SCALE == 65536i64,
    ;
    let cr = scross(oc, dir);
    assert(cr == (0int, 0int, 0int)) by (nonlinear_arith)
        requires
            cr == scross((k * dir.0, k * dir.1, k * dir.2), dir),
    ;
    let h2 = sdot(cr, cr);
    assert(h2 == 0) by (nonlinear_arith)
        requires
            cr == (0int, 0int, 0int),
            h2 == sdot(cr, cr),
    ;
    let kterm = rho * rho * (SCALE as int * SCALE as int) - h2;
    assert(kterm == (rho * SCALE) * (rho * SCALE)) by (nonlinear_arith)
        requires
            h2 == 0,
            kterm == rho * rho * (SCALE as int * SCALE as int) - h2,
    ;
    assert(kterm > 0) by (nonlinear_arith)
        requires
            kterm == (rho * SCALE) * (rho * SCALE),
            rho > 0,
            SCALE == 65536i64,
    ;
    assert((rho * SCALE) * (rho * SCALE) < (rho * SCALE + 1) * (rho * SCALE + 1))
        by (nonlinear_arith)
        requires
            rho > 0,
            SCALE == 65536i64,
    ;
    crate::math::lemma_sqrt_floor_unique(kterm, rho * SCALE);
    let hc = sqrt_floor(kterm);
    assert(hc == rho * SCALE);
    assert(oc_dir - hc == (k * SCALE - rho) * SCALE && oc_dir + hc == (k * SCALE + rho) * SCALE)
        by (nonlinear_arith)
        requires
            oc_dir == k * (SCALE * SCALE),
            hc == rho * SCALE,
    ;
    assert(k * SCALE - rho > 0 && k * SCALE + rho > 0) by (nonlinear_arith)
        requires
            0 < rho,
            rho < k * SCALE,
    ;
    assert((k * SCALE - rho) * SCALE >= 0 && (k * SCALE + rho) * SCALE >= 0)
        by (nonlinear_arith)
        requires
            k * SCALE - rho > 0,
            k * SCALE + rho > 0,
            SCALE == 65536i64,
    ;
    vstd::arithmetic::div_mod::lemma_div_by_multiple(k * SCALE - rho, SCALE as int);
    vstd::arithmetic::div_mod::lemma_div_by_multiple(k * SCALE + rho, SCALE as int);
    assert(tdiv(oc_dir - hc, SCALE as int) == k * SCALE - rho);
    assert(tdiv(oc_dir + hc, SCALE as int) == k * SCALE + rho);
}

/// Componentwise bound on a cross product of a scene offset and a unit
/// direction.
proof fn lemma_cross_bound(a: (int, int, int), b: (int, int, int))
    by (nonlinear_arith)
    requires
        sbounded(a, 0x2000_0000int),
        sbounded(b, 0x2_0000int),
    ensures
        sbounded(scross(a, b), 0x1_0000_0000_0000int),
{
}

} // verus!
