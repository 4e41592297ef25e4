//! A ray: an origin and a direction kept at unit size by construction
//! convention.

use vstd::prelude::*;

use crate::math::lemma_mul_bounds;
use crate::raytracer::scene::shape::{
    ray_wf, sphere_intersec_model, Intersec, Sphere, SCENE_MAX,
};
use crate::raytracer::vector::{
    sadd, sbounded, sdot, sreflect, sscaled, vmodel, Vector, NORM_MAX, UNIT_MAX,
};

verus! {

/// The point reached from `o` after travelling `t` stored units along `d`.
pub open spec fn spoint_on(o: (int, int, int), d: (int, int, int), t: int) -> (int, int, int) {
    sadd(o, sscaled(d, t))
}

#[derive(Clone, Copy, Debug, PartialEq, Eq, Structural)]
pub struct Ray {
    pub orig: Vector,
    pub dir: Vector,
}

impl Ray {
    pub fn new(orig: Vector, dir: Vector) -> (r: Ray)
        ensures
            r == (Ray { orig, dir }),
    {
        Ray { orig, dir }
    }

    pub fn get_orig(&self) -> (r: &Vector)
        ensures
            *r == self.orig,
    {
        &self.orig
    }

    pub fn get_dir(&self) -> (r: &Vector)
        ensures
            *r == self.dir,
    {
        &self.dir
    }

    /// The point at parameter `t` (in stored units of distance).
    pub fn point_on_ray(&self, t: i64) -> (r: Vector)
        requires
            sbounded(vmodel(self.orig), NORM_MAX as int),
            sbounded(vmodel(self.dir), UNIT_MAX as int),
            -NORM_MAX <= t <= NORM_MAX,
        ensures
            vmodel(r) == spoint_on(vmodel(self.orig), vmodel(self.dir), t as int),
    {
        let off = self.dir.scaled(t);
        self.orig.add(&off)
    }

    /// Whether the ray meets the sphere with the given center and
    /// radius: true exactly when the geometric intersection test finds
    /// a root.
    pub fn is_sphere_intersec(&self, center: Vector, radius: i64) -> (r: bool)
        requires
            ray_wf(*self),
            sbounded(vmodel(center), SCENE_MAX as int),
            -SCENE_MAX <= radius <= SCENE_MAX,
        ensures
            r <==> !(sphere_intersec_model(
                vmodel(center),
                radius as int * radius as int,
                vmodel(self.orig),
                vmodel(self.dir),
            ) is Miss),
    {
        proof {
            lemma_mul_bounds(radius as int, radius as int, SCENE_MAX as int, SCENE_MAX as int);
            lemma_sq_nonneg_ray(radius as int);
        }
        let sphere = Sphere { center, radius2: radius * radius };
        match sphere.intersec(self) {
            Intersec::Miss => false,
            Intersec::One(_) => true,
            Intersec::Two(_, _) => true,
        }
    }

    /// The ray leaving `p` in the direction of `self` mirrored about `n`.
    /// `None` exactly when the reflection itself is undefined.
    pub fn new_reflect(&self, p: &Vector, n: &Vector) -> (r: Option<Ray>)
        requires
            sbounded(vmodel(self.dir), UNIT_MAX as int),
            sbounded(vmodel(*n), UNIT_MAX as int),
        ensures
            r is Some <==> (sdot(vmodel(self.dir), vmodel(*n)) < 0 && sbounded(
                sreflect(vmodel(self.dir), vmodel(*n)),
                UNIT_MAX as int,
            )),
            r is Some ==> r->Some_0.orig == *p,
            r is Some ==> vmodel(r->Some_0.dir) == sreflect(vmodel(self.dir), vmodel(*n)),
    {
        let d = match self.get_dir().reflect(n) {
            None => {
                return None;
            },
            Some(d) => d,
        };
        Some(Ray { orig: *p, dir: d })
    }
}

proof fn lemma_sq_nonneg_ray(a: int)
    by (nonlinear_arith)
    ensures
        a * a >= 0,
{
}

} // verus!
