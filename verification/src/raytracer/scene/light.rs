//! Point light sources and their raw diffuse contribution.

use vstd::prelude::*;

use crate::math::{tdiv, tdiv_i64, SCALE};
use crate::raytracer::scene::shape::{RAY_MAX, SCENE_MAX};
use crate::raytracer::vector::{sbounded, sdot, snorm, ssub, vmodel, Vector, UNIT_MAX};

verus! {

/// The unnormalized Lambertian cosine term, at stored scale: the dot of
/// the unit direction toward the light with the shading normal, clamped
/// at zero from below, and zero when the light sits exactly on the
/// point.  No distance falloff is applied at this layer.
pub open spec fn sintensity(
    lorig: (int, int, int),
    point: (int, int, int),
    nrm: (int, int, int),
) -> int {
    match snorm(ssub(lorig, point)) {
        Option::None => 0,
        Option::Some(l) => {
            let d = tdiv(sdot(l, nrm), SCALE as int);
            if d < 0 {
                0
            } else {
                d
            }
        },
    }
}

#[derive(Clone, Copy, Debug, PartialEq, Eq, Structural)]
pub struct Light {
    pub orig: Vector,
}

impl Light {
    pub fn new(orig: Vector) -> (r: Light)
        ensures
            r == (Light { orig }),
    {
        Light { orig }
    }

    pub fn get_orig(&self) -> (r: &Vector)
        ensures
            *r == self.orig,
    {
        &self.orig
    }

    /// Raw diffuse intensity at a surface point with the given shading
    /// normal, in stored units (the unit intensity is `SCALE`).
    pub fn intensity(&self, intersec_point: &Vector, nrm: &Vector) -> (r: i64)
        requires
            sbounded(vmodel(self.orig), SCENE_MAX as int),
            sbounded(vmodel(*intersec_point), RAY_MAX as int),
            sbounded(vmodel(*nrm), UNIT_MAX as int),
        ensures
            r == sintensity(vmodel(self.orig), vmodel(*intersec_point), vmodel(*nrm)),
            0 <= r <= 6 * SCALE,
    {
        let off = self.orig.sub(intersec_point);
        let l = match off.norm() {
            None => {
                return 0;
            },
            Some(l) => l,
        };
        let d = l.dot(nrm);
        proof {
            crate::math::lemma_mul_bounds(vmodel(l).0, vmodel(*nrm).0, SCALE as int, UNIT_MAX as int);
            crate::math::lemma_mul_bounds(vmodel(l).1, vmodel(*nrm).1, SCALE as int, UNIT_MAX as int);
            crate::math::lemma_mul_bounds(vmodel(l).2, vmodel(*nrm).2, SCALE as int, UNIT_MAX as int);
            crate::math::lemma_tdiv_bounded(d as int, SCALE as int, 6 * SCALE as int);
        }
        let v = tdiv_i64(d, SCALE);
        if v < 0 {
            0
        } else {
            v
        }
    }
}

} // verus!
