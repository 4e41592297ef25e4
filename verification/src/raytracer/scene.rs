//! The scene: every shape with its material and every light, the
//! nearest-hit search, and the recursive shading algorithm.

pub mod light;
pub mod shape;

use vstd::prelude::*;

use crate::config::SceneConfig;
use crate::image::color::{color_add_model, color_scaled_model, Color};
use crate::math::{
    lemma_sqrt_floor_lower, lemma_sqrt_floor_upper, lemma_tdiv_bounded, sqrt_floor, tdiv,
    tdiv_i64, SCALE,
};
use crate::raytracer::ray::{spoint_on, Ray};
use crate::raytracer::scene::light::{sintensity, Light};
use crate::raytracer::scene::shape::{
    closer_model, new_sphere, ray_wf, shape_wf, sphere_intersec_model, Shape, Sphere, RAY_MAX,
    SCENE_MAX,
};
use crate::raytracer::vector::{
    sadd, sbounded, sdot, snorm, sreflect, sscaled, ssub, ssize, vmodel, Vector,
    STEP_FROM_ORIGIN, UNIT_MAX,
};

verus! {

/// Bound on every hit distance the nearest-hit search can report.
pub const DIST_MAX: i64 = 0x1_0000_0000;

/// A hit point is only shaded while it lies inside this volume, so that
/// the stepped-away origins of its secondary rays stay inside the ray
/// volume.
pub const POINT_MAX: i64 = 0x1000_0000 - 128;

/// Per-shape appearance: base color, optional diffuse jitter
/// coefficient and optional reflectivity, both in fixed-point units of
/// `SCALE` to one.
#[derive(Clone, Copy, Debug)]
pub struct Properties {
    pub color: Color,
    pub diffuse: Option<i64>,
    pub reflection: Option<i64>,
}

/// A shape paired with its appearance.
#[derive(Clone, Copy, Debug)]
pub struct Object {
    pub shape: Shape,
    pub properties: Properties,
}

pub open spec fn object_wf(o: Object) -> bool {
    &&& shape_wf(o.shape)
    &&& (o.properties.diffuse is Some ==> 0 <= o.properties.diffuse->0 <= SCALE)
    &&& (o.properties.reflection is Some ==> 0 <= o.properties.reflection->0 <= SCALE)
}

pub open spec fn light_wf(l: Light) -> bool {
    sbounded(vmodel(l.orig), SCENE_MAX as int)
}

/// The nearest visible root of the ray against one object.
pub open spec fn closer_of(o: Object, orig: (int, int, int), dir: (int, int, int)) -> Option<
    int,
> {
    match o.shape {
        Shape::Sphere(sp) => closer_model(
            sphere_intersec_model(vmodel(sp.center), sp.radius2 as int, orig, dir),
        ),
    }
}

/// The nearest-hit search over an object list: a linear scan keeping
/// the strictly smallest root, so that of equally near objects the
/// earliest in the list wins.
pub open spec fn nearest_model(
    objects: Seq<Object>,
    orig: (int, int, int),
    dir: (int, int, int),
) -> Option<(int, int)>
    decreases objects.len(),
{
    if objects.len() == 0 {
        Option::None
    } else {
        let head = nearest_model(objects.drop_last(), orig, dir);
        let last = closer_of(objects.last(), orig, dir);
        match (head, last) {
            (Option::None, Option::None) => Option::None,
            (Option::None, Option::Some(d)) => Option::Some((objects.len() - 1, d)),
            (Option::Some(p), Option::None) => Option::Some(p),
            (Option::Some(p), Option::Some(d)) => if d < p.1 {
                Option::Some((objects.len() - 1, d))
            } else {
                Option::Some(p)
            },
        }
    }
}

/// Every root the search can keep comes from some object's own roots.
pub proof fn lemma_nearest_model_from_member(
    objects: Seq<Object>,
    orig: (int, int, int),
    dir: (int, int, int),
)
    ensures
        match nearest_model(objects, orig, dir) {
            Option::None => true,
            Option::Some(p) => 0 <= p.0 < objects.len() && closer_of(objects[p.0], orig, dir)
                == Option::Some(p.1),
        },
    decreases objects.len(),
{
    if objects.len() > 0 {
        lemma_nearest_model_from_member(objects.drop_last(), orig, dir);
    }
}

/// A ray that hits no object finds nothing.
pub proof fn lemma_nearest_model_all_miss(
    objects: Seq<Object>,
    orig: (int, int, int),
    dir: (int, int, int),
)
    requires
        forall|j: int| 0 <= j < objects.len() ==> closer_of(#[trigger] objects[j], orig, dir) is None,
    ensures
        nearest_model(objects, orig, dir) is None,
    decreases objects.len(),
{
    if objects.len() > 0 {
        assert(forall|j: int|
            0 <= j < objects.drop_last().len() ==> #[trigger] objects.drop_last()[j] == objects[j]);
        lemma_nearest_model_all_miss(objects.drop_last(), orig, dir);
    }
}

/// A ray that hits exactly one object finds that object, with its own
/// nearest root, never another's.
pub proof fn lemma_nearest_model_unique_hit(
    objects: Seq<Object>,
    orig: (int, int, int),
    dir: (int, int, int),
    i: int,
    d: int,
)
    requires
        0 <= i < objects.len(),
        closer_of(objects[i], orig, dir) == Option::Some(d),
        forall|j: int|
            0 <= j < objects.len() && j != i ==> closer_of(#[trigger] objects[j], orig, dir) is None,
    ensures
        nearest_model(objects, orig, dir) == Option::Some((i, d)),
    decreases objects.len(),
{
    assert(forall|j: int|
        0 <= j < objects.drop_last().len() ==> #[trigger] objects.drop_last()[j] == objects[j]);
    if i == objects.len() - 1 {
        lemma_nearest_model_all_miss(objects.drop_last(), orig, dir);
    } else {
        lemma_nearest_model_unique_hit(objects.drop_last(), orig, dir, i, d);
    }
}

/// The distances the nearest-hit search reports are non-negative and
/// bounded for well-formed scene data.
pub proof fn lemma_closer_of_bounds(o: Object, orig: (int, int, int), dir: (int, int, int))
    requires
        object_wf(o),
        sbounded(orig, RAY_MAX as int),
        sbounded(dir, UNIT_MAX as int),
    ensures
        match closer_of(o, orig, dir) {
            Option::None => true,
            Option::Some(v) => 0 <= v <= DIST_MAX,
        },
{
    let sp = o.shape->Sphere_0;
    let oc = ssub(vmodel(sp.center), orig);
    let oc_dir = sdot(oc, dir);
    assert(-0xC000_0000_0000 <= oc_dir <= 0xC000_0000_0000) by (nonlinear_arith)
        requires
            oc_dir == sdot(oc, dir),
            sbounded(oc, 0x1400_0000int),
            sbounded(dir, 0x2_0000int),
    ;
    if oc_dir > 0 {
        vstd::arithmetic::div_mod::lemma_div_pos_is_pos(oc_dir, SCALE as int);
        lemma_tdiv_bounded(oc_dir, SCALE as int, DIST_MAX as int);
        let h2 = sdot(
            crate::raytracer::vector::scross(oc, dir),
            crate::raytracer::vector::scross(oc, dir),
        );
        let k = sp.radius2 * (SCALE as int * SCALE as int) - h2;
        if k > 0 {
            let hc = sqrt_floor(k);
            let cr = crate::raytracer::vector::scross(oc, dir);
            assert(h2 >= 0) by (nonlinear_arith)
                requires
                    h2 == cr.0 * cr.0 + cr.1 * cr.1 + cr.2 * cr.2,
            ;
            assert(k <= 0x100_0000_0000_0000_0000_0000) by (nonlinear_arith)
                requires
                    k <= sp.radius2 * (SCALE as int * SCALE as int),
                    0 <= sp.radius2 <= 0x10_0000_0000_0000,
                    SCALE == 65536i64,
            ;
            lemma_sqrt_floor_upper(k, 0x4000_0000_0000int);
            lemma_sqrt_floor_lower(k, 0);
            lemma_tdiv_bounded(oc_dir - hc, SCALE as int, DIST_MAX as int);
            lemma_tdiv_bounded(oc_dir + hc, SCALE as int, DIST_MAX as int);
        }
    }
}

/// Depth bound on specular recursion.
pub const REFLECT_DEEP: u8 = 5;

/// A primary ray is looking straight at a light when the dot of the two
/// unit directions exceeds this (both carry the scale twice).
pub const GLARE_LIMIT: i64 = 65536 * (65536 - 64);

/// Remaining reflection bounces: the termination measure of the
/// recursive shading.
pub open spec fn depth_rank(deep: int) -> int {
    if deep < REFLECT_DEEP as int {
        REFLECT_DEEP as int - deep
    } else {
        0
    }
}

/// The render's world state: the shapes with their materials and the
/// lights, read-only once built.
pub struct Scene {
    objects: Vec<Object>,
    lights: Vec<Light>,
}

/// An index into the scene's object list together with the hit distance.
#[derive(Clone, Copy, Debug, PartialEq, Eq, Structural)]
pub struct IntersecObj {
    pub idx: usize,
    pub distance: i64,
}

/// The scene configuration stays inside the world volume and its
/// coefficients inside the unit interval.
pub open spec fn scene_config_wf(cfg: SceneConfig) -> bool {
    &&& forall|i: int|
        0 <= i < cfg.spheres@.len() ==> {
            let s = #[trigger] cfg.spheres@[i];
            &&& -SCENE_MAX <= s.center[0] <= SCENE_MAX
            &&& -SCENE_MAX <= s.center[1] <= SCENE_MAX
            &&& -SCENE_MAX <= s.center[2] <= SCENE_MAX
            &&& -SCENE_MAX <= s.radius <= SCENE_MAX
            &&& (s.properties.diffuse is Some ==> 0 <= s.properties.diffuse->0 <= SCALE)
            &&& (s.properties.reflection is Some ==> 0 <= s.properties.reflection->0 <= SCALE)
        }
    &&& forall|i: int|
        0 <= i < cfg.lights@.len() ==> {
            let l = #[trigger] cfg.lights@[i];
            &&& -SCENE_MAX <= l.origin[0] <= SCENE_MAX
            &&& -SCENE_MAX <= l.origin[1] <= SCENE_MAX
            &&& -SCENE_MAX <= l.origin[2] <= SCENE_MAX
        }
}

impl Scene {
    pub closed spec fn spec_objects(&self) -> Seq<Object> {
        self.objects@
    }

    pub closed spec fn spec_lights(&self) -> Seq<Light> {
        self.lights@
    }

    pub open spec fn wf(&self) -> bool {
        &&& forall|i: int| 0 <= i < self.spec_objects().len() ==> object_wf(#[trigger] self.spec_objects()[i])
        &&& forall|i: int| 0 <= i < self.spec_lights().len() ==> light_wf(#[trigger] self.spec_lights()[i])
    }

    /// No object carries diffuse jitter, so shading draws no random
    /// samples and is a function of the scene and the ray alone.
    pub open spec fn deterministic(&self) -> bool {
        forall|i: int|
            0 <= i < self.spec_objects().len() ==> (#[trigger] self.spec_objects()[i]).properties.diffuse is None
    }

    /// Build the world from its configuration, in order: every sphere
    /// with its material, then every light.
    pub fn new(cfg: SceneConfig) -> (s: Scene)
        requires
            scene_config_wf(cfg),
        ensures
            s.wf(),
            s.spec_objects().len() == cfg.spheres@.len(),
            s.spec_lights().len() == cfg.lights@.len(),
            forall|i: int|
                0 <= i < cfg.spheres@.len() ==> {
                    let sc = cfg.spheres@[i];
                    let o = #[trigger] s.spec_objects()[i];
                    &&& o.shape == Shape::Sphere(
                        Sphere {
                            center: Vector { x: sc.center[0], y: sc.center[1], z: sc.center[2] },
                            radius2: (sc.radius * sc.radius) as i64,
                        },
                    )
                    &&& o.properties.color == (Color {
                        r: sc.properties.color[0],
                        g: sc.properties.color[1],
                        b: sc.properties.color[2],
                    })
                    &&& o.properties.diffuse == sc.properties.diffuse
                    &&& o.properties.reflection == sc.properties.reflection
                },
            forall|i: int|
                0 <= i < cfg.lights@.len() ==> (#[trigger] s.spec_lights()[i]).orig == (Vector {
                    x: cfg.lights@[i].origin[0],
                    y: cfg.lights@[i].origin[1],
                    z: cfg.lights@[i].origin[2],
                }),
            (forall|i: int|
                0 <= i < cfg.spheres@.len() ==> (#[trigger] cfg.spheres@[i]).properties.diffuse is None)
                ==> s.deterministic(),
    {
        let mut scene = Scene { objects: Vec::new(), lights: Vec::new() };
        let mut i: usize = 0;
        while i < cfg.spheres.len()
            invariant
                scene_config_wf(cfg),
                i <= cfg.spheres@.len(),
                scene.lights@.len() == 0,
                scene.objects@.len() == i,
                forall|k: int| 0 <= k < i ==> object_wf(#[trigger] scene.objects@[k]),
                forall|k: int|
                    0 <= k < i ==> {
                        let sc = cfg.spheres@[k];
                        let o = #[trigger] scene.objects@[k];
                        &&& o.shape == Shape::Sphere(
                            Sphere {
                                center: Vector {
                                    x: sc.center[0],
                                    y: sc.center[1],
                                    z: sc.center[2],
                                },
                                radius2: (sc.radius * sc.radius) as i64,
                            },
                        )
                        &&& o.properties.color == (Color {
                            r: sc.properties.color[0],
                            g: sc.properties.color[1],
                            b: sc.properties.color[2],
                        })
                        &&& o.properties.diffuse == sc.properties.diffuse
                        &&& o.properties.reflection == sc.properties.reflection
                    },
            decreases cfg.spheres@.len() - i,
        {
            let sc = &cfg.spheres[i];
            let sphere = new_sphere(Vector::new_from_arr(&sc.center), sc.radius);
            let prop = Properties {
                color: Color::new_from_arr(&sc.properties.color),
                diffuse: sc.properties.diffuse,
                reflection: sc.properties.reflection,
            };
            scene.push_object(sphere, prop);
            i = i + 1;
        }
        let mut j: usize = 0;
        while j < cfg.lights.len()
            invariant
                scene_config_wf(cfg),
                j <= cfg.lights@.len(),
                scene.lights@.len() == j,
                forall|k: int| 0 <= k < j ==> light_wf(#[trigger] scene.lights@[k]),
                forall|k: int|
                    0 <= k < j ==> (#[trigger] scene.lights@[k]).orig == (Vector {
                        x: cfg.lights@[k].origin[0],
                        y: cfg.lights@[k].origin[1],
                        z: cfg.lights@[k].origin[2],
                    }),
                scene.objects@.len() == cfg.spheres@.len(),
                forall|k: int| 0 <= k < scene.objects@.len() ==> object_wf(
                    #[trigger] scene.objects@[k],
                ),
                forall|k: int|
                    0 <= k < cfg.spheres@.len() ==> {
                        let sc = cfg.spheres@[k];
                        let o = #[trigger] scene.objects@[k];
                        &&& o.shape == Shape::Sphere(
                            Sphere {
                                center: Vector {
                                    x: sc.center[0],
                                    y: sc.center[1],
                                    z: sc.center[2],
                                },
                                radius2: (sc.radius * sc.radius) as i64,
                            },
                        )
                        &&& o.properties.color == (Color {
                            r: sc.properties.color[0],
                            g: sc.properties.color[1],
                            b: sc.properties.color[2],
                        })
                        &&& o.properties.diffuse == sc.properties.diffuse
                        &&& o.properties.reflection == sc.properties.reflection
                    },
            decreases cfg.lights@.len() - j,
        {
            let lc = &cfg.lights[j];
            scene.push_light(Light::new(Vector::new_from_arr(&lc.origin)));
            j = j + 1;
        }
        proof {
            if forall|i: int|
                0 <= i < cfg.spheres@.len() ==> (#[trigger] cfg.spheres@[i]).properties.diffuse is None {
                assert forall|i: int|
                    0 <= i < scene.objects@.len() implies (#[trigger] scene.objects@[i]).properties.diffuse is None by {
                    assert(cfg.spheres@[i].properties.diffuse is None);
                }
            }
        }
        scene
    }

    /// Append one shape with its material to the object list.
    pub fn push_object(&mut self, shape: Shape, properties: Properties)
        ensures
            final(self).spec_objects() == old(self).spec_objects().push(
                Object { shape, properties },
            ),
            final(self).spec_lights() == old(self).spec_lights(),
    {
        let obj = Object { shape, properties };
        self.objects.push(obj);
    }

    /// Append one light to the light list.
    pub fn push_light(&mut self, light: Light)
        ensures
            final(self).spec_lights() == old(self).spec_lights().push(light),
            final(self).spec_objects() == old(self).spec_objects(),
    {
        self.lights.push(light);
    }

    /// Nearest-hit search: scan every object and keep the strictly
    /// nearest visible root, the earliest object winning ties.
    pub fn intersec_obj(&self, ray: &Ray) -> (r: Option<IntersecObj>)
        requires
            self.wf(),
            ray_wf(*ray),
        ensures
            match r {
                Option::None => nearest_model(
                    self.spec_objects(),
                    vmodel(ray.orig),
                    vmodel(ray.dir),
                ) is None,
                Option::Some(h) => {
                    &&& nearest_model(self.spec_objects(), vmodel(ray.orig), vmodel(ray.dir))
                        == Option::Some((h.idx as int, h.distance as int))
                    &&& h.idx < self.spec_objects().len()
                    &&& 0 <= h.distance <= DIST_MAX
                },
            },
    {
        let ghost orig = vmodel(ray.orig);
        let ghost dir = vmodel(ray.dir);
        let mut nearest: Option<IntersecObj> = None;
        let mut i: usize = 0;
        proof {
            assert(self.spec_objects().take(0) =~= Seq::<Object>::empty());
        }
        while i < self.objects.len()
            invariant
                self.wf(),
                ray_wf(*ray),
                orig == vmodel(ray.orig),
                dir == vmodel(ray.dir),
                i <= self.spec_objects().len(),
                match nearest {
                    Option::None => nearest_model(self.spec_objects().take(i as int), orig, dir) is None,
                    Option::Some(h) => {
                        &&& nearest_model(self.spec_objects().take(i as int), orig, dir)
                            == Option::Some((h.idx as int, h.distance as int))
                        &&& h.idx < i
                        &&& 0 <= h.distance <= DIST_MAX
                    },
                },
            decreases self.spec_objects().len() - i,
        {
            let obj = &self.objects[i];
            let root = obj.shape.intersec(ray).get_closer();
            proof {
                lemma_closer_of_bounds(self.spec_objects()[i as int], orig, dir);
                assert(self.spec_objects().take(i + 1).drop_last() =~= self.spec_objects().take(
                    i as int,
                ));
                assert(self.spec_objects().take(i + 1).last() == self.spec_objects()[i as int]);
            }
            match root {
                None => {},
                Some(distance) => {
                    match nearest {
                        None => {
                            nearest = Some(IntersecObj { idx: i, distance });
                        },
                        Some(h) => {
                            if distance < h.distance {
                                nearest = Some(IntersecObj { idx: i, distance });
                            }
                        },
                    }
                },
            }
            i = i + 1;
        }
        proof {
            assert(self.spec_objects().take(self.spec_objects().len() as int) =~= self
                .spec_objects());
        }
        nearest
    }

    /// Sum the contribution of every light, combined channelwise.
    ///
    /// Specular recursion strictly increases `deep` and stops at
    /// [`REFLECT_DEEP`], so every evaluation terminates; the `decreases`
    /// measure checks this.
    #[verifier::rlimit(100)]
    pub fn get_ray_color(&self, ray: &Ray, deep: u8) -> (c: Color)
        requires
            self.wf(),
            ray_wf(*ray),
        ensures
            self.deterministic() ==> c == ray_color_model(
                *self,
                vmodel(ray.orig),
                vmodel(ray.dir),
                deep as int,
            ),
            self.spec_lights().len() == 0 ==> c == (Color { r: 0, g: 0, b: 0 }),
        decreases depth_rank(deep as int), 3int, 0int,
    {
        let ghost orig = vmodel(ray.orig);
        let ghost dir = vmodel(ray.dir);
        let mut c = Color::new(0, 0, 0);
        let mut i: usize = 0;
        proof {
            lemma_lights_color_zero(*self, orig, dir, deep as int);
        }
        while i < self.lights.len()
            invariant
                self.wf(),
                ray_wf(*ray),
                orig == vmodel(ray.orig),
                dir == vmodel(ray.dir),
                i <= self.spec_lights().len(),
                self.deterministic() ==> c == lights_color_model(
                    *self,
                    orig,
                    dir,
                    deep as int,
                    i as int,
                ),
                i == 0 ==> c == (Color { r: 0, g: 0, b: 0 }),
            decreases
                depth_rank(deep as int),
                2int,
                self.spec_lights().len() - i,
        {
            let l = &self.lights[i];
            let ray_color_by_l = self.get_ray_color_by_light(ray, l, deep);
            proof {
                lemma_lights_color_step(*self, orig, dir, deep as int, i as int);
            }
            c = c.add(&ray_color_by_l);
            i = i + 1;
        }
        proof {
            reveal(ray_color_model);
            reveal(lights_color_model);
            reveal(by_light_model);
        }
        c
    }

    /// Shade one ray for one light: nearest hit, shadow test, glare
    /// test, diffuse term and bounded specular recursion, as described
    /// by [`by_light_model`].
    #[verifier::rlimit(100)]
    pub fn get_ray_color_by_light(&self, ray: &Ray, l: &Light, deep: u8) -> (c: Color)
        requires
            self.wf(),
            ray_wf(*ray),
            light_wf(*l),
        ensures
            self.deterministic() ==> c == by_light_model(
                *self,
                vmodel(ray.orig),
                vmodel(ray.dir),
                *l,
                deep as int,
            ),
            nearest_model(self.spec_objects(), vmodel(ray.orig), vmodel(ray.dir)) is None ==> c
                == (Color { r: 0, g: 0, b: 0 }),
        decreases depth_rank(deep as int), 1int, 0int,
    {
        proof {
            reveal(by_light_model);
            reveal(ray_color_model);
            reveal(lights_color_model);
        }
        let black = Color::new(0, 0, 0);
        let hit = match self.intersec_obj(ray) {
            None => {
                return black;
            },
            Some(h) => h,
        };
        let obj = &self.objects[hit.idx];
        let point = ray.point_on_ray(hit.distance);
        if !point.in_bounds(POINT_MAX) {
            return black;
        }
        let gnorm = match obj.shape.norm(&point) {
            None => {
                return black;
            },
            Some(n) => n,
        };
        let snrm = match obj.properties.diffuse {
            None => gnorm,
            Some(diff) => {
                let jitter = Vector::new_rand().scaled(diff);
                let cand = gnorm.add(&jitter);
                match cand.norm() {
                    None => gnorm,
                    Some(u) => u,
                }
            },
        };
        let pl = l.get_orig().sub(&point);
        let sh_dir = match pl.norm() {
            None => {
                return black;
            },
            Some(u) => u,
        };
        let pl_size = pl.size();
        let sh_orig = point.step_away(&snrm);
        let sh_ray = Ray::new(sh_orig, sh_dir);
        let sh_dist: i64 = match self.intersec_obj(&sh_ray) {
            None => i64::MAX,
            Some(h) => h.distance,
        };
        if sh_dist <= pl_size {
            // in shadow: black, or for a reflective surface the dimmed
            // reflection alone
            match obj.properties.reflection {
                None => {
                    return black;
                },
                Some(rfl) => {
                    if deep >= REFLECT_DEEP {
                        return black;
                    }
                    let rfl_ray = match ray.new_reflect(&sh_orig, &snrm) {
                        None => {
                            return black;
                        },
                        Some(r) => r,
                    };
                    let sub = self.get_ray_color(&rfl_ray, deep + 1);
                    return sub.scaled(rfl);
                },
            }
        }
        // make light visible: a primary ray aimed straight at the light
        // renders the light itself
        let gl = l.get_orig().sub(ray.get_orig());
        match gl.norm() {
            None => {},
            Some(gd) => {
                let sh_dot = gd.dot(ray.get_dir());
                if sh_dot > GLARE_LIMIT {
                    let q = tdiv_i64(sh_dot, SCALE);
                    return Color::new(255, 255, 255).scaled(q);
                }
            },
        }
        // the diffuse term, with inverse-distance falloff
        proof {
            crate::raytracer::vector::lemma_sum_squares_pos(
                vmodel(pl).0,
                vmodel(pl).1,
                vmodel(pl).2,
            );
            lemma_sqrt_floor_lower(sdot(vmodel(pl), vmodel(pl)), 1);
        }
        let l_int = l.intensity(&point, &snrm);
        let l_intens = tdiv_i64(l_int * SCALE, pl_size);
        let color = obj.properties.color.scaled(l_intens);
        match obj.properties.reflection {
            None => color,
            Some(rfl) => {
                if deep >= REFLECT_DEEP {
                    return color;
                }
                let rfl_ray = match ray.new_reflect(&sh_orig, &snrm) {
                    None => {
                        return color;
                    },
                    Some(r) => r,
                };
                let sub = self.get_ray_color(&rfl_ray, deep + 1);
                color.add(&sub.scaled(rfl))
            },
        }
    }
}

/// Shading of one ray for one light, as a mathematical function of the
/// scene and the ray.  Diffuse jitter is not modelled: where the hit
/// object carries a diffuse coefficient the renderer samples fresh
/// randomness, and shading is specified only for scenes without jitter.
#[verifier::opaque]
pub open spec fn by_light_model(
    scene: Scene,
    orig: (int, int, int),
    dir: (int, int, int),
    l: Light,
    deep: int,
) -> Color
    decreases depth_rank(deep), 1int, 0int,
{
    let black = Color { r: 0, g: 0, b: 0 };
    let objects = scene.spec_objects();
    match nearest_model(objects, orig, dir) {
        Option::None => black,
        Option::Some(hit) => {
            let obj = objects[hit.0];
            let point = spoint_on(orig, dir, hit.1);
            if !sbounded(point, POINT_MAX as int) {
                black
            } else {
                let center = match obj.shape {
                    Shape::Sphere(sp) => vmodel(sp.center),
                };
                if point == center {
                    black
                } else {
                    let gn = snorm(ssub(point, center))->Some_0;
                    let pl = ssub(vmodel(l.orig), point);
                    if pl == (0int, 0int, 0int) {
                        black
                    } else {
                        let pl_size = ssize(pl);
                        let sh_orig = sadd(point, sscaled(gn, STEP_FROM_ORIGIN as int));
                        let sh_dir = snorm(pl)->Some_0;
                        let sh_dist = match nearest_model(objects, sh_orig, sh_dir) {
                            Option::None => i64::MAX as int,
                            Option::Some(sh) => sh.1,
                        };
                        if sh_dist <= pl_size {
                            shadow_reflect_model(scene, dir, deep, obj, sh_orig, gn)
                        } else {
                            let gl = ssub(vmodel(l.orig), orig);
                            if gl != (0int, 0int, 0int) && sdot(snorm(gl)->Some_0, dir)
                                > GLARE_LIMIT as int {
                                color_scaled_model(
                                    Color { r: 255, g: 255, b: 255 },
                                    tdiv(sdot(snorm(gl)->Some_0, dir), SCALE as int),
                                )
                            } else {
                                let li = sintensity(vmodel(l.orig), point, gn);
                                let lint = tdiv(li * SCALE, pl_size);
                                let base = color_scaled_model(obj.properties.color, lint);
                                lit_reflect_model(scene, dir, deep, obj, sh_orig, gn, base)
                            }
                        }
                    }
                }
            }
        },
    }
}

/// The shadowed branch of [`by_light_model`]: black, unless the surface
/// is reflective and depth remains, in which case the dimmed reflection
/// alone.
pub open spec fn shadow_reflect_model(
    scene: Scene,
    dir: (int, int, int),
    deep: int,
    obj: Object,
    sh_orig: (int, int, int),
    gn: (int, int, int),
) -> Color
    decreases depth_rank(deep), 0int, 0int,
{
    let black = Color { r: 0, g: 0, b: 0 };
    match obj.properties.reflection {
        Option::None => black,
        Option::Some(rfl) => if deep >= REFLECT_DEEP as int {
            black
        } else {
            if sdot(dir, gn) < 0 && sbounded(sreflect(dir, gn), UNIT_MAX as int) {
                color_scaled_model(
                    ray_color_model(scene, sh_orig, sreflect(dir, gn), deep + 1),
                    rfl as int,
                )
            } else {
                black
            }
        },
    }
}

/// The lit branch of [`by_light_model`]: the diffuse color, blended
/// with the dimmed reflection where the surface is reflective and depth
/// remains.
pub open spec fn lit_reflect_model(
    scene: Scene,
    dir: (int, int, int),
    deep: int,
    obj: Object,
    sh_orig: (int, int, int),
    gn: (int, int, int),
    base: Color,
) -> Color
    decreases depth_rank(deep), 0int, 0int,
{
    match obj.properties.reflection {
        Option::None => base,
        Option::Some(rfl) => if deep >= REFLECT_DEEP as int {
            base
        } else {
            if sdot(dir, gn) < 0 && sbounded(sreflect(dir, gn), UNIT_MAX as int) {
                color_add_model(
                    base,
                    color_scaled_model(
                        ray_color_model(scene, sh_orig, sreflect(dir, gn), deep + 1),
                        rfl as int,
                    ),
                )
            } else {
                base
            }
        },
    }
}

/// The combined contribution of the first `i` lights.
#[verifier::opaque]
pub open spec fn lights_color_model(
    scene: Scene,
    orig: (int, int, int),
    dir: (int, int, int),
    deep: int,
    i: int,
) -> Color
    decreases depth_rank(deep), 2int, i,
{
    if i <= 0 {
        Color { r: 0, g: 0, b: 0 }
    } else {
        color_add_model(
            lights_color_model(scene, orig, dir, deep, i - 1),
            by_light_model(scene, orig, dir, scene.spec_lights()[i - 1], deep),
        )
    }
}

/// One step of the fold over the lights.
pub proof fn lemma_lights_color_step(
    scene: Scene,
    orig: (int, int, int),
    dir: (int, int, int),
    deep: int,
    i: int,
)
    requires
        0 <= i,
    ensures
        lights_color_model(scene, orig, dir, deep, i + 1) == color_add_model(
            lights_color_model(scene, orig, dir, deep, i),
            by_light_model(scene, orig, dir, scene.spec_lights()[i], deep),
        ),
{
    reveal_with_fuel(lights_color_model, 2);
    reveal(by_light_model);
    reveal(ray_color_model);
}

/// The empty fold is black.
pub proof fn lemma_lights_color_zero(
    scene: Scene,
    orig: (int, int, int),
    dir: (int, int, int),
    deep: int,
)
    ensures
        lights_color_model(scene, orig, dir, deep, 0) == (Color { r: 0, g: 0, b: 0 }),
{
    reveal_with_fuel(lights_color_model, 2);
    reveal(by_light_model);
    reveal(ray_color_model);
}

/// Full shading of one ray: every light's contribution combined.
#[verifier::opaque]
pub open spec fn ray_color_model(
    scene: Scene,
    orig: (int, int, int),
    dir: (int, int, int),
    deep: int,
) -> Color
    decreases depth_rank(deep), 3int, 0int,
{
    lights_color_model(scene, orig, dir, deep, scene.spec_lights().len() as int)
}

} // verus!
