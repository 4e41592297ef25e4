//! The camera and the square canvas the scene is sampled onto: one ray
//! per canvas cell, shaded by the scene.

use vstd::prelude::*;

use crate::config::CameraConfig;
use crate::image::color::Color;
use crate::math::{tdiv, tdiv_i64, SCALE};
use crate::raytracer::ray::Ray;
use crate::raytracer::scene::{ray_color_model, Scene};
use crate::raytracer::scene::shape::{ray_wf, SCENE_MAX};
use crate::raytracer::vector::{sadd, sbounded, scross, snorm, sscaled, vmodel, Vector, NORM_MAX};

verus! {

/// Largest accepted canvas resolution.
pub const RESOLUTION_MAX: usize = 0xFFFF;

/// The camera frame derived from its configuration: the normalized view
/// direction, the transverse axis and the corrected up axis, each
/// undefined when a vector to be normalized degenerates to zero.
pub open spec fn camera_model(cfg: CameraConfig) -> Option<
    ((int, int, int), (int, int, int), (int, int, int)),
> {
    let va = (cfg.view[0] as int, cfg.view[1] as int, cfg.view[2] as int);
    let ua = (cfg.up[0] as int, cfg.up[1] as int, cfg.up[2] as int);
    match snorm(va) {
        Option::None => Option::None,
        Option::Some(view) => match snorm(ua) {
            Option::None => Option::None,
            Option::Some(u0) => match snorm(scross(view, u0)) {
                Option::None => Option::None,
                Option::Some(tau) => match snorm(scross(tau, view)) {
                    Option::None => Option::None,
                    Option::Some(up) => Option::Some((view, tau, up)),
                },
            },
        },
    }
}

/// The camera configuration stays inside the world volume.
pub open spec fn camera_config_wf(cfg: CameraConfig) -> bool {
    &&& forall|i: int| 0 <= i < 3 ==> -SCENE_MAX <= #[trigger] cfg.origin[i] <= SCENE_MAX
    &&& forall|i: int| 0 <= i < 3 ==> -SCENE_MAX <= #[trigger] cfg.view[i] <= SCENE_MAX
    &&& forall|i: int| 0 <= i < 3 ==> -SCENE_MAX <= #[trigger] cfg.up[i] <= SCENE_MAX
}

pub struct Camera {
    pub orig: Vector,
    pub view: Vector,
    pub tau: Vector,
    pub up: Vector,
}

/// The camera's axes are unit-bounded and its origin lies in the world
/// volume.
pub open spec fn camera_wf(cam: Camera) -> bool {
    &&& sbounded(vmodel(cam.orig), SCENE_MAX as int)
    &&& sbounded(vmodel(cam.view), SCALE as int)
    &&& sbounded(vmodel(cam.tau), SCALE as int)
    &&& sbounded(vmodel(cam.up), SCALE as int)
}

impl Camera {
    /// Derive the camera frame from its configuration; `None` exactly
    /// when a degenerate (zero) vector arises in the derivation.
    pub fn new(conf: &CameraConfig) -> (r: Option<Camera>)
        requires
            camera_config_wf(*conf),
        ensures
            r is Some <==> camera_model(*conf) is Some,
            r is Some ==> {
                let frame = camera_model(*conf)->Some_0;
                &&& vmodel(r->Some_0.view) == frame.0
                &&& vmodel(r->Some_0.tau) == frame.1
                &&& vmodel(r->Some_0.up) == frame.2
                &&& r->Some_0.orig == (Vector {
                    x: conf.origin[0],
                    y: conf.origin[1],
                    z: conf.origin[2],
                })
                &&& camera_wf(r->Some_0)
            },
    {
        let view = match Vector::new_from_arr(&conf.view).norm() {
            None => {
                return None;
            },
            Some(v) => v,
        };
        let u0 = match Vector::new_from_arr(&conf.up).norm() {
            None => {
                return None;
            },
            Some(v) => v,
        };
        proof {
            lemma_unit_cross_in_norm_range(vmodel(view), vmodel(u0));
        }
        let tau = match view.cross(&u0).norm() {
            None => {
                return None;
            },
            Some(v) => v,
        };
        proof {
            lemma_unit_cross_in_norm_range(vmodel(tau), vmodel(view));
        }
        let up = match tau.cross(&view).norm() {
            None => {
                return None;
            },
            Some(v) => v,
        };
        Some(Camera { orig: Vector::new_from_arr(&conf.origin), view, tau, up })
    }
}

/// The ray sampled for canvas cell `(i, j)`: the view direction shifted
/// along the transverse and up axes by the cell's offsets from the
/// center of the grid, then normalized.  Undefined when the shifted
/// direction degenerates to zero.
pub open spec fn canvas_ray_model(cam: Camera, step: int, i: int, j: int) -> Option<
    ((int, int, int), (int, int, int)),
> {
    let h_shift = -(SCALE as int / 2) + i * step + step / 2;
    let v_shift = (SCALE as int / 2) - (j * step + step / 2);
    let dir0 = sadd(
        sadd(vmodel(cam.view), sscaled(vmodel(cam.tau), h_shift)),
        sscaled(vmodel(cam.up), v_shift),
    );
    match snorm(dir0) {
        Option::None => Option::None,
        Option::Some(d) => Option::Some((vmodel(cam.orig), d)),
    }
}

pub struct Canvas {
    camera: Camera,
    scene: Scene,
    step: i64,
    resolution: usize,
    canvas: Vec<Color>,
}

impl Canvas {
    pub closed spec fn spec_camera(&self) -> Camera {
        self.camera
    }

    pub closed spec fn spec_scene(&self) -> Scene {
        self.scene
    }

    pub closed spec fn spec_step(&self) -> i64 {
        self.step
    }

    pub closed spec fn spec_resolution(&self) -> usize {
        self.resolution
    }

    pub closed spec fn spec_canvas(&self) -> Seq<Color> {
        self.canvas@
    }

    pub open spec fn wf(&self) -> bool {
        &&& camera_wf(self.spec_camera())
        &&& self.spec_scene().wf()
        &&& 1 <= self.spec_resolution() <= RESOLUTION_MAX
        &&& self.spec_step() == tdiv(SCALE as int, self.spec_resolution() as int)
        &&& self.spec_canvas().len() == self.spec_resolution() * self.spec_resolution()
    }

    /// A blank canvas over the given camera and scene, one cell per
    /// grid position.
    pub fn new(camera: Camera, scene: Scene, resolution: usize) -> (c: Canvas)
        requires
            camera_wf(camera),
            scene.wf(),
            1 <= resolution <= RESOLUTION_MAX,
        ensures
            c.wf(),
            c.spec_camera() == camera,
            c.spec_scene() == scene,
            c.spec_resolution() == resolution,
            forall|k: int|
                0 <= k < c.spec_canvas().len() ==> c.spec_canvas()[k] == (Color {
                    r: 0,
                    g: 0,
                    b: 0,
                }),
    {
        let step: i64 = tdiv_i64(SCALE, resolution as i64);
        proof {
            assert(resolution as int * resolution as int <= 0xFFFE_0001int)
                by (nonlinear_arith)
                requires
                    0 <= resolution as int <= 0xFFFFint,
            ;
        }
        let n: usize = resolution * resolution;
        let mut cells: Vec<Color> = Vec::new();
        let mut k: usize = 0;
        while k < n
            invariant
                k <= n,
                cells@.len() == k,
                forall|q: int| 0 <= q < k ==> cells@[q] == (Color { r: 0, g: 0, b: 0 }),
            decreases n - k,
        {
            cells.push(Color::new(0, 0, 0));
            k = k + 1;
        }
        Canvas { camera, scene, step, resolution, canvas: cells }
    }

    /// Return the color sampled at a canvas cell.
    pub fn get_canvas_pixel(&self, i: usize, j: usize) -> (r: Option<&Color>)
        requires
            self.spec_resolution() * j + i <= usize::MAX,
        ensures
            r is Some <==> self.spec_resolution() * j + i < self.spec_canvas().len(),
            r is Some ==> *r->Some_0 == self.spec_canvas()[self.spec_resolution() * j + i],
    {
        let index: usize = self.resolution * j + i;
        if index < self.canvas.len() {
            Some(&self.canvas[index])
        } else {
            None
        }
    }

    /// The ray for cell `(i, j)`, per [`canvas_ray_model`].
    fn get_ray(&self, i: usize, j: usize) -> (r: Option<Ray>)
        requires
            self.wf(),
            i <= self.spec_resolution(),
            j <= self.spec_resolution(),
        ensures
            match r {
                Option::None => canvas_ray_model(
                    self.spec_camera(),
                    self.spec_step() as int,
                    i as int,
                    j as int,
                ) is None,
                Option::Some(ray) => {
                    &&& canvas_ray_model(
                        self.spec_camera(),
                        self.spec_step() as int,
                        i as int,
                        j as int,
                    ) == Option::Some((vmodel(ray.orig), vmodel(ray.dir)))
                    &&& ray_wf(ray)
                },
            },
    {
        proof {
            assert(0 <= tdiv(SCALE as int, self.spec_resolution() as int) <= SCALE)
                by (nonlinear_arith)
                requires
                    1 <= self.spec_resolution() as int,
                    SCALE == 65536i64,
            ;
        }
        let half: i64 = tdiv_i64(self.step, 2);
        proof {
            assert(0 <= self.step <= SCALE);
            assert(0 <= i as int * self.spec_step() as int <= 0xFFFFint * SCALE as int)
                by (nonlinear_arith)
                requires
                    0 <= i as int <= 0xFFFFint,
                    0 <= self.spec_step() as int <= SCALE as int,
            ;
            assert(0 <= j as int * self.spec_step() as int <= 0xFFFFint * SCALE as int)
                by (nonlinear_arith)
                requires
                    0 <= j as int <= 0xFFFFint,
                    0 <= self.spec_step() as int <= SCALE as int,
            ;
        }
        let h_shift: i64 = -32768 + ((i as i64) * self.step + half);
        let v_shift: i64 = 32768 - ((j as i64) * self.step + half);
        let mut dir = self.camera.view.clone();
        let th = self.camera.tau.scaled(h_shift);
        dir = dir.add(&th);
        let uv = self.camera.up.scaled(v_shift);
        dir = dir.add(&uv);
        let dir = match dir.norm() {
            None => {
                return None;
            },
            Some(d) => d,
        };
        Some(Ray::new(self.camera.orig.clone(), dir))
    }

    /// Shade every cell with both coordinates inside the given bounds:
    /// each gets the color of its sampled ray, or keeps its old color
    /// where the sampled direction degenerates.
    #[verifier::rlimit(100)]
    pub fn fill_canvas(&mut self, i_bound: (usize, usize), j_bound: (usize, usize))
        requires
            old(self).wf(),
            i_bound.1 <= old(self).spec_resolution(),
            j_bound.1 <= old(self).spec_resolution(),
        ensures
            final(self).wf(),
            final(self).spec_camera() == old(self).spec_camera(),
            final(self).spec_scene() == old(self).spec_scene(),
            final(self).spec_step() == old(self).spec_step(),
            final(self).spec_resolution() == old(self).spec_resolution(),
            final(self).spec_canvas().len() == old(self).spec_canvas().len(),
            old(self).spec_scene().deterministic() ==> forall|idx: int|
                0 <= idx < final(self).spec_canvas().len() ==> final(self).spec_canvas()[idx]
                    == filled_cell(
                    *old(self),
                    i_bound.0 as int,
                    i_bound.1 as int,
                    j_bound.0 as int,
                    j_bound.1 as int,
                    j_bound.1 as int,
                    i_bound.0 as int,
                    idx,
                ),
    {
        let ghost start = *self;
        let ghost i0 = i_bound.0 as int;
        let ghost i1 = i_bound.1 as int;
        let ghost j0 = j_bound.0 as int;
        let ghost j1 = j_bound.1 as int;
        let mut j: usize = j_bound.0;
        if j_bound.1 <= j {
            proof {
                lemma_filled_cell_vacuous(start, i0, i1, j0, j1, j1, i0);
            }
            return ;
        }
        while j < j_bound.1
            invariant
                start.wf(),
                j_bound.0 <= j <= j_bound.1,
                i_bound.1 <= start.spec_resolution(),
                j_bound.1 <= start.spec_resolution(),
                i0 == i_bound.0 as int,
                i1 == i_bound.1 as int,
                j0 == j_bound.0 as int,
                j1 == j_bound.1 as int,
                self.spec_camera() == start.spec_camera(),
                self.spec_scene() == start.spec_scene(),
                self.spec_step() == start.spec_step(),
                self.spec_resolution() == start.spec_resolution(),
                self.spec_canvas().len() == start.spec_canvas().len(),
                start.spec_scene().deterministic() ==> forall|idx: int|
                    0 <= idx < self.spec_canvas().len() ==> self.spec_canvas()[idx]
                        == filled_cell(start, i0, i1, j0, j1, j as int, i0, idx),
            decreases j_bound.1 - j,
        {
            let mut i: usize = i_bound.0;
            while i < i_bound.1
                invariant
                    start.wf(),
                    j_bound.0 <= j < j_bound.1,
                    i_bound.0 <= i,
                    i <= i_bound.1 || i == i_bound.0,
                    i_bound.1 <= start.spec_resolution(),
                    j_bound.1 <= start.spec_resolution(),
                    i0 == i_bound.0 as int,
                    i1 == i_bound.1 as int,
                    j0 == j_bound.0 as int,
                    j1 == j_bound.1 as int,
                    self.spec_camera() == start.spec_camera(),
                    self.spec_scene() == start.spec_scene(),
                    self.spec_step() == start.spec_step(),
                    self.spec_resolution() == start.spec_resolution(),
                    self.spec_canvas().len() == start.spec_canvas().len(),
                    start.spec_scene().deterministic() ==> forall|idx: int|
                        0 <= idx < self.spec_canvas().len() ==> self.spec_canvas()[idx]
                            == filled_cell(start, i0, i1, j0, j1, j as int, i as int, idx),
                decreases i_bound.1 - i,
            {
                let ghost before = self.spec_canvas();
                proof {
                    assert(self.spec_resolution() * j + i < self.spec_canvas().len()
                        && self.spec_resolution() * j + i <= 0xFFFE_0001int)
                        by (nonlinear_arith)
                        requires
                            0 <= i as int && (i as int) < self.spec_resolution() as int,
                            0 <= j as int && (j as int) < self.spec_resolution() as int,
                            self.spec_resolution() as int <= 0xFFFFint,
                            self.spec_canvas().len() == self.spec_resolution() as int
                                * self.spec_resolution() as int,
                    ;
                }
                let index: usize = self.resolution * j + i;
                match self.get_ray(i, j) {
                    None => {},
                    Some(ray) => {
                        let ray_color = self.scene.get_ray_color(&ray, 0);
                        if index < self.canvas.len() {
                            self.canvas[index] = ray_color;
                        }
                    },
                }
                proof {
                    lemma_mul_comm_local(self.spec_resolution() as int, j as int);
                    lemma_row_step(start, *self, before, i0, i1, j0, j1, j as int, i as int);
                }
                i = i + 1;
            }
            proof {
                if start.spec_scene().deterministic() {
                    assert forall|idx: int|
                        0 <= idx < self.spec_canvas().len() implies self.spec_canvas()[idx]
                        == filled_cell(start, i0, i1, j0, j1, j as int + 1, i0, idx) by {
                        lemma_cursor_next_row(start, i0, i1, j0, j1, j as int, i as int, idx);
                    }
                }
            }
            j = j + 1;
        }
        proof {
            if start.spec_scene().deterministic() {
                assert forall|idx: int|
                    0 <= idx < self.spec_canvas().len() implies self.spec_canvas()[idx]
                    == filled_cell(start, i0, i1, j0, j1, j1, i0, idx) by {
                }
            }
        }
    }
}

/// The color a canvas cell takes once the ray for it has been sampled
/// and shaded: the shading of the ray, or the previous color where the
/// sampled direction degenerates.
pub open spec fn shaded_cell_model(cam: Camera, scene: Scene, step: int, prev: Color, i: int, j: int) -> Color {
    match canvas_ray_model(cam, step, i, j) {
        Option::None => prev,
        Option::Some(od) => ray_color_model(scene, od.0, od.1, 0),
    }
}

/// The contents of cell `idx` after every cell inside the bound box and
/// before the cursor `(jj, ii)` (in row-major order) has been shaded.
pub open spec fn filled_cell(
    start: Canvas,
    i0: int,
    i1: int,
    j0: int,
    j1: int,
    jj: int,
    ii: int,
    idx: int,
) -> Color {
    let res = start.spec_resolution() as int;
    let x = idx % res;
    let y = idx / res;
    if i0 <= x < i1 && j0 <= y < j1 && (y < jj || (y == jj && x < ii)) {
        shaded_cell_model(
            start.spec_camera(),
            start.spec_scene(),
            start.spec_step() as int,
            start.spec_canvas()[idx],
            x,
            y,
        )
    } else {
        start.spec_canvas()[idx]
    }
}

/// With the cursor at the top of the box nothing has been shaded yet.
proof fn lemma_filled_cell_vacuous(start: Canvas, i0: int, i1: int, j0: int, j1: int, jj: int, ii: int)
    requires
        jj <= j0,
        ii <= i0,
    ensures
        forall|idx: int| #[trigger] filled_cell(start, i0, i1, j0, j1, jj, ii, idx)
            == start.spec_canvas()[idx],
{
}

/// Advancing the cursor past the end of a row reaches the top of the
/// next row.
proof fn lemma_cursor_next_row(start: Canvas, i0: int, i1: int, j0: int, j1: int, jj: int, ii: int, idx: int)
    requires
        ii >= i1,
    ensures
        filled_cell(start, i0, i1, j0, j1, jj, ii, idx) == filled_cell(
            start,
            i0,
            i1,
            j0,
            j1,
            jj + 1,
            i0,
            idx,
        ),
{
}

/// One shading step moves the cursor one cell to the right: the written
/// cell takes its shaded color and every other cell keeps its value.
proof fn lemma_row_step(
    start: Canvas,
    cur: Canvas,
    before: Seq<Color>,
    i0: int,
    i1: int,
    j0: int,
    j1: int,
    jj: int,
    ii: int,
)
    requires
        start.wf(),
        0 <= i0,
        0 <= j0,
        cur.spec_resolution() == start.spec_resolution(),
        cur.spec_canvas().len() == start.spec_canvas().len(),
        before.len() == start.spec_canvas().len(),
        j0 <= jj < j1,
        i0 <= ii < i1,
        i1 <= start.spec_resolution() as int,
        j1 <= start.spec_resolution() as int,
        start.spec_scene().deterministic() ==> {
            &&& (forall|idx: int|
                0 <= idx < before.len() ==> before[idx] == filled_cell(
                    start,
                    i0,
                    i1,
                    j0,
                    j1,
                    jj,
                    ii,
                    idx,
                ))
            &&& cur.spec_canvas() == (match canvas_ray_model(
                start.spec_camera(),
                start.spec_step() as int,
                ii,
                jj,
            ) {
                Option::None => before,
                Option::Some(od) => before.update(
                    jj * start.spec_resolution() as int + ii,
                    ray_color_model(start.spec_scene(), od.0, od.1, 0),
                ),
            })
        },
    ensures
        start.spec_scene().deterministic() ==> forall|idx: int|
            0 <= idx < cur.spec_canvas().len() ==> cur.spec_canvas()[idx] == filled_cell(
                start,
                i0,
                i1,
                j0,
                j1,
                jj,
                ii + 1,
                idx,
            ),
{
    if start.spec_scene().deterministic() {
        let res = start.spec_resolution() as int;
        let idx0 = jj * res + ii;
        assert(0 <= idx0 < res * res) by (nonlinear_arith)
            requires
                0 <= ii < res,
                0 <= jj < res,
                idx0 == jj * res + ii,
        ;
        vstd::arithmetic::div_mod::lemma_fundamental_div_mod_converse(idx0, res, jj, ii);
        assert forall|idx: int|
            0 <= idx < cur.spec_canvas().len() implies cur.spec_canvas()[idx] == filled_cell(
            start,
            i0,
            i1,
            j0,
            j1,
            jj,
            ii + 1,
            idx,
        ) by {
            vstd::arithmetic::div_mod::lemma_fundamental_div_mod(idx, res);
            lemma_mul_comm_local(res, idx / res);
            if idx != idx0 {
                assert(!(idx % res == ii && idx / res == jj));
            }
        }
    }
}

proof fn lemma_mul_comm_local(a: int, b: int)
    by (nonlinear_arith)
    ensures
        a * b == b * a,
{
}

/// The cross product of two unit-bounded vectors stays inside the
/// range that normalization accepts.
proof fn lemma_unit_cross_in_norm_range(a: (int, int, int), b: (int, int, int))
    by (nonlinear_arith)
    requires
        sbounded(a, SCALE as int),
        sbounded(b, SCALE as int),
    ensures
        sbounded(scross(a, b), NORM_MAX as int),
{
}

} // verus!
