//! The rendering engine: vectors, rays, shapes, lights, the scene with
//! its recursive shading, and the canvas the scene is sampled onto.

pub mod canvas;
pub mod ray;
pub mod scene;
pub mod vector;

use vstd::prelude::*;

use crate::config::{CameraConfig, SceneConfig};
use crate::image::color::Color;
use crate::image::RasterImage;
use crate::math::{tdiv, SCALE};
use crate::raytracer::canvas::{
    camera_config_wf, camera_model, shaded_cell_model, Camera, Canvas, RESOLUTION_MAX,
};
use crate::raytracer::scene::{scene_config_wf, Scene};

verus! {

/// The color of output pixel `(i, j)`: the canvas is one cell wider and
/// taller than the longest image side, the image is centered on it, and
/// each pixel combines its own cell with the three neighbours sharing
/// its lower-right corner, channelwise by the saturating hypotenuse.
pub open spec fn image_pixel_model(
    cam: Camera,
    scene: Scene,
    width: int,
    height: int,
    i: int,
    j: int,
) -> Color {
    let resolution = if width < height {
        height
    } else {
        width
    };
    let step = tdiv(SCALE as int, resolution + 1);
    let h_shift = if height < width {
        (resolution - height) / 2
    } else {
        0
    };
    let w_shift = if height < width {
        0
    } else {
        (resolution - width) / 2
    };
    let black = Color { r: 0, g: 0, b: 0 };
    let ul = shaded_cell_model(cam, scene, step, black, i + w_shift, j + h_shift);
    let ur = shaded_cell_model(cam, scene, step, black, i + w_shift + 1, j + h_shift);
    let bl = shaded_cell_model(cam, scene, step, black, i + w_shift, j + h_shift + 1);
    let br = shaded_cell_model(cam, scene, step, black, i + w_shift + 1, j + h_shift + 1);
    let color_u = crate::image::color::color_add_model(ul, ur);
    let color_b = crate::image::color::color_add_model(bl, br);
    crate::image::color::color_add_model(color_b, color_u)
}

/// The whole render: a camera and the world it looks at.
pub struct Raytracer {
    camera: Camera,
    scene: Scene,
}

impl Raytracer {
    pub closed spec fn spec_camera(&self) -> Camera {
        self.camera
    }

    pub closed spec fn spec_scene(&self) -> Scene {
        self.scene
    }

    /// Build the render from its configuration; `None` exactly when the
    /// camera frame degenerates.
    pub fn new(camera: &CameraConfig, scene: SceneConfig) -> (r: Option<Raytracer>)
        requires
            camera_config_wf(*camera),
            scene_config_wf(scene),
        ensures
            r is Some <==> camera_model(*camera) is Some,
            r is Some ==> canvas::camera_wf(r->Some_0.spec_camera()),
            r is Some ==> r->Some_0.spec_scene().wf(),
    {
        let cam = match Camera::new(camera) {
            None => {
                return None;
            },
            Some(c) => c,
        };
        Some(Raytracer { camera: cam, scene: Scene::new(scene) })
    }

    /// Render into the image: sample the canvas over the centered
    /// square grid, then give every output pixel the combination of the
    /// four canvas cells at its corners.
    #[verifier::rlimit(100)]
    pub fn fill_image(self, image: &mut RasterImage)
        requires
            old(image).wf(),
            1 <= old(image).spec_width(),
            1 <= old(image).spec_height(),
            old(image).spec_width() < RESOLUTION_MAX,
            old(image).spec_height() < RESOLUTION_MAX,
            canvas::camera_wf(self.spec_camera()),
            self.spec_scene().wf(),
        ensures
            final(image).wf(),
            final(image).spec_width() == old(image).spec_width(),
            final(image).spec_height() == old(image).spec_height(),
            final(image).spec_name() == old(image).spec_name(),
            self.spec_scene().deterministic() ==> forall|idx: int|
                0 <= idx < final(image).spec_pixels().len() ==> final(image).spec_pixels()[idx]
                    == image_pixel_model(
                    self.spec_camera(),
                    self.spec_scene(),
                    old(image).spec_width() as int,
                    old(image).spec_height() as int,
                    idx % (old(image).spec_width() as int),
                    idx / (old(image).spec_width() as int),
                ),
    {
        let ghost cam = self.spec_camera();
        let ghost scn = self.spec_scene();
        let (width, height) = image.get_resolution();
        let resolution: usize = if width < height {
            height
        } else {
            width
        };
        let mut convas = Canvas::new(self.camera, self.scene, resolution + 1);
        let (h_shift, w_shift): (usize, usize) = if height < width {
            ((resolution - height) / 2, 0)
        } else {
            (0, (resolution - width) / 2)
        };
        convas.fill_canvas(
            (w_shift, resolution - w_shift + 1),
            (h_shift, resolution - h_shift + 1),
        );
        let ghost canvas_after = convas;
        proof {
            if scn.deterministic() {
                assert forall|x: int, y: int|
                    #![trigger canvas_after.spec_canvas()[y * (resolution + 1) + x]]
                    w_shift <= x && x <= resolution - w_shift && h_shift <= y && y
                        <= resolution - h_shift implies canvas_after.spec_canvas()[y * (resolution
                        + 1) + x] == shaded_cell_model(
                    cam,
                    scn,
                    tdiv(SCALE as int, resolution as int + 1),
                    Color { r: 0, g: 0, b: 0 },
                    x,
                    y,
                ) by {
                    let d = resolution as int + 1;
                    let idx = y * d + x;
                    assert(0 <= idx && idx < d * d) by (nonlinear_arith)
                        requires
                            0 <= x && x < d,
                            0 <= y && y < d,
                            idx == y * d + x,
                    ;
                    vstd::arithmetic::div_mod::lemma_fundamental_div_mod_converse(idx, d, y, x);
                }
            }
        }
        let mut j: usize = 0;
        while j < height
            invariant
                image.wf(),
                image.spec_width() == width,
                image.spec_height() == height,
                image.spec_name() == old(image).spec_name(),
                image.spec_pixels().len() == old(image).spec_pixels().len(),
                1 <= width < RESOLUTION_MAX,
                1 <= height < RESOLUTION_MAX,
                j <= height,
                resolution == if width < height {
                    height
                } else {
                    width
                },
                h_shift == (if height < width {
                    (resolution - height) / 2
                } else {
                    0
                }),
                w_shift == (if height < width {
                    0
                } else {
                    (resolution - width) / 2
                }),
                convas.wf(),
                convas.spec_camera() == cam,
                convas.spec_scene() == scn,
                convas.spec_resolution() == resolution + 1,
                convas == canvas_after,
                scn.deterministic() ==> forall|x: int, y: int|
                    #![trigger canvas_after.spec_canvas()[y * (resolution + 1) + x]]
                    w_shift <= x && x <= resolution - w_shift && h_shift <= y && y
                        <= resolution - h_shift ==> canvas_after.spec_canvas()[y * (resolution
                        + 1) + x] == shaded_cell_model(
                        cam,
                        scn,
                        tdiv(SCALE as int, resolution as int + 1),
                        Color { r: 0, g: 0, b: 0 },
                        x,
                        y,
                    ),
                scn.deterministic() ==> forall|idx: int|
                    0 <= idx < image.spec_pixels().len() && idx < j * width ==> image
                        .spec_pixels()[idx] == image_pixel_model(
                        cam,
                        scn,
                        width as int,
                        height as int,
                        idx % (width as int),
                        idx / (width as int),
                    ),
                scn.deterministic() ==> forall|idx: int|
                    j * width <= idx < image.spec_pixels().len() ==> image.spec_pixels()[idx]
                        == old(image).spec_pixels()[idx],
            decreases height - j,
        {
            let mut i: usize = 0;
            while i < width
                invariant
                    image.wf(),
                    image.spec_width() == width,
                    image.spec_height() == height,
                    image.spec_name() == old(image).spec_name(),
                    image.spec_pixels().len() == old(image).spec_pixels().len(),
                    1 <= width < RESOLUTION_MAX,
                    1 <= height < RESOLUTION_MAX,
                    j < height,
                    i <= width,
                    resolution == if width < height {
                        height
                    } else {
                        width
                    },
                    h_shift == (if height < width {
                        (resolution - height) / 2
                    } else {
                        0
                    }),
                    w_shift == (if height < width {
                        0
                    } else {
                        (resolution - width) / 2
                    }),
                    convas.wf(),
                    convas.spec_camera() == cam,
                    convas.spec_scene() == scn,
                    convas.spec_resolution() == resolution + 1,
                    convas == canvas_after,
                    scn.deterministic() ==> forall|x: int, y: int|
                        #![trigger canvas_after.spec_canvas()[y * (resolution + 1) + x]]
                        w_shift <= x && x <= resolution - w_shift && h_shift <= y && y
                            <= resolution - h_shift ==> canvas_after.spec_canvas()[y * (resolution
                            + 1) + x] == shaded_cell_model(
                            cam,
                            scn,
                            tdiv(SCALE as int, resolution as int + 1),
                            Color { r: 0, g: 0, b: 0 },
                            x,
                            y,
                        ),
                    scn.deterministic() ==> forall|idx: int|
                        0 <= idx < image.spec_pixels().len() && idx < j * width + i ==> image
                            .spec_pixels()[idx] == image_pixel_model(
                            cam,
                            scn,
                            width as int,
                            height as int,
                            idx % (width as int),
                            idx / (width as int),
                        ),
                    scn.deterministic() ==> forall|idx: int|
                        j * width + i <= idx < image.spec_pixels().len() ==> image.spec_pixels()[
                            idx] == old(image).spec_pixels()[idx],
                decreases width - i,
            {
                proof {
                    lemma_image_index_bounds(
                        width as int,
                        height as int,
                        resolution as int,
                        w_shift as int,
                        h_shift as int,
                        i as int,
                        j as int,
                    );
                    lemma_mul_comm_r(resolution as int + 1, j as int + h_shift as int);
                    lemma_mul_comm_r(resolution as int + 1, j as int + h_shift as int + 1);
                }
                let color_ul = match convas.get_canvas_pixel(i + w_shift, j + h_shift) {
                    None => Color::new(0, 0, 0),
                    Some(c) => *c,
                };
                let color_ur = match convas.get_canvas_pixel(i + w_shift + 1, j + h_shift) {
                    None => Color::new(0, 0, 0),
                    Some(c) => *c,
                };
                let color_bl = match convas.get_canvas_pixel(i + w_shift, j + h_shift + 1) {
                    None => Color::new(0, 0, 0),
                    Some(c) => *c,
                };
                let color_br = match convas.get_canvas_pixel(i + w_shift + 1, j + h_shift + 1) {
                    None => Color::new(0, 0, 0),
                    Some(c) => *c,
                };
                let color_u = color_ul.add(&color_ur);
                let color_b = color_bl.add(&color_br);
                let color = color_b.add(&color_u);
                let ghost pixels_before = image.spec_pixels();
                proof {
                    if scn.deterministic() {
                        let d = resolution as int + 1;
                        let x0 = i as int + w_shift as int;
                        let x1 = x0 + 1;
                        let y0 = j as int + h_shift as int;
                        let y1 = y0 + 1;
                        let step = tdiv(SCALE as int, d);
                        let black = (Color { r: 0, g: 0, b: 0 });
                        assert(canvas_after.spec_canvas()[y0 * d + x0] == shaded_cell_model(
                            cam, scn, step, black, x0, y0));
                        assert(canvas_after.spec_canvas()[y0 * d + x1] == shaded_cell_model(
                            cam, scn, step, black, x1, y0));
                        assert(canvas_after.spec_canvas()[y1 * d + x0] == shaded_cell_model(
                            cam, scn, step, black, x0, y1));
                        assert(canvas_after.spec_canvas()[y1 * d + x1] == shaded_cell_model(
                            cam, scn, step, black, x1, y1));
                        assert(color_ul == canvas_after.spec_canvas()[y0 * d + x0]);
                        assert(color_ur == canvas_after.spec_canvas()[y0 * d + x1]);
                        assert(color_bl == canvas_after.spec_canvas()[y1 * d + x0]);
                        assert(color_br == canvas_after.spec_canvas()[y1 * d + x1]);
                        assert(color == image_pixel_model(
                            cam, scn, width as int, height as int, i as int, j as int));
                    }
                }
                image.set_pixel(i, j, &color);
                proof {
                    lemma_image_fill_step(
                        cam,
                        scn,
                        *old(image),
                        pixels_before,
                        image.spec_pixels(),
                        width as int,
                        height as int,
                        i as int,
                        j as int,
                        color,
                    );
                }
                i = i + 1;
            }
            proof {
                assert((j as int + 1) * width as int == j as int * width as int + width as int)
                    by (nonlinear_arith);
            }
            j = j + 1;
        }
        proof {
            assert(height as int * width as int == width as int * height as int)
                by (nonlinear_arith);
        }
    }
}

/// The canvas cells read for output pixel `(i, j)` lie inside both the
/// canvas and the box that `fill_canvas` shaded, and the pixel index
/// lies inside the image.
proof fn lemma_image_index_bounds(
    width: int,
    height: int,
    resolution: int,
    w_shift: int,
    h_shift: int,
    i: int,
    j: int,
) by (nonlinear_arith)
    requires
        1 <= width < RESOLUTION_MAX as int,
        1 <= height < RESOLUTION_MAX as int,
        resolution == if width < height {
            height
        } else {
            width
        },
        h_shift == (if height < width {
            (resolution - height) / 2
        } else {
            0
        }),
        w_shift == (if height < width {
            0
        } else {
            (resolution - width) / 2
        }),
        0 <= i < width,
        0 <= j < height,
    ensures
        w_shift <= i + w_shift && i + w_shift + 1 <= resolution - w_shift,
        h_shift <= j + h_shift && j + h_shift + 1 <= resolution - h_shift,
        (resolution + 1) * (j + h_shift + 1) + (i + w_shift + 1) < (resolution + 1) * (resolution
            + 1),
        (resolution + 1) * (j + h_shift) + (i + w_shift) < (resolution + 1) * (resolution + 1),
        (resolution + 1) * (j + h_shift) + (i + w_shift + 1) < (resolution + 1) * (resolution
            + 1),
        (resolution + 1) * (j + h_shift + 1) + (i + w_shift) < (resolution + 1) * (resolution
            + 1),
        (resolution + 1) * (j + h_shift) + (i + w_shift) <= 0xFFFE_0001,
        (resolution + 1) * (j + h_shift) + (i + w_shift + 1) <= 0xFFFE_0001,
        (resolution + 1) * (j + h_shift + 1) + (i + w_shift) <= 0xFFFE_0001,
        (resolution + 1) * (j + h_shift + 1) + (i + w_shift + 1) <= 0xFFFE_0001,
        0 <= width * j + i < width * height,
        width * j + i <= 0xFFFE_0001,
{
}

proof fn lemma_mul_comm_r(a: int, b: int)
    by (nonlinear_arith)
    ensures
        a * b == b * a,
{
}

/// Writing pixel `(i, j)` extends the rendered prefix by one.
proof fn lemma_image_fill_step(
    cam: Camera,
    scn: Scene,
    start: RasterImage,
    before: Seq<Color>,
    after: Seq<Color>,
    width: int,
    height: int,
    i: int,
    j: int,
    color: Color,
)
    requires
        1 <= width,
        0 <= i < width,
        0 <= j < height,
        before.len() == start.spec_pixels().len(),
        after.len() == before.len(),
        width * j + i < before.len() ==> after == before.update(width * j + i, color),
        width * j + i >= before.len() ==> after == before,
        scn.deterministic() ==> color == image_pixel_model(cam, scn, width, height, i, j),
        scn.deterministic() ==> forall|idx: int|
            0 <= idx < before.len() && idx < j * width + i ==> before[idx] == image_pixel_model(
                cam,
                scn,
                width,
                height,
                idx % width,
                idx / width,
            ),
        scn.deterministic() ==> forall|idx: int|
            j * width + i <= idx < before.len() ==> before[idx] == start.spec_pixels()[idx],
    ensures
        scn.deterministic() ==> forall|idx: int|
            0 <= idx < after.len() && idx < j * width + i + 1 ==> after[idx] == image_pixel_model(
                cam,
                scn,
                width,
                height,
                idx % width,
                idx / width,
            ),
        scn.deterministic() ==> forall|idx: int|
            j * width + i + 1 <= idx < after.len() ==> after[idx] == start.spec_pixels()[idx],
{
    if scn.deterministic() {
        let idx0 = j * width + i;
        assert(width * j + i == j * width + i) by (nonlinear_arith);
        vstd::arithmetic::div_mod::lemma_fundamental_div_mod_converse(idx0, width, j, i);
        assert forall|idx: int|
            0 <= idx < after.len() && idx < j * width + i + 1 implies after[idx]
            == image_pixel_model(cam, scn, width, height, idx % width, idx / width) by {
            if idx == idx0 {
                assert(idx % width == i && idx / width == j);
            }
        }
    }
}

} // verus!
