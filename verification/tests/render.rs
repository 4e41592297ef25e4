use raytracer::config::{
    CameraConfig, ImageConfig, LightConfig, ObjProperties, SceneConfig, SphereConfig,
};
use raytracer::image::RasterImage;
use raytracer::raytracer::canvas::{Camera, Canvas};
use raytracer::raytracer::scene::Scene;
use raytracer::raytracer::Raytracer;

const S: i64 = 65536;

fn test_scene_cfg() -> SceneConfig {
    SceneConfig {
        spheres: vec![SphereConfig {
            center: [0, 0, 0],
            radius: 2 * S,
            properties: ObjProperties {
                color: [250, 120, 60],
                diffuse: None,
                reflection: None,
            },
        }],
        lights: vec![LightConfig { origin: [0, 10 * S, 10 * S] }],
    }
}

fn test_camera_cfg() -> CameraConfig {
    CameraConfig {
        origin: [0, 0, 10 * S],
        view: [0, 0, -S],
        up: [0, S, 0],
    }
}

#[test]
fn camera_frame_is_orthonormalized() {
    let cam = Camera::new(&test_camera_cfg()).unwrap();
    assert_eq!((cam.view.x, cam.view.y, cam.view.z), (0, 0, -S));
    assert_eq!((cam.tau.x, cam.tau.y, cam.tau.z), (S, 0, 0));
    assert_eq!((cam.up.x, cam.up.y, cam.up.z), (0, S, 0));
    assert_eq!((cam.orig.x, cam.orig.y, cam.orig.z), (0, 0, 10 * S));
}

#[test]
fn camera_with_degenerate_view_is_rejected() {
    let cfg = CameraConfig { origin: [0, 0, 0], view: [0, 0, 0], up: [0, S, 0] };
    assert!(Camera::new(&cfg).is_none());
    let cfg2 = CameraConfig { origin: [0, 0, 0], view: [0, 0, -S], up: [0, 0, 0] };
    assert!(Camera::new(&cfg2).is_none());
    // up parallel to view: the transverse axis degenerates
    let cfg3 = CameraConfig { origin: [0, 0, 0], view: [0, 0, -S], up: [0, 0, S] };
    assert!(Camera::new(&cfg3).is_none());
}

#[test]
fn canvas_cells_start_black_and_fill() {
    let cam = Camera::new(&test_camera_cfg()).unwrap();
    let scene = Scene::new(test_scene_cfg());
    let mut canvas = Canvas::new(cam, scene, 5);
    let cell = canvas.get_canvas_pixel(2, 2).unwrap();
    assert_eq!((cell.r, cell.g, cell.b), (0, 0, 0));
    assert!(canvas.get_canvas_pixel(0, 5).is_none());
    canvas.fill_canvas((0, 5), (0, 5));
    assert!(canvas.get_canvas_pixel(4, 4).is_some());
}

#[test]
fn raytracer_renders_deterministic_image() {
    let tracer = Raytracer::new(&test_camera_cfg(), test_scene_cfg()).unwrap();
    let mut image = RasterImage::new(ImageConfig {
        name: String::from("render"),
        width: 4,
        height: 3,
    });
    tracer.fill_image(&mut image);

    let tracer2 = Raytracer::new(&test_camera_cfg(), test_scene_cfg()).unwrap();
    let mut image2 = RasterImage::new(ImageConfig {
        name: String::from("render"),
        width: 4,
        height: 3,
    });
    tracer2.fill_image(&mut image2);

    assert_eq!(image.get_resolution(), (4, 3));
    for y in 0..3 {
        for x in 0..4 {
            let a = image.get_pixel(x, y).unwrap();
            let b = image2.get_pixel(x, y).unwrap();
            assert_eq!((a.r, a.g, a.b), (b.r, b.g, b.b));
        }
    }
}

#[test]
fn raytracer_with_degenerate_camera_is_rejected() {
    let cfg = CameraConfig { origin: [0, 0, 0], view: [0, 0, 0], up: [0, S, 0] };
    assert!(Raytracer::new(&cfg, test_scene_cfg()).is_none());
}
