use raytracer::config::{LightConfig, ObjProperties, SceneConfig, SphereConfig};
use raytracer::image::Color;
use raytracer::raytracer::ray::Ray;
use raytracer::raytracer::scene::light::Light;
use raytracer::raytracer::scene::Scene;
use raytracer::raytracer::vector::Vector;

const S: i64 = 65536;

fn sphere_cfg(center: [i64; 3], radius: i64, color: [u8; 3]) -> SphereConfig {
    SphereConfig {
        center,
        radius,
        properties: ObjProperties { color, diffuse: None, reflection: None },
    }
}

#[test]
fn nearest_object_finds_the_head_on_hit() {
    // Scenario: sphere at origin, radius 2, ray from (0,0,10) toward it:
    // the nearest-hit search returns the root at distance 8
    let scene = Scene::new(SceneConfig {
        spheres: vec![sphere_cfg([0, 0, 0], 2 * S, [255, 255, 255])],
        lights: vec![],
    });
    let ray = Ray::new(Vector::new(0, 0, 10 * S), Vector::new(0, 0, -S));
    let hit = scene.intersec_obj(&ray).unwrap();
    assert_eq!(hit.idx, 0);
    assert_eq!(hit.distance, 8 * S);
}

#[test]
fn nearest_object_returns_the_one_hit_sphere() {
    // Round-trip: of two well-separated spheres each ray reports the one
    // it hits, never the other
    let scene = Scene::new(SceneConfig {
        spheres: vec![
            sphere_cfg([0, 0, 8 * S], S, [10, 20, 30]),
            sphere_cfg([8 * S, 0, 0], S, [40, 50, 60]),
        ],
        lights: vec![LightConfig { origin: [0, 0, -2 * S] }],
    });
    let toward_first = Ray::new(Vector::new(0, 0, 0), Vector::new(0, 0, S));
    let hit = scene.intersec_obj(&toward_first).unwrap();
    assert_eq!(hit.idx, 0);
    assert_eq!(hit.distance, 7 * S);

    let toward_second = Ray::new(Vector::new(0, 0, 0), Vector::new(S, 0, 0));
    let hit2 = scene.intersec_obj(&toward_second).unwrap();
    assert_eq!(hit2.idx, 1);
    assert_eq!(hit2.distance, 7 * S);

    let miss = Ray::new(Vector::new(0, 0, 0), Vector::new(0, -S, 0));
    assert!(scene.intersec_obj(&miss).is_none());

    // the shaded color comes from the first sphere's own material
    let shaded = scene.get_ray_color(&toward_first, 0);
    assert_eq!(shaded, Color::new(1, 2, 3));
}

#[test]
fn aligned_light_at_unit_distance_gives_base_color() {
    // Scenario: a tangent ray grazes the sphere where its normal points
    // straight at a light one unit away: intensity is exactly one and
    // the shaded color is exactly the base color
    let scene = Scene::new(SceneConfig {
        spheres: vec![sphere_cfg([0, 0, 8 * S], S, [255, 255, 255])],
        lights: vec![LightConfig { origin: [0, 0, 6 * S] }],
    });
    let ray = Ray::new(Vector::new(S, 0, 7 * S), Vector::new(-S, 0, 0));
    let color = scene.get_ray_color(&ray, 0);
    assert_eq!(color, Color::new(255, 255, 255));
}

#[test]
fn occluded_light_contributes_black() {
    // Scenario: a small opaque sphere sits between the hit point and the
    // first light; that light's contribution is black, and the total
    // equals the second, unobstructed light's contribution alone
    let scene = Scene::new(SceneConfig {
        spheres: vec![
            sphere_cfg([0, 0, 8 * S], S, [255, 255, 255]),
            sphere_cfg([0, 0, 6 * S + S / 2], S / 4, [1, 1, 1]),
        ],
        lights: vec![
            LightConfig { origin: [0, 0, 6 * S] },
            LightConfig { origin: [0, 3 * S, 6 * S] },
        ],
    });
    let ray = Ray::new(Vector::new(S, 0, 7 * S), Vector::new(-S, 0, 0));

    let blocked = scene.get_ray_color_by_light(&ray, &Light::new(Vector::new(0, 0, 6 * S)), 0);
    assert_eq!(blocked, Color::new(0, 0, 0));

    let open = scene.get_ray_color_by_light(&ray, &Light::new(Vector::new(0, 3 * S, 6 * S)), 0);
    assert_ne!(open, Color::new(0, 0, 0));

    let total = scene.get_ray_color(&ray, 0);
    assert_eq!(total, open);
}

#[test]
fn facing_mirrors_terminate() {
    // Scenario: full reflectivity, two mutually facing reflective
    // spheres; the depth bound ends the recursion and a color is
    // returned, the same on every evaluation
    let mirror = |center: [i64; 3]| SphereConfig {
        center,
        radius: S,
        properties: ObjProperties {
            color: [200, 200, 200],
            diffuse: None,
            reflection: Some(S),
        },
    };
    let scene = Scene::new(SceneConfig {
        spheres: vec![mirror([0, 0, 4 * S]), mirror([0, 0, -4 * S])],
        lights: vec![LightConfig { origin: [3 * S, 0, 0] }],
    });
    let ray = Ray::new(Vector::new(0, 0, 0), Vector::new(0, 0, S));
    let first = scene.get_ray_color(&ray, 0);
    let second = scene.get_ray_color(&ray, 0);
    assert_eq!(first, second);
}

#[test]
fn depth_exhausted_recursion_returns_unblended_color() {
    // at the depth bound the reflective term is dropped
    let scene = Scene::new(SceneConfig {
        spheres: vec![SphereConfig {
            center: [0, 0, 8 * S],
            radius: S,
            properties: ObjProperties {
                color: [255, 255, 255],
                diffuse: None,
                reflection: Some(S),
            },
        }],
        lights: vec![LightConfig { origin: [0, 0, 6 * S] }],
    });
    let ray = Ray::new(Vector::new(S, 0, 7 * S), Vector::new(-S, 0, 0));
    let at_limit = scene.get_ray_color(&ray, 5);
    assert_eq!(at_limit, Color::new(255, 255, 255));
}

#[test]
fn push_object_and_push_light_extend_the_scene() {
    let mut scene = Scene::new(SceneConfig { spheres: vec![], lights: vec![] });
    let ray = Ray::new(Vector::new(0, 0, 10 * S), Vector::new(0, 0, -S));
    assert!(scene.intersec_obj(&ray).is_none());

    let shape = raytracer::raytracer::scene::shape::new_sphere(Vector::new(0, 0, 0), 2 * S);
    let props = raytracer::raytracer::scene::Properties {
        color: Color::new(9, 9, 9),
        diffuse: None,
        reflection: None,
    };
    scene.push_object(shape, props);
    scene.push_light(Light::new(Vector::new(0, 0, 12 * S)));
    let hit = scene.intersec_obj(&ray).unwrap();
    assert_eq!((hit.idx, hit.distance), (0, 8 * S));
}

#[test]
fn equidistant_hits_keep_the_earlier_object() {
    // two identical spheres: the nearest-hit search reports the first
    let scene = Scene::new(SceneConfig {
        spheres: vec![
            sphere_cfg([0, 0, 0], 2 * S, [1, 1, 1]),
            sphere_cfg([0, 0, 0], 2 * S, [2, 2, 2]),
        ],
        lights: vec![],
    });
    let ray = Ray::new(Vector::new(0, 0, 10 * S), Vector::new(0, 0, -S));
    let hit = scene.intersec_obj(&ray).unwrap();
    assert_eq!(hit.idx, 0);
    assert_eq!(hit.distance, 8 * S);
}

#[test]
fn nearer_of_overlapping_spheres_wins() {
    let scene = Scene::new(SceneConfig {
        spheres: vec![
            sphere_cfg([0, 0, 0], 2 * S, [1, 1, 1]),
            sphere_cfg([0, 0, S], 2 * S, [2, 2, 2]),
        ],
        lights: vec![],
    });
    let ray = Ray::new(Vector::new(0, 0, 10 * S), Vector::new(0, 0, -S));
    let hit = scene.intersec_obj(&ray).unwrap();
    // the sphere shifted toward the ray is reached first, at 10 - 1 - 2
    assert_eq!(hit.idx, 1);
    assert_eq!(hit.distance, 7 * S);
}

#[test]
fn negative_radius_is_accepted() {
    // the radius is stored squared, so a negative radius renders as its
    // magnitude
    let scene = Scene::new(SceneConfig {
        spheres: vec![sphere_cfg([0, 0, 0], -2 * S, [1, 1, 1])],
        lights: vec![],
    });
    let ray = Ray::new(Vector::new(0, 0, 10 * S), Vector::new(0, 0, -S));
    let hit = scene.intersec_obj(&ray).unwrap();
    assert_eq!(hit.distance, 8 * S);
}

#[test]
fn empty_scene_shades_black() {
    let scene = Scene::new(SceneConfig { spheres: vec![], lights: vec![] });
    let ray = Ray::new(Vector::new(0, 0, 0), Vector::new(0, 0, S));
    assert_eq!(scene.get_ray_color(&ray, 0), Color::new(0, 0, 0));

    // a missing hit shades black even with lights present
    let lit = Scene::new(SceneConfig {
        spheres: vec![],
        lights: vec![LightConfig { origin: [0, 0, 2 * S] }],
    });
    assert_eq!(lit.get_ray_color(&ray, 0), Color::new(0, 0, 0));
}

#[test]
fn diffuse_jitter_stays_in_range() {
    // a jittered surface still shades to some color; channels are bytes
    // by construction, so this checks the call completes with jitter on
    let scene = Scene::new(SceneConfig {
        spheres: vec![SphereConfig {
            center: [0, 0, 8 * S],
            radius: S,
            properties: ObjProperties {
                color: [255, 255, 255],
                diffuse: Some(S / 4),
                reflection: None,
            },
        }],
        lights: vec![LightConfig { origin: [0, 0, 6 * S] }],
    });
    let ray = Ray::new(Vector::new(S, 0, 7 * S), Vector::new(-S, 0, 0));
    for _ in 0..20 {
        let _ = scene.get_ray_color(&ray, 0);
    }
}
