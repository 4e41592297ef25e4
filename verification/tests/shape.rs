use raytracer::raytracer::ray::Ray;
use raytracer::raytracer::scene::light::Light;
use raytracer::raytracer::scene::shape::{new_sphere, Intersec};
use raytracer::raytracer::vector::Vector;

const S: i64 = 65536;

#[test]
fn sphere_head_on_has_two_roots() {
    // sphere at origin, radius 2, ray from (0,0,10) toward it
    let sphere = new_sphere(Vector::new(0, 0, 0), 2 * S);
    let ray = Ray::new(Vector::new(0, 0, 10 * S), Vector::new(0, 0, -S));
    let roots = sphere.intersec(&ray);
    assert_eq!(roots, Intersec::Two(8 * S, 12 * S));
    assert_eq!(roots.get_closer(), Some(8 * S));
}

#[test]
fn sphere_intersection_is_idempotent() {
    let sphere = new_sphere(Vector::new(3 * S, -2 * S, 7 * S), 2 * S);
    let ray = Ray::new(Vector::new(S, S, -S), Vector::new(0, 0, S));
    let first = sphere.intersec(&ray);
    let second = sphere.intersec(&ray);
    assert_eq!(first, second);
}

#[test]
fn ray_from_center_reports_no_intersection() {
    // the projection of the center onto the ray is zero, which the
    // geometric test rejects
    let center = Vector::new(2 * S, 0, -5 * S);
    let sphere = new_sphere(center, 3 * S);
    for dir in [
        Vector::new(0, 0, S),
        Vector::new(0, -S, 0),
        Vector::new(S, S, S),
    ] {
        let ray = Ray::new(center, dir);
        assert_eq!(sphere.intersec(&ray), Intersec::Miss);
    }
}

#[test]
fn ray_behind_sphere_misses() {
    let sphere = new_sphere(Vector::new(0, 0, 10 * S), S);
    let ray = Ray::new(Vector::new(0, 0, 0), Vector::new(0, 0, -S));
    assert_eq!(sphere.intersec(&ray), Intersec::Miss);
}

#[test]
fn aimed_at_center_roots_are_distance_offset_by_radius() {
    // sphere centered 9 units down the ray: roots at 9 - 2 and 9 + 2
    let sphere = new_sphere(Vector::new(0, 9 * S, 0), 2 * S);
    let ray = Ray::new(Vector::new(0, 0, 0), Vector::new(0, S, 0));
    let roots = sphere.intersec(&ray);
    assert_eq!(roots, Intersec::Two(7 * S, 11 * S));
    assert_eq!(roots.get_closer(), Some(7 * S));
}

#[test]
fn tangent_ray_has_one_root() {
    let sphere = new_sphere(Vector::new(0, 0, 8 * S), S);
    let ray = Ray::new(Vector::new(S, 0, 7 * S), Vector::new(-S, 0, 0));
    let roots = sphere.intersec(&ray);
    assert_eq!(roots, Intersec::One(S));
}

#[test]
fn get_closer_discards_negative_roots() {
    assert_eq!(Intersec::Two(3, 7).get_closer(), Some(3));
    assert_eq!(Intersec::Two(7, 3).get_closer(), Some(3));
    assert_eq!(Intersec::Two(-4, 9).get_closer(), Some(9));
    assert_eq!(Intersec::Two(9, -4).get_closer(), Some(9));
    assert_eq!(Intersec::Two(-4, -9).get_closer(), None);
    assert_eq!(Intersec::One(5).get_closer(), Some(5));
    assert_eq!(Intersec::Miss.get_closer(), None);
}

#[test]
fn sphere_normal_points_outward() {
    let sphere = new_sphere(Vector::new(0, 0, 8 * S), S);
    let n = sphere.norm(&Vector::new(0, 0, 7 * S)).unwrap();
    assert_eq!(n, Vector::new(0, 0, -S));
    assert!(sphere.norm(&Vector::new(0, 0, 8 * S)).is_none());
}

#[test]
fn light_intensity_is_clamped_cosine() {
    let light = Light::new(Vector::new(0, 0, 2 * S));
    let point = Vector::new(0, 0, 0);
    // normal facing the light: full intensity, one unit
    assert_eq!(light.intensity(&point, &Vector::new(0, 0, S)), S);
    // normal facing away: clamped to zero
    assert_eq!(light.intensity(&point, &Vector::new(0, 0, -S)), 0);
    // light exactly on the point: no contribution
    let at_point = Light::new(Vector::new(0, 0, 0));
    assert_eq!(at_point.intensity(&point, &Vector::new(0, 0, S)), 0);
    assert_eq!(*light.get_orig(), Vector::new(0, 0, 2 * S));
}
