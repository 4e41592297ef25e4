use raytracer::raytracer::ray::Ray;
use raytracer::raytracer::vector::Vector;

const S: i64 = 65536;

#[test]
fn reflect_positive_1() {
    let v = Vector::new(S, -S, 0);
    let n = Vector::new(0, S, 0);

    let r = v.reflect(&n).unwrap();
    assert_eq!(r, Vector::new(S, S, 0));
}

#[test]
fn reflect_away_from_surface_is_none() {
    let v = Vector::new(0, S, 0);
    let n = Vector::new(0, S, 0);
    assert!(v.reflect(&n).is_none());
}

#[test]
fn reflect_flips_normal_component() {
    // d . n is flipped in sign by the reflection about an exact unit normal
    let d = Vector::new(S, -S, 0);
    let n = Vector::new(0, S, 0);
    let before = d.dot(&n);
    let r = d.reflect(&n).unwrap();
    let after = r.dot(&n);
    assert_eq!(after, -before);
}

#[test]
fn dot_and_cross_values() {
    let a = Vector::new(0, 1, 2);
    let b = Vector::new(2, 1, 0);
    assert_eq!(a.dot(&b), 1);
    assert_eq!(a.dot2(), 5);
    let c = a.cross(&b);
    assert_eq!(c, Vector::new(-2, 4, -2));
}

#[test]
fn size_of_pythagorean_vector_is_exact() {
    let v = Vector::new(3 * S, 4 * S, 0);
    assert_eq!(v.size(), 5 * S);
}

#[test]
fn norm_of_axis_vector_is_exact_unit() {
    let v = Vector::new(5 * S, 0, 0);
    let u = v.norm().unwrap();
    assert_eq!(u, Vector::new(S, 0, 0));
    assert_eq!(u.dot2(), S * S);
}

#[test]
fn norm_of_zero_vector_is_none() {
    assert!(Vector::new(0, 0, 0).norm().is_none());
}

#[test]
fn step_away_moves_along_normal() {
    let p = Vector::new(0, 0, 0);
    let n = Vector::new(0, 0, S);
    let q = p.step_away(&n);
    assert_eq!(q, Vector::new(0, 0, 64));
}

#[test]
fn new_rand_components_stay_in_unit_box() {
    for _ in 0..100 {
        let v = Vector::new_rand();
        assert!(-S <= v.x && v.x <= S);
        assert!(-S <= v.y && v.y <= S);
        assert!(-S <= v.z && v.z <= S);
    }
}

#[test]
fn point_on_ray_walks_the_direction() {
    let ray = Ray::new(Vector::new(0, 0, 10 * S), Vector::new(0, 0, -S));
    let p = ray.point_on_ray(8 * S);
    assert_eq!(p, Vector::new(0, 0, 2 * S));
    assert_eq!(*ray.get_orig(), Vector::new(0, 0, 10 * S));
    assert_eq!(*ray.get_dir(), Vector::new(0, 0, -S));
}

#[test]
fn is_sphere_intersec_matches_geometry() {
    let ray = Ray::new(Vector::new(0, 0, 10 * S), Vector::new(0, 0, -S));
    // sphere ahead on the ray
    assert!(ray.is_sphere_intersec(Vector::new(0, 0, 0), 2 * S));
    // sphere behind the origin
    assert!(!ray.is_sphere_intersec(Vector::new(0, 0, 20 * S), 2 * S));
    // sphere beside the ray line, farther than its radius
    assert!(!ray.is_sphere_intersec(Vector::new(5 * S, 0, 0), 2 * S));
}

#[test]
fn new_reflect_starts_at_given_point() {
    let ray = Ray::new(Vector::new(0, 0, 0), Vector::new(S, -S, 0));
    let p = Vector::new(5, 5, 5);
    let n = Vector::new(0, S, 0);
    let r = ray.new_reflect(&p, &n).unwrap();
    assert_eq!(*r.get_orig(), p);
    assert_eq!(*r.get_dir(), Vector::new(S, S, 0));
}
