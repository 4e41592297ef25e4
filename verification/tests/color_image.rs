use raytracer::config::ImageConfig;
use raytracer::image::color::hypot_u8;
use raytracer::image::Color;
use raytracer::image::RasterImage;

const S: i64 = 65536;

#[test]
fn hypot_u8_pythagorean_triple() {
    assert_eq!(hypot_u8(3, 4), 5);
}

#[test]
fn hypot_u8_saturates() {
    assert_eq!(hypot_u8(255, 255), 255);
    assert_eq!(hypot_u8(200, 200), 255);
}

#[test]
fn hypot_u8_zero_is_identity() {
    assert_eq!(hypot_u8(0, 77), 77);
    assert_eq!(hypot_u8(77, 0), 77);
}

#[test]
fn color_add_is_channelwise_hypot() {
    let a = Color::new(3, 0, 200);
    let b = Color::new(4, 9, 200);
    let c = a.add(&b);
    assert_eq!(c, Color::new(5, 9, 255));
}

#[test]
fn color_scaled_by_half_unit() {
    let c = Color::new(100, 50, 255).scaled(S / 2);
    assert_eq!(c, Color::new(50, 25, 127));
}

#[test]
fn color_scaled_saturates() {
    let c = Color::new(200, 1, 0).scaled(2 * S);
    assert_eq!(c, Color::new(255, 2, 0));
}

#[test]
fn add_refl_full_reflectivity_keeps_reflection_only() {
    let own = Color::new(100, 100, 100);
    let refl = Color::new(10, 20, 30);
    assert_eq!(own.add_refl(S, refl), Color::new(10, 20, 30));
}

#[test]
fn add_refl_zero_reflectivity_keeps_own_color() {
    let own = Color::new(100, 100, 100);
    let refl = Color::new(10, 20, 30);
    assert_eq!(own.add_refl(0, refl), Color::new(100, 100, 100));
}

#[test]
fn color_new_from_arr_and_set() {
    let mut c = Color::new_from_arr(&[7, 8, 9]);
    assert_eq!(c, Color::new(7, 8, 9));
    c.set(&Color::new(1, 2, 3));
    assert_eq!(c, Color::new(1, 2, 3));
}

#[test]
fn raster_image_round_trip() {
    let cfg = ImageConfig { name: String::from("out"), width: 3, height: 2 };
    let mut img = RasterImage::new(cfg);
    assert_eq!(img.get_resolution(), (3, 2));
    assert_eq!(*img.get_pixel(0, 0).unwrap(), Color::new(0, 0, 0));
    assert!(img.set_pixel(2, 1, &Color::new(9, 9, 9)));
    assert_eq!(*img.get_pixel(2, 1).unwrap(), Color::new(9, 9, 9));
    assert!(img.get_pixel(0, 2).is_none());
    assert!(!img.set_pixel(0, 2, &Color::new(1, 1, 1)));
    assert_eq!(img.get_name().as_str(), "out");
}

#[test]
fn ppm_bytes_layout() {
    let cfg = ImageConfig { name: String::from("tiny"), width: 1, height: 1 };
    let mut img = RasterImage::new(cfg);
    img.set_pixel(0, 0, &Color::new(1, 2, 3));
    let bytes = img.ppm_bytes();
    assert_eq!(bytes, vec![80, 54, 10, 49, 10, 49, 10, 50, 53, 53, 10, 1, 2, 3]);
}

#[test]
fn ppm_bytes_multi_digit_header() {
    let cfg = ImageConfig { name: String::from("wide"), width: 13, height: 2 };
    let img = RasterImage::new(cfg);
    let bytes = img.ppm_bytes();
    // "P6\n13\n2\n255\n" then 26 black pixels
    let header: Vec<u8> = vec![80, 54, 10, 49, 51, 10, 50, 10, 50, 53, 53, 10];
    assert_eq!(&bytes[..header.len()], &header[..]);
    assert_eq!(bytes.len(), header.len() + 3 * 26);
    assert!(bytes[header.len()..].iter().all(|&b| b == 0));
}
