use raytracing::camera::{image_height, Camera, RaySample, DEFAULT_MAX_DEPTH, MAX_PIXELS};
use raytracing::error::ConfigError;
use raytracing::image::{channel_byte, ppm_image, push_decimal, push_pixel, Pixel};
use raytracing::material::Material;
use raytracing::ray::{background, Ray};
use raytracing::sampler::Sampler;
use raytracing::scalar::{Scalar, HALF_RAW};
use raytracing::sphere::Sphere;
use raytracing::vec3::Vec3;

fn s(x: f64) -> Scalar {
    Scalar::from_raw((x * 4294967296.0).round() as i64)
}

fn v(x: f64, y: f64, z: f64) -> Vec3 {
    Vec3::new(s(x), s(y), s(z))
}

fn square_camera(width: u32, samples: u32) -> Camera {
    Camera::new(width, s(1.0), samples, s(1.0), v(0.0, 0.0, 0.0), v(0.0, 0.0, -1.0), s(0.0), s(1.0))
        .unwrap()
}

fn wide_camera(width: u32) -> Camera {
    Camera::new(
        width,
        Scalar::from_ratio(16, 9),
        1,
        s(1.0),
        v(0.0, 0.0, 0.0),
        v(0.0, 0.0, -1.0),
        s(0.0),
        s(1.0),
    )
    .unwrap()
    .with_max_depth(1)
    .unwrap()
}

fn one_ball() -> Vec<Sphere> {
    vec![Sphere::new(v(0.0, 0.0, -1.0), s(0.5), Material::lambertian(v(0.5, 0.5, 0.5))).unwrap()]
}

fn numbers(text: &[u8]) -> Vec<u32> {
    let text = String::from_utf8(text.to_vec()).unwrap();
    text.split_whitespace().skip(1).map(|word| word.parse().unwrap()).collect()
}

fn fnv(bytes: &[u8]) -> u64 {
    let mut hash: u64 = 0xcbf29ce484222325;
    for byte in bytes {
        hash ^= *byte as u64;
        hash = hash.wrapping_mul(0x100000001b3);
    }
    hash
}

#[test]
fn image_height_is_width_over_aspect_ratio() {
    assert_eq!(image_height(100, Scalar::from_ratio(16, 9)), 56);
    assert_eq!(image_height(1200, Scalar::from_ratio(16, 9)), 675);
    assert_eq!(image_height(400, s(2.0)), 200);
    assert_eq!(image_height(7, s(2.0)), 3);
}

#[test]
fn image_height_is_at_least_one() {
    assert_eq!(image_height(1, Scalar::from_ratio(16, 9)), 1);
    assert_eq!(image_height(0, s(2.0)), 1);
    assert_eq!(image_height(10, s(-2.0)), 1);
    assert_eq!(image_height(0, s(0.0)), 1);
    assert_eq!(image_height(10, s(100.0)), 1);
    assert_eq!(image_height(10, s(0.0)), 4294967295);
}

#[test]
fn image_height_is_exact_for_every_width() {
    assert_eq!(image_height(3000000000, s(1.0)), 3000000000);
    assert_eq!(image_height(4294967295, s(1.0)), 4294967295);
    assert_eq!(image_height(4294967295, s(0.5)), 4294967295);
    assert_eq!(image_height(4294967295, s(2.0)), 2147483647);
    assert_eq!(image_height(4294967295, Scalar::largest()), 1);
    assert_eq!(image_height(2147483647, Scalar::from_raw(1)), 4294967295);
}

#[test]
fn pixels_of_an_image_are_rendered_from_its_seed() {
    let camera = wide_camera(16);
    let world = one_ball();
    let values = numbers(&camera.render(&world, 77).unwrap());
    for y in 0..9u32 {
        for x in 0..16u32 {
            let at = 3 + 3 * (y as usize * 16 + x as usize);
            let pixel = camera.render_pixel_seeded(x, y, &world, 77);
            assert_eq!((pixel.r as u32, pixel.g as u32, pixel.b as u32), (values[at], values[at + 1], values[at + 2]));
            let mut sampler = camera.pixel_sampler(77, x, y);
            let mut twin = Sampler::seeded(77 + (y as u64) * 16 + x as u64);
            assert_eq!(sampler.unit(), twin.unit());
            assert_eq!(camera.render_pixel(x, y, &world, &mut sampler), camera.render_pixel(x, y, &world, &mut twin));
        }
    }
    let mut wrapped = camera.pixel_sampler(u64::MAX, 1, 0);
    assert_eq!(wrapped.unit(), Sampler::seeded(0).unit());
}

#[test]
fn camera_needs_samples_and_depth() {
    let none = Camera::new(10, s(1.0), 0, s(1.0), v(0.0, 0.0, 0.0), v(0.0, 0.0, -1.0), s(0.0), s(1.0));
    assert_eq!(none, Err(ConfigError::NoSamples));
    let camera = square_camera(10, 3);
    assert_eq!(camera.samples_per_pixel, 3);
    assert_eq!(camera.max_depth, DEFAULT_MAX_DEPTH);
    assert_eq!(DEFAULT_MAX_DEPTH, 50);
    assert_eq!(camera.with_max_depth(0), Err(ConfigError::NoDepth));
    let shallow = camera.with_max_depth(7).unwrap();
    assert_eq!(shallow.max_depth, 7);
    assert_eq!(shallow.pixel00_loc, camera.pixel00_loc);
    assert_eq!(shallow.image_width, 10);
}

#[test]
fn camera_lays_out_the_image_plane() {
    let camera = square_camera(2, 1);
    assert_eq!(camera.image_width, 2);
    assert_eq!(camera.image_height, 2);
    assert_eq!(camera.aspect_ratio, s(1.0));
    assert_eq!(camera.center, v(0.0, 0.0, 0.0));
    assert_eq!(camera.pixel_delta_u, v(1.0, 0.0, 0.0));
    assert_eq!(camera.pixel_delta_v, v(0.0, -1.0, 0.0));
    assert_eq!(camera.pixel00_loc, v(-0.5, 0.5, -1.0));
    assert_eq!(camera.defocus_disk_u, Vec3::zero());
    assert_eq!(camera.defocus_disk_v, Vec3::zero());
    assert_eq!(camera.focus_dist, s(1.0));
}

#[test]
fn camera_with_a_lens_has_a_defocus_disk() {
    let camera = Camera::new(4, s(2.0), 1, s(0.5), v(0.0, 0.0, 2.0), v(0.0, 0.0, 0.0), s(0.25), s(2.0))
        .unwrap();
    assert_eq!(camera.image_height, 2);
    assert_eq!(camera.defocus_disk_u, v(0.5, 0.0, 0.0));
    assert_eq!(camera.defocus_disk_v, v(0.0, 0.5, 0.0));
    assert_eq!(camera.pixel_delta_u, v(1.0, 0.0, 0.0));
    assert_eq!(camera.pixel_delta_v, v(0.0, -1.0, 0.0));
    assert_eq!(camera.pixel00_loc, v(-1.5, 0.5, 0.0));
    let sample = RaySample { px: s(0.25), py: s(-0.25), lens: v(0.5, -0.5, 0.0) };
    let ray = camera.get_ray_with(3, 1, &sample);
    assert_eq!(ray.origin, v(0.25, -0.25, 2.0));
    assert_eq!(ray.direction, v(1.75, -0.25, 0.0).sub(v(0.25, -0.25, 2.0)));
}

#[test]
fn pinhole_ray_starts_at_the_center() {
    let camera = square_camera(2, 1);
    let centered = camera.get_ray_with(1, 1, &RaySample::centered());
    assert_eq!(centered, Ray::new(v(0.0, 0.0, 0.0), v(0.5, -0.5, -1.0)));
    let sample = RaySample { px: s(-0.5), py: s(0.25), lens: v(0.5, 0.5, 0.0) };
    let shifted = camera.get_ray_with(0, 0, &sample);
    assert_eq!(shifted, Ray::new(v(0.0, 0.0, 0.0), v(-1.0, 0.25, -1.0)));
}

#[test]
fn random_ray_aims_into_its_pixel() {
    let camera = square_camera(4, 1);
    let mut sampler = Sampler::seeded(11);
    let mut distinct = 0;
    let mut last = Vec3::zero();
    for _ in 0..200 {
        let ray = camera.get_ray(2, 1, &mut sampler);
        assert_eq!(ray.origin, camera.center);
        let centre = camera.get_ray_with(2, 1, &RaySample::centered()).direction;
        let off = ray.direction.sub(centre);
        assert!(off.x.raw.abs() <= camera.pixel_delta_u.x.raw / 2);
        assert!(off.y.raw.abs() <= camera.pixel_delta_v.y.raw.abs() / 2);
        assert_eq!(off.z, Scalar::zero());
        if ray.direction != last {
            distinct += 1;
        }
        last = ray.direction;
    }
    assert!(distinct > 190);
}

#[test]
fn random_samples_of_the_camera_stay_in_range() {
    let camera = Camera::new(4, s(2.0), 1, s(0.5), v(0.0, 0.0, 2.0), v(0.0, 0.0, 0.0), s(0.25), s(2.0))
        .unwrap();
    let mut sampler = Sampler::seeded(12);
    let mut moved = false;
    for _ in 0..200 {
        let (px, py, offset) = camera.pixel_sample_square(&mut sampler);
        assert!(-HALF_RAW <= px.raw && px.raw < HALF_RAW);
        assert!(-HALF_RAW <= py.raw && py.raw < HALF_RAW);
        assert_eq!(offset, camera.pixel_delta_u.scale(px).add(camera.pixel_delta_v.scale(py)));
        let (p, point) = camera.defocus_disk_sample(&mut sampler);
        assert_eq!(p.z, Scalar::zero());
        assert!(p.length_squared().raw < Scalar::one().raw);
        assert_eq!(point, v(0.0, 0.0, 2.0).add(v(0.5, 0.0, 0.0).scale(p.x)).add(v(0.0, 0.5, 0.0).scale(p.y)));
        let ray = camera.get_ray(0, 0, &mut sampler);
        moved |= ray.origin != camera.center;
        assert_eq!(ray.origin.z, s(2.0));
    }
    assert!(moved);
}

#[test]
fn channel_byte_is_gamma_corrected_and_clamped() {
    assert_eq!(channel_byte(s(1.0), 1), 255);
    assert_eq!(channel_byte(s(0.25), 1), 127);
    assert_eq!(channel_byte(s(0.0), 1), 0);
    assert_eq!(channel_byte(s(-3.0), 1), 0);
    assert_eq!(channel_byte(s(9.0), 1), 255);
    assert_eq!(channel_byte(s(4.0), 4), 255);
    assert_eq!(channel_byte(s(1.0), 4), 127);
    assert_eq!(channel_byte(s(125.0), 500), 127);
    assert_eq!(channel_byte(s(0.0), 0), 0);
    assert_eq!(channel_byte(s(1.0), 0), 255);
    assert_eq!(
        Pixel::from_sum(v(1.0, 0.25, 0.0), 1),
        Pixel { r: 255, g: 127, b: 0 }
    );
}

#[test]
fn decimal_digits_are_written_in_order() {
    let mut out = b"x".to_vec();
    push_decimal(&mut out, 0);
    out.push(b',');
    push_decimal(&mut out, 7);
    out.push(b',');
    push_decimal(&mut out, 1200);
    out.push(b',');
    push_decimal(&mut out, 4294967295);
    assert_eq!(out, b"x0,7,1200,4294967295".to_vec());
    let mut line = Vec::new();
    push_pixel(&mut line, Pixel { r: 255, g: 0, b: 17 });
    assert_eq!(line, b"255 0 17".to_vec());
}

#[test]
fn ppm_image_has_a_header_and_one_line_for_each_row() {
    let pixels = vec![
        Pixel { r: 255, g: 0, b: 7 },
        Pixel { r: 1, g: 2, b: 3 },
        Pixel { r: 10, g: 20, b: 30 },
        Pixel { r: 0, g: 0, b: 0 },
        Pixel { r: 100, g: 200, b: 250 },
        Pixel { r: 9, g: 99, b: 199 },
    ];
    assert_eq!(
        ppm_image(3, 2, &pixels),
        b"P3 3 2 255\n255 0 7 1 2 3 10 20 30\n0 0 0 100 200 250 9 99 199\n".to_vec()
    );
    assert_eq!(
        ppm_image(2, 3, &pixels),
        b"P3 2 3 255\n255 0 7 1 2 3\n10 20 30 0 0 0\n100 200 250 9 99 199\n".to_vec()
    );
    assert_eq!(ppm_image(0, 1, &Vec::new()), b"P3 0 1 255\n".to_vec());
}

#[test]
fn image_too_large_is_refused() {
    let camera = square_camera(100000, 1);
    assert_eq!(camera.image_height, 100000);
    assert!((camera.image_width as u64) * (camera.image_height as u64) > MAX_PIXELS);
    assert_eq!(camera.render(&one_ball(), 0), Err(ConfigError::ImageTooLarge));
}

#[test]
fn rendered_image_is_a_plain_ppm() {
    let camera = Camera::new(7, s(1.5), 3, s(1.0), v(0.0, 0.0, 0.0), v(0.0, 0.0, -1.0), s(0.0), s(1.0))
        .unwrap();
    assert_eq!(camera.image_height, 4);
    let text = camera.render(&one_ball(), 42).unwrap();
    assert!(text.starts_with(b"P3 "));
    assert!(text.starts_with(b"P3 7 4 255\n"));
    let values = numbers(&text);
    assert_eq!(&values[..3], &[7, 4, 255]);
    assert_eq!(values.len(), 3 + 3 * 7 * 4);
    assert!(values.iter().all(|value| *value <= 255));
    let lines: Vec<&[u8]> = text.split(|byte| *byte == b'\n').collect();
    assert_eq!(lines.len(), 6);
    assert!(lines[5].is_empty());
    for line in &lines[1..5] {
        assert_eq!(line.split(|byte| *byte == b' ').count(), 21);
    }
}

#[test]
fn render_pixel_of_the_sky_is_the_background() {
    let camera = square_camera(2, 4).with_max_depth(3).unwrap();
    let world: Vec<Sphere> = Vec::new();
    let mut sampler = Sampler::seeded(13);
    let pixel = camera.render_pixel(0, 0, &world, &mut sampler);
    let low = background(&camera.get_ray_with(0, 0, &RaySample { px: s(0.0), py: s(-0.5), lens: Vec3::zero() }));
    let high = background(&camera.get_ray_with(0, 0, &RaySample { px: s(0.0), py: s(0.5), lens: Vec3::zero() }));
    assert!(pixel.b == 255);
    let bounds = [Pixel::from_sum(low, 1).r, Pixel::from_sum(high, 1).r];
    assert!(*bounds.iter().min().unwrap() <= pixel.r + 2);
    assert!(pixel.r <= *bounds.iter().max().unwrap() + 2);
}

#[test]
fn rows_run_from_the_top_and_columns_from_the_left() {
    let camera = wide_camera(16);
    assert_eq!(camera.image_height, 9);
    let world = vec![Sphere::new(v(-1.2, 0.0, -1.0), s(0.4), Material::lambertian(v(0.5, 0.5, 0.5))).unwrap()];
    let values = numbers(&camera.render(&world, 5).unwrap());
    let red = |x: usize, y: usize| values[3 + 3 * (y * 16 + x)];
    assert!(red(8, 0) < red(8, 8));
    assert!(red(8, 2) < red(8, 6));
    assert_eq!(red(1, 4), 0);
    assert!(red(14, 4) > 0);
}

#[test]
fn single_sphere_image_is_reproduced_from_its_seed() {
    let camera = wide_camera(100);
    assert_eq!((camera.image_width, camera.image_height), (100, 56));
    let world = one_ball();
    let text = camera.render(&world, 2024).unwrap();
    assert_eq!(text, camera.render(&world, 2024).unwrap());
    let values = numbers(&text);
    assert_eq!(values.len(), 3 + 3 * 100 * 56);
    let pixel = |x: usize, y: usize| {
        let at = 3 + 3 * (y * 100 + x);
        (values[at], values[at + 1], values[at + 2])
    };
    assert_eq!(pixel(50, 28), (0, 0, 0));
    assert_eq!(pixel(49, 27), (0, 0, 0));
    assert_eq!(pixel(0, 0).2, 255);
    let black = (0..5600).filter(|i| pixel(i % 100, i / 100) == (0, 0, 0)).count();
    assert_eq!(black, 825);
    assert_eq!(pixel(0, 0), (204, 225, 255));
    assert_eq!(pixel(50, 55), (245, 249, 255));
    assert_eq!(fnv(&text), 11189187448263777757);
    assert!(fnv(&camera.render(&world, 2025).unwrap()) != 11189187448263777757);
}

#[test]
fn pixel_offset_is_two_draws_less_a_half() {
    let camera = square_camera(4, 1);
    for seed in 0..50 {
        let mut sampler = Sampler::seeded(seed);
        let mut twin = Sampler::seeded(seed);
        let (px, py, _) = camera.pixel_sample_square(&mut sampler);
        assert_eq!(px.raw, twin.unit().raw - HALF_RAW);
        assert_eq!(py.raw, twin.unit().raw - HALF_RAW);
        assert_eq!(sampler.signed_unit(), twin.signed_unit());
    }
}

#[test]
fn ray_of_a_pixel_uses_the_sample_that_it_draws() {
    let pinhole = square_camera(4, 1);
    let lens = Camera::new(4, s(2.0), 1, s(0.5), v(0.0, 0.0, 2.0), v(0.0, 0.0, 0.0), s(0.25), s(2.0))
        .unwrap();
    for seed in 0..50 {
        let mut sampler = Sampler::seeded(seed);
        let mut twin = Sampler::seeded(seed);
        let ray = pinhole.get_ray(1, 2, &mut sampler);
        let px = Scalar::from_raw(twin.unit().raw - HALF_RAW);
        let py = Scalar::from_raw(twin.unit().raw - HALF_RAW);
        assert_eq!(ray, pinhole.get_ray_with(1, 2, &RaySample { px, py, lens: Vec3::zero() }));
        assert_eq!(sampler.unit(), twin.unit());
        let ray = lens.get_ray(3, 1, &mut sampler);
        let px = Scalar::from_raw(twin.unit().raw - HALF_RAW);
        let py = Scalar::from_raw(twin.unit().raw - HALF_RAW);
        let (point, _) = lens.defocus_disk_sample(&mut twin);
        assert_eq!(ray, lens.get_ray_with(3, 1, &RaySample { px, py, lens: point }));
        assert_eq!(sampler.unit(), twin.unit());
    }
}
