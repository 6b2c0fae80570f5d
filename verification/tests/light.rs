use raytracing::hittable::{HitRecord, Hittable};
use raytracing::material::{dielectric_direction, Material, ScatterSample, ScatteredRay};
use raytracing::ray::{
    background, random_in_unit_disk, random_in_unit_sphere, random_unit_vector, reflect,
    reflectance, refract, visible, Ray,
};
use raytracing::sampler::Sampler;
use raytracing::scalar::{Scalar, ONE_RAW};
use raytracing::sphere::Sphere;
use raytracing::vec3::Vec3;

fn s(x: f64) -> Scalar {
    Scalar::from_raw((x * 4294967296.0).round() as i64)
}

fn v(x: f64, y: f64, z: f64) -> Vec3 {
    Vec3::new(s(x), s(y), s(z))
}

fn f(x: Scalar) -> f64 {
    x.raw as f64 / 4294967296.0
}

fn close(a: Vec3, b: Vec3, ulps: i64) -> bool {
    (a.x.raw - b.x.raw).abs() <= ulps
        && (a.y.raw - b.y.raw).abs() <= ulps
        && (a.z.raw - b.z.raw).abs() <= ulps
}

fn record(normal: Vec3, front_face: bool) -> HitRecord {
    HitRecord {
        point: v(1.0, 2.0, 3.0),
        normal,
        t: s(1.0),
        front_face,
        material: Material::dielectric(s(1.5)),
    }
}

fn still(n: usize) -> Vec<ScatterSample> {
    vec![ScatterSample::still(); n]
}

#[test]
fn visible_interval_starts_at_a_thousandth() {
    assert_eq!(visible().min.raw, 4294967);
    assert_eq!(visible().max, Scalar::largest());
}

#[test]
fn background_is_white_below_and_blue_above() {
    let up = Ray::new(Vec3::zero(), v(0.0, 2.0, 0.0));
    assert_eq!(background(&up), Vec3::new(Scalar::half(), Scalar::from_raw(3006477107), Scalar::one()));
    let down = Ray::new(Vec3::zero(), v(0.0, -3.0, 0.0));
    assert_eq!(background(&down), Vec3::ones());
    let level = Ray::new(Vec3::zero(), v(0.0, 0.0, -1.0));
    let c = background(&level);
    assert_eq!(c.x, s(0.75));
    assert!((c.y.raw - s(0.85).raw).abs() <= 2);
    assert_eq!(c.z, Scalar::one());
}

#[test]
fn ray_color_is_black_at_depth_zero() {
    let mut sampler = Sampler::seeded(1);
    let ray = Ray::new(Vec3::zero(), v(0.0, 0.0, -1.0));
    let empty: Vec<Sphere> = Vec::new();
    assert_eq!(ray.ray_color(0, &empty, &mut sampler), Vec3::zero());
    let world = vec![
        Sphere::new(v(0.0, 0.0, -1.0), s(0.5), Material::metal(v(0.8, 0.8, 0.8), s(0.0))).unwrap(),
        Sphere::new(v(0.0, -100.5, -1.0), s(100.0), Material::lambertian(v(0.5, 0.5, 0.5))).unwrap(),
    ];
    assert_eq!(ray.ray_color(0, &world, &mut sampler), Vec3::zero());
    let sky = Ray::new(Vec3::zero(), v(0.0, 1.0, 0.0));
    assert_eq!(sky.ray_color(0, &world, &mut sampler), Vec3::zero());
    assert_eq!(sky.ray_color_with(0, &world, &still(4)), Vec3::zero());
}

#[test]
fn ray_color_of_a_miss_is_the_background() {
    let mut sampler = Sampler::seeded(2);
    let world = vec![Sphere::new(v(0.0, 0.0, -1.0), s(0.5), Material::lambertian(v(0.5, 0.5, 0.5))).unwrap()];
    let ray = Ray::new(Vec3::zero(), v(0.0, 1.0, 0.0));
    assert_eq!(ray.ray_color(50, &world, &mut sampler), background(&ray));
    assert_eq!(ray.ray_color_with(50, &world, &still(0)), background(&ray));
}

#[test]
fn ray_color_at_depth_one_of_a_hit_is_black() {
    let mut sampler = Sampler::seeded(3);
    let world = vec![Sphere::new(v(0.0, 0.0, -1.0), s(0.5), Material::lambertian(v(0.5, 0.5, 0.5))).unwrap()];
    let ray = Ray::new(Vec3::zero(), v(0.0, 0.0, -1.0));
    assert_eq!(ray.ray_color(1, &world, &mut sampler), Vec3::zero());
    assert_eq!(ray.ray_color_with(1, &world, &still(1)), Vec3::zero());
}

#[test]
fn ray_color_without_samples_left_is_black() {
    let world = vec![Sphere::new(v(0.0, 0.0, -1.0), s(0.5), Material::metal(v(0.5, 0.5, 0.5), s(0.0))).unwrap()];
    let ray = Ray::new(Vec3::zero(), v(0.0, 0.0, -1.0));
    assert_eq!(ray.ray_color_with(5, &world, &still(0)), Vec3::zero());
    assert_eq!(ray.ray_color_with(5, &world, &still(1)), v(0.5, 0.5, 0.5).mul(background(&Ray::new(v(0.0, 0.0, -0.5), v(0.0, 0.0, 1.0)))));
}

#[test]
fn attenuations_multiply_along_the_path() {
    let first = Material::metal(v(0.8, 0.6, 0.4), s(0.0));
    let second = Material::metal(v(0.5, 0.25, 1.0), s(0.0));
    let world = vec![
        Sphere::new(v(0.0, 0.0, -3.0), s(1.0), first).unwrap(),
        Sphere::new(v(3.964, 0.0, -0.134), s(1.0), second).unwrap(),
    ];
    let start = Ray::new(v(0.5, 0.0, 0.0), v(0.0, 0.0, -1.0));
    let samples = still(10);
    let mut attenuations: Vec<Vec3> = Vec::new();
    let mut ray = start;
    while let Some(rec) = world.hit(&ray, visible()) {
        let ScatteredRay { ray: next, attenuation } =
            rec.material.scatter_with(&ray, &rec, &samples[attenuations.len()]).unwrap();
        attenuations.push(attenuation);
        ray = next;
        assert!(attenuations.len() < 10);
    }
    assert_eq!(attenuations.len(), 3);
    assert_eq!(attenuations, vec![v(0.8, 0.6, 0.4), v(0.5, 0.25, 1.0), v(0.8, 0.6, 0.4)]);
    let mut expected = background(&ray);
    for attenuation in attenuations.iter().rev() {
        expected = attenuation.mul(expected);
    }
    assert_eq!(start.ray_color_with(10, &world, &samples), expected);
    assert_eq!(start.ray_color_with(4, &world, &samples), expected);
    assert_eq!(start.ray_color_with(3, &world, &samples), Vec3::zero());
    let product = v(0.8, 0.6, 0.4).mul(v(0.5, 0.25, 1.0)).mul(v(0.8, 0.6, 0.4));
    assert!(close(expected, product.mul(background(&ray)), 4));
    let mut sampler = Sampler::seeded(4);
    assert_eq!(start.ray_color(10, &world, &mut sampler), expected);
}

#[test]
fn glass_keeps_all_the_light() {
    let world = vec![Sphere::new(v(0.0, 0.0, -3.0), s(1.0), Material::dielectric(s(1.5))).unwrap()];
    let ray = Ray::new(Vec3::zero(), v(0.0, 0.0, -1.0));
    let rec = world.hit(&ray, visible()).unwrap();
    let scattered = rec.material.scatter_with(&ray, &rec, &ScatterSample::still()).unwrap();
    assert_eq!(scattered.attenuation, Vec3::ones());
    assert_eq!(scattered.ray.origin, v(0.0, 0.0, -2.0));
    assert_eq!(scattered.ray.direction, v(0.0, 0.0, 1.0));
    assert_eq!(ray.ray_color_with(2, &world, &still(2)), Vec3::ones().mul(background(&scattered.ray)));
}

#[test]
fn reflect_mirrors_about_the_normal() {
    assert_eq!(reflect(&v(1.0, -1.0, 0.0), &v(0.0, 1.0, 0.0)), v(1.0, 1.0, 0.0));
    assert_eq!(reflect(&v(0.0, 0.0, -1.0), &v(0.0, 0.0, 1.0)), v(0.0, 0.0, 1.0));
    assert_eq!(reflect(&v(1.0, 0.0, 0.0), &v(0.0, 1.0, 0.0)), v(1.0, 0.0, 0.0));
}

#[test]
fn refract_goes_straight_on_head_on() {
    assert_eq!(refract(v(0.0, 0.0, -1.0), v(0.0, 0.0, 1.0), s(1.0)), v(0.0, 0.0, -1.0));
    let bent = refract(v(0.0, 0.0, -1.0), v(0.0, 0.0, 1.0), s(0.5));
    assert_eq!(bent, v(0.0, 0.0, -1.0));
    let slanted = refract(v(0.6, 0.0, -0.8), v(0.0, 0.0, 1.0), s(0.5));
    assert!((f(slanted.x) - 0.3).abs() < 1e-6);
    assert!((f(slanted.z) + (1.0f64 - 0.09).sqrt()).abs() < 1e-6);
    assert_eq!(slanted.y, Scalar::zero());
}

#[test]
fn reflectance_head_on_is_r0() {
    for ior in [0.0, 0.5, 1.0, 1.5, 2.4, 100.0] {
        let n = s(ior);
        let q = Scalar::one().sub(n).div(Scalar::one().add(n));
        assert_eq!(reflectance(Scalar::one(), n), q.mul(q));
    }
    assert_eq!(reflectance(Scalar::one(), s(1.0)), Scalar::zero());
    assert_eq!(reflectance(Scalar::one(), s(3.0)), s(0.25));
    assert_eq!(reflectance(Scalar::zero(), s(3.0)), Scalar::one());
    assert_eq!(reflectance(s(0.5), s(3.0)), s(0.25 + 0.75 / 32.0));
}

#[test]
fn reflectance_grows_towards_grazing() {
    for ior in [0.0, 0.3, 1.0, 1.5, 2.4] {
        let mut last = reflectance(Scalar::one(), s(ior));
        for step in 1..=1000 {
            let cosine = s(1.0 - step as f64 / 1000.0);
            let next = reflectance(cosine, s(ior));
            assert!(last.raw <= next.raw);
            last = next;
        }
        assert!(last.raw <= ONE_RAW);
    }
}

#[test]
fn lambertian_scatters_along_normal_plus_sample() {
    let material = Material::lambertian(v(0.25, 0.5, 0.75));
    let ray = Ray::new(Vec3::zero(), v(0.0, 0.0, -1.0));
    let rec = record(v(0.0, 0.0, 1.0), true);
    let sample = ScatterSample { unit: v(1.0, 0.0, 0.0), choice: Scalar::zero() };
    let scattered = material.scatter_with(&ray, &rec, &sample).unwrap();
    assert_eq!(scattered.attenuation, v(0.25, 0.5, 0.75));
    assert_eq!(scattered.ray, Ray::new(v(1.0, 2.0, 3.0), v(1.0, 0.0, 1.0)));
}

#[test]
fn lambertian_falls_back_to_the_normal() {
    let material = Material::lambertian(v(0.25, 0.5, 0.75));
    let ray = Ray::new(Vec3::zero(), v(0.0, 0.0, -1.0));
    let rec = record(v(0.0, 0.0, 1.0), true);
    let opposite = ScatterSample { unit: v(0.0, 0.0, -1.0), choice: Scalar::zero() };
    assert_eq!(material.scatter_with(&ray, &rec, &opposite).unwrap().ray.direction, v(0.0, 0.0, 1.0));
    let nearly = ScatterSample {
        unit: Vec3::new(Scalar::from_raw(29), Scalar::from_raw(-30), Scalar::from_raw(-ONE_RAW + 1)),
        choice: Scalar::zero(),
    };
    assert_eq!(material.scatter_with(&ray, &rec, &nearly).unwrap().ray.direction, v(0.0, 0.0, 1.0));
    let at_the_limit = ScatterSample {
        unit: Vec3::new(Scalar::from_raw(42), Scalar::zero(), Scalar::from_raw(-ONE_RAW)),
        choice: Scalar::zero(),
    };
    assert_eq!(material.scatter_with(&ray, &rec, &at_the_limit).unwrap().ray.direction, v(0.0, 0.0, 1.0));
    let askew = ScatterSample {
        unit: Vec3::new(Scalar::from_raw(40), Scalar::from_raw(40), Scalar::from_raw(-ONE_RAW)),
        choice: Scalar::zero(),
    };
    assert_eq!(
        material.scatter_with(&ray, &rec, &askew).unwrap().ray.direction,
        Vec3::new(Scalar::from_raw(40), Scalar::from_raw(40), Scalar::zero())
    );
    let enough = ScatterSample {
        unit: Vec3::new(Scalar::from_raw(43), Scalar::zero(), Scalar::from_raw(-ONE_RAW)),
        choice: Scalar::zero(),
    };
    assert_eq!(
        material.scatter_with(&ray, &rec, &enough).unwrap().ray.direction,
        Vec3::new(Scalar::from_raw(43), Scalar::zero(), Scalar::zero())
    );
}

#[test]
fn metal_reflects_and_adds_fuzz() {
    let ray = Ray::new(Vec3::zero(), v(1.0, -1.0, 0.0));
    let rec = record(v(0.0, 1.0, 0.0), true);
    let sample = ScatterSample { unit: v(0.0, 0.0, 1.0), choice: Scalar::zero() };
    let mirror = Material::metal(v(0.7, 0.6, 0.5), s(0.0));
    let scattered = mirror.scatter_with(&ray, &rec, &sample).unwrap();
    assert_eq!(scattered.attenuation, v(0.7, 0.6, 0.5));
    assert_eq!(scattered.ray, Ray::new(v(1.0, 2.0, 3.0), v(1.0, 1.0, 0.0)));
    let brushed = Material::metal(v(0.7, 0.6, 0.5), s(0.5));
    assert_eq!(brushed.scatter_with(&ray, &rec, &sample).unwrap().ray.direction, v(1.0, 1.0, 0.5));
}

#[test]
fn materials_clamp_their_parameters() {
    assert_eq!(
        Material::metal(v(1.5, -0.5, 0.5), s(3.0)),
        Material::Metal { albedo: v(1.0, 0.0, 0.5), fuzz: s(1.0) }
    );
    assert_eq!(
        Material::metal(v(0.1, 0.2, 0.3), s(-1.0)),
        Material::Metal { albedo: v(0.1, 0.2, 0.3), fuzz: s(0.0) }
    );
    assert_eq!(
        Material::lambertian(v(2.0, 0.25, -2.0)),
        Material::Lambertian { albedo: v(1.0, 0.25, 0.0) }
    );
    assert_eq!(Material::dielectric(s(1.5)), Material::Dielectric { refractive_index: s(1.5) });
}

#[test]
fn dielectric_reflects_or_refracts_by_the_choice() {
    let direction = v(0.0, 0.0, -2.0);
    let normal = v(0.0, 0.0, 1.0);
    let r0 = reflectance(Scalar::one(), Scalar::one().div(s(1.5)));
    assert!(r0.raw > 0);
    let below = Scalar::from_raw(r0.raw - 1);
    assert_eq!(dielectric_direction(s(1.5), direction, normal, true, below), v(0.0, 0.0, 1.0));
    assert_eq!(dielectric_direction(s(1.5), direction, normal, true, r0), v(0.0, 0.0, -1.0));
    assert_eq!(dielectric_direction(s(1.5), direction, normal, true, s(0.9)), v(0.0, 0.0, -1.0));
}

#[test]
fn dielectric_reflects_where_it_cannot_refract() {
    let direction = v(0.8, 0.0, -0.6);
    let normal = v(0.0, 0.0, 1.0);
    let inside = dielectric_direction(s(1.5), direction, normal, false, s(0.999));
    assert_eq!(inside, reflect(&direction.normalize(), &normal));
    let outside = dielectric_direction(s(1.5), direction, normal, true, s(0.999));
    assert_eq!(outside, refract(direction.normalize(), normal, Scalar::one().div(s(1.5))));
    assert!(outside.z.raw < 0);
}

#[test]
fn scatter_always_scatters() {
    let mut sampler = Sampler::seeded(5);
    let ray = Ray::new(Vec3::zero(), v(0.3, -1.0, 0.2));
    let rec = record(v(0.0, 1.0, 0.0), true);
    let materials = [
        Material::lambertian(v(0.25, 0.5, 0.75)),
        Material::metal(v(0.7, 0.6, 0.5), s(0.3)),
        Material::dielectric(s(1.5)),
    ];
    for material in materials {
        for _ in 0..50 {
            let scattered = material.scatter(&ray, &rec, &mut sampler).unwrap();
            assert_eq!(scattered.ray.origin, rec.point);
            match material {
                Material::Lambertian { albedo } => assert_eq!(scattered.attenuation, albedo),
                Material::Metal { albedo, .. } => assert_eq!(scattered.attenuation, albedo),
                Material::Dielectric { .. } => assert_eq!(scattered.attenuation, Vec3::ones()),
            }
        }
    }
}

#[test]
fn lambertian_scatter_stays_near_the_normal() {
    let mut sampler = Sampler::seeded(6);
    let ray = Ray::new(Vec3::zero(), v(0.0, -1.0, 0.0));
    let rec = record(v(0.0, 1.0, 0.0), true);
    let material = Material::lambertian(v(0.5, 0.5, 0.5));
    let mut distinct = 0;
    let mut last = Vec3::zero();
    for _ in 0..100 {
        let d = material.scatter(&ray, &rec, &mut sampler).unwrap().ray.direction;
        let offset = d.sub(rec.normal);
        let len = f(offset.length());
        assert!(len < 1.0 + 1e-6);
        assert!(d.y.raw >= -8);
        if d != last {
            distinct += 1;
        }
        last = d;
    }
    assert!(distinct > 90);
}

#[test]
fn random_points_lie_in_the_sphere_and_the_disk() {
    let mut sampler = Sampler::seeded(7);
    let mut seen_negative = false;
    let mut seen_positive = false;
    for _ in 0..200 {
        let p = random_in_unit_sphere(&mut sampler);
        assert!(p.length_squared().raw < ONE_RAW);
        seen_negative |= p.x.raw < 0;
        seen_positive |= p.x.raw > 0;
        let d = random_in_unit_disk(&mut sampler);
        assert!(d.length_squared().raw < ONE_RAW);
        assert_eq!(d.z, Scalar::zero());
        let u = random_unit_vector(&mut sampler);
        assert!((f(u.length()) - 1.0).abs() < 1e-6);
    }
    assert!(seen_negative && seen_positive);
}

#[test]
fn sampler_draws_within_its_ranges() {
    let mut sampler = Sampler::seeded(8);
    let mut unit_varies = false;
    let mut signed_varies = false;
    let mut negative = false;
    let first = sampler.unit();
    for _ in 0..1000 {
        let u = sampler.unit();
        assert!(0 <= u.raw && u.raw < ONE_RAW);
        unit_varies |= u != first && u.raw != 0;
        let t = sampler.signed_unit();
        assert!(-ONE_RAW <= t.raw && t.raw < ONE_RAW);
        signed_varies |= t.raw != -ONE_RAW;
        negative |= t.raw < 0;
    }
    assert!(unit_varies && signed_varies && negative);
}

#[test]
fn sampler_repeats_itself_from_the_same_seed() {
    let mut a = Sampler::seeded(99);
    let mut b = Sampler::seeded(99);
    let mut c = Sampler::seeded(100);
    let mut differs = false;
    for _ in 0..100 {
        let x = a.signed_unit();
        assert_eq!(x, b.signed_unit());
        differs |= x != c.signed_unit();
    }
    assert!(differs);
}

#[test]
fn still_sample_leaves_directions_alone() {
    let sample = ScatterSample::still();
    assert_eq!(sample.unit, Vec3::zero());
    assert_eq!(sample.choice, Scalar::zero());
    let mut sampler = Sampler::seeded(10);
    let drawn = ScatterSample::draw(&mut sampler);
    assert!(0 <= drawn.choice.raw && drawn.choice.raw < ONE_RAW);
    assert!((f(drawn.unit.length()) - 1.0).abs() < 1e-6);
}

#[test]
fn random_point_is_the_first_drawn_that_lies_inside() {
    let mut rejected = 0;
    for seed in 0..200 {
        let mut sampler = Sampler::seeded(seed);
        let mut twin = Sampler::seeded(seed);
        let p = random_in_unit_sphere(&mut sampler);
        let mut expected = Vec3::zero();
        for _ in 0..64 {
            let candidate = Vec3::new(twin.signed_unit(), twin.signed_unit(), twin.signed_unit());
            if candidate.length_squared().raw < ONE_RAW {
                expected = candidate;
                break;
            }
            rejected += 1;
        }
        assert_eq!(p, expected);
        assert_eq!(sampler.unit(), twin.unit());
        let d = random_in_unit_disk(&mut sampler);
        let mut expected = Vec3::zero();
        for _ in 0..64 {
            let candidate = Vec3::new(twin.signed_unit(), twin.signed_unit(), Scalar::zero());
            if candidate.length_squared().raw < ONE_RAW {
                expected = candidate;
                break;
            }
            rejected += 1;
        }
        assert_eq!(d, expected);
        assert_eq!(sampler.unit(), twin.unit());
    }
    assert!(rejected > 50);
}

#[test]
fn metal_clamps_its_fuzz_when_it_scatters() {
    let ray = Ray::new(Vec3::zero(), v(1.0, -1.0, 0.0));
    let rec = record(v(0.0, 1.0, 0.0), true);
    let sample = ScatterSample { unit: v(1.0, 0.0, 0.0), choice: Scalar::zero() };
    let rough = Material::Metal { albedo: v(0.7, 0.6, 0.5), fuzz: s(3.0) };
    assert_eq!(rough.scatter_with(&ray, &rec, &sample).unwrap().ray.direction, v(2.0, 1.0, 0.0));
    let negative = Material::Metal { albedo: v(0.7, 0.6, 0.5), fuzz: s(-2.0) };
    assert_eq!(negative.scatter_with(&ray, &rec, &sample).unwrap().ray.direction, v(1.0, 1.0, 0.0));
    let half = Material::Metal { albedo: v(0.7, 0.6, 0.5), fuzz: s(0.5) };
    assert_eq!(half.scatter_with(&ray, &rec, &sample).unwrap().ray.direction, v(1.5, 1.0, 0.0));
}

#[test]
fn normalized_vector_stays_within_one() {
    let tiny = Vec3::new(Scalar::from_raw(1), Scalar::zero(), Scalar::zero());
    assert_eq!(tiny.length(), Scalar::from_raw(1));
    assert_eq!(tiny.normalize(), v(1.0, 0.0, 0.0));
    let small = Vec3::new(Scalar::from_raw(3), Scalar::from_raw(-4), Scalar::zero());
    assert_eq!(small.length(), Scalar::from_raw(5));
    assert!(small.normalize().x.raw <= ONE_RAW && small.normalize().y.raw >= -ONE_RAW);
    let huge = Vec3::new(Scalar::largest(), Scalar::largest().neg(), Scalar { raw: i64::MIN });
    assert_eq!(huge.length(), Scalar::largest());
    let n = huge.normalize();
    assert!(n.x.raw <= ONE_RAW && n.y.raw >= -ONE_RAW && n.z.raw >= -ONE_RAW);
    let mut sampler = Sampler::seeded(21);
    for _ in 0..500 {
        let u = random_unit_vector(&mut sampler);
        assert!(u.x.raw.abs() <= ONE_RAW && u.y.raw.abs() <= ONE_RAW && u.z.raw.abs() <= ONE_RAW);
    }
}

#[test]
fn scatter_uses_the_sample_that_it_draws() {
    let ray = Ray::new(Vec3::zero(), v(0.3, -1.0, 0.2));
    let rec = record(v(0.0, 1.0, 0.0), true);
    let materials = [
        Material::lambertian(v(0.25, 0.5, 0.75)),
        Material::metal(v(0.7, 0.6, 0.5), s(0.3)),
        Material::dielectric(s(1.5)),
    ];
    for seed in 0..30 {
        for material in materials {
            let mut sampler = Sampler::seeded(seed);
            let mut twin = Sampler::seeded(seed);
            let scattered = material.scatter(&ray, &rec, &mut sampler);
            let sample = ScatterSample::draw(&mut twin);
            assert_eq!(scattered, material.scatter_with(&ray, &rec, &sample));
            let unit = random_unit_vector(&mut Sampler::seeded(seed));
            assert_eq!(sample.unit, unit);
            assert_eq!(sampler.unit(), twin.unit());
        }
    }
}

#[test]
fn ray_color_uses_the_samples_that_it_draws() {
    let world = vec![
        Sphere::new(v(0.0, 0.0, -3.0), s(1.0), Material::metal(v(0.8, 0.6, 0.4), s(0.4))).unwrap(),
        Sphere::new(v(0.0, -101.0, -3.0), s(100.0), Material::lambertian(v(0.5, 0.5, 0.5))).unwrap(),
    ];
    let mut bounced = 0;
    for seed in 0..40 {
        let ray = Ray::new(Vec3::zero(), v(0.1, -0.05, -1.0));
        let mut sampler = Sampler::seeded(seed);
        let mut twin = Sampler::seeded(seed);
        let colour = ray.ray_color(6, &world, &mut sampler);
        let mut samples = Vec::new();
        let mut leg = ray;
        while samples.len() < 6 {
            match world.hit(&leg, visible()) {
                Some(rec) => {
                    let sample = ScatterSample::draw(&mut twin);
                    leg = rec.material.scatter_with(&leg, &rec, &sample).unwrap().ray;
                    samples.push(sample);
                }
                None => break,
            }
        }
        bounced += samples.len();
        assert_eq!(colour, ray.ray_color_with(6, &world, &samples));
        assert_eq!(sampler.unit(), twin.unit());
    }
    assert!(bounced > 60);
}
