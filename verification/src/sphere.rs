//! Spheres.

use crate::error::ConfigError;
use crate::hittable::{HitRecord, Hittable};
use crate::interval::Interval;
use crate::material::Material;
use crate::ray::Ray;
use crate::scalar::{
    clamp_raw, floor_sqrt, is_floor_sqrt, lemma_floor_sqrt_exists, lemma_floor_sqrt_is,
    lemma_trunc_div_monotone, trunc_div, Scalar, MAX_RAW, ONE_RAW,
};
use crate::vec3::Vec3;
use crate::wide::{Signed, Wide};
use vstd::prelude::*;

verus! {

/// The raw values of the components of a vector, as whole numbers.
pub open spec fn raws(v: Vec3) -> (int, int, int) {
    (v.x.raw as int, v.y.raw as int, v.z.raw as int)
}

/// The raw values of the vector from the centre of a sphere to the origin
/// of a ray, which may lie outside the range of the scalars.
pub open spec fn exact_offset(sphere: Sphere, ray: Ray) -> (int, int, int) {
    (
        ray.origin.x.raw - sphere.center.x.raw,
        ray.origin.y.raw - sphere.center.y.raw,
        ray.origin.z.raw - sphere.center.z.raw,
    )
}

/// The dot product of two vectors of whole numbers.
pub open spec fn exact_dot(u: (int, int, int), v: (int, int, int)) -> int {
    u.0 * v.0 + u.1 * v.1 + u.2 * v.2
}

/// The cross product of two vectors of whole numbers.
pub open spec fn exact_cross(u: (int, int, int), v: (int, int, int)) -> (int, int, int) {
    (u.1 * v.2 - u.2 * v.1, u.2 * v.0 - u.0 * v.2, u.0 * v.1 - u.1 * v.0)
}

/// The discriminant of the quadratic `a t^2 + 2 half_b t + c`, a quarter
/// of the usual one.
pub open spec fn exact_discriminant(sphere: Sphere, ray: Ray) -> int {
    let oc = exact_offset(sphere, ray);
    let d = raws(ray.direction);
    let r = sphere.radius.raw as int;
    exact_dot(oc, d) * exact_dot(oc, d) - exact_dot(d, d) * (exact_dot(oc, oc) - r * r)
}

/// The scalar nearest to the quotient of `n` by a positive `a`, on the
/// side of zero, or the end of the range where the quotient lies beyond it.
pub open spec fn spec_rounded(n: int, a: int) -> Scalar {
    Scalar { raw: clamp_raw(trunc_div(n * ONE_RAW, a)) as i64 }
}

/// The points at distance `radius` from `center`.
#[derive(Clone, Copy, Debug, PartialEq, Eq, Structural)]
pub struct Sphere {
    pub center: Vec3,
    pub radius: Scalar,
    pub material: Material,
}

impl Sphere {
    /// A sphere is well formed when its radius is positive.
    pub open spec fn wf(self) -> bool {
        self.radius.raw > 0
    }

    /// The sphere with the given centre, radius and material, where the
    /// radius is positive.
    pub fn new(center: Vec3, radius: Scalar, material: Material) -> (r: Result<
        Sphere,
        ConfigError,
    >)
        ensures
            radius.raw > 0 ==> r == Ok::<Sphere, ConfigError>(Sphere { center, radius, material }),
            radius.raw <= 0 ==> r == Err::<Sphere, ConfigError>(ConfigError::NonPositiveRadius),
            r matches Ok(sphere) ==> sphere.wf(),
    {
        if radius.raw > 0 {
            Ok(Sphere { center, radius, material })
        } else {
            Err(ConfigError::NonPositiveRadius)
        }
    }

    /// The solutions `t` of `|origin + t * direction - center|^2 = radius^2`,
    /// the smaller first: `(-half_b - s) / a` and `(-half_b + s) / a`, for
    /// `a = d . d`, `half_b = oc . d` and `c = oc . oc - radius^2`, where
    /// `oc` leads from the centre to the origin and `d` is the direction,
    /// and for the square root `s` of the discriminant `half_b^2 - a c`.
    /// The three coefficients and the discriminant are exact; the square
    /// root is rounded down and each quotient towards zero. There is no
    /// solution where the discriminant is negative, and none for a ray
    /// without a direction.
    pub open spec fn spec_roots(&self, ray: &Ray) -> Option<(Scalar, Scalar)> {
        let a = exact_dot(raws(ray.direction), raws(ray.direction));
        let half_b = exact_dot(exact_offset(*self, *ray), raws(ray.direction));
        let discriminant = exact_discriminant(*self, *ray);
        if a == 0 || discriminant < 0 {
            None
        } else {
            let s = floor_sqrt(discriminant);
            Some((spec_rounded(-half_b - s, a), spec_rounded(-half_b + s, a)))
        }
    }

    /// The record of the hit at parameter `t`: the outward normal is the
    /// vector from the centre to the point, divided by the radius.
    pub open spec fn spec_record_at(&self, ray: &Ray, t: Scalar) -> HitRecord {
        let point = ray.at(t);
        let outward_normal = point.sub(self.center).div(self.radius);
        HitRecord::with_face_normal(point, t, &outward_normal, self.material, ray)
    }

    /// The parameters at which the line of `ray` meets the sphere, the
    /// smaller first.
    #[verifier::when_used_as_spec(spec_roots)]
    pub fn roots(&self, ray: &Ray) -> (r: Option<(Scalar, Scalar)>)
        ensures
            r == self.spec_roots(ray),
            r matches Some((near, far)) ==> near.raw <= far.raw,
    {
        let ox: i128 = ray.origin.x.raw as i128 - self.center.x.raw as i128;
        let oy: i128 = ray.origin.y.raw as i128 - self.center.y.raw as i128;
        let oz: i128 = ray.origin.z.raw as i128 - self.center.z.raw as i128;
        let dx: i128 = ray.direction.x.raw as i128;
        let dy: i128 = ray.direction.y.raw as i128;
        let dz: i128 = ray.direction.z.raw as i128;
        let radius: i128 = self.radius.raw as i128;
        let ghost oc = exact_offset(*self, *ray);
        let ghost d = raws(ray.direction);
        let a: u128 = square(dx) + square(dy) + square(dz);
        if a == 0 {
            return None;
        }
        let half_b = Signed::of(times(ox, dx)).sum(Signed::of(times(oy, dy))).sum(
            Signed::of(times(oz, dz)),
        );
        let x0 = Signed::of(times(oy, dz)).sum(Signed::of(times(oz, dy)).negated());
        let x1 = Signed::of(times(oz, dx)).sum(Signed::of(times(ox, dz)).negated());
        let x2 = Signed::of(times(ox, dy)).sum(Signed::of(times(oy, dx)).negated());
        let reach = Wide::product(a, square(radius));
        proof {
            lemma_lagrange(oc, d, radius as int);
            assert(reach@ <= 0xc000_0000_0000_0000_0000_0000_0000_0000
                * 0x4000_0000_0000_0000_0000_0000_0000_0000) by (nonlinear_arith)
                requires
                    reach@ == a * (radius * radius),
                    0 <= a <= 0xc000_0000_0000_0000_0000_0000_0000_0000,
                    0 <= radius * radius <= 0x4000_0000_0000_0000_0000_0000_0000_0000,
            ;
        }
        if too_large(x0) || too_large(x1) || too_large(x2) {
            proof {
                lemma_square_of_large(x0@);
                lemma_square_of_large(x1@);
                lemma_square_of_large(x2@);
            }
            return None;
        }
        proof {
            lemma_square_of_size(x0@, x0.size.lo as int);
            lemma_square_of_size(x1@, x1.size.lo as int);
            lemma_square_of_size(x2@, x2.size.lo as int);
        }
        let apart = Wide::product(x0.size.lo, x0.size.lo).sum(
            Wide::product(x1.size.lo, x1.size.lo),
        ).sum(Wide::product(x2.size.lo, x2.size.lo));
        if !apart.le(reach) {
            return None;
        }
        let discriminant = reach.difference(apart);
        let s: u128 = discriminant.sqrt();
        proof {
            lemma_floor_sqrt_is(discriminant@, s as int);
            assert(s < 0x8000_0000_0000_0000_0000_0000_0000_0000) by (nonlinear_arith)
                requires
                    s * s <= discriminant@,
                    discriminant@ < 0x8000_0000_0000_0000_0000_0000_0000_0000
                        * 0x8000_0000_0000_0000_0000_0000_0000_0000,
                    s >= 0,
            ;
        }
        let root = Signed::of(s as i128);
        let near = rounded(half_b.negated().sum(root.negated()), a);
        let far = rounded(half_b.negated().sum(root), a);
        proof {
            lemma_rounded_monotone(-half_b@ - s, -half_b@ + s, a as int);
        }
        Some((near, far))
    }

    /// The record of the hit of `ray` at parameter `t`.
    #[verifier::when_used_as_spec(spec_record_at)]
    pub fn record_at(&self, ray: &Ray, t: Scalar) -> (r: HitRecord)
        ensures
            r == self.spec_record_at(ray, t),
            r.t == t,
            r.point == ray.at(t),
            r.material == self.material,
            r.opposes(*ray),
    {
        let point = ray.at(t);
        let outward_normal = point.sub(self.center).div(self.radius);
        HitRecord::with_face_normal(point, t, &outward_normal, self.material, ray)
    }
}

/// The square of a number of at most 65 bits.
fn square(x: i128) -> (r: u128)
    requires
        -0x1_0000_0000_0000_0000 < x < 0x1_0000_0000_0000_0000,
    ensures
        r == x * x,
        -0x8000_0000_0000_0000 <= x <= 0x8000_0000_0000_0000 ==> r
            <= 0x4000_0000_0000_0000_0000_0000_0000_0000,
{
    let m: u128 = if x < 0 {
        (-x) as u128
    } else {
        x as u128
    };
    assert(m * m == x * x && m * m <= 0xffff_ffff_ffff_ffff * 0xffff_ffff_ffff_ffff)
        by (nonlinear_arith)
        requires
            m == x || m == -x,
            0 <= m <= 0xffff_ffff_ffff_ffff,
    ;
    assert(m <= 0x8000_0000_0000_0000 ==> m * m <= 0x8000_0000_0000_0000 * 0x8000_0000_0000_0000)
        by (nonlinear_arith)
        requires
            0 <= m,
    ;
    m * m
}

/// The product of a number of at most 65 bits and a raw value.
fn times(x: i128, y: i128) -> (r: i128)
    requires
        -0x1_0000_0000_0000_0000 < x < 0x1_0000_0000_0000_0000,
        -0x8000_0000_0000_0000 <= y <= 0x8000_0000_0000_0000,
    ensures
        r == x * y,
{
    assert(-(0xffff_ffff_ffff_ffff * 0x8000_0000_0000_0000) <= x * y <= 0xffff_ffff_ffff_ffff
        * 0x8000_0000_0000_0000) by (nonlinear_arith)
        requires
            -0xffff_ffff_ffff_ffff <= x <= 0xffff_ffff_ffff_ffff,
            -0x8000_0000_0000_0000 <= y <= 0x8000_0000_0000_0000,
    ;
    x * y
}

/// Whether the square of a number is two to the power of 254 at least.
fn too_large(x: Signed) -> (r: bool)
    ensures
        r == (x.size@ >= 0x8000_0000_0000_0000_0000_0000_0000_0000),
        !r ==> x.size@ == x.size.lo,
{
    x.size.hi != 0 || x.size.lo >= 0x8000_0000_0000_0000_0000_0000_0000_0000
}

/// The scalar nearest to the quotient of `n` by `a`, on the side of zero.
fn rounded(n: Signed, a: u128) -> (r: Scalar)
    requires
        a > 0,
        n.size@ < 0x1_0000_0000_0000_0000_0000_0000_0000_0000_0000_0000,
    ensures
        r == spec_rounded(n@, a as int),
        r.wf(),
{
    assert(n.size@ * ONE_RAW == -(n@ * ONE_RAW) || n.size@ * ONE_RAW == n@ * ONE_RAW)
        by (nonlinear_arith)
        requires
            n.size@ == n@ || n.size@ == -n@,
    ;
    assert(0 <= n.size@ * ONE_RAW < 0x1_0000_0000_0000_0000_0000_0000_0000_0000_0000_0000_0000_0000)
        by (nonlinear_arith)
        requires
            0 <= n.size@ < 0x1_0000_0000_0000_0000_0000_0000_0000_0000_0000_0000,
            ONE_RAW == 0x1_0000_0000,
    ;
    let top = n.size.scaled(ONE_RAW as u128);
    let q: u128 = top.quotient(a, MAX_RAW as u128);
    proof {
        if n.size@ == 0 {
            assert(0int * ONE_RAW == 0) by (nonlinear_arith);
            vstd::arithmetic::div_mod::lemma_div_basics(a as int);
        }
        vstd::arithmetic::div_mod::lemma_div_pos_is_pos(top@, a as int);
    }
    if n.negative {
        Scalar { raw: -(q as i64) }
    } else {
        Scalar { raw: q as i64 }
    }
}

/// The square of a number is the square of its size, and is less than two
/// to the power of 254 where the size is less than two to the power of 127.
proof fn lemma_square_of_size(x: int, m: int)
    requires
        m == x || m == -x,
        0 <= m < 0x8000_0000_0000_0000_0000_0000_0000_0000,
    ensures
        m * m == x * x,
        m * m < 0x4000_0000_0000_0000_0000_0000_0000_0000_0000_0000_0000_0000_0000_0000_0000_0000,
{
    assert(m * m == x * x) by (nonlinear_arith)
        requires
            m == x || m == -x,
    ;
    assert(m * m <= 0x7fff_ffff_ffff_ffff_ffff_ffff_ffff_ffff
        * 0x7fff_ffff_ffff_ffff_ffff_ffff_ffff_ffff) by (nonlinear_arith)
        requires
            0 <= m <= 0x7fff_ffff_ffff_ffff_ffff_ffff_ffff_ffff,
    ;
}

/// A square is not negative, and is two to the power of 254 at least where
/// the number is two to the power of 127 at least in size.
proof fn lemma_square_of_large(x: int)
    ensures
        x * x >= 0,
        x >= 0x8000_0000_0000_0000_0000_0000_0000_0000 || -x
            >= 0x8000_0000_0000_0000_0000_0000_0000_0000 ==> x * x
            >= 0x4000_0000_0000_0000_0000_0000_0000_0000_0000_0000_0000_0000_0000_0000_0000_0000,
{
    assert(x * x >= 0) by (nonlinear_arith);
    if x >= 0x8000_0000_0000_0000_0000_0000_0000_0000 {
        assert(x * x >= 0x8000_0000_0000_0000_0000_0000_0000_0000
            * 0x8000_0000_0000_0000_0000_0000_0000_0000) by (nonlinear_arith)
            requires
                x >= 0x8000_0000_0000_0000_0000_0000_0000_0000,
        ;
    }
    if -x >= 0x8000_0000_0000_0000_0000_0000_0000_0000 {
        assert(x * x >= 0x8000_0000_0000_0000_0000_0000_0000_0000
            * 0x8000_0000_0000_0000_0000_0000_0000_0000) by (nonlinear_arith)
            requires
                -x >= 0x8000_0000_0000_0000_0000_0000_0000_0000,
        ;
    }
}

/// The square of a product is the product of the squares, and two
/// products of the same four factors are equal.
proof fn lemma_products(o: int, p: int, d: int, e: int)
    ensures
        (o * d) * (o * d) == (o * o) * (d * d),
        (o * e) * (p * d) == (o * d) * (p * e),
{
    assert((o * d) * (o * d) == (o * o) * (d * d)) by (nonlinear_arith);
    assert((o * e) * (p * d) == (o * d) * (p * e)) by (nonlinear_arith);
}

/// The square of a sum of three numbers, and of a difference of two.
proof fn lemma_square_of_sum(x: int, y: int, z: int)
    ensures
        (x + y + z) * (x + y + z) == x * x + y * y + z * z + 2 * (x * y) + 2 * (x * z) + 2 * (y
            * z),
        (x - y) * (x - y) == x * x + y * y - 2 * (x * y),
{
    assert((x + y + z) * (x + y + z) == x * x + y * y + z * z + 2 * (x * y) + 2 * (x * z) + 2 * (y
        * z)) by (nonlinear_arith);
    assert((x - y) * (x - y) == x * x + y * y - 2 * (x * y)) by (nonlinear_arith);
}

/// The product of two sums of three numbers, and of a number and a
/// difference.
proof fn lemma_product_of_sums(a: int, b: int, c: int, x: int, y: int, z: int)
    ensures
        (a + b + c) * (x + y + z) == a * x + a * y + a * z + b * x + b * y + b * z + c * x + c * y
            + c * z,
        a * (x - y) == a * x - a * y,
{
    assert((a + b + c) * (x + y + z) == a * x + a * y + a * z + b * x + b * y + b * z + c * x + c
        * y + c * z) by (nonlinear_arith);
    assert(a * (x - y) == a * x - a * y) by (nonlinear_arith);
}

/// The discriminant is the squared radius times the squared length of the
/// direction, less the squared length of the cross product of the offset
/// and the direction.
pub proof fn lemma_lagrange(oc: (int, int, int), d: (int, int, int), r: int)
    ensures
        exact_dot(oc, d) * exact_dot(oc, d) - exact_dot(d, d) * (exact_dot(oc, oc) - r * r)
            == exact_dot(d, d) * (r * r) - exact_dot(exact_cross(oc, d), exact_cross(oc, d)),
{
    let (ox, oy, oz) = oc;
    let (dx, dy, dz) = d;
    let dd = dx * dx + dy * dy + dz * dz;
    let oo = ox * ox + oy * oy + oz * oz;
    lemma_square_of_sum(ox * dx, oy * dy, oz * dz);
    lemma_square_of_sum(oy * dz, oz * dy, 0);
    lemma_square_of_sum(oz * dx, ox * dz, 0);
    lemma_square_of_sum(ox * dy, oy * dx, 0);
    lemma_product_of_sums(dx * dx, dy * dy, dz * dz, ox * ox, oy * oy, oz * oz);
    lemma_product_of_sums(dd, 0, 0, oo, r * r, 0);
    lemma_products(ox, oy, dx, dy);
    lemma_products(ox, oz, dx, dz);
    lemma_products(oy, oz, dy, dz);
    lemma_products(oy, ox, dx, dy);
    lemma_products(oz, ox, dx, dz);
    lemma_products(oz, oy, dy, dz);
    lemma_products(ox, ox, dy, dz);
    lemma_products(oy, oy, dx, dz);
    lemma_products(oz, oz, dx, dy);
    lemma_products(ox, oy, dy, dx);
    lemma_products(ox, oz, dz, dx);
    lemma_products(oy, oz, dz, dy);
    lemma_products(oz, oz, dz, dz);
    lemma_commuted((dx * dx), (ox * ox));
    lemma_commuted((dx * dx), (oy * oy));
    lemma_commuted((dx * dx), (oz * oz));
    lemma_commuted((dy * dy), (ox * ox));
    lemma_commuted((dy * dy), (oy * oy));
    lemma_commuted((dy * dy), (oz * oz));
    lemma_commuted((dz * dz), (ox * ox));
    lemma_commuted((dz * dz), (oy * oy));
    lemma_commuted((dz * dz), (oz * oz));
    lemma_commuted(oy * dz, oz * dy);
    lemma_commuted(oz * dx, ox * dz);
    lemma_commuted(ox * dy, oy * dx);
}

/// A product does not depend on the order of its factors.
proof fn lemma_commuted(x: int, y: int)
    ensures
        x * y == y * x,
{
    assert(x * y == y * x) by (nonlinear_arith);
}

/// Where `o` is `-k d` over `one`, `o d` is `-k d d` over `one`, and `o o`
/// is `k k d d` over the square of `one`.
proof fn lemma_scaled_term(o: int, d: int, k: int, one: int)
    requires
        o * one == -k * d,
    ensures
        (o * d) * one == -(k * (d * d)),
        (o * o) * (one * one) == (k * k) * (d * d),
{
    assert((o * d) * one == (o * one) * d) by (nonlinear_arith);
    assert((-k * d) * d == -(k * (d * d))) by (nonlinear_arith);
    assert((o * o) * (one * one) == (o * one) * (o * one)) by (nonlinear_arith);
    assert((-k * d) * (-k * d) == (k * k) * (d * d)) by (nonlinear_arith);
}

/// Rounding a quotient by a positive number keeps the order.
pub proof fn lemma_rounded_monotone(m: int, n: int, a: int)
    requires
        m <= n,
        a > 0,
    ensures
        spec_rounded(m, a).raw <= spec_rounded(n, a).raw,
{
    assert(m * ONE_RAW <= n * ONE_RAW) by (nonlinear_arith)
        requires
            m <= n,
            ONE_RAW > 0,
    ;
    lemma_trunc_div_monotone(m * ONE_RAW, n * ONE_RAW, a);
}

/// The first root is not after the second.
pub proof fn lemma_roots_ordered(sphere: Sphere, ray: Ray)
    ensures
        sphere.roots(&ray) matches Some((near, far)) ==> near.raw <= far.raw,
{
    let a = exact_dot(raws(ray.direction), raws(ray.direction));
    let half_b = exact_dot(exact_offset(sphere, ray), raws(ray.direction));
    let discriminant = exact_discriminant(sphere, ray);
    let d = raws(ray.direction);
    assert(d.0 * d.0 >= 0 && d.1 * d.1 >= 0 && d.2 * d.2 >= 0) by (nonlinear_arith);
    if a != 0 && discriminant >= 0 {
        lemma_floor_sqrt_exists(discriminant);
        let s = floor_sqrt(discriminant);
        lemma_rounded_monotone(-half_b - s, -half_b + s, a);
    }
}

/// A ray whose line passes the centre of a sphere at a distance that
/// exceeds the radius hits nothing: the squared length of the cross
/// product of the offset and the direction is that distance squared times
/// the squared length of the direction.
pub proof fn lemma_far_line_is_missed(sphere: Sphere, ray: Ray, interval: Interval)
    requires
        exact_dot(
            exact_cross(exact_offset(sphere, ray), raws(ray.direction)),
            exact_cross(exact_offset(sphere, ray), raws(ray.direction)),
        ) > exact_dot(raws(ray.direction), raws(ray.direction)) * (sphere.radius.raw
            * sphere.radius.raw),
    ensures
        sphere.hit_spec(ray, interval) is None,
{
    lemma_lagrange(exact_offset(sphere, ray), raws(ray.direction), sphere.radius.raw as int);
}

/// A ray with a direction of length one whose line passes through the
/// centre of a sphere, which it reaches at the parameter `distance`, meets
/// the sphere at `distance` less the radius and at `distance` plus the
/// radius.
pub proof fn lemma_roots_through_centre(sphere: Sphere, ray: Ray, distance: int)
    requires
        sphere.radius.raw >= 0,
        exact_dot(raws(ray.direction), raws(ray.direction)) == ONE_RAW * ONE_RAW,
        exact_offset(sphere, ray).0 * ONE_RAW == -distance * ray.direction.x.raw,
        exact_offset(sphere, ray).1 * ONE_RAW == -distance * ray.direction.y.raw,
        exact_offset(sphere, ray).2 * ONE_RAW == -distance * ray.direction.z.raw,
    ensures
        sphere.roots(&ray) == Some(
            (
                Scalar { raw: clamp_raw(distance - sphere.radius.raw) as i64 },
                Scalar { raw: clamp_raw(distance + sphere.radius.raw) as i64 },
            ),
        ),
{
    let oc = exact_offset(sphere, ray);
    let d = raws(ray.direction);
    let r = sphere.radius.raw as int;
    let one = ONE_RAW as int;
    let a = exact_dot(d, d);
    let half_b = exact_dot(oc, d);
    let c = exact_dot(oc, oc) - r * r;
    assert(one * one == 0x1_0000_0000_0000_0000) by (nonlinear_arith)
        requires
            one == 0x1_0000_0000,
    ;
    lemma_scaled_term(oc.0, d.0, distance, one);
    lemma_scaled_term(oc.1, d.1, distance, one);
    lemma_scaled_term(oc.2, d.2, distance, one);
    lemma_product_of_sums(oc.0 * d.0, oc.1 * d.1, oc.2 * d.2, one, 0, 0);
    lemma_product_of_sums(distance, 0, 0, d.0 * d.0, d.1 * d.1, d.2 * d.2);
    assert(half_b * one == -(distance * a));
    assert(half_b == -distance * one) by (nonlinear_arith)
        requires
            half_b * one == -(distance * a),
            a == one * one,
            one > 0,
    ;
    let oo = exact_dot(oc, oc);
    lemma_product_of_sums(oc.0 * oc.0, oc.1 * oc.1, oc.2 * oc.2, one * one, 0, 0);
    lemma_product_of_sums(distance * distance, 0, 0, d.0 * d.0, d.1 * d.1, d.2 * d.2);
    assert(oo * (one * one) == (distance * distance) * a);
    assert(oo == distance * distance) by (nonlinear_arith)
        requires
            oo * (one * one) == (distance * distance) * a,
            a == one * one,
            one > 0,
    ;
    let discriminant = exact_discriminant(sphere, ray);
    assert(discriminant == (one * r) * (one * r)) by (nonlinear_arith)
        requires
            discriminant == half_b * half_b - a * (distance * distance - r * r),
            half_b == -distance * one,
            a == one * one,
    ;
    assert(is_floor_sqrt(discriminant, one * r)) by (nonlinear_arith)
        requires
            discriminant == (one * r) * (one * r),
            one > 0,
            r >= 0,
    ;
    lemma_floor_sqrt_is(discriminant, one * r);
    lemma_quotient_by_square((distance - r), one);
    lemma_quotient_by_square((distance + r), one);
    assert((-half_b - one * r) * one == (distance - r) * (one * one)) by (nonlinear_arith)
        requires
            half_b == -distance * one,
    ;
    assert((-half_b + one * r) * one == (distance + r) * (one * one)) by (nonlinear_arith)
        requires
            half_b == -distance * one,
    ;
}

/// A multiple of a positive number, divided by it and rounded towards
/// zero, is the factor.
proof fn lemma_quotient_by_square(x: int, one: int)
    requires
        one > 0,
    ensures
        trunc_div(x * (one * one), one * one) == x,
{
    let d = one * one;
    assert(d > 0) by (nonlinear_arith)
        requires
            d == one * one,
            one > 0,
    ;
    assert(x * d == d * x && -(x * d) == d * (-x)) by (nonlinear_arith);
    if x >= 0 {
        assert(x * d >= 0) by (nonlinear_arith)
            requires
                x >= 0,
                d > 0,
        ;
        vstd::arithmetic::div_mod::lemma_div_multiples_vanish(x, d);
    } else {
        assert(x * d < 0) by (nonlinear_arith)
            requires
                x < 0,
                d > 0,
        ;
        vstd::arithmetic::div_mod::lemma_div_multiples_vanish(-x, d);
    }
}

impl Hittable for Sphere {
    /// The hit at the smaller root in the interval, if either root is in it.
    open spec fn hit_spec(&self, ray: Ray, interval: Interval) -> Option<HitRecord> {
        match self.roots(&ray) {
            Some((near, far)) => if interval.contains(near) {
                Some(self.record_at(&ray, near))
            } else if interval.contains(far) {
                Some(self.record_at(&ray, far))
            } else {
                None
            },
            None => None,
        }
    }

    /// The hit at the smaller root in the interval, if either root is in
    /// it. A ray without a direction hits nothing.
    fn hit(&self, ray: &Ray, interval: Interval) -> (r: Option<HitRecord>) {
        match self.roots(ray) {
            Some((near, far)) => if interval.contains(near) {
                Some(self.record_at(ray, near))
            } else if interval.contains(far) {
                Some(self.record_at(ray, far))
            } else {
                None
            },
            None => None,
        }
    }

    proof fn lemma_hit_within(&self, ray: Ray, interval: Interval) {
        if let Some((near, far)) = self.roots(&ray) {
            lemma_record_opposes(*self, ray, near);
            lemma_record_opposes(*self, ray, far);
        }
    }

    proof fn lemma_hit_restricts(&self, ray: Ray, interval: Interval, cut: Scalar) {
        lemma_roots_ordered(*self, ray);
    }
}

/// A ray without a direction hits no sphere.
pub proof fn lemma_still_ray_hits_nothing(sphere: Sphere, origin: Vec3, interval: Interval)
    ensures
        sphere.hit_spec(Ray::new(origin, Vec3::zero()), interval) is None,
{
    assert(0int * 0int == 0) by (nonlinear_arith);
}

/// The record of a hit lies on the ray, with its normal turned against it.
pub proof fn lemma_record_opposes(sphere: Sphere, ray: Ray, t: Scalar)
    ensures
        sphere.record_at(&ray, t).opposes(ray),
        sphere.record_at(&ray, t).lies_on(ray),
        sphere.record_at(&ray, t).t == t,
{
    let point = ray.at(t);
    let outward_normal = point.sub(sphere.center).div(sphere.radius);
    crate::vec3::lemma_dot_neg(ray.direction, outward_normal);
}

} // verus!
