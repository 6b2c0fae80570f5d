//! Rays, random directions and the laws of reflection and refraction.

use crate::hittable::Hittable;
use crate::interval::Interval;
use crate::material::ScatterSample;
use crate::sampler::{extends, Sampler};
use crate::scalar::{
    lemma_div_within_one, lemma_mul_monotone, lemma_mul_within_one, lemma_square_not_negative,
    Scalar, ONE_RAW,
};
use crate::vec3::{lemma_normalize_within_one, Vec3};
use vstd::prelude::*;

verus! {

/// The raw value of the least parameter at which a hit counts: a
/// thousandth, rounded towards zero. It keeps a scattered ray from hitting
/// the surface it leaves.
pub const EPSILON_RAW: i64 = 4294967;

/// The raw value of the green share of the sky's blue, seven tenths.
pub const SKY_GREEN_RAW: i64 = 3006477107;

/// How many points are drawn at most before a rejection sampler settles
/// for the origin.
pub const MAX_REJECTIONS: u32 = 64;

/// The points `origin + t * direction`.
#[derive(Clone, Copy, Debug, PartialEq, Eq, Structural)]
pub struct Ray {
    pub origin: Vec3,
    pub direction: Vec3,
}

impl Ray {
    pub open spec fn spec_new(origin: Vec3, direction: Vec3) -> Ray {
        Ray { origin, direction }
    }

    pub open spec fn spec_at(&self, t: Scalar) -> Vec3 {
        self.origin.add(self.direction.scale(t))
    }

    /// The ray from `origin` along `direction`.
    #[verifier::when_used_as_spec(spec_new)]
    pub fn new(origin: Vec3, direction: Vec3) -> (r: Ray)
        ensures
            r == Ray::spec_new(origin, direction),
    {
        Ray { origin, direction }
    }

    /// The point of the ray at parameter `t`: the origin plus `t` times the
    /// direction.
    #[verifier::when_used_as_spec(spec_at)]
    pub fn at(&self, t: Scalar) -> (r: Vec3)
        ensures
            r == self.origin.add(self.direction.scale(t)),
            r.wf(),
    {
        self.origin.add(self.direction.scale(t))
    }
}

/// The parameters at which a hit counts: from `EPSILON_RAW` on.
pub open spec fn spec_visible() -> Interval {
    Interval { min: Scalar { raw: EPSILON_RAW }, max: Scalar::largest() }
}

/// The parameters at which a hit counts.
#[verifier::when_used_as_spec(spec_visible)]
pub fn visible() -> (r: Interval)
    ensures
        r == spec_visible(),
{
    Interval { min: Scalar { raw: EPSILON_RAW }, max: Scalar::largest() }
}

/// The colour of the sky.
pub open spec fn spec_sky_blue() -> Vec3 {
    Vec3 { x: Scalar::half(), y: Scalar { raw: SKY_GREEN_RAW }, z: Scalar::one() }
}

pub open spec fn spec_background(ray: &Ray) -> Vec3 {
    let a = Scalar::half().mul(ray.direction.normalize().y.add(Scalar::one()));
    Vec3::ones().scale(Scalar::one().sub(a)).add(spec_sky_blue().scale(a))
}

/// What a ray sees that hits nothing: white blended into the blue of the
/// sky by `a = (y + 1) / 2`, for the height `y` of the ray's normalized
/// direction.
#[verifier::when_used_as_spec(spec_background)]
pub fn background(ray: &Ray) -> (r: Vec3)
    ensures
        r == spec_background(ray),
        r.wf(),
{
    let a = Scalar::half().mul(ray.direction.normalize().y.add(Scalar::one()));
    let sky_blue = Vec3 { x: Scalar::half(), y: Scalar { raw: SKY_GREEN_RAW }, z: Scalar::one() };
    Vec3::ones().scale(Scalar::one().sub(a)).add(sky_blue.scale(a))
}

/// Whether every sample is valid.
pub open spec fn all_valid(samples: Seq<ScatterSample>) -> bool {
    forall|i: int| 0 <= i < samples.len() ==> (#[trigger] samples[i]).valid()
}

/// The light that comes back along `ray` when it may bounce `depth` times
/// and the `i`-th bounce uses the `i`-th sample. A ray that may not
/// bounce, or that hits a surface with no sample left, or that is
/// absorbed, brings back no light; one that hits nothing brings the
/// background; one that is scattered brings what the scattered ray
/// brings, attenuated.
pub open spec fn color_spec<T: Hittable>(
    ray: Ray,
    depth: nat,
    world: &Vec<T>,
    samples: Seq<ScatterSample>,
) -> Vec3
    decreases depth,
{
    if depth == 0 {
        Vec3::zero()
    } else {
        match world.hit_spec(ray, visible()) {
            Some(rec) => if samples.len() == 0 {
                Vec3::zero()
            } else {
                match rec.material.scatter_with(&ray, &rec, &samples[0]) {
                    Some(scattered) => scattered.attenuation.mul(
                        color_spec(scattered.ray, (depth - 1) as nat, world, samples.skip(1)),
                    ),
                    None => Vec3::zero(),
                }
            },
            None => background(&ray),
        }
    }
}

/// How many samples the ray asks for: one at each surface that it hits
/// while it may still bounce, also where none is left for it.
pub open spec fn samples_asked<T: Hittable>(
    ray: Ray,
    depth: nat,
    world: &Vec<T>,
    samples: Seq<ScatterSample>,
) -> nat
    decreases depth,
{
    if depth == 0 {
        0
    } else {
        match world.hit_spec(ray, visible()) {
            Some(rec) => if samples.len() == 0 {
                1
            } else {
                match rec.material.scatter_with(&ray, &rec, &samples[0]) {
                    Some(scattered) => 1 + samples_asked(
                        scattered.ray,
                        (depth - 1) as nat,
                        world,
                        samples.skip(1),
                    ),
                    None => 1,
                }
            },
            None => 0,
        }
    }
}

/// Whether the samples were drawn one after the other, the `i`-th taking
/// the generator from the history `marks[i]` to the history `marks[i + 1]`.
pub open spec fn drawn_in_turn(samples: Seq<ScatterSample>, marks: Seq<Seq<i64>>) -> bool {
    &&& marks.len() == samples.len() + 1
    &&& forall|i: int|
        0 <= i < samples.len() ==> (#[trigger] samples[i]).drawn(marks[i], marks[i + 1])
}

/// Whether `colour` is the light that comes back along `ray` for the
/// given samples, which are as many as the ray asks for and were drawn in
/// turn between the histories of `marks`.
pub open spec fn traced<T: Hittable>(
    ray: Ray,
    depth: nat,
    world: &Vec<T>,
    samples: Seq<ScatterSample>,
    marks: Seq<Seq<i64>>,
    colour: Vec3,
) -> bool {
    &&& samples.len() == samples_asked(ray, depth, world, samples)
    &&& all_valid(samples)
    &&& drawn_in_turn(samples, marks)
    &&& colour == color_spec(ray, depth, world, samples)
}

/// The attenuations of the first `k` bounces of `ray`, and the ray that
/// leaves the last of them; nothing where the ray bounces fewer times.
pub open spec fn bounces<T: Hittable>(
    ray: Ray,
    k: nat,
    world: &Vec<T>,
    samples: Seq<ScatterSample>,
) -> Option<(Seq<Vec3>, Ray)>
    decreases k,
{
    if k == 0 {
        Some((Seq::empty(), ray))
    } else {
        match world.hit_spec(ray, visible()) {
            Some(rec) => if samples.len() == 0 {
                None
            } else {
                match rec.material.scatter_with(&ray, &rec, &samples[0]) {
                    Some(scattered) => match bounces(
                        scattered.ray,
                        (k - 1) as nat,
                        world,
                        samples.skip(1),
                    ) {
                        Some((rest, last)) => Some((seq![scattered.attenuation] + rest, last)),
                        None => None,
                    },
                    None => None,
                }
            },
            None => None,
        }
    }
}

/// The colour `colour` after the attenuations, the last applied first:
/// `a_0 * (a_1 * (... * colour))`, component by component.
pub open spec fn attenuate(attenuations: Seq<Vec3>, colour: Vec3) -> Vec3
    decreases attenuations.len(),
{
    if attenuations.len() == 0 {
        colour
    } else {
        attenuations[0].mul(attenuate(attenuations.skip(1), colour))
    }
}

/// A ray that bounces `k` times, fewer than it may, and then hits
/// nothing brings back the background of its last leg, multiplied by the
/// attenuations of its bounces.
pub proof fn lemma_attenuation_chain<T: Hittable>(
    ray: Ray,
    depth: nat,
    world: &Vec<T>,
    samples: Seq<ScatterSample>,
    k: nat,
)
    requires
        k < depth,
        bounces(ray, k, world, samples) matches Some((attenuations, last)) && world.hit_spec(
            last,
            visible(),
        ) is None,
    ensures
        bounces(ray, k, world, samples) matches Some((attenuations, last)) && color_spec(
            ray,
            depth,
            world,
            samples,
        ) == attenuate(attenuations, background(&last)),
    decreases k,
{
    if k > 0 {
        let rec = world.hit_spec(ray, visible())->Some_0;
        let scattered = rec.material.scatter_with(&ray, &rec, &samples[0])->Some_0;
        lemma_attenuation_chain(
            scattered.ray,
            (depth - 1) as nat,
            world,
            samples.skip(1),
            (k - 1) as nat,
        );
        let (rest, last) = bounces(scattered.ray, (k - 1) as nat, world, samples.skip(1))->Some_0;
        let attenuations = seq![scattered.attenuation] + rest;
        assert(attenuations.skip(1) =~= rest);
    }
}

impl Ray {
    /// The light that comes back along the ray when it may bounce `depth`
    /// times in `world`, with the given samples for its bounces in turn.
    pub fn ray_color_with<T: Hittable>(
        &self,
        depth: u32,
        world: &Vec<T>,
        samples: &Vec<ScatterSample>,
    ) -> (c: Vec3)
        ensures
            c == color_spec(*self, depth as nat, world, samples@),
            depth == 0 ==> c == Vec3::zero(),
    {
        assert(samples@.skip(0) =~= samples@);
        color_from(self, depth, world, samples, 0)
    }

    /// The light that comes back along the ray when it may bounce `depth`
    /// times in `world`, with random numbers drawn from `sampler`: what
    /// `color_spec` gives for the samples that are drawn from the
    /// generator, one at each surface that the ray hits. With a depth of
    /// zero it is black whatever the world holds.
    pub fn ray_color<T: Hittable>(&self, depth: u32, world: &Vec<T>, sampler: &mut Sampler) -> (c:
        Vec3)
        ensures
            depth == 0 ==> c == Vec3::zero(),
            final(sampler).seed() == old(sampler).seed(),
            exists|samples: Seq<ScatterSample>, marks: Seq<Seq<i64>>| #[trigger]
                traced(*self, depth as nat, world, samples, marks, c) && marks.first() == old(
                    sampler,
                )@ && marks.last() == final(sampler)@,
        decreases depth,
    {
        let ghost before = sampler@;
        let ghost none = Seq::<ScatterSample>::empty();
        if depth == 0 {
            assert(traced(*self, depth as nat, world, none, seq![before], Vec3::zero()));
            return Vec3::zero();
        }
        if let Some(rec) = world.hit(self, visible()) {
            let sample = ScatterSample::draw(sampler);
            let ghost mid = sampler@;
            if let Some(scattered) = rec.material.scatter_with(self, &rec, &sample) {
                let inner = scattered.ray.ray_color(depth - 1, world, sampler);
                proof {
                    let (rest, rest_marks) = choose|
                        samples: Seq<ScatterSample>,
                        marks: Seq<Seq<i64>>,
                    | #[trigger]
                        traced(scattered.ray, (depth - 1) as nat, world, samples, marks, inner)
                            && marks.first() == mid && marks.last() == sampler@;
                    let all = seq![sample] + rest;
                    let marks = seq![before] + rest_marks;
                    assert(all.skip(1) =~= rest);
                    assert forall|i: int| 0 <= i < all.len() implies (#[trigger] all[i]).drawn(
                        marks[i],
                        marks[i + 1],
                    ) by {
                        if i > 0 {
                            assert(all[i] == rest[i - 1]);
                            assert(rest[i - 1].drawn(rest_marks[i - 1], rest_marks[i]));
                        }
                    }
                    assert(traced(
                        *self,
                        depth as nat,
                        world,
                        all,
                        marks,
                        scattered.attenuation.mul(inner),
                    ));
                }
                return scattered.attenuation.mul(inner);
            }
            assert(traced(
                *self,
                depth as nat,
                world,
                seq![sample],
                seq![before, mid],
                Vec3::zero(),
            ));
            return Vec3::zero();
        }
        assert(traced(*self, depth as nat, world, none, seq![before], background(self)));
        background(self)
    }
}

/// The light that comes back along `ray` with the samples from index
/// `from` on.
fn color_from<T: Hittable>(
    ray: &Ray,
    depth: u32,
    world: &Vec<T>,
    samples: &Vec<ScatterSample>,
    from: usize,
) -> (c: Vec3)
    requires
        from <= samples.len(),
    ensures
        c == color_spec(*ray, depth as nat, world, samples@.skip(from as int)),
    decreases depth,
{
    if depth == 0 {
        return Vec3::zero();
    }
    if let Some(rec) = world.hit(ray, visible()) {
        if from == samples.len() {
            return Vec3::zero();
        }
        assert(samples@.skip(from as int)[0] == samples@[from as int]);
        assert(samples@.skip(from as int).skip(1) =~= samples@.skip(from + 1));
        if let Some(scattered) = rec.material.scatter_with(ray, &rec, &samples[from]) {
            let inner = color_from(&scattered.ray, depth - 1, world, samples, from + 1);
            return scattered.attenuation.mul(inner);
        }
        return Vec3::zero();
    }
    background(ray)
}

/// Whether a point lies strictly inside the unit sphere, with each
/// coordinate at least minus one and less than one.
pub open spec fn in_unit_sphere(p: Vec3) -> bool {
    &&& -ONE_RAW <= p.x.raw < ONE_RAW
    &&& -ONE_RAW <= p.y.raw < ONE_RAW
    &&& -ONE_RAW <= p.z.raw < ONE_RAW
    &&& p.length_squared().raw < ONE_RAW
}

/// Whether a point lies strictly inside the unit disk of the plane `z = 0`.
pub open spec fn in_unit_disk(p: Vec3) -> bool {
    in_unit_sphere(p) && p.z.raw == 0
}

/// Whether a vector is a point of the unit sphere's inside, normalized.
pub open spec fn is_unit_sample(u: Vec3) -> bool {
    exists|p: Vec3| in_unit_sphere(p) && u == #[trigger] p.normalize()
}

/// Whether a point is closer to the origin than one.
pub open spec fn inside(p: Vec3) -> bool {
    p.length_squared().raw < ONE_RAW
}

/// The `i`-th of the points whose coordinates are the numbers of
/// `history` from position `start` on, three to a point.
pub open spec fn cube_candidate(history: Seq<i64>, start: int, i: int) -> Vec3 {
    Vec3 {
        x: Scalar { raw: history[start + 3 * i] },
        y: Scalar { raw: history[start + 3 * i + 1] },
        z: Scalar { raw: history[start + 3 * i + 2] },
    }
}

/// The `i`-th of the points of the plane `z = 0` whose coordinates are the
/// numbers of `history` from position `start` on, two to a point.
pub open spec fn square_candidate(history: Seq<i64>, start: int, i: int) -> Vec3 {
    Vec3 {
        x: Scalar { raw: history[start + 2 * i] },
        y: Scalar { raw: history[start + 2 * i + 1] },
        z: Scalar::zero(),
    }
}

/// Whether `p` is what rejection sampling in the unit sphere gives when
/// it takes a generator from the history `before` to the history `after`.
/// The generator hands out the coordinates of at least one point and at
/// most `MAX_REJECTIONS`, and every point but the last lies outside the
/// sphere. The last is `p` where it lies inside; else it is the last that
/// may be drawn, and `p` is the origin.
pub open spec fn sphere_draw(before: Seq<i64>, after: Seq<i64>, p: Vec3) -> bool {
    let start = before.len() as int;
    let k = (after.len() - before.len()) / 3;
    &&& extends(after, before)
    &&& after.len() == before.len() + 3 * k
    &&& 1 <= k <= MAX_REJECTIONS
    &&& forall|i: int| 0 <= i < k - 1 ==> !inside(#[trigger] cube_candidate(after, start, i))
    &&& if inside(cube_candidate(after, start, k - 1)) {
        p == cube_candidate(after, start, k - 1)
    } else {
        k == MAX_REJECTIONS && p == Vec3::zero()
    }
}

/// Whether `p` is what rejection sampling in the unit disk gives when it
/// takes a generator from the history `before` to the history `after`:
/// as `sphere_draw`, with two numbers to a point.
pub open spec fn disk_draw(before: Seq<i64>, after: Seq<i64>, p: Vec3) -> bool {
    let start = before.len() as int;
    let k = (after.len() - before.len()) / 2;
    &&& extends(after, before)
    &&& after.len() == before.len() + 2 * k
    &&& 1 <= k <= MAX_REJECTIONS
    &&& forall|i: int| 0 <= i < k - 1 ==> !inside(#[trigger] square_candidate(after, start, i))
    &&& if inside(square_candidate(after, start, k - 1)) {
        p == square_candidate(after, start, k - 1)
    } else {
        k == MAX_REJECTIONS && p == Vec3::zero()
    }
}

/// A random point strictly inside the unit sphere: points of the cube
/// around it are drawn, three numbers of the generator to a point, until
/// one lies inside, which is returned. After `MAX_REJECTIONS` points
/// outside it the centre is returned.
pub fn random_in_unit_sphere(sampler: &mut Sampler) -> (p: Vec3)
    ensures
        in_unit_sphere(p),
        sphere_draw(old(sampler)@, final(sampler)@, p),
        final(sampler).seed() == old(sampler).seed(),
{
    let ghost before = sampler@;
    let mut tries: u32 = 0;
    while tries < MAX_REJECTIONS
        invariant
            tries <= MAX_REJECTIONS,
            before == old(sampler)@,
            sampler.seed() == old(sampler).seed(),
            extends(sampler@, before),
            sampler@.len() == before.len() + 3 * tries,
            forall|i: int|
                0 <= i < tries ==> !inside(
                    #[trigger] cube_candidate(sampler@, before.len() as int, i),
                ),
        decreases MAX_REJECTIONS - tries,
    {
        let ghost earlier = sampler@;
        let x = sampler.signed_unit();
        let y = sampler.signed_unit();
        let z = sampler.signed_unit();
        let p = Vec3::new(x, y, z);
        proof {
            assert(sampler@ == earlier.push(x.raw).push(y.raw).push(z.raw));
            assert(cube_candidate(sampler@, before.len() as int, tries as int) == p);
            assert forall|i: int| 0 <= i < tries implies !inside(
                #[trigger] cube_candidate(sampler@, before.len() as int, i),
            ) by {
                assert(cube_candidate(sampler@, before.len() as int, i) == cube_candidate(
                    earlier,
                    before.len() as int,
                    i,
                ));
            }
        }
        if p.length_squared().lt(Scalar::one()) {
            return p;
        }
        tries += 1;
    }
    proof {
        lemma_origin_in_unit_sphere();
    }
    Vec3::zero()
}

/// Each component of a normalized point lies between minus one and one.
pub proof fn lemma_unit_sample_within_one(u: Vec3)
    requires
        is_unit_sample(u),
    ensures
        u.within_one(),
{
    let p = choose|p: Vec3| in_unit_sphere(p) && u == #[trigger] p.normalize();
    lemma_normalize_within_one(p);
}

/// Whether `u` is what `random_unit_vector` gives when it takes a
/// generator from the history `before` to the history `after`: the point
/// that `random_in_unit_sphere` draws, normalized.
pub open spec fn unit_vector_draw(before: Seq<i64>, after: Seq<i64>, u: Vec3) -> bool {
    exists|p: Vec3| #[trigger] sphere_draw(before, after, p) && u == p.normalize()
}

/// A random direction: the point that `random_in_unit_sphere` draws,
/// normalized.
pub fn random_unit_vector(sampler: &mut Sampler) -> (u: Vec3)
    ensures
        is_unit_sample(u),
        unit_vector_draw(old(sampler)@, final(sampler)@, u),
        final(sampler).seed() == old(sampler).seed(),
        u.wf(),
        u.within_one(),
{
    let p = random_in_unit_sphere(sampler);
    p.normalize()
}

/// A random point strictly inside the unit disk of the plane `z = 0`:
/// points of the square around it are drawn, two numbers of the generator
/// to a point, until one lies inside, which is returned. After
/// `MAX_REJECTIONS` points outside it the centre is returned.
pub fn random_in_unit_disk(sampler: &mut Sampler) -> (p: Vec3)
    ensures
        in_unit_disk(p),
        disk_draw(old(sampler)@, final(sampler)@, p),
        final(sampler).seed() == old(sampler).seed(),
{
    let ghost before = sampler@;
    let mut tries: u32 = 0;
    while tries < MAX_REJECTIONS
        invariant
            tries <= MAX_REJECTIONS,
            before == old(sampler)@,
            sampler.seed() == old(sampler).seed(),
            extends(sampler@, before),
            sampler@.len() == before.len() + 2 * tries,
            forall|i: int|
                0 <= i < tries ==> !inside(
                    #[trigger] square_candidate(sampler@, before.len() as int, i),
                ),
        decreases MAX_REJECTIONS - tries,
    {
        let ghost earlier = sampler@;
        let x = sampler.signed_unit();
        let y = sampler.signed_unit();
        let p = Vec3::new(x, y, Scalar::zero());
        proof {
            assert(sampler@ == earlier.push(x.raw).push(y.raw));
            assert(square_candidate(sampler@, before.len() as int, tries as int) == p);
            assert forall|i: int| 0 <= i < tries implies !inside(
                #[trigger] square_candidate(sampler@, before.len() as int, i),
            ) by {
                assert(square_candidate(sampler@, before.len() as int, i) == square_candidate(
                    earlier,
                    before.len() as int,
                    i,
                ));
            }
        }
        if p.length_squared().lt(Scalar::one()) {
            return p;
        }
        tries += 1;
    }
    proof {
        lemma_origin_in_unit_sphere();
    }
    Vec3::zero()
}

/// The origin lies inside the unit sphere and the unit disk.
pub proof fn lemma_origin_in_unit_sphere()
    ensures
        in_unit_disk(Vec3::zero()),
{
    assert(0int * 0int == 0) by (nonlinear_arith);
}

pub open spec fn spec_reflect(v: &Vec3, n: &Vec3) -> Vec3 {
    v.sub(n.scale(Scalar::from_int(2).mul(v.dot(*n))))
}

/// The mirror image of `v` about the plane with normal `n`:
/// `v - 2 (v . n) n`.
#[verifier::when_used_as_spec(spec_reflect)]
pub fn reflect(v: &Vec3, n: &Vec3) -> (r: Vec3)
    ensures
        r == spec_reflect(v, n),
        r.wf(),
{
    v.sub(n.scale(Scalar::from_int(2).mul(v.dot(*n))))
}

pub open spec fn spec_refract(uv: Vec3, n: Vec3, etai_over_etat: Scalar) -> Vec3 {
    let cos_theta = uv.neg().dot(n).min(Scalar::one());
    let r_out_perp = uv.add(n.scale(cos_theta)).scale(etai_over_etat);
    let r_out_parallel = n.scale(
        Scalar::one().sub(r_out_perp.length_squared()).abs().sqrt().neg(),
    );
    r_out_perp.add(r_out_parallel)
}

/// The direction of `uv` after it crosses a surface with normal `n`, by
/// Snell's law with the ratio `etai_over_etat` of the refractive indices.
#[verifier::when_used_as_spec(spec_refract)]
pub fn refract(uv: Vec3, n: Vec3, etai_over_etat: Scalar) -> (r: Vec3)
    ensures
        r == spec_refract(uv, n, etai_over_etat),
        r.wf(),
{
    let cos_theta = uv.neg().dot(n).min(Scalar::one());
    let r_out_perp = uv.add(n.scale(cos_theta)).scale(etai_over_etat);
    let r_out_parallel = n.scale(
        Scalar::one().sub(r_out_perp.length_squared()).abs().sqrt().neg(),
    );
    r_out_perp.add(r_out_parallel)
}

/// The fifth power, multiplied out from the left.
pub open spec fn pow5(x: Scalar) -> Scalar {
    x.mul(x).mul(x).mul(x).mul(x)
}

/// The reflectance at normal incidence, `((1 - n) / (1 + n))^2`.
pub open spec fn r0(ref_idx: Scalar) -> Scalar {
    let q = Scalar::one().sub(ref_idx).div(Scalar::one().add(ref_idx));
    q.mul(q)
}

pub open spec fn spec_reflectance(cosine: Scalar, ref_idx: Scalar) -> Scalar {
    r0(ref_idx).add(Scalar::one().sub(r0(ref_idx)).mul(pow5(Scalar::one().sub(cosine))))
}

/// Schlick's approximation of the share of light that a dielectric
/// reflects: `R0 + (1 - R0) (1 - cosine)^5`.
#[verifier::when_used_as_spec(spec_reflectance)]
pub fn reflectance(cosine: Scalar, ref_idx: Scalar) -> (r: Scalar)
    ensures
        r == spec_reflectance(cosine, ref_idx),
        r.wf(),
{
    let q = Scalar::one().sub(ref_idx).div(Scalar::one().add(ref_idx));
    let r0 = q.mul(q);
    let x = Scalar::one().sub(cosine);
    r0.add(Scalar::one().sub(r0).mul(x.mul(x).mul(x).mul(x).mul(x)))
}

/// The reflectance at normal incidence lies between zero and one where the
/// refractive index is not negative.
pub proof fn lemma_r0_within_one(ref_idx: Scalar)
    requires
        ref_idx.raw >= 0,
    ensures
        0 <= r0(ref_idx).raw <= ONE_RAW,
{
    let top = Scalar::one().sub(ref_idx);
    let bottom = Scalar::one().add(ref_idx);
    lemma_div_within_one(top, bottom);
    let q = top.div(bottom);
    lemma_mul_within_one(q, q);
    lemma_square_not_negative(q);
}

/// Head on, where the cosine is one, the reflectance is that at normal
/// incidence.
pub proof fn lemma_reflectance_head_on(ref_idx: Scalar)
    ensures
        reflectance(Scalar::one(), ref_idx) == r0(ref_idx),
{
    let k = Scalar::one().sub(r0(ref_idx));
    assert(pow5(Scalar::zero()) == Scalar::zero()) by {
        assert(0int * 0int == 0) by (nonlinear_arith);
    }
    assert(k.mul(Scalar::zero()) == Scalar::zero()) by {
        assert(k.raw * 0int == 0) by (nonlinear_arith);
    }
}

/// The reflectance does not fall as the angle of incidence grows from
/// head on to grazing, that is, as the cosine falls from one to zero.
pub proof fn lemma_reflectance_monotone(c1: Scalar, c2: Scalar, ref_idx: Scalar)
    requires
        0 <= c1.raw <= c2.raw <= ONE_RAW,
        ref_idx.raw >= 0,
    ensures
        reflectance(c2, ref_idx).raw <= reflectance(c1, ref_idx).raw,
{
    lemma_r0_within_one(ref_idx);
    let k = Scalar::one().sub(r0(ref_idx));
    let x1 = Scalar::one().sub(c1);
    let x2 = Scalar::one().sub(c2);
    lemma_mul_monotone(x2, x1, x2, x1);
    lemma_mul_monotone(x2.mul(x2), x1.mul(x1), x2, x1);
    lemma_mul_monotone(x2.mul(x2).mul(x2), x1.mul(x1).mul(x1), x2, x1);
    lemma_mul_monotone(x2.mul(x2).mul(x2).mul(x2), x1.mul(x1).mul(x1).mul(x1), x2, x1);
    lemma_mul_monotone(k, k, pow5(x2), pow5(x1));
}

} // verus!
