//! Surface materials and how they scatter light.

use crate::hittable::HitRecord;
use crate::ray::{
    is_unit_sample, lemma_origin_in_unit_sphere, random_unit_vector, reflect, reflectance, refract,
    unit_vector_draw, Ray,
};
use crate::sampler::Sampler;
use crate::scalar::{lemma_mul_within_one, Scalar, ONE_RAW};
use crate::vec3::Vec3;
use vstd::prelude::*;

verus! {

/// What a surface does with the light that reaches it.
#[derive(Clone, Copy, Debug, PartialEq, Eq, Structural)]
pub enum Material {
    /// A diffuse surface.
    Lambertian { albedo: Vec3 },
    /// A mirror, blurred by `fuzz`.
    Metal { albedo: Vec3, fuzz: Scalar },
    /// Glass and the like.
    Dielectric { refractive_index: Scalar },
}

/// The ray that leaves a surface and how much of each colour it keeps.
#[derive(Clone, Copy, Debug, PartialEq, Eq, Structural)]
pub struct ScatteredRay {
    pub ray: Ray,
    pub attenuation: Vec3,
}

/// Whether each component of a colour lies between zero and one.
pub open spec fn is_albedo(colour: Vec3) -> bool {
    &&& 0 <= colour.x.raw <= Scalar::one().raw
    &&& 0 <= colour.y.raw <= Scalar::one().raw
    &&& 0 <= colour.z.raw <= Scalar::one().raw
}

/// The colour with each component clamped between zero and one.
pub open spec fn spec_clamp_albedo(colour: Vec3) -> Vec3 {
    Vec3 {
        x: colour.x.clamp(Scalar::zero(), Scalar::one()),
        y: colour.y.clamp(Scalar::zero(), Scalar::one()),
        z: colour.z.clamp(Scalar::zero(), Scalar::one()),
    }
}

/// The colour with each component clamped between zero and one.
#[verifier::when_used_as_spec(spec_clamp_albedo)]
pub fn clamp_albedo(colour: Vec3) -> (r: Vec3)
    ensures
        r == spec_clamp_albedo(colour),
        is_albedo(r),
        is_albedo(colour) ==> r == colour,
{
    Vec3 {
        x: colour.x.clamp(Scalar::zero(), Scalar::one()),
        y: colour.y.clamp(Scalar::zero(), Scalar::one()),
        z: colour.z.clamp(Scalar::zero(), Scalar::one()),
    }
}

/// The raw value up to which a length counts as zero: a hundred
/// millionth, rounded towards zero.
pub const TINY_RAW: i64 = 42;

/// The random numbers that one scattering uses.
#[derive(Clone, Copy, Debug, PartialEq, Eq, Structural)]
pub struct ScatterSample {
    /// A random direction.
    pub unit: Vec3,
    /// A number that decides between reflection and refraction.
    pub choice: Scalar,
}

impl ScatterSample {
    /// The direction is a normalized point of the unit sphere's inside and
    /// the choice is at least zero and less than one.
    pub open spec fn valid(self) -> bool {
        is_unit_sample(self.unit) && 0 <= self.choice.raw < ONE_RAW
    }

    pub open spec fn spec_still() -> ScatterSample {
        ScatterSample { unit: Vec3::zero(), choice: Scalar::zero() }
    }

    /// The sample that perturbs no direction and always chooses to reflect
    /// where the reflectance is positive.
    #[verifier::when_used_as_spec(spec_still)]
    pub fn still() -> (r: ScatterSample)
        ensures
            r == ScatterSample::spec_still(),
            r.valid(),
    {
        proof {
            lemma_still_valid();
        }
        ScatterSample { unit: Vec3::zero(), choice: Scalar::zero() }
    }

    /// Whether the sample is what `draw` gives when it takes a generator
    /// from the history `before` to the history `after`: the direction is
    /// drawn as `random_unit_vector` draws it, and the choice is the next
    /// number of the generator, the last of `after`.
    pub open spec fn drawn(self, before: Seq<i64>, after: Seq<i64>) -> bool {
        &&& after.len() > before.len()
        &&& unit_vector_draw(before, after.drop_last(), self.unit)
        &&& self.choice.raw == after.last()
    }

    /// A random sample: a random direction, and then the next number of
    /// the generator as the choice.
    pub fn draw(sampler: &mut Sampler) -> (r: ScatterSample)
        ensures
            r.valid(),
            r.drawn(old(sampler)@, final(sampler)@),
            final(sampler).seed() == old(sampler).seed(),
    {
        let unit = random_unit_vector(sampler);
        let ghost mid = sampler@;
        let choice = sampler.unit();
        assert(sampler@.drop_last() =~= mid);
        ScatterSample { unit, choice }
    }
}

/// The still sample is valid: the origin, normalized, is the origin.
pub proof fn lemma_still_valid()
    ensures
        ScatterSample::still().valid(),
{
    lemma_origin_in_unit_sphere();
    assert(0int * 0int == 0) by (nonlinear_arith);
    assert(Vec3::zero().normalize() == Vec3::zero());
}

/// By how much a metal of the given fuzz turns a reflected ray aside: the
/// random direction times the fuzz, which counts as zero where it is
/// negative and as one where it is more than one.
pub open spec fn spec_metal_perturbation(fuzz: Scalar, unit: Vec3) -> Vec3 {
    unit.scale(fuzz.clamp(Scalar::zero(), Scalar::one()))
}

/// A metal turns a reflected ray aside by no more than one in each
/// coordinate, whatever its fuzz, where the random direction is no larger.
pub proof fn lemma_metal_perturbation_within_one(fuzz: Scalar, unit: Vec3)
    requires
        unit.within_one(),
    ensures
        spec_metal_perturbation(fuzz, unit).within_one(),
{
    let factor = fuzz.clamp(Scalar::zero(), Scalar::one());
    lemma_mul_within_one(factor, unit.x);
    lemma_mul_within_one(factor, unit.y);
    lemma_mul_within_one(factor, unit.z);
}

/// The ratio of the refractive indices on the two sides of a surface of a
/// material with index `refractive_index`, for a ray that enters it
/// through its front face or leaves it through its back.
pub open spec fn spec_refraction_ratio(refractive_index: Scalar, front_face: bool) -> Scalar {
    if front_face {
        Scalar::one().div(refractive_index)
    } else {
        refractive_index
    }
}

/// The direction in which a dielectric sends on a ray of direction
/// `direction` that hits it where the normal is `normal`. The ray is
/// reflected where Snell's law has no solution, and where the reflectance
/// exceeds `choice`; else it is refracted.
pub open spec fn spec_dielectric_direction(
    refractive_index: Scalar,
    direction: Vec3,
    normal: Vec3,
    front_face: bool,
    choice: Scalar,
) -> Vec3 {
    let ratio = spec_refraction_ratio(refractive_index, front_face);
    let unit_direction = direction.normalize();
    let cos_theta = unit_direction.dot(normal).neg().min(Scalar::one());
    let sin_theta = Scalar::one().sub(cos_theta.mul(cos_theta)).sqrt();
    let cannot_refract = ratio.mul(sin_theta).raw > ONE_RAW;
    if cannot_refract || reflectance(cos_theta, ratio).raw > choice.raw {
        reflect(&unit_direction, &normal)
    } else {
        refract(unit_direction, normal, ratio)
    }
}

/// The direction in which a dielectric sends on a ray.
#[verifier::when_used_as_spec(spec_dielectric_direction)]
pub fn dielectric_direction(
    refractive_index: Scalar,
    direction: Vec3,
    normal: Vec3,
    front_face: bool,
    choice: Scalar,
) -> (r: Vec3)
    ensures
        r == spec_dielectric_direction(refractive_index, direction, normal, front_face, choice),
{
    let ratio = if front_face {
        Scalar::one().div(refractive_index)
    } else {
        refractive_index
    };
    let unit_direction = direction.normalize();
    let cos_theta = unit_direction.dot(normal).neg().min(Scalar::one());
    let sin_theta = Scalar::one().sub(cos_theta.mul(cos_theta)).sqrt();
    let cannot_refract = Scalar::one().lt(ratio.mul(sin_theta));
    if cannot_refract || choice.lt(reflectance(cos_theta, ratio)) {
        reflect(&unit_direction, &normal)
    } else {
        refract(unit_direction, normal, ratio)
    }
}

impl Material {
    pub open spec fn spec_scatter_with(
        &self,
        r_in: &Ray,
        hit_record: &HitRecord,
        sample: &ScatterSample,
    ) -> Option<ScatteredRay> {
        match *self {
            Material::Lambertian { albedo } => {
                let direction = hit_record.normal.add(sample.unit);
                Some(
                    ScatteredRay {
                        ray: Ray::new(
                            hit_record.point,
                            if direction.length().raw <= TINY_RAW {
                                hit_record.normal
                            } else {
                                direction
                            },
                        ),
                        attenuation: albedo,
                    },
                )
            },
            Material::Metal { albedo, fuzz } => Some(
                ScatteredRay {
                    ray: Ray::new(
                        hit_record.point,
                        spec_metal_perturbation(fuzz, sample.unit).add(
                            reflect(&r_in.direction, &hit_record.normal),
                        ),
                    ),
                    attenuation: albedo,
                },
            ),
            Material::Dielectric { refractive_index } => Some(
                ScatteredRay {
                    ray: Ray::new(
                        hit_record.point,
                        dielectric_direction(
                            refractive_index,
                            r_in.direction,
                            hit_record.normal,
                            hit_record.front_face,
                            sample.choice,
                        ),
                    ),
                    attenuation: Vec3::ones(),
                },
            ),
        }
    }

    /// What the material does to the ray `r_in` that hit it as
    /// `hit_record` tells, given the random numbers of `sample`.
    ///
    /// A diffuse surface sends the ray on along the normal plus the random
    /// direction, or along the normal where the length of that sum is at
    /// most `TINY_RAW`. A metal reflects it and adds the random direction times
    /// its fuzz, clamped between zero and one. Both keep of each colour
    /// what their albedo says. A
    /// dielectric reflects or refracts it and keeps all the light.
    #[verifier::when_used_as_spec(spec_scatter_with)]
    pub fn scatter_with(
        &self,
        r_in: &Ray,
        hit_record: &HitRecord,
        sample: &ScatterSample,
    ) -> (r: Option<ScatteredRay>)
        ensures
            r == self.spec_scatter_with(r_in, hit_record, sample),
            r matches Some(scattered) && scattered.ray.origin == hit_record.point,
    {
        match *self {
            Material::Lambertian { albedo } => {
                let direction = hit_record.normal.add(sample.unit);
                let direction = if direction.length().le(Scalar { raw: TINY_RAW }) {
                    hit_record.normal
                } else {
                    direction
                };
                Some(ScatteredRay { ray: Ray::new(hit_record.point, direction), attenuation: albedo })
            },
            Material::Metal { albedo, fuzz } => {
                let reflected = reflect(&r_in.direction, &hit_record.normal);
                let perturbation = sample.unit.scale(
                    fuzz.clamp(Scalar::zero(), Scalar::one()),
                );
                let direction = perturbation.add(reflected);
                Some(ScatteredRay { ray: Ray::new(hit_record.point, direction), attenuation: albedo })
            },
            Material::Dielectric { refractive_index } => {
                let direction = dielectric_direction(
                    refractive_index,
                    r_in.direction,
                    hit_record.normal,
                    hit_record.front_face,
                    sample.choice,
                );
                Some(
                    ScatteredRay {
                        ray: Ray::new(hit_record.point, direction),
                        attenuation: Vec3::ones(),
                    },
                )
            },
        }
    }

    /// What the material does to the ray `r_in` that hit it as
    /// `hit_record` tells, with random numbers drawn from `sampler`: the
    /// result of `scatter_with` on the sample that `ScatterSample::draw`
    /// draws from the generator. Every material scatters.
    pub fn scatter(&self, r_in: &Ray, hit_record: &HitRecord, sampler: &mut Sampler) -> (r: Option<
        ScatteredRay,
    >)
        ensures
            r is Some,
            final(sampler).seed() == old(sampler).seed(),
            exists|sample: ScatterSample|
                sample.valid() && sample.drawn(old(sampler)@, final(sampler)@) && r
                    == #[trigger] self.spec_scatter_with(r_in, hit_record, &sample),
    {
        let sample = ScatterSample::draw(sampler);
        self.scatter_with(r_in, hit_record, &sample)
    }

    /// The albedo's components and the fuzz lie between zero and one.
    pub open spec fn wf(self) -> bool {
        match self {
            Material::Lambertian { albedo } => is_albedo(albedo),
            Material::Metal { albedo, fuzz } => is_albedo(albedo) && 0 <= fuzz.raw
                <= Scalar::one().raw,
            Material::Dielectric { refractive_index } => refractive_index.wf(),
        }
    }

    /// A diffuse material; the albedo is clamped component by component.
    pub fn lambertian(albedo: Vec3) -> (r: Material)
        ensures
            r == (Material::Lambertian { albedo: clamp_albedo(albedo) }),
            r.wf(),
    {
        Material::Lambertian { albedo: clamp_albedo(albedo) }
    }

    /// A metal; the albedo and the fuzz are clamped between zero and one.
    pub fn metal(albedo: Vec3, fuzz: Scalar) -> (r: Material)
        ensures
            r == (Material::Metal {
                albedo: clamp_albedo(albedo),
                fuzz: fuzz.clamp(Scalar::zero(), Scalar::one()),
            }),
            r.wf(),
    {
        Material::Metal {
            albedo: clamp_albedo(albedo),
            fuzz: fuzz.clamp(Scalar::zero(), Scalar::one()),
        }
    }

    /// A dielectric with the given index of refraction.
    pub fn dielectric(refractive_index: Scalar) -> (r: Material)
        ensures
            r == (Material::Dielectric { refractive_index: Scalar::from_raw(refractive_index.raw) }),
            r.wf(),
    {
        Material::Dielectric { refractive_index: Scalar::from_raw(refractive_index.raw) }
    }
}

} // verus!
