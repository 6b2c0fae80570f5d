//! The camera: where the rays of a pixel start and what image they give.

use crate::error::ConfigError;
use crate::hittable::Hittable;
use crate::image::{ppm_image, spec_ppm_image, Pixel};
use crate::material::ScatterSample;
use crate::ray::{
    disk_draw, in_unit_disk, lemma_origin_in_unit_sphere, random_in_unit_disk, traced, Ray,
};
use crate::sampler::{extends, Sampler};
use crate::scalar::{Scalar, HALF_RAW, ONE_RAW};
use crate::vec3::Vec3;
use itertools::Itertools;
use vstd::prelude::*;

verus! {

/// How many times a ray may bounce unless the camera is told otherwise.
pub const DEFAULT_MAX_DEPTH: u32 = 50;

/// The largest number of pixels of an image that `render` builds.
pub const MAX_PIXELS: u64 = 0x0fff_ffff;

/// The pairs `(y, x)` with `y < height` and `x < width`, row by row.
///
/// This is `Itertools::cartesian_product` of itertools on the two ranges,
/// collected. Its iterator pairs each item of the first range, in order,
/// with every item of the second, in order. The number of pairs is bounded
/// so that the vector can be allocated.
#[verifier::external_body]
fn grid(height: u32, width: u32) -> (r: Vec<(u32, u32)>)
    requires
        height * width <= MAX_PIXELS,
    ensures
        r@.len() == height * width,
        forall|i: int|
            0 <= i < r@.len() ==> (#[trigger] r@[i]).0 == i / (width as int) && r@[i].1 == i % (
            width as int),
{
    (0..height).cartesian_product(0..width).collect()
}

/// The random numbers that one ray through a pixel uses.
#[derive(Clone, Copy, Debug, PartialEq, Eq, Structural)]
pub struct RaySample {
    /// Where in the pixel the ray aims, from its centre, in pixel widths.
    pub px: Scalar,
    /// Where in the pixel the ray aims, from its centre, in pixel heights.
    pub py: Scalar,
    /// Where on the lens the ray starts, as a point of the unit disk.
    pub lens: Vec3,
}

impl RaySample {
    /// The offsets are at least minus a half and less than a half, and the
    /// point of the lens lies in the unit disk.
    pub open spec fn valid(self) -> bool {
        &&& -HALF_RAW <= self.px.raw < HALF_RAW
        &&& -HALF_RAW <= self.py.raw < HALF_RAW
        &&& in_unit_disk(self.lens)
    }

    pub open spec fn spec_centered() -> RaySample {
        RaySample { px: Scalar::zero(), py: Scalar::zero(), lens: Vec3::zero() }
    }

    /// The sample of the ray through the centre of the pixel from the
    /// centre of the lens.
    #[verifier::when_used_as_spec(spec_centered)]
    pub fn centered() -> (r: RaySample)
        ensures
            r == RaySample::spec_centered(),
            r.valid(),
    {
        proof {
            lemma_origin_in_unit_sphere();
        }
        RaySample { px: Scalar::zero(), py: Scalar::zero(), lens: Vec3::zero() }
    }
}

/// The height of an image of the given width and aspect ratio: the width
/// divided by the aspect ratio, rounded down, but at least one and at most
/// the largest `u32`. It is one where the aspect ratio is negative, and
/// where it is zero it is the largest `u32`, unless the width is zero too.
pub open spec fn spec_image_height(image_width: u32, aspect_ratio: Scalar) -> u32 {
    let height: int = if aspect_ratio.raw > 0 {
        (image_width * ONE_RAW) / (aspect_ratio.raw as int)
    } else if aspect_ratio.raw == 0 && image_width > 0 {
        u32::MAX as int
    } else {
        0
    };
    if height < 1 {
        1
    } else if height > u32::MAX {
        u32::MAX
    } else {
        height as u32
    }
}

/// The height of an image of the given width and aspect ratio.
#[verifier::when_used_as_spec(spec_image_height)]
pub fn image_height(image_width: u32, aspect_ratio: Scalar) -> (r: u32)
    ensures
        r == spec_image_height(image_width, aspect_ratio),
        r >= 1,
{
    if aspect_ratio.raw > 0 {
        assert(image_width * ONE_RAW <= 0xffff_ffff_0000_0000) by (nonlinear_arith)
            requires
                0 <= image_width <= 0xffff_ffff,
                ONE_RAW == 0x1_0000_0000,
        ;
        let height: u128 = ((image_width as u128) * (ONE_RAW as u128)) / (aspect_ratio.raw as u128);
        if height < 1 {
            1
        } else if height > u32::MAX as u128 {
            u32::MAX
        } else {
            height as u32
        }
    } else if aspect_ratio.raw == 0 && image_width > 0 {
        u32::MAX
    } else {
        1
    }
}

/// A pinhole or thin-lens camera and the size of its image.
#[derive(Clone, Copy, Debug, PartialEq, Eq, Structural)]
pub struct Camera {
    pub aspect_ratio: Scalar,
    pub image_width: u32,
    pub image_height: u32,
    pub max_depth: u32,
    pub center: Vec3,
    /// The centre of the pixel in the top left corner.
    pub pixel00_loc: Vec3,
    /// From one pixel to the next in its row.
    pub pixel_delta_u: Vec3,
    /// From one pixel to the next in its column.
    pub pixel_delta_v: Vec3,
    pub samples_per_pixel: u32,
    pub focus_dist: Scalar,
    /// The tangent of half the defocus angle; a pinhole where it is not
    /// positive.
    pub half_defocus_tan: Scalar,
    pub defocus_disk_u: Vec3,
    pub defocus_disk_v: Vec3,
}

impl Camera {
    /// The camera takes at least one sample of a pixel and lets a ray
    /// bounce at least once.
    pub open spec fn wf(self) -> bool {
        self.samples_per_pixel > 0 && self.max_depth > 0
    }

    /// The camera at `look_from` that looks at `look_at` with the `y` axis
    /// up. `half_vfov_tan` is the tangent of half its vertical field of
    /// view; the plane of focus lies `focus_dist` away and the lens has
    /// the radius `focus_dist * half_defocus_tan`.
    pub open spec fn spec_new(
        image_width: u32,
        aspect_ratio: Scalar,
        samples_per_pixel: u32,
        half_vfov_tan: Scalar,
        look_from: Vec3,
        look_at: Vec3,
        half_defocus_tan: Scalar,
        focus_dist: Scalar,
    ) -> Camera {
        let image_height = image_height(image_width, aspect_ratio);
        let vup = Vec3::new(Scalar::zero(), Scalar::one(), Scalar::zero());
        let w = look_from.sub(look_at).normalize();
        let u = vup.cross(w).normalize();
        let v = w.cross(u);
        let viewport_height = Scalar::from_int(2).mul(half_vfov_tan).mul(focus_dist);
        let viewport_width = viewport_height.mul(
            Scalar::from_ratio(image_width as i64, image_height as i64),
        );
        let viewport_u = u.scale(viewport_width);
        let viewport_v = v.neg().scale(viewport_height);
        let pixel_delta_u = viewport_u.div(Scalar::from_int(image_width as i64));
        let pixel_delta_v = viewport_v.div(Scalar::from_int(image_height as i64));
        let viewport_upper_left = look_from.sub(w.scale(focus_dist)).sub(
            viewport_u.div(Scalar::from_int(2)),
        ).sub(viewport_v.div(Scalar::from_int(2)));
        let defocus_radius = focus_dist.mul(half_defocus_tan);
        Camera {
            aspect_ratio,
            image_width,
            image_height,
            max_depth: DEFAULT_MAX_DEPTH,
            center: look_from,
            pixel00_loc: viewport_upper_left.add(
                pixel_delta_v.add(pixel_delta_u).scale(Scalar::half()),
            ),
            pixel_delta_u,
            pixel_delta_v,
            samples_per_pixel,
            focus_dist,
            half_defocus_tan,
            defocus_disk_u: u.scale(defocus_radius),
            defocus_disk_v: v.scale(defocus_radius),
        }
    }

    /// The camera of `spec_new`, where it takes at least one sample of a
    /// pixel.
    pub fn new(
        image_width: u32,
        aspect_ratio: Scalar,
        samples_per_pixel: u32,
        half_vfov_tan: Scalar,
        look_from: Vec3,
        look_at: Vec3,
        half_defocus_tan: Scalar,
        focus_dist: Scalar,
    ) -> (r: Result<Camera, ConfigError>)
        ensures
            samples_per_pixel > 0 ==> r == Ok::<Camera, ConfigError>(
                Camera::spec_new(
                    image_width,
                    aspect_ratio,
                    samples_per_pixel,
                    half_vfov_tan,
                    look_from,
                    look_at,
                    half_defocus_tan,
                    focus_dist,
                ),
            ),
            samples_per_pixel == 0 ==> r == Err::<Camera, ConfigError>(ConfigError::NoSamples),
            r matches Ok(camera) ==> camera.wf() && camera.max_depth == DEFAULT_MAX_DEPTH
                && camera.image_height >= 1,
    {
        if samples_per_pixel == 0 {
            return Err(ConfigError::NoSamples);
        }
        let image_height = image_height(image_width, aspect_ratio);
        let vup = Vec3::new(Scalar::zero(), Scalar::one(), Scalar::zero());
        let w = look_from.sub(look_at).normalize();
        let u = vup.cross(w).normalize();
        let v = w.cross(u);
        let viewport_height = Scalar::from_int(2).mul(half_vfov_tan).mul(focus_dist);
        let viewport_width = viewport_height.mul(
            Scalar::from_ratio(image_width as i64, image_height as i64),
        );
        let viewport_u = u.scale(viewport_width);
        let viewport_v = v.neg().scale(viewport_height);
        let pixel_delta_u = viewport_u.div(Scalar::from_int(image_width as i64));
        let pixel_delta_v = viewport_v.div(Scalar::from_int(image_height as i64));
        let viewport_upper_left = look_from.sub(w.scale(focus_dist)).sub(
            viewport_u.div(Scalar::from_int(2)),
        ).sub(viewport_v.div(Scalar::from_int(2)));
        let defocus_radius = focus_dist.mul(half_defocus_tan);
        Ok(
            Camera {
                aspect_ratio,
                image_width,
                image_height,
                max_depth: DEFAULT_MAX_DEPTH,
                center: look_from,
                pixel00_loc: viewport_upper_left.add(
                    pixel_delta_v.add(pixel_delta_u).scale(Scalar::half()),
                ),
                pixel_delta_u,
                pixel_delta_v,
                samples_per_pixel,
                focus_dist,
                half_defocus_tan,
                defocus_disk_u: u.scale(defocus_radius),
                defocus_disk_v: v.scale(defocus_radius),
            },
        )
    }

    /// The same camera with another limit on the bounces of a ray, where
    /// the limit is positive.
    pub fn with_max_depth(self, max_depth: u32) -> (r: Result<Camera, ConfigError>)
        ensures
            max_depth > 0 ==> r == Ok::<Camera, ConfigError>(Camera { max_depth, ..self }),
            max_depth == 0 ==> r == Err::<Camera, ConfigError>(ConfigError::NoDepth),
    {
        if max_depth == 0 {
            Err(ConfigError::NoDepth)
        } else {
            Ok(Camera { max_depth, ..self })
        }
    }

    /// The centre of the pixel in column `x` of row `y`.
    pub open spec fn spec_pixel_center(&self, x: u32, y: u32) -> Vec3 {
        self.pixel00_loc.add(self.pixel_delta_v.scale(Scalar::from_int(y as i64))).add(
            self.pixel_delta_u.scale(Scalar::from_int(x as i64)),
        )
    }

    /// The offset from the centre of a pixel of the point that lies `px`
    /// pixel widths and `py` pixel heights from it.
    pub open spec fn spec_pixel_offset(&self, px: Scalar, py: Scalar) -> Vec3 {
        self.pixel_delta_u.scale(px).add(self.pixel_delta_v.scale(py))
    }

    /// The point of the lens that the point `p` of the unit disk stands
    /// for.
    pub open spec fn spec_lens_point(&self, p: Vec3) -> Vec3 {
        self.center.add(self.defocus_disk_u.scale(p.x)).add(self.defocus_disk_v.scale(p.y))
    }

    pub open spec fn spec_get_ray_with(&self, x: u32, y: u32, sample: &RaySample) -> Ray {
        let pixel_sample = self.spec_pixel_offset(sample.px, sample.py).add(
            self.spec_pixel_center(x, y),
        );
        let origin = if self.half_defocus_tan.raw <= 0 {
            self.center
        } else {
            self.spec_lens_point(sample.lens)
        };
        Ray::new(origin, pixel_sample.sub(origin))
    }

    /// The ray for the pixel in column `x` of row `y`, given its random
    /// numbers. It aims at the point of the pixel that the sample names.
    /// It starts at the centre of a pinhole camera, and else at the point
    /// of the lens that the sample names.
    #[verifier::when_used_as_spec(spec_get_ray_with)]
    pub fn get_ray_with(&self, x: u32, y: u32, sample: &RaySample) -> (r: Ray)
        ensures
            r == self.spec_get_ray_with(x, y, sample),
    {
        let pixel_center = self.pixel00_loc.add(
            self.pixel_delta_v.scale(Scalar::from_int(y as i64)),
        ).add(self.pixel_delta_u.scale(Scalar::from_int(x as i64)));
        let offset = self.pixel_delta_u.scale(sample.px).add(self.pixel_delta_v.scale(sample.py));
        let pixel_sample = offset.add(pixel_center);
        let origin = if self.half_defocus_tan.le(Scalar::zero()) {
            self.center
        } else {
            self.center.add(self.defocus_disk_u.scale(sample.lens.x)).add(
                self.defocus_disk_v.scale(sample.lens.y),
            )
        };
        Ray::new(origin, pixel_sample.sub(origin))
    }

    /// A random offset within a pixel, from its centre. The next two
    /// numbers of the generator, each less a half, say how many pixel widths
    /// and pixel heights the point lies from the centre.
    pub fn pixel_sample_square(&self, sampler: &mut Sampler) -> (r: (Scalar, Scalar, Vec3))
        ensures
            -HALF_RAW <= r.0.raw < HALF_RAW,
            -HALF_RAW <= r.1.raw < HALF_RAW,
            r.2 == self.spec_pixel_offset(r.0, r.1),
            final(sampler).seed() == old(sampler).seed(),
            extends(final(sampler)@, old(sampler)@),
            final(sampler)@.len() == old(sampler)@.len() + 2,
            r.0.raw == final(sampler)@[old(sampler)@.len() as int] - HALF_RAW,
            r.1.raw == final(sampler)@[old(sampler)@.len() as int + 1] - HALF_RAW,
    {
        let px = Scalar { raw: sampler.unit().raw - HALF_RAW };
        let py = Scalar { raw: sampler.unit().raw - HALF_RAW };
        (px, py, self.pixel_delta_u.scale(px).add(self.pixel_delta_v.scale(py)))
    }

    /// A random point of the lens, with the point of the unit disk that
    /// stands for it, which is the point that `random_in_unit_disk` draws.
    pub fn defocus_disk_sample(&self, sampler: &mut Sampler) -> (r: (Vec3, Vec3))
        ensures
            in_unit_disk(r.0),
            disk_draw(old(sampler)@, final(sampler)@, r.0),
            final(sampler).seed() == old(sampler).seed(),
            r.1 == self.spec_lens_point(r.0),
    {
        let p = random_in_unit_disk(sampler);
        (p, self.center.add(self.defocus_disk_u.scale(p.x)).add(self.defocus_disk_v.scale(p.y)))
    }

    /// Whether `sample` is what `get_ray` draws when it takes a generator
    /// from the history `before` to the history `after`. The next two
    /// numbers of the generator, each less a half, are the offsets within
    /// the pixel. A pinhole camera draws no more and starts its ray at the
    /// centre; any other goes on to draw the point of the lens as
    /// `random_in_unit_disk` draws it.
    pub open spec fn draws(&self, before: Seq<i64>, after: Seq<i64>, sample: RaySample) -> bool {
        let start = before.len() as int;
        &&& extends(after, before)
        &&& after.len() >= start + 2
        &&& sample.px.raw == after[start] - HALF_RAW
        &&& sample.py.raw == after[start + 1] - HALF_RAW
        &&& if self.half_defocus_tan.raw <= 0 {
            after.len() == start + 2 && sample.lens == Vec3::zero()
        } else {
            disk_draw(after.subrange(0, start + 2), after, sample.lens)
        }
    }

    /// A random ray for the pixel in column `x` of row `y`: what
    /// `get_ray_with` gives for the sample that is drawn from the
    /// generator.
    pub fn get_ray(&self, x: u32, y: u32, sampler: &mut Sampler) -> (r: Ray)
        ensures
            final(sampler).seed() == old(sampler).seed(),
            exists|sample: RaySample|
                sample.valid() && self.draws(old(sampler)@, final(sampler)@, sample) && r
                    == #[trigger] self.spec_get_ray_with(x, y, &sample),
    {
        let ghost before = sampler@;
        let (px, py, _) = self.pixel_sample_square(sampler);
        let ghost mid = sampler@;
        let lens = if self.half_defocus_tan.le(Scalar::zero()) {
            proof {
                lemma_origin_in_unit_sphere();
            }
            Vec3::zero()
        } else {
            self.defocus_disk_sample(sampler).0
        };
        let sample = RaySample { px, py, lens };
        proof {
            assert(sampler@.subrange(0, before.len() as int + 2) =~= mid);
            assert(self.draws(before, sampler@, sample));
        }
        self.get_ray_with(x, y, &sample)
    }

    /// Whether `colour` is what a ray through the pixel in column `x` of
    /// row `y` sees when the generator goes from the history `before` to
    /// the history `after`: `sample` is drawn for the ray, and then the
    /// samples for the surfaces that it hits.
    pub open spec fn sees<T: Hittable>(
        &self,
        world: &Vec<T>,
        x: u32,
        y: u32,
        before: Seq<i64>,
        after: Seq<i64>,
        sample: RaySample,
        samples: Seq<ScatterSample>,
        marks: Seq<Seq<i64>>,
        colour: Vec3,
    ) -> bool {
        &&& sample.valid()
        &&& self.draws(before, marks.first(), sample)
        &&& marks.last() == after
        &&& traced(
            self.spec_get_ray_with(x, y, &sample),
            self.max_depth as nat,
            world,
            samples,
            marks,
            colour,
        )
    }

    /// Whether a ray through the pixel may see `colour` while the
    /// generator goes from the history `before` to the history `after`.
    pub open spec fn may_see<T: Hittable>(
        &self,
        world: &Vec<T>,
        x: u32,
        y: u32,
        before: Seq<i64>,
        after: Seq<i64>,
        colour: Vec3,
    ) -> bool {
        exists|sample: RaySample, samples: Seq<ScatterSample>, marks: Seq<Seq<i64>>| #[trigger]
            self.sees(world, x, y, before, after, sample, samples, marks, colour)
    }

    /// Whether `pixel` is what the colours add up to that the rays of the
    /// pixel in column `x` of row `y` see, one for each sample of the
    /// pixel, the `i`-th while the generator goes from the history
    /// `marks[i]` to the history `marks[i + 1]`.
    pub open spec fn shows<T: Hittable>(
        &self,
        world: &Vec<T>,
        x: u32,
        y: u32,
        colours: Seq<Vec3>,
        marks: Seq<Seq<i64>>,
        pixel: Pixel,
    ) -> bool {
        &&& colours.len() == self.samples_per_pixel
        &&& marks.len() == colours.len() + 1
        &&& forall|i: int|
            0 <= i < colours.len() ==> self.may_see(
                world,
                x,
                y,
                marks[i],
                marks[i + 1],
                #[trigger] colours[i],
            )
        &&& pixel == Pixel::from_sum(sum_colours(colours), self.samples_per_pixel)
    }

    /// Whether a generator that has handed out nothing yet may give
    /// `pixel` in column `x` of row `y`.
    pub open spec fn may_show<T: Hittable>(&self, world: &Vec<T>, x: u32, y: u32, pixel: Pixel) -> bool {
        exists|colours: Seq<Vec3>, marks: Seq<Seq<i64>>| #[trigger]
            self.shows(world, x, y, colours, marks, pixel) && marks.first() == Seq::<i64>::empty()
    }

    /// The pixel in column `x` of row `y`: as many random rays as the
    /// camera takes samples are followed through `world`, one after the
    /// other, and what they see is summed and turned into a pixel.
    pub fn render_pixel<T: Hittable>(
        &self,
        x: u32,
        y: u32,
        world: &Vec<T>,
        sampler: &mut Sampler,
    ) -> (pixel: Pixel)
        ensures
            final(sampler).seed() == old(sampler).seed(),
            exists|colours: Seq<Vec3>, marks: Seq<Seq<i64>>| #[trigger]
                self.shows(world, x, y, colours, marks, pixel) && marks.first() == old(sampler)@
                    && marks.last() == final(sampler)@,
    {
        let mut colour = Vec3::zero();
        let ghost mut colours: Seq<Vec3> = Seq::empty();
        let ghost mut marks: Seq<Seq<i64>> = seq![sampler@];
        let mut i: u32 = 0;
        while i < self.samples_per_pixel
            invariant
                i <= self.samples_per_pixel,
                colours.len() == i,
                marks.len() == i + 1,
                marks.first() == old(sampler)@,
                marks.last() == sampler@,
                sampler.seed() == old(sampler).seed(),
                forall|j: int|
                    0 <= j < colours.len() ==> self.may_see(
                        world,
                        x,
                        y,
                        marks[j],
                        marks[j + 1],
                        #[trigger] colours[j],
                    ),
                colour == sum_colours(colours),
            decreases self.samples_per_pixel - i,
        {
            let ghost before = sampler@;
            let ray = self.get_ray(x, y, sampler);
            let ghost mid = sampler@;
            let seen = ray.ray_color(self.max_depth, world, sampler);
            proof {
                let sample = choose|sample: RaySample|
                    sample.valid() && self.draws(before, mid, sample) && ray
                        == #[trigger] self.spec_get_ray_with(x, y, &sample);
                let (samples, steps) = choose|
                    samples: Seq<ScatterSample>,
                    steps: Seq<Seq<i64>>,
                | #[trigger]
                    traced(ray, self.max_depth as nat, world, samples, steps, seen)
                        && steps.first() == mid && steps.last() == sampler@;
                assert(self.sees(world, x, y, before, sampler@, sample, samples, steps, seen));
                let next = colours.push(seen);
                let next_marks = marks.push(sampler@);
                assert(next.drop_last() =~= colours);
                assert forall|j: int| 0 <= j < next.len() implies self.may_see(
                    world,
                    x,
                    y,
                    next_marks[j],
                    next_marks[j + 1],
                    #[trigger] next[j],
                ) by {
                    if j < colours.len() {
                        assert(next[j] == colours[j]);
                        assert(self.may_see(world, x, y, marks[j], marks[j + 1], colours[j]));
                    }
                }
                colours = next;
                marks = next_marks;
            }
            colour = colour.add(seen);
            i += 1;
        }
        let pixel = Pixel::from_sum(colour, self.samples_per_pixel);
        assert(self.shows(world, x, y, colours, marks, pixel));
        pixel
    }

    /// The seed of the generator for the pixel in column `x` of row `y`
    /// of an image that is rendered from `seed`: `seed` plus the place of
    /// the pixel in the image, counted row by row, wrapping round.
    pub open spec fn spec_pixel_seed(&self, seed: u64, x: u32, y: u32) -> u64 {
        seed.wrapping_add((y * self.image_width + x) as u64)
    }

    /// The generator for the pixel in column `x` of row `y` of an image
    /// that is rendered from `seed`, which has handed out nothing yet.
    pub fn pixel_sampler(&self, seed: u64, x: u32, y: u32) -> (r: Sampler)
        ensures
            r.seed() == self.spec_pixel_seed(seed, x, y),
            r@ == Seq::<i64>::empty(),
    {
        assert(y * self.image_width + x <= 0xffff_ffff * 0xffff_ffff + 0xffff_ffff) by (nonlinear_arith)
            requires
                0 <= y <= 0xffff_ffff,
                0 <= self.image_width <= 0xffff_ffff,
                0 <= x <= 0xffff_ffff,
        ;
        let index: u64 = (y as u64) * (self.image_width as u64) + (x as u64);
        Sampler::seeded(seed.wrapping_add(index))
    }

    /// The pixel in column `x` of row `y` of the image that is rendered
    /// from `seed`: what `render_pixel` gives with the generator of
    /// `pixel_sampler`.
    pub fn render_pixel_seeded<T: Hittable>(&self, x: u32, y: u32, world: &Vec<T>, seed: u64) -> (pixel:
        Pixel)
        ensures
            self.may_show(world, x, y, pixel),
    {
        let mut sampler = self.pixel_sampler(seed, x, y);
        self.render_pixel(x, y, world, &mut sampler)
    }

    /// Whether `pixels` holds, row by row, a pixel that the camera may
    /// show for each place of the image.
    pub open spec fn may_render<T: Hittable>(&self, world: &Vec<T>, pixels: Seq<Pixel>) -> bool {
        &&& pixels.len() == self.image_width * self.image_height
        &&& forall|i: int|
            0 <= i < pixels.len() ==> self.may_show(
                world,
                (i % (self.image_width as int)) as u32,
                (i / (self.image_width as int)) as u32,
                #[trigger] pixels[i],
            )
    }

    /// The image of `world` as a plain PPM file, where it has at most
    /// `MAX_PIXELS` pixels: the text of `ppm_image` for pixels that the
    /// camera may show, one for each place of the image. Each pixel is
    /// what `render_pixel_seeded` gives for `seed`.
    pub fn render<T: Hittable>(&self, world: &Vec<T>, seed: u64) -> (r: Result<Vec<u8>, ConfigError>)
        ensures
            self.image_width * self.image_height <= MAX_PIXELS ==> r is Ok,
            self.image_width * self.image_height > MAX_PIXELS ==> r == Err::<
                Vec<u8>,
                ConfigError,
            >(ConfigError::ImageTooLarge),
            r matches Ok(text) ==> exists|pixels: Seq<Pixel>|
                self.may_render(world, pixels) && text@ == #[trigger] spec_ppm_image(
                    self.image_width,
                    self.image_height,
                    pixels,
                ),
    {
        assert(self.image_width * self.image_height <= 0xffff_ffff * 0xffff_ffff) by (nonlinear_arith)
            requires
                0 <= self.image_width <= 0xffff_ffff,
                0 <= self.image_height <= 0xffff_ffff,
        ;
        let count: u64 = (self.image_width as u64) * (self.image_height as u64);
        if count > MAX_PIXELS {
            return Err(ConfigError::ImageTooLarge);
        }
        assert(self.image_height * self.image_width == self.image_width * self.image_height)
            by (nonlinear_arith);
        let places = grid(self.image_height, self.image_width);
        let mut pixels: Vec<Pixel> = Vec::new();
        let mut i: usize = 0;
        while i < places.len()
            invariant
                i <= places.len(),
                places@.len() == self.image_width * self.image_height,
                places@.len() <= MAX_PIXELS,
                forall|k: int|
                    0 <= k < places@.len() ==> (#[trigger] places@[k]).0 == k / (
                    self.image_width as int) && places@[k].1 == k % (self.image_width as int),
                pixels@.len() == i,
                forall|k: int|
                    0 <= k < pixels@.len() ==> self.may_show(
                        world,
                        (k % (self.image_width as int)) as u32,
                        (k / (self.image_width as int)) as u32,
                        #[trigger] pixels@[k],
                    ),
            decreases places.len() - i,
        {
            let (y, x) = places[i];
            let pixel = self.render_pixel_seeded(x, y, world, seed);
            pixels.push(pixel);
            i += 1;
        }
        assert(self.may_render(world, pixels@));
        Ok(ppm_image(self.image_width, self.image_height, &pixels))
    }
}

/// The sum of the colours, added from the left.
pub open spec fn sum_colours(colours: Seq<Vec3>) -> Vec3
    decreases colours.len(),
{
    if colours.len() == 0 {
        Vec3::zero()
    } else {
        sum_colours(colours.drop_last()).add(colours.last())
    }
}

} // verus!
