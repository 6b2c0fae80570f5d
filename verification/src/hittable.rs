//! What a ray can hit, and the record of a hit.

use crate::interval::Interval;
use crate::material::Material;
use crate::ray::Ray;
use crate::scalar::Scalar;
use crate::vec3::{lemma_dot_neg, Vec3};
use vstd::prelude::*;

verus! {

/// Where and how a ray met a surface.
#[derive(Clone, Copy, Debug, PartialEq, Eq, Structural)]
pub struct HitRecord {
    pub point: Vec3,
    /// The surface normal, turned against the ray.
    pub normal: Vec3,
    pub t: Scalar,
    /// Whether the ray came from the side the outward normal points to.
    pub front_face: bool,
    pub material: Material,
}

impl HitRecord {
    /// The normal does not point along the direction of `ray`.
    pub open spec fn opposes(self, ray: Ray) -> bool {
        ray.direction.dot(self.normal).raw <= 0
    }

    /// The point is the point of `ray` at the parameter of the hit.
    pub open spec fn lies_on(self, ray: Ray) -> bool {
        self.point == ray.at(self.t)
    }

    pub open spec fn spec_with_face_normal(
        point: Vec3,
        t: Scalar,
        outward_normal: &Vec3,
        material: Material,
        ray: &Ray,
    ) -> HitRecord {
        let outward = outward_normal.clamped();
        let front_face = ray.direction.dot(outward).raw < 0;
        HitRecord {
            point,
            normal: if front_face {
                outward
            } else {
                outward.neg()
            },
            t,
            front_face,
            material,
        }
    }

    /// The record of a hit at `point`. The ray hits the front face when it
    /// runs against the outward normal; the stored normal is the outward
    /// normal there and its opposite otherwise, so it never points along
    /// the ray. The components of the outward normal are first brought
    /// into range.
    #[verifier::when_used_as_spec(spec_with_face_normal)]
    pub fn with_face_normal(
        point: Vec3,
        t: Scalar,
        outward_normal: &Vec3,
        material: Material,
        ray: &Ray,
    ) -> (r: HitRecord)
        ensures
            r == HitRecord::spec_with_face_normal(point, t, outward_normal, material, ray),
            r.opposes(*ray),
    {
        let outward = outward_normal.clamped();
        let front_face = ray.direction.dot(outward).lt(Scalar::zero());
        proof {
            lemma_dot_neg(ray.direction, outward);
        }
        HitRecord {
            point,
            normal: if front_face {
                outward
            } else {
                outward.neg()
            },
            t,
            front_face,
            material,
        }
    }
}

/// The hit, if it comes before `cut`.
pub open spec fn before(hit: Option<HitRecord>, cut: Scalar) -> Option<HitRecord> {
    match hit {
        Some(rec) => if rec.t.raw < cut.raw {
            Some(rec)
        } else {
            None
        },
        None => None,
    }
}

/// Anything that a ray can hit.
pub trait Hittable {
    /// The first hit of `ray` with a parameter in `interval`, if there is one.
    spec fn hit_spec(&self, ray: Ray, interval: Interval) -> Option<HitRecord>;

    /// The first hit of `ray` with a parameter in `interval`, if there is
    /// one. Its parameter lies in the interval, its point is the point of
    /// the ray at that parameter, and its normal is turned against the ray.
    fn hit(&self, ray: &Ray, interval: Interval) -> (r: Option<HitRecord>)
        ensures
            r == self.hit_spec(*ray, interval),
            r matches Some(rec) ==> interval.contains(rec.t) && rec.lies_on(*ray) && rec.opposes(
                *ray,
            ),
    ;

    /// A hit lies in the interval that was searched and on the ray, with
    /// its normal turned against the ray.
    proof fn lemma_hit_within(&self, ray: Ray, interval: Interval)
        ensures
            self.hit_spec(ray, interval) matches Some(rec) ==> interval.contains(rec.t)
                && rec.lies_on(ray) && rec.opposes(ray),
    ;

    /// Searching a shorter interval finds the same hit where it comes
    /// before the cut, and none otherwise.
    proof fn lemma_hit_restricts(&self, ray: Ray, interval: Interval, cut: Scalar)
        requires
            cut.raw <= interval.max.raw,
        ensures
            self.hit_spec(ray, interval.until(cut)) == before(self.hit_spec(ray, interval), cut),
    ;
}

/// The end of the interval that is left to search once `best` is known.
pub open spec fn closest_so_far(best: Option<HitRecord>, interval: Interval) -> Scalar {
    match best {
        Some(rec) => rec.t,
        None => interval.max,
    }
}

/// The nearest hit among the first `n` objects: each object is searched
/// only before the nearest hit of those that precede it.
pub open spec fn scan_hits<T: Hittable>(
    objects: Seq<T>,
    n: nat,
    ray: Ray,
    interval: Interval,
) -> Option<HitRecord>
    decreases n,
{
    if n == 0 {
        None
    } else {
        let best = scan_hits(objects, (n - 1) as nat, ray, interval);
        match objects[n - 1].hit_spec(ray, interval.until(closest_so_far(best, interval))) {
            Some(rec) => Some(rec),
            None => best,
        }
    }
}

/// What a scan returns is the hit of one of the objects over the whole
/// interval, and no object has a hit that comes before it.
pub proof fn lemma_scan_nearest<T: Hittable>(
    objects: Seq<T>,
    n: nat,
    ray: Ray,
    interval: Interval,
)
    requires
        n <= objects.len(),
    ensures
        scan_hits(objects, n, ray, interval) matches Some(best) ==> interval.contains(best.t)
            && best.lies_on(ray) && best.opposes(ray) && exists|j: int|
            0 <= j < n && #[trigger] objects[j].hit_spec(ray, interval) == Some(best),
        forall|j: int|
            0 <= j < n ==> (#[trigger] objects[j].hit_spec(ray, interval) matches Some(rec)
                ==> scan_hits(objects, n, ray, interval) matches Some(best) && best.t.raw
                <= rec.t.raw),
    decreases n,
{
    if n > 0 {
        let m = (n - 1) as nat;
        lemma_scan_nearest(objects, m, ray, interval);
        let best = scan_hits(objects, m, ray, interval);
        let cut = closest_so_far(best, interval);
        let object = objects[n - 1];
        object.lemma_hit_restricts(ray, interval, cut);
        object.lemma_hit_within(ray, interval);
        object.lemma_hit_within(ray, interval.until(cut));
        if let Some(rec) = object.hit_spec(ray, interval.until(cut)) {
            assert(objects[n - 1].hit_spec(ray, interval) == Some(rec));
        }
    }
}

/// Cutting the interval commutes with scanning.
pub proof fn lemma_scan_restricts<T: Hittable>(
    objects: Seq<T>,
    n: nat,
    ray: Ray,
    interval: Interval,
    cut: Scalar,
)
    requires
        n <= objects.len(),
        cut.raw <= interval.max.raw,
    ensures
        scan_hits(objects, n, ray, interval.until(cut)) == before(
            scan_hits(objects, n, ray, interval),
            cut,
        ),
    decreases n,
{
    if n > 0 {
        let m = (n - 1) as nat;
        lemma_scan_restricts(objects, m, ray, interval, cut);
        let full = scan_hits(objects, m, ray, interval);
        let part = scan_hits(objects, m, ray, interval.until(cut));
        let object = objects[n - 1];
        let full_end = closest_so_far(full, interval);
        let part_end = closest_so_far(part, interval.until(cut));
        lemma_scan_nearest(objects, m, ray, interval);
        object.lemma_hit_within(ray, interval.until(full_end));
        object.lemma_hit_within(ray, interval.until(part_end));
        if part_end.raw <= full_end.raw {
            object.lemma_hit_restricts(ray, interval.until(full_end), part_end);
        }
        assert(interval.until(cut).until(part_end) == interval.until(part_end));
        assert(interval.until(full_end).until(part_end) == interval.until(part_end));
    }
}

/// The hit of a sequence of objects is the hit of one of them, and none of
/// them is hit before it.
pub proof fn lemma_nearest_hit<T: Hittable>(world: &Vec<T>, ray: Ray, interval: Interval)
    ensures
        world.hit_spec(ray, interval) matches Some(best) ==> exists|j: int|
            0 <= j < world@.len() && #[trigger] world@[j].hit_spec(ray, interval) == Some(best),
        forall|j: int|
            0 <= j < world@.len() ==> (#[trigger] world@[j].hit_spec(ray, interval) matches Some(
                rec,
            ) ==> world.hit_spec(ray, interval) matches Some(best) && best.t.raw <= rec.t.raw),
{
    lemma_scan_nearest(world@, world@.len(), ray, interval);
}

impl<T: Hittable> Hittable for Vec<T> {
    /// The nearest hit among all the objects.
    open spec fn hit_spec(&self, ray: Ray, interval: Interval) -> Option<HitRecord> {
        scan_hits(self@, self@.len(), ray, interval)
    }

    /// The nearest hit among all the objects. Of two objects that are hit
    /// at the same parameter the earlier one wins.
    fn hit(&self, ray: &Ray, interval: Interval) -> (r: Option<HitRecord>)
        ensures
            r matches Some(best) ==> exists|j: int|
                0 <= j < self@.len() && #[trigger] self@[j].hit_spec(*ray, interval) == Some(best),
            forall|j: int|
                0 <= j < self@.len() ==> (#[trigger] self@[j].hit_spec(
                    *ray,
                    interval,
                ) matches Some(rec) ==> r matches Some(best) && best.t.raw <= rec.t.raw),
    {
        let mut best: Option<HitRecord> = None;
        let mut closest: Scalar = interval.max;
        let mut i: usize = 0;
        while i < self.len()
            invariant
                i <= self.len(),
                best == scan_hits(self@, i as nat, *ray, interval),
                closest == closest_so_far(best, interval),
            decreases self.len() - i,
        {
            if let Some(rec) = self[i].hit(ray, interval.until(closest)) {
                closest = rec.t;
                best = Some(rec);
            }
            i += 1;
        }
        proof {
            lemma_scan_nearest(self@, self@.len(), *ray, interval);
        }
        best
    }

    proof fn lemma_hit_within(&self, ray: Ray, interval: Interval) {
        lemma_scan_nearest(self@, self@.len(), ray, interval);
    }

    proof fn lemma_hit_restricts(&self, ray: Ray, interval: Interval, cut: Scalar) {
        lemma_scan_restricts(self@, self@.len(), ray, interval, cut);
    }
}

} // verus!
