//! The scene: an ordered collection of spheres queried for the nearest
//! intersection.

use vstd::prelude::*;
use crate::hitable::{HitRecord, Hitable};
use crate::ray::Ray;
use crate::sphere::Sphere;

verus! {

/// Every sphere of the collection is well formed.
pub open spec fn wf_list(spheres: Seq<Sphere>) -> bool {
    forall|i: int| 0 <= i < spheres.len() ==> (#[trigger] spheres[i]).wf()
}

/// The ordered collection of scene primitives.
#[derive(Debug)]
pub struct HitableList {
    pub list: Vec<Sphere>,
}

impl HitableList {
    pub fn new(list: Vec<Sphere>) -> (r: HitableList)
        ensures
            r.list@ == list@,
    {
        HitableList { list }
    }

    pub fn len(&self) -> (n: usize)
        ensures
            n == self.list@.len(),
    {
        self.list.len()
    }

    /// The closer of an accumulated best hit and a candidate: a hit beats
    /// none, and of two hits the one with the strictly smaller parameter;
    /// on an exact tie the earlier (accumulated) one is kept.
    pub open spec fn select_closer(best: Option<HitRecord>, cand: Option<HitRecord>) -> Option<
        HitRecord,
    > {
        match (best, cand) {
            (None, c) => c,
            (Some(b), None) => Some(b),
            (Some(b), Some(c)) => if c.t < b.t { Some(c) } else { Some(b) },
        }
    }

    /// The nearest hit among the first `n` spheres, scanning left to
    /// right.
    pub open spec fn spec_hit_prefix(
        spheres: Seq<Sphere>,
        n: int,
        ray: Ray,
        t_min: i64,
        t_max: i64,
    ) -> Option<HitRecord>
        decreases n,
    {
        if n <= 0 {
            None
        } else {
            Self::select_closer(
                Self::spec_hit_prefix(spheres, n - 1, ray, t_min, t_max),
                spheres[n - 1].spec_hit(ray, t_min, t_max),
            )
        }
    }

    /// The nearest valid intersection over the whole collection, or none.
    pub open spec fn spec_hit(spheres: Seq<Sphere>, ray: Ray, t_min: i64, t_max: i64) -> Option<
        HitRecord,
    > {
        Self::spec_hit_prefix(spheres, spheres.len() as int, ray, t_min, t_max)
    }

    /// Scans every sphere and keeps the hit with the smallest parameter.
    /// Fixed-point parameters are totally ordered, so the selection needs
    /// no defense against unordered values.
    pub fn hit(&self, ray: &Ray, t_min: i64, t_max: i64) -> (r: Option<HitRecord>)
        ensures
            r == Self::spec_hit(self.list@, *ray, t_min, t_max),
    {
        let mut best: Option<HitRecord> = None;
        let mut i: usize = 0;
        while i < self.list.len()
            invariant
                i <= self.list@.len(),
                best == Self::spec_hit_prefix(self.list@, i as int, *ray, t_min, t_max),
            decreases self.list@.len() - i,
        {
            let cand = self.list[i].hit(ray, t_min, t_max);
            best = match (best, cand) {
                (None, c) => c,
                (Some(b), None) => Some(b),
                (Some(b), Some(c)) => if c.t < b.t { Some(c) } else { Some(b) },
            };
            i = i + 1;
        }
        best
    }
}

impl Hitable for HitableList {
    fn hit(&self, ray: &Ray, t_min: i64, t_max: i64) -> Option<HitRecord> {
        HitableList::hit(self, ray, t_min, t_max)
    }
}

/// A hit over a prefix comes from one of its spheres.
proof fn lemma_hit_prefix_provenance(
    spheres: Seq<Sphere>,
    n: int,
    ray: Ray,
    t_min: i64,
    t_max: i64,
)
    requires
        0 <= n <= spheres.len(),
        HitableList::spec_hit_prefix(spheres, n, ray, t_min, t_max) is Some,
    ensures
        exists|i: int|
            0 <= i < n && #[trigger] spheres[i].spec_hit(ray, t_min, t_max) == Some(
                HitableList::spec_hit_prefix(spheres, n, ray, t_min, t_max)->0,
            ),
    decreases n,
{
    let r = HitableList::spec_hit_prefix(spheres, n, ray, t_min, t_max);
    let prev = HitableList::spec_hit_prefix(spheres, n - 1, ray, t_min, t_max);
    let cand = spheres[n - 1].spec_hit(ray, t_min, t_max);
    if r == cand && cand is Some {
        assert(spheres[n - 1].spec_hit(ray, t_min, t_max) == Some(r->0));
    } else {
        lemma_hit_prefix_provenance(spheres, n - 1, ray, t_min, t_max);
    }
}

/// In a well-formed scene, the material carried by the nearest hit is
/// well formed: it is the material of one of the spheres.
pub proof fn lemma_hit_material_wf(spheres: Seq<Sphere>, ray: Ray, t_min: i64, t_max: i64)
    requires
        wf_list(spheres),
        HitableList::spec_hit(spheres, ray, t_min, t_max) is Some,
    ensures
        (HitableList::spec_hit(spheres, ray, t_min, t_max)->0).mat_type.wf(),
{
    lemma_hit_prefix_provenance(spheres, spheres.len() as int, ray, t_min, t_max);
    let rec = HitableList::spec_hit(spheres, ray, t_min, t_max)->0;
    let i = choose|i: int|
        0 <= i < spheres.len() && #[trigger] spheres[i].spec_hit(ray, t_min, t_max) == Some(rec);
    assert(spheres[i].spec_hit(ray, t_min, t_max) == Some(rec));
    assert(rec.mat_type == spheres[i].material);
}

} // verus!
