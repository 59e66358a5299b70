//! The scene aggregate: an ordered collection of spheres and the arena of
//! materials they reference.  Its `hit` returns the nearest qualifying
//! intersection, whatever the insertion order.

use crate::fixed::Fx;
use crate::hittable::{hit_wf, ray_wf, HitRecord, TMAX};
use crate::interval::Interval;
use crate::material::{material_wf, Material};
use crate::ray::Ray;
use crate::sphere::{
    lemma_sphere_hit_window, sphere_hit_spec, sphere_wf, Sphere, SphereV,
};
use vstd::prelude::*;

verus! {

/// All members of `objects`, at spec level.
pub open spec fn objs_of(objects: Seq<Sphere>) -> Seq<SphereV> {
    objects.map_values(|s: Sphere| s@)
}

pub struct HittableList {
    pub objects: Vec<Sphere>,
    pub materials: Vec<Material>,
}

impl HittableList {
    /// The members of the scene, at spec level.
    pub open spec fn objs(&self) -> Seq<SphereV> {
        objs_of(self.objects@)
    }

    /// The material arena, at spec level.
    pub open spec fn mats(&self) -> Seq<Material> {
        self.materials@
    }

    /// Every sphere is representable.
    pub open spec fn spheres_wf(&self) -> bool {
        forall|i: int| 0 <= i < self.objs().len() ==> sphere_wf(#[trigger] self.objs()[i])
    }

    /// The whole scene is representable: spheres in range, every material
    /// index in the arena, every material well formed.
    pub open spec fn wf(&self) -> bool {
        &&& self.spheres_wf()
        &&& forall|i: int|
            0 <= i < self.objs().len() ==> (#[trigger] self.objs()[i]).material
                < self.mats().len()
        &&& forall|j: int| 0 <= j < self.mats().len() ==> material_wf(#[trigger] self.mats()[j])
    }

    /// An empty scene.
    pub fn new() -> (r: HittableList)
        ensures
            r.objs().len() == 0,
            r.mats().len() == 0,
            r.wf(),
    {
        HittableList { objects: Vec::new(), materials: Vec::new() }
    }

    /// A scene holding one initial object.
    pub fn with_object(object: Sphere, materials: Vec<Material>) -> (r: HittableList)
        requires
            sphere_wf(object@),
            object.material < materials@.len(),
            forall|j: int| 0 <= j < materials@.len() ==> material_wf(#[trigger] materials@[j]),
        ensures
            r.objs() =~= seq![object@],
            r.mats() == materials@,
            r.wf(),
    {
        let mut list: HittableList = HittableList { objects: Vec::new(), materials };
        list.add(object);
        list
    }

    /// Remove every object (the material arena stays).
    pub fn clear(&mut self)
        ensures
            final(self).objs().len() == 0,
            final(self).mats() == old(self).mats(),
    {
        self.objects.clear();
    }

    /// Add a material to the arena; the result is its index.
    pub fn add_material(&mut self, material: Material) -> (idx: usize)
        requires
            material_wf(material),
        ensures
            final(self).mats() =~= old(self).mats().push(material),
            final(self).objs() == old(self).objs(),
            idx == old(self).mats().len(),
            old(self).wf() ==> final(self).wf(),
    {
        let idx: usize = self.materials.len();
        self.materials.push(material);
        proof {
            assert(self.objects@ == old(self).objects@);
            if old(self).wf() {
                assert forall|j: int| 0 <= j < self.mats().len() implies material_wf(
                    #[trigger] self.mats()[j],
                ) by {
                    if j < old(self).mats().len() {
                        assert(material_wf(old(self).mats()[j]));
                    }
                }
            }
        }
        idx
    }

    /// Append an object to the scene.
    pub fn add(&mut self, object: Sphere)
        requires
            sphere_wf(object@),
            object.material < old(self).mats().len(),
        ensures
            final(self).objs() =~= old(self).objs().push(object@),
            final(self).mats() == old(self).mats(),
            old(self).wf() ==> final(self).wf(),
    {
        self.objects.push(object);
        proof {
            assert(final(self).objs() =~= old(self).objs().push(object@));
        }
    }

    /// Query every member with a progressively shrinking window and keep
    /// the closest qualifying hit: the nearest surface wins, regardless of
    /// insertion order.  `None` exactly when no member is hit.
    pub fn hit(&self, ray: &Ray, interval: Interval) -> (res: Option<HitRecord>)
        requires
            self.spheres_wf(),
            ray_wf(ray@),
            0 <= interval.min@,
            interval.max@ <= TMAX,
        ensures
            ({
                let n = self.objs().len() as int;
                match res {
                    Some(h) => {
                        &&& exists|i: int|
                            0 <= i < n && sphere_hit_spec(
                                #[trigger] self.objs()[i],
                                ray@,
                                interval.min@,
                                interval.max@,
                            ) == Some(h@)
                        &&& forall|i: int|
                            0 <= i < n ==> (sphere_hit_spec(
                                #[trigger] self.objs()[i],
                                ray@,
                                interval.min@,
                                interval.max@,
                            ) matches Some(o) ==> h@.t <= o.t)
                        &&& hit_wf(h@)
                        &&& interval.min@ < h@.t < interval.max@
                    },
                    None => forall|i: int|
                        0 <= i < n ==> sphere_hit_spec(
                            #[trigger] self.objs()[i],
                            ray@,
                            interval.min@,
                            interval.max@,
                        ) is None,
                }
            }),
    {
        let mut best: Option<HitRecord> = None;
        let mut closest_so_far: Fx = interval.max;
        let mut idx: usize = 0;
        while idx < self.objects.len()
            invariant
                self.spheres_wf(),
                ray_wf(ray@),
                0 <= interval.min@,
                interval.max@ <= TMAX,
                idx <= self.objects.len(),
                match best {
                    Some(b) => {
                        &&& closest_so_far@ == b@.t
                        &&& interval.min@ < b@.t < interval.max@
                        &&& hit_wf(b@)
                        &&& exists|i: int|
                            0 <= i < idx && sphere_hit_spec(
                                #[trigger] self.objs()[i],
                                ray@,
                                interval.min@,
                                interval.max@,
                            ) == Some(b@)
                        &&& forall|i: int|
                            0 <= i < idx ==> (sphere_hit_spec(
                                #[trigger] self.objs()[i],
                                ray@,
                                interval.min@,
                                interval.max@,
                            ) matches Some(o) ==> b@.t <= o.t)
                    },
                    None => {
                        &&& closest_so_far@ == interval.max@
                        &&& forall|i: int|
                            0 <= i < idx ==> sphere_hit_spec(
                                #[trigger] self.objs()[i],
                                ray@,
                                interval.min@,
                                interval.max@,
                            ) is None
                    },
                },
            decreases self.objects.len() - idx,
        {
            let object: Sphere = self.objects[idx];
            proof {
                assert(self.objs()[idx as int] == object@);
                assert(sphere_wf(self.objs()[idx as int]));
            }
            let candidate: Option<HitRecord> = object.hit(
                ray,
                Interval::with_bounds(interval.min, closest_so_far),
            );
            proof {
                lemma_sphere_hit_window(
                    self.objs()[idx as int],
                    ray@,
                    interval.min@,
                    closest_so_far@,
                    interval.max@,
                );
            }
            match candidate {
                Some(rec) => {
                    best = Some(rec);
                    closest_so_far = rec.t;
                },
                None => {},
            }
            idx = idx + 1;
        }
        best
    }
}

} // verus!
