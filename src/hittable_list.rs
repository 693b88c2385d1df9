use vstd::prelude::*;
use crate::aabb::Aabb;
use crate::arith::{frac_le, lemma_frac_le_trans};
use crate::hittable::{nearer_first, HitRecord, Hittable, GEOM_LIMIT};
use crate::interval::Interval;
use crate::quad::ray_in_range;
use crate::ray::Ray;
use crate::nearest::{lemma_hit_den_positive, nearest_in, same_t};

verus! {

/// The hit a scan of `objs` in order keeps: each hit replaces the one kept
/// so far unless it lies strictly farther.
pub open spec fn closest(objs: Seq<Hittable>, r: Ray, ray_t: Interval) -> Option<HitRecord>
    decreases objs.len(),
{
    if objs.len() == 0 {
        None
    } else {
        let prev = closest(objs.drop_last(), r, ray_t);
        match objs.last().hit_spec(r, ray_t) {
            Some(h) => match prev {
                Some(p) => if frac_le(h.t_num as int, h.t_den as int, p.t_num as int, p.t_den as int) {
                    Some(h)
                } else {
                    prev
                },
                None => Some(h),
            },
            None => prev,
        }
    }
}

/// Whether every hit of the objects has a positive parameter denominator.
pub open spec fn positive_dens(objs: Seq<Hittable>, r: Ray, ray_t: Interval) -> bool {
    forall|k: int|
        0 <= k < objs.len() && (#[trigger] objs[k].hit_spec(r, ray_t)) is Some ==> objs[k].hit_spec(
            r,
            ray_t,
        ).unwrap().t_den > 0
}

/// The hit a linear search keeps is the nearest one: there is one exactly
/// when some object is hit, it is the hit of one of the objects, and no
/// object is hit strictly nearer.
pub proof fn lemma_closest_is_nearest(objs: Seq<Hittable>, r: Ray, ray_t: Interval)
    requires
        positive_dens(objs, r, ray_t),
    ensures
        closest(objs, r, ray_t) is Some <==> exists|k: int|
            0 <= k < objs.len() && (#[trigger] objs[k].hit_spec(r, ray_t)) is Some,
        closest(objs, r, ray_t) is Some ==> exists|k: int|
            0 <= k < objs.len() && #[trigger] objs[k].hit_spec(r, ray_t) == closest(objs, r, ray_t),
        closest(objs, r, ray_t) is Some ==> forall|k: int|
            0 <= k < objs.len() && (#[trigger] objs[k].hit_spec(r, ray_t)) is Some ==> frac_le(
                closest(objs, r, ray_t).unwrap().t_num as int,
                closest(objs, r, ray_t).unwrap().t_den as int,
                objs[k].hit_spec(r, ray_t).unwrap().t_num as int,
                objs[k].hit_spec(r, ray_t).unwrap().t_den as int,
            ),
    decreases objs.len(),
{
    if objs.len() > 0 {
        let init = objs.drop_last();
        let n = objs.len() - 1;
        assert forall|k: int| 0 <= k < init.len() implies #[trigger] init[k] == objs[k] by {}
        assert(positive_dens(init, r, ray_t)) by {
            assert forall|k: int|
                0 <= k < init.len() && (#[trigger] init[k].hit_spec(r, ray_t)) is Some implies init[k].hit_spec(
                r,
                ray_t,
            ).unwrap().t_den > 0 by {
                assert(init[k] == objs[k]);
            }
        }
        lemma_closest_is_nearest(init, r, ray_t);
        let prev = closest(init, r, ray_t);
        let cur = objs[n].hit_spec(r, ray_t);
        let res = closest(objs, r, ray_t);
        assert(objs.last() == objs[n]);
        if prev is Some {
            let k0 = choose|k: int| 0 <= k < init.len() && #[trigger] init[k].hit_spec(r, ray_t) == prev;
            assert(init[k0] == objs[k0]);
            assert(prev.unwrap().t_den > 0);
        }
        if res is Some {
            assert forall|k: int|
                0 <= k < objs.len() && (#[trigger] objs[k].hit_spec(r, ray_t)) is Some implies frac_le(
                res.unwrap().t_num as int,
                res.unwrap().t_den as int,
                objs[k].hit_spec(r, ray_t).unwrap().t_num as int,
                objs[k].hit_spec(r, ray_t).unwrap().t_den as int,
            ) by {
                let x = res.unwrap();
                let y = objs[k].hit_spec(r, ray_t).unwrap();
                if k < n {
                    assert(init[k] == objs[k]);
                    let p = prev.unwrap();
                    if cur is Some && res == cur {
                        let c = cur.unwrap();
                        if prev is Some {
                            lemma_frac_le_trans(
                                c.t_num as int,
                                c.t_den as int,
                                p.t_num as int,
                                p.t_den as int,
                                y.t_num as int,
                                y.t_den as int,
                            );
                        }
                    }
                } else {
                    assert(k == n);
                    if res != cur {
                        let p = prev.unwrap();
                        let c = cur.unwrap();
                        assert(!frac_le(c.t_num as int, c.t_den as int, p.t_num as int, p.t_den as int));
                    }
                }
            }
            if res == cur {
                assert(objs[n].hit_spec(r, ray_t) == res);
            } else {
                let k0 = choose|k: int| 0 <= k < init.len() && #[trigger] init[k].hit_spec(r, ray_t) == prev;
                assert(init[k0] == objs[k0]);
                assert(objs[k0].hit_spec(r, ray_t) == res);
            }
        }
        if exists|k: int| 0 <= k < objs.len() && (#[trigger] objs[k].hit_spec(r, ray_t)) is Some {
            let k1 = choose|k: int| 0 <= k < objs.len() && (#[trigger] objs[k].hit_spec(r, ray_t)) is Some;
            if k1 < n {
                assert(init[k1] == objs[k1]);
            }
        }
    }
}

/// For well-formed objects and a ray in range, the linear search finds the
/// nearest hit among the objects.
pub proof fn lemma_closest_nearest_in(objs: Seq<Hittable>, r: Ray, ray_t: Interval)
    requires
        forall|i: int| 0 <= i < objs.len() ==> (#[trigger] objs[i]).wf(),
        ray_in_range(r),
    ensures
        nearest_in(closest(objs, r, ray_t), objs, r, ray_t),
{
    assert forall|k: int| 0 <= k < objs.len() && (#[trigger] objs[k].hit_spec(r, ray_t)) is Some implies objs[k].hit_spec(
        r,
        ray_t,
    ).unwrap().t_den > 0 by {
        lemma_hit_den_positive(objs[k], r, ray_t);
    }
    lemma_closest_is_nearest(objs, r, ray_t);
    let c = closest(objs, r, ray_t);
    if c is Some {
        let k = choose|k: int| 0 <= k < objs.len() && #[trigger] objs[k].hit_spec(r, ray_t) == c;
        assert(objs[k].hit_spec(r, ray_t) is Some && same_t(objs[k].hit_spec(r, ray_t).unwrap(), c.unwrap()));
    }
}

/// A list of objects with a box around all of them.
#[derive(Debug)]
pub struct HittableList {
    pub objects: Vec<Hittable>,
    pub bbox: Aabb,
}

impl HittableList {
    pub open spec fn wf(self) -> bool {
        &&& forall|i: int| 0 <= i < self.objects@.len() ==> (#[trigger] self.objects@[i]).wf()
        &&& self.bbox.within(4 * GEOM_LIMIT)
    }

    /// The empty list, boxed by the point at the origin.
    pub fn new() -> (r: Self)
        ensures
            r.wf(),
            r.objects@.len() == 0,
            r.bbox == Aabb::zero_spec(),
    {
        let r = Self { objects: Vec::new(), bbox: Aabb::zero() };
        assert(r.bbox.axis_spec(0) == r.bbox.x && r.bbox.axis_spec(1) == r.bbox.y && r.bbox.axis_spec(2) == r.bbox.z);
        r
    }

    pub fn _clear(&mut self)
        ensures
            final(self).objects@.len() == 0,
            final(self).bbox == old(self).bbox,
    {
        self.objects.clear();
    }

    /// Appends an object and grows the box around it.
    pub fn add(&mut self, object: Hittable)
        requires
            old(self).wf(),
            object.wf(),
        ensures
            final(self).wf(),
            final(self).objects@ == old(self).objects@.push(object),
            final(self).bbox == Aabb::union_spec(old(self).bbox, object.bbox_spec()),
    {
        self.bbox = Aabb::two_aabb(&self.bbox, &object.bounding_box());
        self.objects.push(object);
        assert forall|i: int| 0 <= i < self.objects@.len() implies (#[trigger] self.objects@[i]).wf() by {
            if i < self.objects@.len() - 1 {
                assert(self.objects@[i] == old(self).objects@[i]);
            }
        }
    }

    /// The list of one object.
    pub fn new_from(object: Hittable) -> (r: Self)
        requires
            object.wf(),
        ensures
            r.wf(),
            r.objects@ == seq![object],
    {
        let mut hl = Self::new();
        hl.add(object);
        assert(hl.objects@ =~= seq![object]);
        hl
    }

    /// The nearest hit among the objects within `ray_t`; of hits at equal
    /// parameters the last in the list.
    pub fn hit(&self, r: &Ray, ray_t: Interval) -> (res: Option<HitRecord>)
        requires
            self.wf(),
            ray_in_range(*r),
        ensures
            res == closest(self.objects@, *r, ray_t),
    {
        let mut rec: Option<HitRecord> = None;
        let mut i: usize = 0;
        while i < self.objects.len()
            invariant
                self.wf(),
                ray_in_range(*r),
                i <= self.objects@.len(),
                rec == closest(self.objects@.subrange(0, i as int), *r, ray_t),
                rec.is_some() ==> rec.unwrap().t_ok(),
            decreases self.objects@.len() - i,
        {
            assert(self.objects@.subrange(0, i as int + 1).drop_last() =~= self.objects@.subrange(0, i as int));
            let tmp = self.objects[i].hit(r, ray_t);
            match tmp {
                Some(h) => match rec {
                    Some(p) => {
                        if !nearer_first(&p, &h) {
                            rec = Some(h);
                        }
                    },
                    None => {
                        rec = Some(h);
                    },
                },
                None => {},
            }
            i = i + 1;
        }
        assert(self.objects@.subrange(0, i as int) =~= self.objects@);
        rec
    }

    pub fn bounding_box(&self) -> (b: Aabb)
        ensures
            b == self.bbox,
    {
        self.bbox
    }
}

} // verus!
