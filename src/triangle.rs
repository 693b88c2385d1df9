use vstd::prelude::*;
use crate::aabb::Aabb;
use crate::hittable::{HitRecord, GEOM_LIMIT};
use crate::interval::Interval;
use crate::plane::{a_num_of, b_num_of, denom_of, offset_of, param_within, t_den_of, t_num_of, Plane};
use crate::quad::{lemma_planar_coordinates, lemma_scaled_range, planar_hit, planar_hit_record, planar_result, ray_in_range};
use crate::ray::Ray;
use crate::vec3::Point3;
use crate::wide::{vadd, vscale};

verus! {

/// The triangle with corners `Q`, `Q + u` and `Q + v`: the points
/// `Q + a u + b v` with `a, b >= 0` and `a + b <= 1`.
#[derive(Clone, Copy, Debug)]
pub struct Triangle {
    pub plane: Plane,
    pub mat: usize,
    pub bbox: Aabb,
}

impl Triangle {
    pub open spec fn wf(self) -> bool {
        self.plane.wf()
    }

    pub open spec fn hit_spec(self, r: Ray, ray_t: Interval) -> bool {
        planar_hit(self.plane, r, ray_t, true)
    }

    /// The triangle with corners `q`, `a` and `b`.
    pub fn new(q: &Point3, a: &Point3, b: &Point3, mat: usize) -> (r: Self)
        requires
            q.bounded(GEOM_LIMIT as int / 2),
            a.bounded(GEOM_LIMIT as int / 2),
            b.bounded(GEOM_LIMIT as int / 2),
        ensures
            r.wf(),
            r.plane.q == *q,
            r.plane.u@ == (a.x - q.x, a.y - q.y, a.z - q.z),
            r.plane.v@ == (b.x - q.x, b.y - q.y, b.z - q.z),
            r.mat == mat,
            r.bbox.within(4 * GEOM_LIMIT),
            r.bbox == Aabb::union_spec(Aabb::two_point_spec(*q, *a), Aabb::two_point_spec(*q, *b)),
            r.bbox.valid(),
    {
        let ghost m0: int = 4 * GEOM_LIMIT - 1;
        assert(q.bounded(m0) && a.bounded(m0) && b.bounded(m0));
        let bbox1 = Aabb::two_point(q, a);
        let bbox2 = Aabb::two_point(q, b);
        let ghost m: int = 4 * GEOM_LIMIT - 1;
        assert(q.bounded(m) && a.bounded(m) && b.bounded(m));
        assert(bbox1.within(m + 1) && bbox2.within(m + 1));
        let u = a.minus(q);
        let v = b.minus(q);
        Self { plane: Plane::new(q, &u, &v), mat, bbox: Aabb::two_aabb(&bbox1, &bbox2) }
    }

    /// The hit of the ray on the triangle at a parameter strictly inside
    /// `ray_t`; `None` for a ray parallel to its plane.
    pub fn hit(&self, r: &Ray, ray_t: Interval) -> (res: Option<HitRecord>)
        requires
            self.wf(),
            ray_in_range(*r),
        ensures
            res == planar_result(self.plane, *r, ray_t, true, self.mat),
            res.is_some() ==> res.unwrap().t_ok(),
    {
        planar_hit_record(&self.plane, r, ray_t, true, self.mat)
    }

    pub fn bounding_box(&self) -> (b: Aabb)
        ensures
            b == self.bbox,
    {
        self.bbox
    }
}

/// A ray crossing the plane of a triangle within the query interval at the
/// point `Q + (ka u + kb v) / k`, `k` being the crossing's denominator, hits
/// the triangle exactly when `ka / k >= 0`, `kb / k >= 0` and their sum is at
/// most 1: its centroid (`3 ka == 3 kb == k`) always, any point outside never.
pub proof fn lemma_triangle_containment(tri: Triangle, r: Ray, ray_t: Interval, ka: int, kb: int)
    requires
        tri.wf(),
        denom_of(tri.plane, r) != 0,
        param_within(ray_t, t_num_of(tri.plane, r), t_den_of(tri.plane, r)),
        offset_of(tri.plane, r) == vadd(vscale(tri.plane.u@, ka), vscale(tri.plane.v@, kb)),
    ensures
        tri.hit_spec(r, ray_t) == (0 <= ka && 0 <= kb && ka + kb <= t_den_of(tri.plane, r)),
{
    let p = tri.plane;
    let k = t_den_of(p, r);
    lemma_planar_coordinates(p.u@, p.v@, ka, kb);
    crate::quad::lemma_crossed_plane_has_normal(p, r);
    lemma_scaled_range(ka, k, p.nn as int);
    lemma_scaled_range(kb, k, p.nn as int);
    lemma_scaled_range(ka + kb, k, p.nn as int);
    assert((ka + kb) * p.nn == ka * p.nn + kb * p.nn) by (nonlinear_arith);
}

} // verus!
