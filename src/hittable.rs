use vstd::prelude::*;
use crate::aabb::Aabb;
use crate::arith::{abs, frac_lt};
use crate::bvh::BvhNode;
use crate::interval::Interval;
use crate::quad::{planar_result, ray_in_range, Quad};
use crate::ray::Ray;
use crate::sphere::{sphere_result, Sphere};
use crate::triangle::Triangle;
use crate::vec3::{Point3, Vec3};
use crate::wide::{vdot, vneg, widen, wdot, Wide, V3};

verus! {

/// The largest coordinate magnitude of primitives and of the rays cast at them.
pub const GEOM_LIMIT: i64 = 65536;

/// A ray's crossing of a surface. The parameter is `t_num / t_den` and the
/// point `p_num / t_den`; the surface coordinates are `u_num / uv_den` and
/// `v_num / uv_den`. The normal faces against the ray; `front_face` says
/// whether that is the surface's own outward side. `mat` is the handle of the
/// surface's material.
#[derive(Clone, Copy, Debug)]
pub struct HitRecord {
    pub p_num: Wide,
    pub normal: Vec3,
    pub mat: usize,
    pub t_num: i128,
    pub t_den: i128,
    pub front_face: bool,
    pub u_num: i128,
    pub v_num: i128,
    pub uv_den: i128,
}

/// The normal a hit record keeps for an outward normal `n` met by direction
/// `dir`: `n` itself when the ray meets the outward side, else `-n`.
pub open spec fn facing_normal(dir: V3, n: V3) -> V3 {
    if vdot(dir, n) < 0 {
        n
    } else {
        vneg(n)
    }
}

impl HitRecord {
    /// Whether the parameter's numerator and denominator stay within the
    /// range that comparing two hits takes.
    pub open spec fn t_ok(self) -> bool {
        0 < self.t_den <= 0x10_0000_0000_0000 && abs(self.t_num as int) <= 0x10_0000_0000_0000
    }

    /// The record of a hit at `p_num / t_den`, parameter `t_num / t_den`,
    /// with the normal turned to face the ray.
    pub fn new(
        p_num: &Wide,
        t_num: i128,
        t_den: i128,
        outward_normal: &Vec3,
        r: &Ray,
        mat: usize,
        u_num: i128,
        v_num: i128,
        uv_den: i128,
    ) -> (h: Self)
        requires
            r.dir.bounded(GEOM_LIMIT as int),
            outward_normal.bounded(0x100_0000_0000_0000),
        ensures
            h.p_num == *p_num,
            h.t_num == t_num,
            h.t_den == t_den,
            h.front_face == (vdot(r.dir@, outward_normal@) < 0),
            h.normal@ == facing_normal(r.dir@, outward_normal@),
            h.mat == mat,
            h.u_num == u_num,
            h.v_num == v_num,
            h.uv_den == uv_den,
    {
        let front_face: bool = wdot(
            &widen(&r.dir),
            &widen(outward_normal),
            Ghost(GEOM_LIMIT as int),
            Ghost(0x100_0000_0000_0000int),
        ) < 0;
        let mut normal: Vec3 = *outward_normal;
        if !front_face {
            normal = normal.neg();
        }
        Self { p_num: *p_num, normal, mat, t_num, t_den, front_face, u_num, v_num, uv_den }
    }
}

/// An object a ray can be tested against: a primitive, or a bounding-volume
/// hierarchy over other objects.
#[derive(Debug)]
pub enum Hittable {
    Sphere(Sphere),
    Quad(Quad),
    Triangle(Triangle),
    Bvh(BvhNode),
}

/// The nearer of two hits; on equal parameters the second.
pub open spec fn nearer(a: Option<HitRecord>, b: Option<HitRecord>) -> Option<HitRecord> {
    match (a, b) {
        (Some(x), Some(y)) => if frac_lt(x.t_num as int, x.t_den as int, y.t_num as int, y.t_den as int) {
            a
        } else {
            b
        },
        (Some(_), None) => a,
        (None, _) => b,
    }
}

impl Hittable {
    /// Whether every primitive in the object is well formed, every box
    /// within four times `GEOM_LIMIT`, so that rays in range can be tested,
    /// and the box of every hierarchy node the union of its children's.
    pub open spec fn wf(self) -> bool
        decreases self,
    {
        match self {
            Hittable::Sphere(s) => s.wf(),
            Hittable::Quad(q) => q.wf() && q.bbox.within(4 * GEOM_LIMIT) && q.bbox.valid(),
            Hittable::Triangle(t) => t.wf() && t.bbox.within(4 * GEOM_LIMIT) && t.bbox.valid(),
            Hittable::Bvh(n) => n.left.wf() && n.right.wf() && n.bbox.within(4 * GEOM_LIMIT) && n.bbox.valid() && n.bbox
                == Aabb::union_spec(n.left.bbox_spec(), n.right.bbox_spec()),
        }
    }

    pub open spec fn bbox_spec(self) -> Aabb {
        match self {
            Hittable::Sphere(s) => s.bbox,
            Hittable::Quad(q) => q.bbox,
            Hittable::Triangle(t) => t.bbox,
            Hittable::Bvh(n) => n.bbox,
        }
    }

    /// The hit of a ray within `ray_t`. A hierarchy answers `None` when the
    /// ray misses its box, and otherwise the nearer of its children's hits.
    pub open spec fn hit_spec(self, r: Ray, ray_t: Interval) -> Option<HitRecord>
        decreases self,
    {
        match self {
            Hittable::Sphere(s) => sphere_result(s, r, ray_t),
            Hittable::Quad(q) => planar_result(q.plane, r, ray_t, false, q.mat),
            Hittable::Triangle(t) => planar_result(t.plane, r, ray_t, true, t.mat),
            Hittable::Bvh(n) => if n.bbox.slab_hit(r, ray_t) {
                nearer(n.left.hit_spec(r, ray_t), n.right.hit_spec(r, ray_t))
            } else {
                None
            },
        }
    }

    pub fn hit(&self, r: &Ray, ray_t: Interval) -> (res: Option<HitRecord>)
        requires
            self.wf(),
            ray_in_range(*r),
        ensures
            res == self.hit_spec(*r, ray_t),
            res.is_some() ==> res.unwrap().t_ok(),
        decreases self,
    {
        match self {
            Hittable::Sphere(s) => s.hit(r, ray_t),
            Hittable::Quad(q) => q.hit(r, ray_t),
            Hittable::Triangle(t) => t.hit(r, ray_t),
            Hittable::Bvh(n) => n.hit(r, ray_t),
        }
    }

    pub fn bounding_box(&self) -> (b: Aabb)
        ensures
            b == self.bbox_spec(),
    {
        match self {
            Hittable::Sphere(s) => s.bbox,
            Hittable::Quad(q) => q.bbox,
            Hittable::Triangle(t) => t.bbox,
            Hittable::Bvh(n) => n.bbox,
        }
    }

    /// A copy of the object.
    pub fn duplicate(&self) -> (r: Self)
        ensures
            r == *self,
        decreases self,
    {
        match self {
            Hittable::Sphere(s) => Hittable::Sphere(*s),
            Hittable::Quad(q) => Hittable::Quad(*q),
            Hittable::Triangle(t) => Hittable::Triangle(*t),
            Hittable::Bvh(n) => Hittable::Bvh(
                BvhNode {
                    left: Box::new(n.left.duplicate()),
                    right: Box::new(n.right.duplicate()),
                    bbox: n.bbox,
                },
            ),
        }
    }
}

/// Whether hit `a` lies strictly before hit `b`.
pub(crate) fn nearer_first(a: &HitRecord, b: &HitRecord) -> (r: bool)
    requires
        a.t_ok(),
        b.t_ok(),
    ensures
        r == frac_lt(a.t_num as int, a.t_den as int, b.t_num as int, b.t_den as int),
{
    proof {
        crate::arith::lemma_mul_abs_bound(a.t_num as int, b.t_den as int, 0x10_0000_0000_0000, 0x10_0000_0000_0000);
        crate::arith::lemma_mul_abs_bound(b.t_num as int, a.t_den as int, 0x10_0000_0000_0000, 0x10_0000_0000_0000);
    }
    a.t_num * b.t_den < b.t_num * a.t_den
}

} // verus!
