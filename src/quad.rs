use vstd::prelude::*;
use crate::aabb::Aabb;
use crate::bvh::BvhNode;
use crate::hittable::{facing_normal, HitRecord, Hittable, GEOM_LIMIT};
use crate::aabb::{max_i64, min_i64};
use crate::bvh::union_of;
use crate::hittable_list::closest;
use crate::nearest::{boxes_catch_hits, same_outcome};
use crate::interval::Interval;
use crate::plane::{
    a_num_of, b_num_of, denom_of, offset_of, param_within, t_den_of, t_num_of, Plane,
};
use crate::ray::Ray;
use crate::vec3::{Point3, Vec3};
use crate::wide::{vadd, vcross, vdot, vscale, Wide, V3};

verus! {

/// Whether a ray crosses `p` within `ray_t` at planar coordinates inside the
/// unit square, or, for a triangle, inside the triangle `a + b <= 1`.
pub open spec fn planar_hit(p: Plane, r: Ray, ray_t: Interval, triangle: bool) -> bool {
    let den = p.nn * t_den_of(p, r);
    &&& denom_of(p, r) != 0
    &&& param_within(ray_t, t_num_of(p, r), t_den_of(p, r))
    &&& 0 <= a_num_of(p, r) <= den
    &&& 0 <= b_num_of(p, r) <= den
    &&& triangle ==> a_num_of(p, r) + b_num_of(p, r) <= den
}

/// The record of a planar hit, in full.
pub open spec fn planar_record_of(p: Plane, r: Ray, mat: usize) -> HitRecord {
    let tn = t_num_of(p, r);
    let td = t_den_of(p, r);
    let pn = vadd(vscale(r.orig@, td), vscale(r.dir@, tn));
    let nf = facing_normal(r.dir@, p.n@);
    HitRecord {
        p_num: Wide { x: pn.0 as i128, y: pn.1 as i128, z: pn.2 as i128 },
        normal: Vec3 { x: nf.0 as i64, y: nf.1 as i64, z: nf.2 as i64 },
        mat,
        t_num: tn as i128,
        t_den: td as i128,
        front_face: vdot(r.dir@, p.n@) < 0,
        u_num: a_num_of(p, r) as i128,
        v_num: b_num_of(p, r) as i128,
        uv_den: (p.nn * td) as i128,
    }
}

/// The hit of a ray on a planar primitive: its record where it hits.
pub open spec fn planar_result(p: Plane, r: Ray, ray_t: Interval, triangle: bool, mat: usize) -> Option<HitRecord> {
    if planar_hit(p, r, ray_t, triangle) {
        Some(planar_record_of(p, r, mat))
    } else {
        None
    }
}

/// Rays and points a planar test can take.
pub open spec fn ray_in_range(r: Ray) -> bool {
    r.orig.bounded(GEOM_LIMIT as int) && r.dir.bounded(GEOM_LIMIT as int)
}

/// The box of a quad: the padded boxes of its two diagonals, joined.
pub open spec fn quad_box(q: Point3, u: Vec3, v: Vec3) -> Aabb {
    Aabb::union_spec(
        Aabb::two_point_spec(q, q.add_spec(u).add_spec(v)),
        Aabb::two_point_spec(q.add_spec(u), q.add_spec(v)),
    )
}

/// Whether `h` is the quad with corner `q`, edges `u` and `v` and material
/// `mat`, as `Quad::new` builds it.
#[verifier::opaque]
pub open spec fn is_quad(h: Hittable, q: Point3, u: Vec3, v: Vec3, mat: usize) -> bool {
    match h {
        Hittable::Quad(x) => x.wf() && x.plane.q == q && x.plane.u == u && x.plane.v == v && x.mat == mat
            && x.bbox == quad_box(q, u, v),
        _ => false,
    }
}

/// A parallelogram: the points `Q + a u + b v` with `a` and `b` in `[0, 1]`.
#[derive(Clone, Copy, Debug)]
pub struct Quad {
    pub plane: Plane,
    pub mat: usize,
    pub bbox: Aabb,
}

/// The crossing of a planar primitive, tested and turned into a record.
pub(crate) fn planar_hit_record(p: &Plane, r: &Ray, ray_t: Interval, triangle: bool, mat: usize) -> (res:
    Option<HitRecord>)
    requires
        p.wf(),
        ray_in_range(*r),
    ensures
        res == planar_result(*p, *r, ray_t, triangle, mat),
        res.is_some() ==> res.unwrap().t_ok(),
{
    let c = match p.crossing(r) {
        None => return None,
        Some(c) => c,
    };
    proof {
        crate::arith::lemma_mul_abs_bound(ray_t.min as int, c.t_den as int, 0x8000_0000_0000_0000, 0x10_0000_0000_0000);
        crate::arith::lemma_mul_abs_bound(ray_t.max as int, c.t_den as int, 0x8000_0000_0000_0000, 0x10_0000_0000_0000);
    }
    if !(ray_t.min as i128 * c.t_den < c.t_num && c.t_num < ray_t.max as i128 * c.t_den) {
        return None;
    }
    if !(0 <= c.a_num && c.a_num <= c.ab_den && 0 <= c.b_num && c.b_num <= c.ab_den) {
        return None;
    }
    if triangle && c.a_num > c.ab_den - c.b_num {
        return None;
    }
    let h = HitRecord::new(&c.p_num, c.t_num, c.t_den, &p.n, r, mat, c.a_num, c.b_num, c.ab_den);
    assert(h == planar_record_of(*p, *r, mat));
    Some(h)
}

/// The planar coordinates of a point `Q + (ka u + kb v) / k` come out as
/// `ka / k` and `kb / k`: with `n = u × v`, the numerators are `ka (n · n)`
/// and `kb (n · n)`.
pub proof fn lemma_planar_coordinates(u: V3, v: V3, ka: int, kb: int)
    ensures
        vdot(vcross(u, v), vcross(vadd(vscale(u, ka), vscale(v, kb)), v)) == ka * vdot(vcross(u, v), vcross(u, v)),
        vdot(vcross(u, v), vcross(u, vadd(vscale(u, ka), vscale(v, kb)))) == kb * vdot(vcross(u, v), vcross(u, v)),
{
    lemma_cross_of_combination(u, v, ka, kb);
    lemma_dot_scaled(vcross(u, v), ka);
    lemma_dot_scaled(vcross(u, v), kb);
}

/// `(ka u + kb v) × v == ka (u × v)` and `u × (ka u + kb v) == kb (u × v)`.
proof fn lemma_cross_of_combination(u: V3, v: V3, ka: int, kb: int)
    ensures
        vcross(vadd(vscale(u, ka), vscale(v, kb)), v) == vscale(vcross(u, v), ka),
        vcross(u, vadd(vscale(u, ka), vscale(v, kb))) == vscale(vcross(u, v), kb),
{
    let (ux, uy, uz, vx, vy, vz) = (u.0, u.1, u.2, v.0, v.1, v.2);
    assert((uy * ka + vy * kb) * vz - (uz * ka + vz * kb) * vy == (uy * vz - uz * vy) * ka)
        by (nonlinear_arith);
    assert((uz * ka + vz * kb) * vx - (ux * ka + vx * kb) * vz == (uz * vx - ux * vz) * ka)
        by (nonlinear_arith);
    assert((ux * ka + vx * kb) * vy - (uy * ka + vy * kb) * vx == (ux * vy - uy * vx) * ka)
        by (nonlinear_arith);
    assert(uy * (uz * ka + vz * kb) - uz * (uy * ka + vy * kb) == (uy * vz - uz * vy) * kb)
        by (nonlinear_arith);
    assert(uz * (ux * ka + vx * kb) - ux * (uz * ka + vz * kb) == (uz * vx - ux * vz) * kb)
        by (nonlinear_arith);
    assert(ux * (uy * ka + vy * kb) - uy * (ux * ka + vx * kb) == (ux * vy - uy * vx) * kb)
        by (nonlinear_arith);
}

/// `n · (k n) == k (n · n)`.
proof fn lemma_dot_scaled(n: V3, k: int)
    ensures
        vdot(n, vscale(n, k)) == k * vdot(n, n),
{
    assert(n.0 * (n.0 * k) + n.1 * (n.1 * k) + n.2 * (n.2 * k) == k * (n.0 * n.0 + n.1 * n.1 + n.2
        * n.2)) by (nonlinear_arith);
}

/// A plane that some ray crosses has a nonzero normal.
pub proof fn lemma_crossed_plane_has_normal(p: Plane, r: Ray)
    requires
        p.wf(),
        denom_of(p, r) != 0,
    ensures
        p.nn > 0,
{
    if p.n.x == 0 && p.n.y == 0 && p.n.z == 0 {
        let (a, b, c) = (r.dir.x as int, r.dir.y as int, r.dir.z as int);
        assert(0 * a + 0 * b + 0 * c == 0) by (nonlinear_arith);
        assert(denom_of(p, r) == 0);
    }
    assert(p.nn > 0) by (nonlinear_arith)
        requires
            p.nn == p.n.x * p.n.x + p.n.y * p.n.y + p.n.z * p.n.z,
            p.n.x != 0 || p.n.y != 0 || p.n.z != 0,
    ;
}

impl Quad {
    pub open spec fn wf(self) -> bool {
        self.plane.wf()
    }

    /// Whether the ray meets the quad at a parameter within `ray_t`.
    pub open spec fn hit_spec(self, r: Ray, ray_t: Interval) -> bool {
        planar_hit(self.plane, r, ray_t, false)
    }

    /// The quad with corner `q` and edges `u` and `v`, boxed by its four corners.
    pub fn new(q: &Point3, u: &Vec3, v: &Vec3, mat: usize) -> (r: Self)
        requires
            q.bounded(GEOM_LIMIT as int),
            u.bounded(GEOM_LIMIT as int),
            v.bounded(GEOM_LIMIT as int),
        ensures
            r.wf(),
            r.plane.q == *q,
            r.plane.u == *u,
            r.plane.v == *v,
            r.mat == mat,
            r.bbox.within(4 * GEOM_LIMIT),
            r.bbox == quad_box(*q, *u, *v),
            r.bbox.valid(),
    {
        let qu = q.plus(u);
        let qv = q.plus(v);
        let quv = qu.plus(v);
        let ghost m: int = 4 * GEOM_LIMIT - 1;
        assert(q.bounded(m) && quv.bounded(m) && qu.bounded(m) && qv.bounded(m));
        let bbox1 = Aabb::two_point(q, &quv);
        let bbox2 = Aabb::two_point(&qu, &qv);
        assert(bbox1.within(m + 1) && bbox2.within(m + 1));
        Self { plane: Plane::new(q, u, v), mat, bbox: Aabb::two_aabb(&bbox1, &bbox2) }
    }

    /// The hit of the ray on the quad at a parameter strictly inside `ray_t`, with planar coordinates in `[0, 1]`; `None` for a ray
    /// parallel to the quad's plane.
    pub fn hit(&self, r: &Ray, ray_t: Interval) -> (res: Option<HitRecord>)
        requires
            self.wf(),
            ray_in_range(*r),
        ensures
            res == planar_result(self.plane, *r, ray_t, false, self.mat),
            res.is_some() ==> res.unwrap().t_ok(),
    {
        planar_hit_record(&self.plane, r, ray_t, false, self.mat)
    }

    pub fn bounding_box(&self) -> (b: Aabb)
        ensures
            b == self.bbox,
    {
        self.bbox
    }
}

/// Corner `q` and edges `u` and `v` of face `i` of the axis-aligned box with
/// opposite corners `a` and `b`: front, right, back, left, top, bottom.
#[verifier::opaque]
pub open spec fn cuboid_face(a: Point3, b: Point3, i: int) -> (Point3, Vec3, Vec3) {
    let mn = Vec3 { x: min_i64(a.x, b.x), y: min_i64(a.y, b.y), z: min_i64(a.z, b.z) };
    let mx = Vec3 { x: max_i64(a.x, b.x), y: max_i64(a.y, b.y), z: max_i64(a.z, b.z) };
    let dx = Vec3 { x: (mx.x - mn.x) as i64, y: 0, z: 0 };
    let dy = Vec3 { x: 0, y: (mx.y - mn.y) as i64, z: 0 };
    let dz = Vec3 { x: 0, y: 0, z: (mx.z - mn.z) as i64 };
    let ndx = Vec3 { x: (mn.x - mx.x) as i64, y: 0, z: 0 };
    let ndz = Vec3 { x: 0, y: 0, z: (mn.z - mx.z) as i64 };
    if i == 0 {
        (Vec3 { x: mn.x, y: mn.y, z: mx.z }, dx, dy)
    } else if i == 1 {
        (Vec3 { x: mx.x, y: mn.y, z: mx.z }, ndz, dy)
    } else if i == 2 {
        (Vec3 { x: mx.x, y: mn.y, z: mn.z }, ndx, dy)
    } else if i == 3 {
        (mn, dz, dy)
    } else if i == 4 {
        (Vec3 { x: mn.x, y: mx.y, z: mx.z }, dx, ndz)
    } else {
        (mn, dx, dz)
    }
}

/// Whether `faces` are the six faces of the box with corners `a` and `b`.
pub open spec fn cuboid_faces_are(faces: Seq<Hittable>, a: Point3, b: Point3, mat: usize) -> bool {
    &&& faces.len() == 6
    &&& forall|i: int|
        0 <= i < 6 ==> is_quad(
            #[trigger] faces[i],
            cuboid_face(a, b, i).0,
            cuboid_face(a, b, i).1,
            cuboid_face(a, b, i).2,
            mat,
        )
}

/// The axis-aligned box with opposite corners `a` and `b`, as its six faces
/// under one hierarchy. Its box is the union of the faces' boxes, and wherever
/// each face's hit passes its own box test it finds the same hit parameter
/// as a linear search of the faces.
#[verifier::spinoff_prover]
#[verifier::rlimit(40)]
pub fn cuboid(a: &Point3, b: &Point3, mat: usize) -> (r: Hittable)
    requires
        a.bounded(GEOM_LIMIT as int / 2),
        b.bounded(GEOM_LIMIT as int / 2),
    ensures
        r.wf(),
        r is Bvh,
        exists|faces: Seq<Hittable>|
            {
                &&& cuboid_faces_are(faces, *a, *b, mat)
                &&& union_of(r.bbox_spec(), faces)
                &&& forall|ray: Ray, t: Interval|
                    ray_in_range(ray) && boxes_catch_hits(faces, ray, t) ==> same_outcome(
                        #[trigger] r.hit_spec(ray, t),
                        closest(faces, ray, t),
                    )
            },
{
    let faces = cuboid_faces(a, b, mat);
    let ghost fs = faces@;
    let node = BvhNode::new(faces);
    let r = Hittable::Bvh(node);
    assert(cuboid_faces_are(fs, *a, *b, mat));
    assert(union_of(r.bbox_spec(), fs));
    assert forall|ray: Ray, t: Interval|
        ray_in_range(ray) && boxes_catch_hits(fs, ray, t) implies same_outcome(
        #[trigger] r.hit_spec(ray, t),
        closest(fs, ray, t),
    ) by {
        assert(same_outcome(Hittable::Bvh(node).hit_spec(ray, t), closest(fs, ray, t)));
    }
    r
}

/// The six faces of the box with corners `a` and `b`.
#[verifier::spinoff_prover]
#[verifier::rlimit(80)]
fn cuboid_faces(a: &Point3, b: &Point3, mat: usize) -> (faces: Vec<Hittable>)
    requires
        a.bounded(GEOM_LIMIT as int / 2),
        b.bounded(GEOM_LIMIT as int / 2),
    ensures
        cuboid_faces_are(faces@, *a, *b, mat),
        faces@.len() >= 1,
        forall|j: int| 0 <= j < faces@.len() ==> (#[trigger] faces@[j]).wf(),
{
    let mut faces: Vec<Hittable> = Vec::new();
    let mut i: usize = 0;
    while i < 6
        invariant
            a.bounded(GEOM_LIMIT as int / 2),
            b.bounded(GEOM_LIMIT as int / 2),
            i <= 6,
            faces@.len() == i,
            forall|j: int|
                0 <= j < i ==> is_quad(
                    #[trigger] faces@[j],
                    cuboid_face(*a, *b, j).0,
                    cuboid_face(*a, *b, j).1,
                    cuboid_face(*a, *b, j).2,
                    mat,
                ),
        decreases 6 - i,
    {
        let face = cuboid_face_quad(a, b, i, mat);
        let ghost before = faces@;
        faces.push(face);
        assert forall|j: int| 0 <= j < i + 1 implies is_quad(
            #[trigger] faces@[j],
            cuboid_face(*a, *b, j).0,
            cuboid_face(*a, *b, j).1,
            cuboid_face(*a, *b, j).2,
            mat,
        ) by {
            if j < i {
                assert(faces@[j] == before[j]);
            }
        }
        i = i + 1;
    }
    assert forall|j: int| 0 <= j < faces@.len() implies (#[trigger] faces@[j]).wf() by {
        assert(is_quad(faces@[j], cuboid_face(*a, *b, j).0, cuboid_face(*a, *b, j).1, cuboid_face(*a, *b, j).2, mat));
        reveal(is_quad);
    }
    faces
}

/// Face `i` of the box with corners `a` and `b`, as a quad.
fn cuboid_face_quad(a: &Point3, b: &Point3, i: usize, mat: usize) -> (r: Hittable)
    requires
        a.bounded(GEOM_LIMIT as int / 2),
        b.bounded(GEOM_LIMIT as int / 2),
    ensures
        is_quad(r, cuboid_face(*a, *b, i as int).0, cuboid_face(*a, *b, i as int).1, cuboid_face(*a, *b, i as int).2, mat),
{
    let min = Point3::new(
        if a.x <= b.x { a.x } else { b.x },
        if a.y <= b.y { a.y } else { b.y },
        if a.z <= b.z { a.z } else { b.z },
    );
    let max = Point3::new(
        if a.x >= b.x { a.x } else { b.x },
        if a.y >= b.y { a.y } else { b.y },
        if a.z >= b.z { a.z } else { b.z },
    );
    let dx = Vec3::new(max.x - min.x, 0, 0);
    let dy = Vec3::new(0, max.y - min.y, 0);
    let dz = Vec3::new(0, 0, max.z - min.z);
    let (q, u, v) = if i == 0 {
        (Point3::new(min.x, min.y, max.z), dx, dy)
    } else if i == 1 {
        (Point3::new(max.x, min.y, max.z), dz.neg(), dy)
    } else if i == 2 {
        (Point3::new(max.x, min.y, min.z), dx.neg(), dy)
    } else if i == 3 {
        (min, dz, dy)
    } else if i == 4 {
        (Point3::new(min.x, max.y, max.z), dx, dz.neg())
    } else {
        (min, dx, dz)
    };
    assert((q, u, v) == cuboid_face(*a, *b, i as int)) by {
        reveal(cuboid_face);
    }
    let r = Hittable::Quad(Quad::new(&q, &u, &v, mat));
    proof {
        reveal(is_quad);
    }
    r
}

/// A ray crossing the plane of a quad within the query interval at the point
/// `Q + (ka u + kb v) / k`, `k` being the crossing's denominator, hits the quad
/// exactly when both coordinates `ka / k` and `kb / k` lie in `[0, 1]`: its
/// centroid (`2 ka == 2 kb == k`) always, a point outside the unit square never.
pub proof fn lemma_quad_containment(quad: Quad, r: Ray, ray_t: Interval, ka: int, kb: int)
    requires
        quad.wf(),
        denom_of(quad.plane, r) != 0,
        param_within(ray_t, t_num_of(quad.plane, r), t_den_of(quad.plane, r)),
        offset_of(quad.plane, r) == vadd(vscale(quad.plane.u@, ka), vscale(quad.plane.v@, kb)),
    ensures
        quad.hit_spec(r, ray_t) == (0 <= ka <= t_den_of(quad.plane, r) && 0 <= kb <= t_den_of(
            quad.plane,
            r,
        )),
{
    let p = quad.plane;
    lemma_planar_coordinates(p.u@, p.v@, ka, kb);
    lemma_crossed_plane_has_normal(p, r);
    let k = t_den_of(p, r);
    assert(a_num_of(p, r) == ka * p.nn);
    assert(b_num_of(p, r) == kb * p.nn);
    lemma_scaled_range(ka, k, p.nn as int);
    lemma_scaled_range(kb, k, p.nn as int);
}

/// For positive `n`, `0 <= a n <= n k` exactly when `0 <= a <= k`.
pub proof fn lemma_scaled_range(a: int, k: int, n: int)
    requires
        n > 0,
    ensures
        (0 <= a * n <= n * k) == (0 <= a <= k),
{
    assert((0 <= a * n) == (0 <= a)) by (nonlinear_arith)
        requires
            n > 0,
    ;
    assert((a * n <= n * k) == (a <= k)) by (nonlinear_arith)
        requires
            n > 0,
    ;
}

} // verus!
