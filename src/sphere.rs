use vstd::prelude::*;
use crate::aabb::Aabb;
use crate::arith::{abs, lemma_mul_abs_bound};
use crate::hittable::{facing_normal, HitRecord, GEOM_LIMIT};
use crate::interval::Interval;
use crate::quad::ray_in_range;
use crate::ray::Ray;
use crate::vec3::{Point3, Vec3};
use crate::wide::{vadd, vdot, vscale, vsub, wcombine, wdot, widen, wsub, Wide};

verus! {

/// A sphere with an integer center and radius.
#[derive(Clone, Copy, Debug)]
pub struct Sphere {
    pub center: Point3,
    pub radius: i64,
    pub mat: usize,
    pub bbox: Aabb,
}

/// Whether `s` is the integer square root of `n`, rounded down.
pub open spec fn is_isqrt(n: int, s: int) -> bool {
    0 <= s && s * s <= n < (s + 1) * (s + 1)
}

/// The terms of the ray–sphere quadratic in half-angle form: with
/// `oc = C - O`, `a = D · D`, `h = D · oc`, `c = oc · oc - r²`, and the
/// discriminant `h² - a c`; the roots are `(h ∓ √disc) / a`.
pub open spec fn quad_a(s: Sphere, r: Ray) -> int {
    vdot(r.dir@, r.dir@)
}

pub open spec fn quad_h(s: Sphere, r: Ray) -> int {
    vdot(r.dir@, vsub(s.center@, r.orig@))
}

pub open spec fn quad_c(s: Sphere, r: Ray) -> int {
    vdot(vsub(s.center@, r.orig@), vsub(s.center@, r.orig@)) - s.radius * s.radius
}

pub open spec fn disc(s: Sphere, r: Ray) -> int {
    quad_h(s, r) * quad_h(s, r) - quad_a(s, r) * quad_c(s, r)
}

/// Whether the nearer root `(h - s) / a`, `s` the square root of the
/// discriminant rounded down, lies strictly inside `t`. It is the exact root
/// when the discriminant is a perfect square.
pub open spec fn near_root_inside(s: Sphere, r: Ray, t: Interval) -> bool {
    let (a, h) = (quad_a(s, r), quad_h(s, r));
    let sq = isqrt_spec(disc(s, r));
    a * t.min < h - sq < a * t.max
}

/// Whether the farther root `(h + s) / a` lies strictly inside `t`.
pub open spec fn far_root_inside(s: Sphere, r: Ray, t: Interval) -> bool {
    let (a, h) = (quad_a(s, r), quad_h(s, r));
    let sq = isqrt_spec(disc(s, r));
    a * t.min < h + sq < a * t.max
}

/// The rounded-down square root of a nonnegative integer.
pub open spec fn isqrt_spec(n: int) -> int {
    choose|s: int| is_isqrt(n, s)
}

/// The rounded-down square root is unique.
pub proof fn lemma_isqrt_unique(n: int, s: int, t: int)
    requires
        is_isqrt(n, s),
        is_isqrt(n, t),
    ensures
        s == t,
{
    if s < t {
        assert((s + 1) * (s + 1) <= t * t) by (nonlinear_arith)
            requires
                0 <= s < t,
        ;
    }
    if t < s {
        assert((t + 1) * (t + 1) <= s * s) by (nonlinear_arith)
            requires
                0 <= t < s,
        ;
    }
}

/// The record of a ray's hit on a sphere: the nearer root inside the
/// interval, the point and normal at it, and the material.
pub open spec fn sphere_result(sp: Sphere, r: Ray, t: Interval) -> Option<HitRecord> {
    if sp.hit_spec(r, t) {
        let a = quad_a(sp, r);
        let h = quad_h(sp, r);
        let sq = isqrt_spec(disc(sp, r));
        let tn = if near_root_inside(sp, r, t) { h - sq } else { h + sq };
        let p = vadd(vscale(r.orig@, a), vscale(r.dir@, tn));
        let n = vadd(vscale(vsub(sp.center@, r.orig@), -a), vscale(r.dir@, tn));
        let nf = facing_normal(r.dir@, n);
        Some(
            HitRecord {
                p_num: Wide { x: p.0 as i128, y: p.1 as i128, z: p.2 as i128 },
                normal: Vec3 { x: nf.0 as i64, y: nf.1 as i64, z: nf.2 as i64 },
                mat: sp.mat,
                t_num: tn as i128,
                t_den: a as i128,
                front_face: vdot(r.dir@, n) < 0,
                u_num: 0,
                v_num: 0,
                uv_den: 1,
            },
        )
    } else {
        None
    }
}

/// The integer square root of `n`, rounded down.
pub(crate) fn isqrt(n: i128) -> (s: i128)
    requires
        0 <= n < 0x10_0000_0000_0000_0000_0000_0000,
    ensures
        is_isqrt(n as int, s as int),
{
    let mut lo: i128 = 0;
    let mut hi: i128 = 0x4_0000_0000_0000;
    assert(hi * hi > n) by (nonlinear_arith)
        requires
            hi == 0x4_0000_0000_0000,
            n < 0x10_0000_0000_0000_0000_0000_0000,
    ;
    while hi - lo > 1
        invariant
            0 <= lo < hi <= 0x4_0000_0000_0000,
            lo * lo <= n < hi * hi,
        decreases hi - lo,
    {
        let mid = lo + (hi - lo) / 2;
        proof {
            lemma_mul_abs_bound(mid as int, mid as int, 0x4_0000_0000_0000, 0x4_0000_0000_0000);
        }
        if mid * mid <= n {
            lo = mid;
        } else {
            hi = mid;
        }
    }
    assert(hi == lo + 1);
    lo
}

impl Sphere {
    pub open spec fn wf(self) -> bool {
        &&& self.center.bounded(GEOM_LIMIT as int)
        &&& 0 < self.radius <= GEOM_LIMIT
        &&& self.bbox.within(4 * GEOM_LIMIT)
        &&& self.bbox.valid()
    }

    /// Whether a ray meets the sphere strictly inside `t`.
    pub open spec fn hit_spec(self, r: Ray, t: Interval) -> bool {
        quad_a(self, r) > 0 && disc(self, r) >= 0 && (near_root_inside(self, r, t) || far_root_inside(
            self,
            r,
            t,
        ))
    }

    /// The sphere around `center`, boxed by the corners `center ∓ radius`.
    pub fn new(center: &Point3, radius: i64, mat: usize) -> (r: Self)
        requires
            center.bounded(GEOM_LIMIT as int),
            0 < radius <= GEOM_LIMIT,
        ensures
            r.wf(),
            r.center == *center,
            r.radius == radius,
            r.mat == mat,
            r.bbox == Aabb::two_point_spec(
                center.sub_spec((Vec3 { x: radius, y: radius, z: radius })),
                center.add_spec((Vec3 { x: radius, y: radius, z: radius })),
            ),
    {
        let r_vec = Vec3::new(radius, radius, radius);
        let lo = center.minus(&r_vec);
        let hi = center.plus(&r_vec);
        let ghost m: int = 4 * GEOM_LIMIT - 1;
        assert(lo.bounded(m) && hi.bounded(m));
        let bbox = Aabb::two_point(&lo, &hi);
        Self { center: *center, radius, mat, bbox }
    }

    /// The nearer of the sphere's two crossings that lies strictly inside
    /// `ray_t`. The parameter's denominator is `D · D`; its numerator is
    /// `h - s` or `h + s` with `s` the square root of the discriminant rounded
    /// down, exact whenever the discriminant is a perfect square. The normal
    /// is `P - C` scaled by `D · D`. Spherical texture coordinates are left at 0.
    pub fn hit(&self, r: &Ray, ray_t: Interval) -> (res: Option<HitRecord>)
        requires
            self.wf(),
            ray_in_range(*r),
        ensures
            res == sphere_result(*self, *r, ray_t),
            res.is_some() == self.hit_spec(*r, ray_t),
            res.is_some() ==> {
                let hr = res.unwrap();
                &&& hr.t_ok()
                &&& ray_t.min * hr.t_den < hr.t_num < ray_t.max * hr.t_den
                &&& hr.t_den == quad_a(*self, *r)
                &&& near_root_inside(*self, *r, ray_t) ==> is_isqrt(disc(*self, *r), quad_h(*self, *r) - hr.t_num)
                &&& !near_root_inside(*self, *r, ray_t) ==> is_isqrt(disc(*self, *r), hr.t_num - quad_h(*self, *r))
                &&& hr.mat == self.mat
                &&& hr.p_num@ == vadd(vscale(r.orig@, hr.t_den as int), vscale(r.dir@, hr.t_num as int))
            },
    {
        let ghost l: int = GEOM_LIMIT as int;
        let o = widen(&r.orig);
        let d = widen(&r.dir);
        let c = widen(&self.center);
        let oc = wsub(&c, &o, Ghost(0x1_0000), Ghost(0x1_0000));
        let a = wdot(&d, &d, Ghost(0x1_0000), Ghost(0x1_0000));
        let h = wdot(&d, &oc, Ghost(0x1_0000), Ghost(0x2_0000));
        proof {
            lemma_mul_abs_bound(self.radius as int, self.radius as int, l, l);
        }
        let cc = wdot(&oc, &oc, Ghost(0x2_0000), Ghost(0x2_0000)) - (self.radius as i128) * (self.radius as i128);
        assert(a >= 0) by (nonlinear_arith)
            requires
                a == d.x * d.x + d.y * d.y + d.z * d.z,
        ;
        if a == 0 {
            return None;
        }
        proof {
            lemma_mul_abs_bound(h as int, h as int, 0x6_0000_0000, 0x6_0000_0000);
            lemma_mul_abs_bound(a as int, cc as int, 0x3_0000_0000, 0xd_0000_0000);
        }
        let discriminant = h * h - a * cc;
        if discriminant < 0 {
            return None;
        }
        let s = isqrt(discriminant);
        proof {
            lemma_mul_abs_bound(a as int, ray_t.min as int, 0x3_0000_0000, 0x8000_0000_0000_0000);
            lemma_mul_abs_bound(a as int, ray_t.max as int, 0x3_0000_0000, 0x8000_0000_0000_0000);
            assert(s <= 0x9_0000_0000) by (nonlinear_arith)
                requires
                    s * s <= discriminant,
                    discriminant <= 0x4b_0000_0000_0000_0000,
                    s >= 0,
            ;
        }
        let (lo, hi) = (a * (ray_t.min as i128), a * (ray_t.max as i128));
        let near_ok = lo < h - s && h - s < hi;
        let far_ok = lo < h + s && h + s < hi;
        assert(a == quad_a(*self, *r) && h == quad_h(*self, *r));
        assert(cc == quad_c(*self, *r));
        assert(discriminant == disc(*self, *r));
        proof {
            lemma_isqrt_unique(discriminant as int, s as int, isqrt_spec(discriminant as int));
        }
        assert(near_ok == near_root_inside(*self, *r, ray_t));
        assert(far_ok == far_root_inside(*self, *r, ray_t));
        if !near_ok && !far_ok {
            return None;
        }
        let t_num = if near_ok { h - s } else { h + s };
        let p_num = wcombine(&o, a, &d, t_num, Ghost(0x1_0000), Ghost(0x3_0000_0000), Ghost(0x1_0000), Ghost(0x10_0000_0000));
        let n = wcombine(&oc, -a, &d, t_num, Ghost(0x2_0000), Ghost(0x3_0000_0000), Ghost(0x1_0000), Ghost(0x10_0000_0000));
        let normal = Vec3::new(n.x as i64, n.y as i64, n.z as i64);
        proof {
            lemma_isqrt_unique(discriminant as int, s as int, isqrt_spec(discriminant as int));
        }
        let rec = HitRecord::new(&p_num, t_num, a, &normal, r, self.mat, 0, 0, 1);
        assert(rec == sphere_result(*self, *r, ray_t).unwrap());
        Some(rec)
    }

    pub fn bounding_box(&self) -> (b: Aabb)
        ensures
            b == self.bbox,
    {
        self.bbox
    }
}

/// A ray from outside a sphere aimed straight at its center, with direction
/// `D = C - O` of whole length `dist`, meets the sphere at the parameter
/// `(dist - radius) / dist`: at distance `dist - radius` along the ray.
pub proof fn lemma_ray_at_center(sp: Sphere, r: Ray, ray_t: Interval, dist: int)
    requires
        sp.wf(),
        ray_in_range(r),
        r.dir@ == vsub(sp.center@, r.orig@),
        dist * dist == vdot(r.dir@, r.dir@),
        dist > sp.radius,
        ray_t.min == 0,
        ray_t.max >= 1,
    ensures
        sphere_result(sp, r, ray_t) is Some,
        sphere_result(sp, r, ray_t).unwrap().t_num == dist * (dist - sp.radius),
        sphere_result(sp, r, ray_t).unwrap().t_den == dist * dist,
{
    let rad = sp.radius as int;
    let a = quad_a(sp, r);
    assert(quad_h(sp, r) == a);
    assert(quad_c(sp, r) == a - rad * rad);
    let d = disc(sp, r);
    assert(d == (dist * rad) * (dist * rad)) by (nonlinear_arith)
        requires
            d == a * a - a * (a - rad * rad),
            a == dist * dist,
    ;
    assert(dist * rad >= 0) by (nonlinear_arith)
        requires
            dist > rad > 0,
    ;
    assert(is_isqrt(d, dist * rad)) by (nonlinear_arith)
        requires
            d == (dist * rad) * (dist * rad),
            dist * rad >= 0,
    ;
    assert(is_isqrt(d, isqrt_spec(d)));
    lemma_isqrt_unique(d, dist * rad, isqrt_spec(d));
    assert(0 < a - dist * rad < a * ray_t.max) by (nonlinear_arith)
        requires
            a == dist * dist,
            dist > rad > 0,
            ray_t.max >= 1,
    ;
    assert(a > 0) by (nonlinear_arith)
        requires
            a == dist * dist,
            dist > 0,
    ;
    assert(near_root_inside(sp, r, ray_t));
    assert(a - dist * rad == dist * (dist - rad)) by (nonlinear_arith)
        requires
            a == dist * dist,
    ;
    assert(a <= 0x3_0000_0000) by {
        lemma_mul_abs_bound(r.dir.x as int, r.dir.x as int, 0x1_0000, 0x1_0000);
        lemma_mul_abs_bound(r.dir.y as int, r.dir.y as int, 0x1_0000, 0x1_0000);
        lemma_mul_abs_bound(r.dir.z as int, r.dir.z as int, 0x1_0000, 0x1_0000);
    }
    assert(0 <= a - dist * rad <= a);
}

/// A ray whose perpendicular distance from the center exceeds the radius
/// (`|oc|² - h² / a > r²`, scaled by `a`) misses the sphere.
pub proof fn lemma_ray_passing_wide(sp: Sphere, r: Ray, ray_t: Interval)
    requires
        quad_a(sp, r) * vdot(vsub(sp.center@, r.orig@), vsub(sp.center@, r.orig@)) - quad_h(sp, r) * quad_h(
            sp,
            r,
        ) > quad_a(sp, r) * (sp.radius * sp.radius),
    ensures
        sphere_result(sp, r, ray_t) is None,
{
    let a = quad_a(sp, r);
    let oo = vdot(vsub(sp.center@, r.orig@), vsub(sp.center@, r.orig@));
    let rr = sp.radius * sp.radius;
    assert(a * (oo - rr) == a * oo - a * rr) by (nonlinear_arith);
}

} // verus!
