use vstd::prelude::*;
use crate::arith::{abs, lemma_mul_abs_bound};
use crate::hittable::GEOM_LIMIT;
use crate::interval::Interval;
use crate::ray::Ray;
use crate::vec3::{Point3, Vec3};
use crate::wide::{vadd, vcross, vdot, vscale, vsub, vbounded, wcombine, wcross, wdot, widen, wsub, Wide, V3};

verus! {

/// The plane through `q` spanned by edges `u` and `v`, with the unscaled
/// normal `n = u × v`, the plane constant `d = n · q` and `nn = n · n`.
#[derive(Clone, Copy, Debug)]
pub struct Plane {
    pub q: Point3,
    pub u: Vec3,
    pub v: Vec3,
    pub n: Vec3,
    pub d: i128,
    pub nn: i128,
}

/// Where a ray crosses a plane: parameter `t_num / t_den`, point
/// `p_num / t_den`, planar coordinates `a_num / ab_den` along `u` and
/// `b_num / ab_den` along `v`.
#[derive(Clone, Copy, Debug)]
pub struct Crossing {
    pub t_num: i128,
    pub t_den: i128,
    pub p_num: Wide,
    pub a_num: i128,
    pub b_num: i128,
    pub ab_den: i128,
}

/// `n · D`: zero when the ray runs parallel to the plane.
pub open spec fn denom_of(p: Plane, r: Ray) -> int {
    vdot(p.n@, r.dir@)
}

pub open spec fn t_den_of(p: Plane, r: Ray) -> int {
    abs(denom_of(p, r))
}

/// The crossing parameter's numerator over `t_den_of`: `(d - n · O) / (n · D)`.
pub open spec fn t_num_of(p: Plane, r: Ray) -> int {
    if denom_of(p, r) > 0 {
        p.d - vdot(p.n@, r.orig@)
    } else {
        vdot(p.n@, r.orig@) - p.d
    }
}

/// `(P - Q) * t_den` for the crossing point `P`.
pub open spec fn offset_of(p: Plane, r: Ray) -> V3 {
    vadd(vscale(vsub(r.orig@, p.q@), t_den_of(p, r)), vscale(r.dir@, t_num_of(p, r)))
}

/// `(P - Q) × v` projected on `n`: the coordinate along `u`, times `nn * t_den`.
pub open spec fn a_num_of(p: Plane, r: Ray) -> int {
    vdot(p.n@, vcross(offset_of(p, r), p.v@))
}

/// `u × (P - Q)` projected on `n`: the coordinate along `v`, times `nn * t_den`.
pub open spec fn b_num_of(p: Plane, r: Ray) -> int {
    vdot(p.n@, vcross(p.u@, offset_of(p, r)))
}

/// Whether parameter `num / den` lies strictly inside the interval `t`.
pub open spec fn param_within(t: Interval, num: int, den: int) -> bool {
    t.min * den < num < t.max * den
}

impl Plane {
    pub open spec fn wf(self) -> bool {
        &&& self.q.bounded(GEOM_LIMIT as int)
        &&& self.u.bounded(GEOM_LIMIT as int)
        &&& self.v.bounded(GEOM_LIMIT as int)
        &&& self.n@ == vcross(self.u@, self.v@)
        &&& self.d == vdot(self.n@, self.q@)
        &&& self.nn == vdot(self.n@, self.n@)
        &&& vbounded(self.n@, 0x2_0000_0000)
        &&& abs(self.d as int) <= 0x6_0000_0000_0000
        &&& 0 <= self.nn <= 0xc_0000_0000_0000_0000
    }

    /// The plane through `q` spanned by `u` and `v`.
    pub fn new(q: &Point3, u: &Vec3, v: &Vec3) -> (r: Self)
        requires
            q.bounded(GEOM_LIMIT as int),
            u.bounded(GEOM_LIMIT as int),
            v.bounded(GEOM_LIMIT as int),
        ensures
            r.wf(),
            r.q == *q,
            r.u == *u,
            r.v == *v,
    {
        let nw = wcross(&widen(u), &widen(v), Ghost(0x1_0000), Ghost(0x1_0000));
        let n = Vec3::new(nw.x as i64, nw.y as i64, nw.z as i64);
        let d = wdot(&nw, &widen(q), Ghost(0x2_0000_0000), Ghost(0x1_0000));
        let nn = wdot(&nw, &nw, Ghost(0x2_0000_0000), Ghost(0x2_0000_0000));
        assert(nn >= 0) by (nonlinear_arith)
            requires
                nn == nw.x * nw.x + nw.y * nw.y + nw.z * nw.z,
        ;
        Plane { q: *q, u: *u, v: *v, n, d, nn }
    }

    /// Where the ray crosses the plane, or `None` when it runs parallel to it.
    pub fn crossing(&self, r: &Ray) -> (c: Option<Crossing>)
        requires
            self.wf(),
            r.orig.bounded(GEOM_LIMIT as int),
            r.dir.bounded(GEOM_LIMIT as int),
        ensures
            c.is_none() == (denom_of(*self, *r) == 0),
            c.is_some() ==> {
                let x = c.unwrap();
                &&& x.t_num == t_num_of(*self, *r)
                &&& x.t_den == t_den_of(*self, *r)
                &&& x.t_den > 0
                &&& abs(x.t_num as int) <= 0x10_0000_0000_0000
                &&& x.t_den <= 0x10_0000_0000_0000
                &&& x.p_num@ == vadd(vscale(r.orig@, x.t_den as int), vscale(r.dir@, x.t_num as int))
                &&& vbounded(x.p_num@, 0x100_0000_0000_0000_0000)
                &&& x.a_num == a_num_of(*self, *r)
                &&& x.b_num == b_num_of(*self, *r)
                &&& x.ab_den == self.nn * x.t_den
                &&& x.ab_den > 0
            },
    {
        let n = widen(&self.n);
        let o = widen(&r.orig);
        let dir = widen(&r.dir);
        let denom = wdot(&n, &dir, Ghost(0x2_0000_0000), Ghost(0x1_0000));
        if denom == 0 {
            return None;
        }
        let no = wdot(&n, &o, Ghost(0x2_0000_0000), Ghost(0x1_0000));
        let (t_num, t_den) = if denom > 0 { (self.d - no, denom) } else { (no - self.d, -denom) };
        let ghost tb: int = 0x6_0000_0000_0000;
        let ghost pb: int = 0x18_0000_0000_0000_0000;
        assert(abs(t_num as int) <= 2 * tb && t_den <= tb);
        let oq = wsub(&o, &widen(&self.q), Ghost(0x1_0000), Ghost(0x1_0000));
        let pq = wcombine(&oq, t_den, &dir, t_num, Ghost(0x2_0000), Ghost(tb), Ghost(0x1_0000), Ghost(2 * tb));
        let p_num = wcombine(&o, t_den, &dir, t_num, Ghost(0x1_0000), Ghost(tb), Ghost(0x1_0000), Ghost(2 * tb));
        let v = widen(&self.v);
        let u = widen(&self.u);
        let pv = wcross(&pq, &v, Ghost(pb), Ghost(0x1_0000));
        let up = wcross(&u, &pq, Ghost(0x1_0000), Ghost(pb));
        let a_num = wdot(&n, &pv, Ghost(0x2_0000_0000), Ghost(0x30_0000_0000_0000_0000_0000));
        let b_num = wdot(&n, &up, Ghost(0x2_0000_0000), Ghost(0x30_0000_0000_0000_0000_0000));
        proof {
            lemma_mul_abs_bound(self.nn as int, t_den as int, 0xc_0000_0000_0000_0000, tb);
            assert(self.nn > 0) by {
                assert(vdot(self.n@, self.n@) >= 0) by (nonlinear_arith);
                if self.nn == 0 {
                    assert(self.n.x == 0 && self.n.y == 0 && self.n.z == 0) by (nonlinear_arith)
                        requires
                            self.n.x * self.n.x + self.n.y * self.n.y + self.n.z * self.n.z == 0,
                    ;
                }
            }
            assert(self.nn * t_den > 0) by (nonlinear_arith)
                requires
                    self.nn > 0,
                    t_den > 0,
            ;
        }
        let ab_den = self.nn * t_den;
        Some(Crossing { t_num, t_den, p_num, a_num, b_num, ab_den })
    }
}

} // verus!
