use vstd::prelude::*;
use crate::arith::{abs, frac_le, frac_lt, lemma_frac_le_trans, lemma_frac_lt_le, lemma_mul_abs_bound};
use crate::hittable::{nearer, HitRecord, Hittable};
use crate::interval::Interval;
use crate::quad::ray_in_range;
use crate::ray::Ray;
use crate::wide::vdot;

verus! {

/// Whether two hits lie at the same parameter.
pub open spec fn same_t(a: HitRecord, b: HitRecord) -> bool {
    a.t_num * b.t_den == b.t_num * a.t_den
}

/// Whether two searches agree: both find a hit or neither does, and found
/// hits lie at the same parameter.
pub open spec fn same_outcome(a: Option<HitRecord>, b: Option<HitRecord>) -> bool {
    &&& (a is Some) == (b is Some)
    &&& a is Some ==> same_t(a.unwrap(), b.unwrap())
}

/// Whether `res` is the nearest hit of the ray among `objs`: there is one
/// exactly when some object is hit, it lies at the parameter of one of their
/// hits, and no object is hit strictly nearer.
pub open spec fn nearest_in(res: Option<HitRecord>, objs: Seq<Hittable>, r: Ray, t: Interval) -> bool {
    &&& (res is Some) == (exists|k: int| 0 <= k < objs.len() && (#[trigger] objs[k].hit_spec(r, t)) is Some)
    &&& res is Some ==> res.unwrap().t_den > 0
    &&& forall|k: int|
        0 <= k < objs.len() && (#[trigger] objs[k].hit_spec(r, t)) is Some ==> objs[k].hit_spec(r, t).unwrap().t_den > 0
    &&& res is Some ==> exists|k: int|
        0 <= k < objs.len() && (#[trigger] objs[k].hit_spec(r, t)) is Some && same_t(
            objs[k].hit_spec(r, t).unwrap(),
            res.unwrap(),
        )
    &&& res is Some ==> forall|k: int|
        0 <= k < objs.len() && (#[trigger] objs[k].hit_spec(r, t)) is Some ==> frac_le(
            res.unwrap().t_num as int,
            res.unwrap().t_den as int,
            objs[k].hit_spec(r, t).unwrap().t_num as int,
            objs[k].hit_spec(r, t).unwrap().t_den as int,
        )
}

/// Whether every element of `a` occurs in `b` and every element of `b` in `a`.
pub open spec fn same_elements(a: Seq<Hittable>, b: Seq<Hittable>) -> bool {
    &&& forall|i: int| 0 <= i < a.len() ==> b.contains(#[trigger] a[i])
    &&& forall|j: int| 0 <= j < b.len() ==> a.contains(#[trigger] b[j])
}

/// Whether every object's hit passes the slab test on the object's own box.
pub open spec fn boxes_catch_hits(objs: Seq<Hittable>, r: Ray, t: Interval) -> bool {
    forall|k: int|
        0 <= k < objs.len() && (#[trigger] objs[k].hit_spec(r, t)) is Some ==> objs[k].bbox_spec().slab_hit(r, t)
}

pub proof fn lemma_same_elements_trans(a: Seq<Hittable>, b: Seq<Hittable>, c: Seq<Hittable>)
    requires
        same_elements(a, b),
        same_elements(b, c),
    ensures
        same_elements(a, c),
{
    assert forall|i: int| 0 <= i < a.len() implies c.contains(#[trigger] a[i]) by {
        assert(b.contains(a[i]));
        let j = choose|j: int| 0 <= j < b.len() && b[j] == a[i];
        assert(c.contains(b[j]));
    }
    assert forall|k: int| 0 <= k < c.len() implies a.contains(#[trigger] c[k]) by {
        assert(b.contains(c[k]));
        let j = choose|j: int| 0 <= j < b.len() && b[j] == c[k];
        assert(a.contains(b[j]));
    }
}

/// Moving element `b` of `rest` to the end of `out` keeps the elements.
pub proof fn lemma_move_element(out: Seq<Hittable>, rest: Seq<Hittable>, b: int)
    requires
        0 <= b < rest.len(),
    ensures
        same_elements(out.push(rest[b]) + rest.remove(b), out + rest),
{
    let a = out.push(rest[b]) + rest.remove(b);
    let c = out + rest;
    let n = out.len() as int;
    assert(a.len() == c.len());
    assert forall|i: int| 0 <= i < a.len() implies c.contains(#[trigger] a[i]) by {
        if i < n {
            assert(c[i] == a[i]);
        } else if i == n {
            assert(c[n + b] == a[i]);
        } else if i - n - 1 < b {
            assert(c[i - 1] == a[i]);
        } else {
            assert(c[i] == a[i]);
        }
    }
    assert forall|j: int| 0 <= j < c.len() implies a.contains(#[trigger] c[j]) by {
        if j < n {
            assert(a[j] == c[j]);
        } else if j - n == b {
            assert(a[n] == c[j]);
        } else if j - n < b {
            assert(a[j + 1] == c[j]);
        } else {
            assert(a[j] == c[j]);
        }
    }
}

/// A hit of a well-formed object on a ray in range has a positive
/// parameter denominator.
pub proof fn lemma_hit_den_positive(h: Hittable, r: Ray, t: Interval)
    requires
        h.wf(),
        ray_in_range(r),
    ensures
        h.hit_spec(r, t) is Some ==> h.hit_spec(r, t).unwrap().t_den > 0,
    decreases h,
{
    match h {
        Hittable::Bvh(n) => {
            lemma_hit_den_positive(*n.left, r, t);
            lemma_hit_den_positive(*n.right, r, t);
        },
        Hittable::Sphere(s) => {
            let d = r.dir;
            lemma_mul_abs_bound(d.x as int, d.x as int, 0x1_0000, 0x1_0000);
            lemma_mul_abs_bound(d.y as int, d.y as int, 0x1_0000, 0x1_0000);
            lemma_mul_abs_bound(d.z as int, d.z as int, 0x1_0000, 0x1_0000);
        },
        Hittable::Quad(q) => {
            let (n, d) = (q.plane.n, r.dir);
            lemma_mul_abs_bound(n.x as int, d.x as int, 0x2_0000_0000, 0x1_0000);
            lemma_mul_abs_bound(n.y as int, d.y as int, 0x2_0000_0000, 0x1_0000);
            lemma_mul_abs_bound(n.z as int, d.z as int, 0x2_0000_0000, 0x1_0000);
            assert(abs(vdot(n@, d@)) <= 0x6_0000_0000_0000);
        },
        Hittable::Triangle(q) => {
            let (n, d) = (q.plane.n, r.dir);
            lemma_mul_abs_bound(n.x as int, d.x as int, 0x2_0000_0000, 0x1_0000);
            lemma_mul_abs_bound(n.y as int, d.y as int, 0x2_0000_0000, 0x1_0000);
            lemma_mul_abs_bound(n.z as int, d.z as int, 0x2_0000_0000, 0x1_0000);
            assert(abs(vdot(n@, d@)) <= 0x6_0000_0000_0000);
        },
    }
}

/// Being the nearest hit depends on the objects only, not on their order.
pub proof fn lemma_nearest_transfer(res: Option<HitRecord>, a: Seq<Hittable>, b: Seq<Hittable>, r: Ray, t: Interval)
    requires
        nearest_in(res, a, r, t),
        same_elements(a, b),
    ensures
        nearest_in(res, b, r, t),
{
    if exists|k: int| 0 <= k < a.len() && (#[trigger] a[k].hit_spec(r, t)) is Some {
        let k = choose|k: int| 0 <= k < a.len() && (#[trigger] a[k].hit_spec(r, t)) is Some;
        assert(b.contains(a[k]));
        let j = choose|j: int| 0 <= j < b.len() && b[j] == a[k];
        assert(b[j].hit_spec(r, t) is Some);
    }
    if exists|j: int| 0 <= j < b.len() && (#[trigger] b[j].hit_spec(r, t)) is Some {
        let j = choose|j: int| 0 <= j < b.len() && (#[trigger] b[j].hit_spec(r, t)) is Some;
        assert(a.contains(b[j]));
        let k = choose|k: int| 0 <= k < a.len() && a[k] == b[j];
        assert(a[k].hit_spec(r, t) is Some);
    }
    if res is Some {
        let k = choose|k: int|
            0 <= k < a.len() && (#[trigger] a[k].hit_spec(r, t)) is Some && same_t(a[k].hit_spec(r, t).unwrap(), res.unwrap());
        assert(b.contains(a[k]));
        let j = choose|j: int| 0 <= j < b.len() && b[j] == a[k];
        assert(b[j].hit_spec(r, t) is Some && same_t(b[j].hit_spec(r, t).unwrap(), res.unwrap()));
        assert forall|j2: int| 0 <= j2 < b.len() && (#[trigger] b[j2].hit_spec(r, t)) is Some implies frac_le(
            res.unwrap().t_num as int,
            res.unwrap().t_den as int,
            b[j2].hit_spec(r, t).unwrap().t_num as int,
            b[j2].hit_spec(r, t).unwrap().t_den as int,
        ) by {
            assert(a.contains(b[j2]));
            let k2 = choose|k2: int| 0 <= k2 < a.len() && a[k2] == b[j2];
            assert(a[k2].hit_spec(r, t) is Some);
        }
    }
    assert forall|j2: int| 0 <= j2 < b.len() && (#[trigger] b[j2].hit_spec(r, t)) is Some implies b[j2].hit_spec(
        r,
        t,
    ).unwrap().t_den > 0 by {
        assert(a.contains(b[j2]));
        let k2 = choose|k2: int| 0 <= k2 < a.len() && a[k2] == b[j2];
        assert(a[k2].hit_spec(r, t) is Some);
    }
}

/// The nearer of the nearest hits of two groups is the nearest hit of both.
pub proof fn lemma_nearer_of_groups(x: Option<HitRecord>, y: Option<HitRecord>, s1: Seq<Hittable>, s2: Seq<Hittable>, r: Ray, t: Interval)
    requires
        nearest_in(x, s1, r, t),
        nearest_in(y, s2, r, t),
    ensures
        nearest_in(nearer(x, y), s1 + s2, r, t),
{
    let s = s1 + s2;
    let n1 = s1.len() as int;
    assert forall|k: int| 0 <= k < s1.len() implies #[trigger] s[k] == s1[k] by {}
    assert forall|k: int| 0 <= k < s2.len() implies #[trigger] s[k + n1] == s2[k] by {}
    let res = nearer(x, y);
    assert forall|k: int| 0 <= k < s.len() && (#[trigger] s[k].hit_spec(r, t)) is Some implies s[k].hit_spec(
        r,
        t,
    ).unwrap().t_den > 0 by {
        if k < n1 {
            assert(s1[k].hit_spec(r, t) is Some);
        } else {
            assert(s2[k - n1] == s[k]);
            assert(s2[k - n1].hit_spec(r, t) is Some);
        }
    }
    if exists|k: int| 0 <= k < s.len() && (#[trigger] s[k].hit_spec(r, t)) is Some {
        let k = choose|k: int| 0 <= k < s.len() && (#[trigger] s[k].hit_spec(r, t)) is Some;
        if k < n1 {
            assert(s1[k].hit_spec(r, t) is Some);
        } else {
            assert(s2[k - n1] == s[k]);
            assert(s2[k - n1].hit_spec(r, t) is Some);
        }
    }
    if x is Some {
        let k = choose|k: int| 0 <= k < s1.len() && (#[trigger] s1[k].hit_spec(r, t)) is Some;
        assert(s[k].hit_spec(r, t) is Some);
    }
    if y is Some {
        let k = choose|k: int| 0 <= k < s2.len() && (#[trigger] s2[k].hit_spec(r, t)) is Some;
        assert(s[k + n1].hit_spec(r, t) is Some);
    }
    if res is Some {
        let h = res.unwrap();
        // The chosen hit is one of the groups' hits.
        if res == x {
            let k = choose|k: int|
                0 <= k < s1.len() && (#[trigger] s1[k].hit_spec(r, t)) is Some && same_t(s1[k].hit_spec(r, t).unwrap(), h);
            assert(s[k].hit_spec(r, t) is Some && same_t(s[k].hit_spec(r, t).unwrap(), h));
        } else {
            assert(res == y);
            let k = choose|k: int|
                0 <= k < s2.len() && (#[trigger] s2[k].hit_spec(r, t)) is Some && same_t(s2[k].hit_spec(r, t).unwrap(), h);
            assert(s[k + n1].hit_spec(r, t) is Some && same_t(s[k + n1].hit_spec(r, t).unwrap(), h));
        }
        // The chosen hit is no farther than either group's nearest.
        let xle = x is Some ==> frac_le(h.t_num as int, h.t_den as int, x.unwrap().t_num as int, x.unwrap().t_den as int);
        let yle = y is Some ==> frac_le(h.t_num as int, h.t_den as int, y.unwrap().t_num as int, y.unwrap().t_den as int);
        assert(xle && yle) by {
            if x is Some && y is Some {
                let (a, b) = (x.unwrap(), y.unwrap());
                if frac_lt(a.t_num as int, a.t_den as int, b.t_num as int, b.t_den as int) {
                    assert(res == x);
                } else {
                    assert(res == y);
                }
            }
        }
        assert forall|k: int| 0 <= k < s.len() && (#[trigger] s[k].hit_spec(r, t)) is Some implies frac_le(
            h.t_num as int,
            h.t_den as int,
            s[k].hit_spec(r, t).unwrap().t_num as int,
            s[k].hit_spec(r, t).unwrap().t_den as int,
        ) by {
            let g = s[k].hit_spec(r, t).unwrap();
            if k < n1 {
                assert(s1[k].hit_spec(r, t) is Some);
                let a = x.unwrap();
                lemma_frac_le_trans(h.t_num as int, h.t_den as int, a.t_num as int, a.t_den as int, g.t_num as int, g.t_den as int);
            } else {
                assert(s2[k - n1] == s[k]);
                assert(s2[k - n1].hit_spec(r, t) is Some);
                let b = y.unwrap();
                lemma_frac_le_trans(h.t_num as int, h.t_den as int, b.t_num as int, b.t_den as int, g.t_num as int, g.t_den as int);
            }
        }
    }
}

/// Two nearest hits among the same objects agree.
pub proof fn lemma_nearest_unique(a: Option<HitRecord>, b: Option<HitRecord>, objs: Seq<Hittable>, r: Ray, t: Interval)
    requires
        nearest_in(a, objs, r, t),
        nearest_in(b, objs, r, t),
    ensures
        same_outcome(a, b),
{
    if a is Some {
        let (x, y) = (a.unwrap(), b.unwrap());
        let kb = choose|k: int|
            0 <= k < objs.len() && (#[trigger] objs[k].hit_spec(r, t)) is Some && same_t(objs[k].hit_spec(r, t).unwrap(), y);
        let ka = choose|k: int|
            0 <= k < objs.len() && (#[trigger] objs[k].hit_spec(r, t)) is Some && same_t(objs[k].hit_spec(r, t).unwrap(), x);
        let wb = objs[kb].hit_spec(r, t).unwrap();
        let wa = objs[ka].hit_spec(r, t).unwrap();
        // x <= wb ~ y and y <= wa ~ x.
        lemma_le_same(x, wb, y);
        lemma_le_same(y, wa, x);
        let (xn, xd, yn, yd) = (x.t_num as int, x.t_den as int, y.t_num as int, y.t_den as int);
        assert(xn * yd == yn * xd) by (nonlinear_arith)
            requires
                xn * yd <= yn * xd,
                yn * xd <= xn * yd,
        ;
    }
}

/// `x <= w` and `w` at the same parameter as `y` give `x <= y`.
proof fn lemma_le_same(x: HitRecord, w: HitRecord, y: HitRecord)
    requires
        x.t_den > 0,
        y.t_den > 0,
        frac_le(x.t_num as int, x.t_den as int, w.t_num as int, w.t_den as int),
        same_t(w, y),
        w.t_den > 0 || w.t_den < 0 || w.t_den == 0,
    ensures
        w.t_den > 0 ==> frac_le(x.t_num as int, x.t_den as int, y.t_num as int, y.t_den as int),
{
    let (xn, xd, wn, wd, yn, yd) = (x.t_num as int, x.t_den as int, w.t_num as int, w.t_den as int, y.t_num as int, y.t_den as int);
    if wd > 0 {
        assert(xn * wd * yd <= wn * xd * yd) by (nonlinear_arith)
            requires
                xn * wd <= wn * xd,
                yd > 0,
        ;
        assert(wn * yd * xd == yn * wd * xd) by (nonlinear_arith)
            requires
                wn * yd == yn * wd,
        ;
        assert(xn * yd * wd <= yn * xd * wd) by (nonlinear_arith)
            requires
                xn * wd * yd <= wn * xd * yd,
                wn * yd * xd == yn * wd * xd,
        ;
        assert(xn * yd <= yn * xd) by (nonlinear_arith)
            requires
                xn * yd * wd <= yn * xd * wd,
                wd > 0,
        ;
    }
}

} // verus!
