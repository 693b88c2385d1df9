use vstd::prelude::*;
use crate::arith::{abs, lemma_mul_abs_bound};
use crate::vec3::Vec3;

verus! {

/// A mathematical three-vector.
pub type V3 = (int, int, int);

pub open spec fn vdot(a: V3, b: V3) -> int {
    a.0 * b.0 + a.1 * b.1 + a.2 * b.2
}

pub open spec fn vcross(a: V3, b: V3) -> V3 {
    (a.1 * b.2 - a.2 * b.1, a.2 * b.0 - a.0 * b.2, a.0 * b.1 - a.1 * b.0)
}

pub open spec fn vadd(a: V3, b: V3) -> V3 {
    (a.0 + b.0, a.1 + b.1, a.2 + b.2)
}

pub open spec fn vsub(a: V3, b: V3) -> V3 {
    (a.0 - b.0, a.1 - b.1, a.2 - b.2)
}

pub open spec fn vscale(a: V3, k: int) -> V3 {
    (a.0 * k, a.1 * k, a.2 * k)
}

pub open spec fn vneg(a: V3) -> V3 {
    (-a.0, -a.1, -a.2)
}

/// Every component of `a` has magnitude at most `b`.
pub open spec fn vbounded(a: V3, b: int) -> bool {
    abs(a.0) <= b && abs(a.1) <= b && abs(a.2) <= b
}

/// A three-vector of 128-bit integers, for the intermediate values of
/// intersection tests.
#[derive(Clone, Copy, Debug)]
pub struct Wide {
    pub x: i128,
    pub y: i128,
    pub z: i128,
}

impl Wide {
    pub open spec fn view(self) -> V3 {
        (self.x as int, self.y as int, self.z as int)
    }
}

impl Vec3 {
    pub open spec fn view(self) -> V3 {
        (self.x as int, self.y as int, self.z as int)
    }
}

pub fn widen(a: &Vec3) -> (r: Wide)
    ensures
        r@ == a@,
{
    Wide { x: a.x as i128, y: a.y as i128, z: a.z as i128 }
}

pub fn wdot(a: &Wide, b: &Wide, Ghost(ba): Ghost<int>, Ghost(bb): Ghost<int>) -> (r: i128)
    requires
        vbounded(a@, ba),
        vbounded(b@, bb),
        3 * (ba * bb) <= i128::MAX,
    ensures
        r == vdot(a@, b@),
        abs(r as int) <= 3 * (ba * bb),
{
    proof {
        lemma_mul_abs_bound(a.x as int, b.x as int, ba, bb);
        lemma_mul_abs_bound(a.y as int, b.y as int, ba, bb);
        lemma_mul_abs_bound(a.z as int, b.z as int, ba, bb);
    }
    a.x * b.x + a.y * b.y + a.z * b.z
}

pub fn wcross(a: &Wide, b: &Wide, Ghost(ba): Ghost<int>, Ghost(bb): Ghost<int>) -> (r: Wide)
    requires
        vbounded(a@, ba),
        vbounded(b@, bb),
        2 * (ba * bb) <= i128::MAX,
    ensures
        r@ == vcross(a@, b@),
        vbounded(r@, 2 * (ba * bb)),
{
    proof {
        lemma_mul_abs_bound(a.y as int, b.z as int, ba, bb);
        lemma_mul_abs_bound(a.z as int, b.y as int, ba, bb);
        lemma_mul_abs_bound(a.z as int, b.x as int, ba, bb);
        lemma_mul_abs_bound(a.x as int, b.z as int, ba, bb);
        lemma_mul_abs_bound(a.x as int, b.y as int, ba, bb);
        lemma_mul_abs_bound(a.y as int, b.x as int, ba, bb);
    }
    Wide { x: a.y * b.z - a.z * b.y, y: a.z * b.x - a.x * b.z, z: a.x * b.y - a.y * b.x }
}

/// `a * k + b * m`, componentwise.
pub fn wcombine(
    a: &Wide,
    k: i128,
    b: &Wide,
    m: i128,
    Ghost(ba): Ghost<int>,
    Ghost(bk): Ghost<int>,
    Ghost(bb): Ghost<int>,
    Ghost(bm): Ghost<int>,
) -> (r: Wide)
    requires
        vbounded(a@, ba),
        vbounded(b@, bb),
        abs(k as int) <= bk,
        abs(m as int) <= bm,
        ba * bk + bb * bm <= i128::MAX,
    ensures
        r@ == vadd(vscale(a@, k as int), vscale(b@, m as int)),
        vbounded(r@, ba * bk + bb * bm),
{
    proof {
        lemma_mul_abs_bound(a.x as int, k as int, ba, bk);
        lemma_mul_abs_bound(a.y as int, k as int, ba, bk);
        lemma_mul_abs_bound(a.z as int, k as int, ba, bk);
        lemma_mul_abs_bound(b.x as int, m as int, bb, bm);
        lemma_mul_abs_bound(b.y as int, m as int, bb, bm);
        lemma_mul_abs_bound(b.z as int, m as int, bb, bm);
    }
    Wide { x: a.x * k + b.x * m, y: a.y * k + b.y * m, z: a.z * k + b.z * m }
}

pub fn wsub(a: &Wide, b: &Wide, Ghost(ba): Ghost<int>, Ghost(bb): Ghost<int>) -> (r: Wide)
    requires
        vbounded(a@, ba),
        vbounded(b@, bb),
        ba + bb <= i128::MAX,
    ensures
        r@ == vsub(a@, b@),
        vbounded(r@, ba + bb),
{
    Wide { x: a.x - b.x, y: a.y - b.y, z: a.z - b.z }
}

} // verus!
