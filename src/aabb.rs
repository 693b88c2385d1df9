use vstd::prelude::*;
use crate::arith::{abs, frac_le, frac_lt, lemma_frac_le_lt, lemma_frac_le_trans, lemma_frac_lt_le, lemma_mul_abs_bound};
use crate::interval::Interval;
use crate::ray::Ray;
use crate::vec3::{Point3, Vec3};

verus! {

/// The thinnest a padded box may be along any axis.
pub const MIN_THICKNESS: i64 = 2;

/// The largest magnitude of a box bound or of a ray component in a slab test.
pub const SLAB_LIMIT: i64 = 0x100_0000_0000;

/// An axis-aligned box: one closed interval per axis.
#[derive(Clone, Copy, Debug, PartialEq, Eq, Structural)]
pub struct Aabb {
    pub x: Interval,
    pub y: Interval,
    pub z: Interval,
}

/// The interval after padding: one thinner than `MIN_THICKNESS` grows by half
/// of it on each side.
pub open spec fn padded(iv: Interval) -> Interval {
    if iv.max - iv.min < MIN_THICKNESS {
        Interval { min: (iv.min - MIN_THICKNESS / 2) as i64, max: (iv.max + MIN_THICKNESS / 2) as i64 }
    } else {
        iv
    }
}

/// An interval whose bounds leave room for padding.
pub open spec fn paddable(iv: Interval) -> bool {
    iv.min >= i64::MIN + 1 && iv.max <= i64::MAX - 1
}

/// The smaller of two integers, as an interval bound.
pub open spec fn min_i64(a: i64, b: i64) -> i64 {
    if a <= b {
        a
    } else {
        b
    }
}

pub open spec fn max_i64(a: i64, b: i64) -> i64 {
    if a >= b {
        a
    } else {
        b
    }
}

/// The interval between two values, in either order.
pub open spec fn sorted(a: i64, b: i64) -> Interval {
    Interval { min: min_i64(a, b), max: max_i64(a, b) }
}

/// The interval `iv` moved by `d`.
pub open spec fn shifted(iv: Interval, d: int) -> Interval {
    Interval { min: (iv.min + d) as i64, max: (iv.max + d) as i64 }
}

/// Whether `iv` moved by `d` still leaves room for padding.
pub open spec fn shift_fits(iv: Interval, d: int) -> bool {
    i64::MIN + 1 <= iv.min + d <= i64::MAX - 1 && i64::MIN + 1 <= iv.max + d <= i64::MAX - 1
}

/// The numerator of the parameter at which a ray with component `o + t * d`
/// crosses the plane at `bound`, over the denominator `|d|`.
pub open spec fn slab_num(bound: int, o: int, d: int) -> int {
    if d > 0 {
        bound - o
    } else {
        o - bound
    }
}

/// Numerator of the parameter at which a ray enters the slab `iv`, over `|d|`.
pub open spec fn entry_num(iv: Interval, o: int, d: int) -> int {
    let n0 = slab_num(iv.min as int, o, d);
    let n1 = slab_num(iv.max as int, o, d);
    if n0 < n1 {
        n0
    } else {
        n1
    }
}

/// Numerator of the parameter at which a ray leaves the slab `iv`, over `|d|`.
pub open spec fn exit_num(iv: Interval, o: int, d: int) -> int {
    let n0 = slab_num(iv.min as int, o, d);
    let n1 = slab_num(iv.max as int, o, d);
    if n0 < n1 {
        n1
    } else {
        n0
    }
}

impl Aabb {
    /// The interval on axis `k` (0 = x, 1 = y, otherwise z).
    pub open spec fn axis_spec(self, k: int) -> Interval {
        if k == 0 {
            self.x
        } else if k == 1 {
            self.y
        } else {
            self.z
        }
    }

    /// Every bound has magnitude at most `b`.
    pub open spec fn within(self, b: int) -> bool {
        forall|k: int|
            0 <= k < 3 ==> abs(#[trigger] self.axis_spec(k).min as int) <= b && abs(
                self.axis_spec(k).max as int,
            ) <= b
    }

    /// The axis along which the box is longest; of equal sizes the later axis.
    pub open spec fn longest_axis_spec(self) -> usize {
        if self.x.max - self.x.min > self.y.max - self.y.min {
            if self.x.max - self.x.min > self.z.max - self.z.min {
                0
            } else {
                2
            }
        } else if self.y.max - self.y.min > self.z.max - self.z.min {
            1
        } else {
            2
        }
    }

    /// Whether no interval of the box is inverted.
    pub open spec fn valid(self) -> bool {
        forall|k: int| 0 <= k < 3 ==> (#[trigger] self.axis_spec(k)).min <= self.axis_spec(k).max
    }

    /// Whether this box holds `small` on every axis.
    pub open spec fn encloses(self, small: Aabb) -> bool {
        forall|k: int|
            0 <= k < 3 ==> (#[trigger] self.axis_spec(k)).min <= small.axis_spec(k).min && small.axis_spec(
                k,
            ).max <= self.axis_spec(k).max
    }

    /// The padded box spanned by two corner points.
    pub open spec fn two_point_spec(a: Point3, b: Point3) -> Aabb {
        Aabb { x: padded(sorted(a.x, b.x)), y: padded(sorted(a.y, b.y)), z: padded(sorted(a.z, b.z)) }
    }

    /// Every bound and every ray component fit the slab test's arithmetic.
    pub open spec fn slab_ready(self, r: Ray) -> bool {
        &&& forall|k: int|
            0 <= k < 3 ==> abs(#[trigger] self.axis_spec(k).min as int) <= SLAB_LIMIT && abs(
                self.axis_spec(k).max as int,
            ) <= SLAB_LIMIT
        &&& r.orig.bounded(SLAB_LIMIT as int)
        &&& r.dir.bounded(SLAB_LIMIT as int)
    }

    /// Whether bound `k` of the ray's parameter takes part: bound 0 is the
    /// query interval's, bound `k + 1` is that of axis `k`, present unless
    /// the ray runs parallel to that axis's slab.
    pub open spec fn bound_active(r: Ray, k: int) -> bool {
        k == 0 || r.dir.axis_spec(k - 1) != 0
    }

    /// Numerator and denominator of lower bound `k` of the parameter.
    pub open spec fn lower_bound(self, r: Ray, t: Interval, k: int) -> (int, int) {
        if k == 0 {
            (t.min as int, 1)
        } else {
            (
                entry_num(self.axis_spec(k - 1), r.orig.axis_spec(k - 1), r.dir.axis_spec(k - 1)),
                abs(r.dir.axis_spec(k - 1)),
            )
        }
    }

    /// Numerator and denominator of upper bound `k` of the parameter.
    pub open spec fn upper_bound(self, r: Ray, t: Interval, k: int) -> (int, int) {
        if k == 0 {
            (t.max as int, 1)
        } else {
            (
                exit_num(self.axis_spec(k - 1), r.orig.axis_spec(k - 1), r.dir.axis_spec(k - 1)),
                abs(r.dir.axis_spec(k - 1)),
            )
        }
    }

    /// The slab test: the ray lies within every slab it runs parallel to, and
    /// the latest of the entry parameters and `t.min` comes strictly before
    /// the earliest of the exit parameters and `t.max`.
    pub open spec fn slab_hit(self, r: Ray, t: Interval) -> bool {
        &&& forall|a: int|
            0 <= a < 3 ==> #[trigger] r.dir.axis_spec(a) != 0 || self.axis_spec(a).contains_spec(
                r.orig.axis_spec(a),
            )
        &&& forall|i: int, j: int|
            0 <= i < 4 && 0 <= j < 4 && Self::bound_active(r, i) && Self::bound_active(r, j)
                ==> frac_lt(
                #[trigger] self.lower_bound(r, t, i).0,
                self.lower_bound(r, t, i).1,
                #[trigger] self.upper_bound(r, t, j).0,
                self.upper_bound(r, t, j).1,
            )
    }

    /// The box of the single point at the origin.
    pub open spec fn zero_spec() -> Aabb {
        let o = Interval { min: 0, max: 0 };
        Aabb { x: o, y: o, z: o }
    }

    /// The smallest box holding both boxes.
    pub open spec fn union_spec(a: Aabb, b: Aabb) -> Aabb {
        Aabb {
            x: Interval { min: min_i64(a.x.min, b.x.min), max: max_i64(a.x.max, b.x.max) },
            y: Interval { min: min_i64(a.y.min, b.y.min), max: max_i64(a.y.max, b.y.max) },
            z: Interval { min: min_i64(a.z.min, b.z.min), max: max_i64(a.z.max, b.z.max) },
        }
    }

    /// A box whose three intervals are the single point 0.
    pub fn zero() -> (r: Self)
        ensures
            r == Self::zero_spec(),
    {
        Self { x: Interval::new(0, 0), y: Interval::new(0, 0), z: Interval::new(0, 0) }
    }

    /// A box from three intervals, each padded to the minimum thickness.
    pub fn new(x: Interval, y: Interval, z: Interval) -> (r: Self)
        requires
            paddable(x),
            paddable(y),
            paddable(z),
        ensures
            r.x == padded(x),
            r.y == padded(y),
            r.z == padded(z),
    {
        let mut aabb = Self { x, y, z };
        aabb.pad_to_minimums();
        aabb
    }

    /// The padded box spanned by two corner points, in either order.
    pub fn two_point(a: &Point3, b: &Point3) -> (r: Self)
        requires
            a.bounded(i64::MAX - 1),
            b.bounded(i64::MAX - 1),
        ensures
            r.x == padded(sorted(a.x, b.x)),
            r.y == padded(sorted(a.y, b.y)),
            r.z == padded(sorted(a.z, b.z)),
            forall|m: int| #[trigger] a.bounded(m) && b.bounded(m) && m < i64::MAX - 1 ==> r.within(m + 1),
            r == Self::two_point_spec(*a, *b),
            r.valid(),
    {
        let x = if a.x <= b.x {
            Interval::new(a.x, b.x)
        } else {
            Interval::new(b.x, a.x)
        };
        let y = if a.y <= b.y {
            Interval::new(a.y, b.y)
        } else {
            Interval::new(b.y, a.y)
        };
        let z = if a.z <= b.z {
            Interval::new(a.z, b.z)
        } else {
            Interval::new(b.z, a.z)
        };
        let mut aabb = Self { x, y, z };
        aabb.pad_to_minimums();
        assert(aabb.axis_spec(0) == aabb.x && aabb.axis_spec(1) == aabb.y && aabb.axis_spec(2) == aabb.z);
        aabb
    }

    /// The smallest box holding both boxes.
    pub fn two_aabb(box0: &Aabb, box1: &Aabb) -> (r: Self)
        ensures
            forall|k: int|
                0 <= k < 3 ==> (#[trigger] r.axis_spec(k)).min == min_i64(
                    box0.axis_spec(k).min,
                    box1.axis_spec(k).min,
                ) && r.axis_spec(k).max == max_i64(box0.axis_spec(k).max, box1.axis_spec(k).max),
            forall|m: int| box0.within(m) && box1.within(m) ==> r.within(m),
            r == Self::union_spec(*box0, *box1),
            box0.valid() && box1.valid() ==> r.valid(),
            r.encloses(*box0) && r.encloses(*box1),
    {
        let r = Self {
            x: Interval::two_interval(&box0.x, &box1.x),
            y: Interval::two_interval(&box0.y, &box1.y),
            z: Interval::two_interval(&box0.z, &box1.z),
        };
        assert(r.axis_spec(0) == r.x && r.axis_spec(1) == r.y && r.axis_spec(2) == r.z);
        proof {
            if box0.valid() && box1.valid() {
                assert forall|k: int| 0 <= k < 3 implies (#[trigger] r.axis_spec(k)).min <= r.axis_spec(k).max by {
                    assert(box0.axis_spec(k).min <= box0.axis_spec(k).max);
                    assert(box1.axis_spec(k).min <= box1.axis_spec(k).max);
                }
            }
        }
        assert forall|m: int| box0.within(m) && box1.within(m) implies r.within(m) by {
            assert forall|k: int| 0 <= k < 3 implies abs(#[trigger] r.axis_spec(k).min as int) <= m && abs(
                r.axis_spec(k).max as int,
            ) <= m by {
                assert(abs(box0.axis_spec(k).min as int) <= m && abs(box0.axis_spec(k).max as int) <= m);
                assert(abs(box1.axis_spec(k).min as int) <= m && abs(box1.axis_spec(k).max as int) <= m);
            }
        }
        r
    }

    /// The interval on axis `n` (1 = y, 2 = z, any other value x).
    pub fn axis_interval(&self, n: u32) -> (r: Interval)
        ensures
            r == (if n == 1 {
                self.y
            } else if n == 2 {
                self.z
            } else {
                self.x
            }),
    {
        if n == 1 {
            self.y
        } else if n == 2 {
            self.z
        } else {
            self.x
        }
    }

    /// The axis along which the box is longest; of equal sizes the later
    /// axis wins.
    pub fn longest_axis(&self) -> (r: usize)
        ensures
            r < 3,
            r == self.longest_axis_spec(),
            r == (if self.x.max - self.x.min > self.y.max - self.y.min {
                if self.x.max - self.x.min > self.z.max - self.z.min {
                    0usize
                } else {
                    2usize
                }
            } else if self.y.max - self.y.min > self.z.max - self.z.min {
                1usize
            } else {
                2usize
            }),
            forall|k: int|
                0 <= k < 3 ==> #[trigger] self.axis_spec(k).max - self.axis_spec(k).min
                    <= self.axis_spec(r as int).max - self.axis_spec(r as int).min,
    {
        if self.x.size() > self.y.size() {
            if self.x.size() > self.z.size() {
                0
            } else {
                2
            }
        } else if self.y.size() > self.z.size() {
            1
        } else {
            2
        }
    }

    fn pad_to_minimums(&mut self)
        requires
            paddable(old(self).x),
            paddable(old(self).y),
            paddable(old(self).z),
        ensures
            final(self).x == padded(old(self).x),
            final(self).y == padded(old(self).y),
            final(self).z == padded(old(self).z),
    {
        let delta = MIN_THICKNESS;
        if self.x.size() < delta as i128 {
            self.x = self.x.expand(delta);
        }
        if self.y.size() < delta as i128 {
            self.y = self.y.expand(delta);
        }
        if self.z.size() < delta as i128 {
            self.z = self.z.expand(delta);
        }
    }

    /// The slab test: whether the ray passes through the box for some
    /// parameter strictly inside `ray_t`. Along an axis the ray runs parallel
    /// to, it passes exactly when its origin lies within that slab.
    #[verifier::rlimit(60)]
    #[verifier::spinoff_prover]
    pub fn hit(&self, r: &Ray, ray_t: Interval) -> (res: bool)
        requires
            self.slab_ready(*r),
        ensures
            res == self.slab_hit(*r, ray_t),
    {
        let ghost t = ray_t;
        let mut lo_n: i128 = ray_t.min as i128;
        let mut lo_d: i128 = 1;
        let mut hi_n: i128 = ray_t.max as i128;
        let mut hi_d: i128 = 1;
        let ghost mut li: int = 0;
        let ghost mut hj: int = 0;
        let lim: i128 = SLAB_LIMIT as i128;
        let mut axis: usize = 0;
        while axis < 3
            invariant
                0 <= axis <= 3,
                lim == SLAB_LIMIT,
                t == ray_t,
                self.slab_ready(*r),
                0 < lo_d <= lim,
                0 < hi_d <= lim,
                abs(lo_n as int) <= 0x8000_0000_0000_0000,
                abs(hi_n as int) <= 0x8000_0000_0000_0000,
                0 <= li <= axis,
                0 <= hj <= axis,
                Self::bound_active(*r, li),
                Self::bound_active(*r, hj),
                (lo_n as int, lo_d as int) == self.lower_bound(*r, t, li),
                (hi_n as int, hi_d as int) == self.upper_bound(*r, t, hj),
                forall|i: int|
                    0 <= i <= axis && Self::bound_active(*r, i) ==> frac_le(
                        #[trigger] self.lower_bound(*r, t, i).0,
                        self.lower_bound(*r, t, i).1,
                        lo_n as int,
                        lo_d as int,
                    ),
                forall|j: int|
                    0 <= j <= axis && Self::bound_active(*r, j) ==> frac_le(
                        hi_n as int,
                        hi_d as int,
                        #[trigger] self.upper_bound(*r, t, j).0,
                        self.upper_bound(*r, t, j).1,
                    ),
                forall|a: int|
                    0 <= a < axis ==> #[trigger] r.dir.axis_spec(a) != 0 || self.axis_spec(
                        a,
                    ).contains_spec(r.orig.axis_spec(a)),
                axis > 0 ==> frac_lt(lo_n as int, lo_d as int, hi_n as int, hi_d as int),
            decreases 3 - axis,
        {
            let ax = self.axis_interval(axis as u32);
            let o = r.orig.axis(axis);
            let d = r.dir.axis(axis);
            assert(ax == self.axis_spec(axis as int));
            assert(abs(ax.min as int) <= SLAB_LIMIT && abs(ax.max as int) <= SLAB_LIMIT);
            assert(abs(o as int) <= SLAB_LIMIT && abs(d as int) <= SLAB_LIMIT);
            if d == 0 {
                if !(ax.min <= o && o <= ax.max) {
                    assert(!(r.dir.axis_spec(axis as int) != 0 || self.axis_spec(
                        axis as int,
                    ).contains_spec(r.orig.axis_spec(axis as int))));
                    return false;
                }
            } else {
                let den: i128 = if d > 0 { d as i128 } else { -(d as i128) };
                let n0: i128 = if d > 0 { ax.min as i128 - o as i128 } else { o as i128 - ax.min as i128 };
                let n1: i128 = if d > 0 { ax.max as i128 - o as i128 } else { o as i128 - ax.max as i128 };
                let (en, ex) = if n0 < n1 { (n0, n1) } else { (n1, n0) };
                assert(lim == SLAB_LIMIT);
                assert(abs(d as int) <= SLAB_LIMIT);
                assert(0 < den <= lim);
                let ghost k: int = axis + 1;
                assert(self.lower_bound(*r, t, k) == (en as int, den as int));
                assert(self.upper_bound(*r, t, k) == (ex as int, den as int));
                proof {
                    lemma_mul_abs_bound(lo_n as int, den as int, 0x8000_0000_0000_0000, lim as int);
                    lemma_mul_abs_bound(en as int, lo_d as int, 0x8000_0000_0000_0000, lim as int);
                    lemma_mul_abs_bound(hi_n as int, den as int, 0x8000_0000_0000_0000, lim as int);
                    lemma_mul_abs_bound(ex as int, hi_d as int, 0x8000_0000_0000_0000, lim as int);
                }
                let ghost old_lo = (lo_n as int, lo_d as int);
                let ghost old_hi = (hi_n as int, hi_d as int);
                if lo_n * den < en * lo_d {
                    lo_n = en;
                    lo_d = den;
                    proof {
                        li = k;
                    }
                }
                if ex * hi_d < hi_n * den {
                    hi_n = ex;
                    hi_d = den;
                    proof {
                        hj = k;
                    }
                }
                assert(frac_le(en as int, den as int, lo_n as int, lo_d as int));
                assert(frac_le(old_lo.0, old_lo.1, lo_n as int, lo_d as int));
                assert(frac_le(hi_n as int, hi_d as int, old_hi.0, old_hi.1));
                assert(frac_le(hi_n as int, hi_d as int, ex as int, den as int));
                assert forall|i: int|
                    0 <= i <= axis + 1 && Self::bound_active(*r, i) implies frac_le(
                    #[trigger] self.lower_bound(*r, t, i).0,
                    self.lower_bound(*r, t, i).1,
                    lo_n as int,
                    lo_d as int,
                ) by {
                    if i < k {
                        let (a, b) = self.lower_bound(*r, t, i);
                        lemma_frac_le_trans(a, b, old_lo.0, old_lo.1, lo_n as int, lo_d as int);
                    }
                }
                assert forall|j: int|
                    0 <= j <= axis + 1 && Self::bound_active(*r, j) implies frac_le(
                    hi_n as int,
                    hi_d as int,
                    #[trigger] self.upper_bound(*r, t, j).0,
                    self.upper_bound(*r, t, j).1,
                ) by {
                    if j < k {
                        let (c, d) = self.upper_bound(*r, t, j);
                        lemma_frac_le_trans(hi_n as int, hi_d as int, old_hi.0, old_hi.1, c, d);
                    }
                }
            }
            proof {
                lemma_mul_abs_bound(lo_n as int, hi_d as int, 0x8000_0000_0000_0000, lim as int);
                lemma_mul_abs_bound(hi_n as int, lo_d as int, 0x8000_0000_0000_0000, lim as int);
            }
            if hi_n * lo_d <= lo_n * hi_d {
                assert(!frac_lt(
                    self.lower_bound(*r, t, li).0,
                    self.lower_bound(*r, t, li).1,
                    self.upper_bound(*r, t, hj).0,
                    self.upper_bound(*r, t, hj).1,
                ));
                return false;
            }
            axis = axis + 1;
        }
        proof {
            assert forall|i: int, j: int|
                0 <= i < 4 && 0 <= j < 4 && Self::bound_active(*r, i) && Self::bound_active(
                    *r,
                    j,
                ) implies frac_lt(
                #[trigger] self.lower_bound(*r, t, i).0,
                self.lower_bound(*r, t, i).1,
                #[trigger] self.upper_bound(*r, t, j).0,
                self.upper_bound(*r, t, j).1,
            ) by {
                let (a, b) = self.lower_bound(*r, t, i);
                let (c, d) = self.upper_bound(*r, t, j);
                lemma_frac_le_lt(a, b, lo_n as int, lo_d as int, hi_n as int, hi_d as int);
                lemma_frac_lt_le(a, b, hi_n as int, hi_d as int, c, d);
            }
        }
        true
    }
}

/// An enclosing box's bound `i` on the parameter is no tighter than the
/// enclosed box's.
proof fn lemma_slab_bounds_enclosing(small: Aabb, big: Aabb, r: Ray, t: Interval, i: int)
    requires
        small.valid(),
        big.encloses(small),
        0 <= i < 4,
        Aabb::bound_active(r, i),
    ensures
        frac_le(
            big.lower_bound(r, t, i).0,
            big.lower_bound(r, t, i).1,
            small.lower_bound(r, t, i).0,
            small.lower_bound(r, t, i).1,
        ),
        frac_le(
            small.upper_bound(r, t, i).0,
            small.upper_bound(r, t, i).1,
            big.upper_bound(r, t, i).0,
            big.upper_bound(r, t, i).1,
        ),
{
    if i > 0 {
        let k = i - 1;
        assert(small.axis_spec(k).min <= small.axis_spec(k).max);
        assert(big.axis_spec(k).min <= small.axis_spec(k).min && small.axis_spec(k).max <= big.axis_spec(k).max);
        let d = abs(r.dir.axis_spec(k));
        let (bl, sl) = (big.lower_bound(r, t, i).0, small.lower_bound(r, t, i).0);
        let (su, bu) = (small.upper_bound(r, t, i).0, big.upper_bound(r, t, i).0);
        assert(bl <= sl && su <= bu);
        assert(bl * d <= sl * d && su * d <= bu * d) by (nonlinear_arith)
            requires
                bl <= sl,
                su <= bu,
                d > 0,
        ;
    }
}

/// A slab test that passes on a box passes on every valid box enclosing it.
pub proof fn lemma_slab_hit_enclosing(small: Aabb, big: Aabb, r: Ray, t: Interval)
    requires
        small.valid(),
        big.encloses(small),
        small.slab_hit(r, t),
    ensures
        big.slab_hit(r, t),
{
    assert forall|a: int| 0 <= a < 3 implies #[trigger] r.dir.axis_spec(a) != 0 || big.axis_spec(a).contains_spec(
        r.orig.axis_spec(a),
    ) by {
        assert(r.dir.axis_spec(a) != 0 || small.axis_spec(a).contains_spec(r.orig.axis_spec(a)));
    }
    assert forall|i: int| 0 <= i < 4 && Aabb::bound_active(r, i) implies frac_le(
        #[trigger] big.lower_bound(r, t, i).0,
        big.lower_bound(r, t, i).1,
        small.lower_bound(r, t, i).0,
        small.lower_bound(r, t, i).1,
    ) by {
        lemma_slab_bounds_enclosing(small, big, r, t, i);
    }
    assert forall|j: int| 0 <= j < 4 && Aabb::bound_active(r, j) implies frac_le(
        small.upper_bound(r, t, j).0,
        small.upper_bound(r, t, j).1,
        #[trigger] big.upper_bound(r, t, j).0,
        big.upper_bound(r, t, j).1,
    ) by {
        lemma_slab_bounds_enclosing(small, big, r, t, j);
    }
    assert forall|i: int, j: int|
        0 <= i < 4 && 0 <= j < 4 && Aabb::bound_active(r, i) && Aabb::bound_active(r, j) implies frac_lt(
        #[trigger] big.lower_bound(r, t, i).0,
        big.lower_bound(r, t, i).1,
        #[trigger] big.upper_bound(r, t, j).0,
        big.upper_bound(r, t, j).1,
    ) by {
        let (a, b) = big.lower_bound(r, t, i);
        let (c, d) = small.lower_bound(r, t, i);
        let (e, f) = small.upper_bound(r, t, j);
        let (g, h) = big.upper_bound(r, t, j);
        assert(frac_lt(c, d, e, f));
        lemma_frac_le_lt(a, b, c, d, e, f);
        lemma_frac_lt_le(a, b, e, f, g, h);
    }
}

/// The box moved by `offset`, padded again.
pub fn add(bbox: &Aabb, offset: &Vec3) -> (r: Aabb)
    requires
        forall|k: int| 0 <= k < 3 ==> #[trigger] shift_fits(bbox.axis_spec(k), offset.axis_spec(k)),
    ensures
        forall|k: int|
            0 <= k < 3 ==> #[trigger] r.axis_spec(k) == padded(shifted(bbox.axis_spec(k), offset.axis_spec(k))),
{
    assert(shift_fits(bbox.axis_spec(0), offset.axis_spec(0)));
    assert(shift_fits(bbox.axis_spec(1), offset.axis_spec(1)));
    assert(shift_fits(bbox.axis_spec(2), offset.axis_spec(2)));
    let r = Aabb::new(
        bbox.x.shifted_by(offset.x),
        bbox.y.shifted_by(offset.y),
        bbox.z.shifted_by(offset.z),
    );
    assert(r.axis_spec(0) == r.x && r.axis_spec(1) == r.y && r.axis_spec(2) == r.z);
    r
}

} // verus!
