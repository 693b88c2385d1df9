use vstd::prelude::*;
use crate::arith::{abs, frac_le, frac_lt, lemma_frac_lt_le, lemma_mul_abs_bound};
use crate::hittable::Hittable;
use crate::interval::Interval;

verus! {

/// The largest magnitude of a parameter's numerator or denominator here.
pub const PARAM_LIMIT: i128 = 0x100_0000_0000;

/// A homogeneous participating medium filling a boundary object. `density`
/// is fixed point; `phase_function` is the handle of its material.
#[derive(Debug)]
pub struct ConstantMedium {
    pub boundary: Box<Hittable>,
    pub density: i64,
    pub phase_function: usize,
}

/// A parameter `num / den` along a ray.
pub type Param = (i128, i128);

/// Whether a parameter fits the arithmetic here: a positive denominator and
/// both parts within `PARAM_LIMIT`.
pub open spec fn param_ok(p: Param) -> bool {
    0 < p.1 <= PARAM_LIMIT && abs(p.0 as int) <= PARAM_LIMIT
}

/// The later of two parameters; the first when they are equal.
pub open spec fn later(a: (int, int), b: (int, int)) -> (int, int) {
    if frac_lt(a.0, a.1, b.0, b.1) {
        b
    } else {
        a
    }
}

/// The earlier of two parameters; the first when they are equal.
pub open spec fn earlier(a: (int, int), b: (int, int)) -> (int, int) {
    if frac_lt(b.0, b.1, a.0, a.1) {
        b
    } else {
        a
    }
}

/// Where a ray inside the medium first interacts with it. The boundary is
/// entered at `entry` and left at `exit`; both are clipped to `ray_t`, and
/// the entry to the ray's start. Nothing happens where the clipped span is
/// empty, or where the free flight sampled for the ray (in units of the
/// ray's parameter) reaches past it; otherwise the interaction lies one
/// flight past the clipped entry.
pub open spec fn interaction_spec(entry: Param, exit: Param, ray_t: Interval, flight: Param) -> Option<(int, int)> {
    let lo = later((entry.0 as int, entry.1 as int), (ray_t.min as int, 1));
    let hi = earlier((exit.0 as int, exit.1 as int), (ray_t.max as int, 1));
    if !frac_lt(lo.0, lo.1, hi.0, hi.1) {
        None
    } else {
        let start = later(lo, (0, 1));
        let (f, fd) = (flight.0 as int, flight.1 as int);
        // flight > hi - start, over the common denominator.
        if f * hi.1 * start.1 > (hi.0 * start.1 - start.0 * hi.1) * fd {
            None
        } else {
            Some((start.0 * fd + f * start.1, start.1 * fd))
        }
    }
}

/// A longer free flight never interacts where a shorter one passed through:
/// the same draw at a higher density flies a shorter way, so a ray that
/// crosses the denser medium unscattered crosses the thinner one too.
pub proof fn lemma_longer_flight_passes(entry: Param, exit: Param, ray_t: Interval, f1: Param, f2: Param)
    requires
        param_ok(f1),
        param_ok(f2),
        param_ok(entry),
        param_ok(exit),
        frac_le(f1.0 as int, f1.1 as int, f2.0 as int, f2.1 as int),
        interaction_spec(entry, exit, ray_t, f1) is None,
    ensures
        interaction_spec(entry, exit, ray_t, f2) is None,
{
    let lo = later((entry.0 as int, entry.1 as int), (ray_t.min as int, 1));
    let hi = earlier((exit.0 as int, exit.1 as int), (ray_t.max as int, 1));
    if frac_lt(lo.0, lo.1, hi.0, hi.1) {
        let start = later(lo, (0, 1));
        let span = hi.0 * start.1 - start.0 * hi.1;
        let den = hi.1 * start.1;
        assert(den > 0) by (nonlinear_arith)
            requires
                den == hi.1 * start.1,
                hi.1 > 0,
                start.1 > 0,
        ;
        let (a, b) = (f1.0 as int, f1.1 as int);
        let (c, d) = (f2.0 as int, f2.1 as int);
        assert(a * hi.1 * start.1 == a * den && c * hi.1 * start.1 == c * den) by (nonlinear_arith)
            requires
                den == hi.1 * start.1,
        ;
        assert(frac_lt(span, den, a, b));
        lemma_frac_lt_le(span, den, a, b, c, d);
    }
}

impl ConstantMedium {
    pub fn new(boundary: Hittable, density: i64, phase_function: usize) -> (r: Self)
        ensures
            *r.boundary == boundary,
            r.density == density,
            r.phase_function == phase_function,
    {
        Self { boundary: Box::new(boundary), density, phase_function }
    }

    /// The parameter of the ray's first interaction with the medium, given
    /// where it enters and leaves the boundary and the sampled free flight.
    pub fn interaction(entry: Param, exit: Param, ray_t: Interval, flight: Param) -> (r: Option<Param>)
        requires
            param_ok(entry),
            param_ok(exit),
            param_ok(flight),
            flight.0 >= 0,
            abs(ray_t.min as int) <= PARAM_LIMIT,
            abs(ray_t.max as int) <= PARAM_LIMIT,
        ensures
            r is Some == interaction_spec(entry, exit, ray_t, flight) is Some,
            r is Some ==> (r.unwrap().0 as int, r.unwrap().1 as int) == interaction_spec(
                entry,
                exit,
                ray_t,
                flight,
            ).unwrap(),
    {
        let ghost l: int = PARAM_LIMIT as int;
        // Clip the entry to the query interval.
        let tmin: Param = (ray_t.min as i128, 1);
        let tmax: Param = (ray_t.max as i128, 1);
        proof {
            lemma_mul_abs_bound(entry.0 as int, 1, l, 1);
            lemma_mul_abs_bound(ray_t.min as int, entry.1 as int, l, l);
            lemma_mul_abs_bound(ray_t.max as int, exit.1 as int, l, l);
            lemma_mul_abs_bound(exit.0 as int, 1, l, l);
        }
        let lo: Param = if entry.0 * 1 < tmin.0 * entry.1 { tmin } else { entry };
        let hi: Param = if tmax.0 * exit.1 < exit.0 * 1 { tmax } else { exit };
        proof {
            lemma_mul_abs_bound(lo.0 as int, hi.1 as int, l, l);
            lemma_mul_abs_bound(hi.0 as int, lo.1 as int, l, l);
        }
        if !(lo.0 * hi.1 < hi.0 * lo.1) {
            return None;
        }
        let start: Param = if lo.0 < 0 { (0, 1) } else { lo };
        assert((start.0 as int, start.1 as int) == later((lo.0 as int, lo.1 as int), (0, 1)));
        proof {
            lemma_mul_abs_bound(hi.0 as int, start.1 as int, l, l);
            lemma_mul_abs_bound(start.0 as int, hi.1 as int, l, l);
            lemma_mul_abs_bound(flight.0 as int, hi.1 as int, l, l);
            lemma_mul_abs_bound((flight.0 * hi.1) as int, start.1 as int, l * l, l);
            lemma_mul_abs_bound((hi.0 * start.1 - start.0 * hi.1) as int, flight.1 as int, 2 * (l * l), l);
            lemma_mul_abs_bound(start.0 as int, flight.1 as int, l, l);
            lemma_mul_abs_bound(flight.0 as int, start.1 as int, l, l);
            lemma_mul_abs_bound(start.1 as int, flight.1 as int, l, l);
        }
        let span = hi.0 * start.1 - start.0 * hi.1;
        if flight.0 * hi.1 * start.1 > span * flight.1 {
            return None;
        }
        Some((start.0 * flight.1 + flight.0 * start.1, start.1 * flight.1))
    }
}

} // verus!
