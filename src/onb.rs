use vstd::prelude::*;
use crate::arith::{abs, lemma_mul_abs_bound};
use crate::sphere::{is_isqrt, isqrt, isqrt_spec, lemma_isqrt_unique};
use crate::texture::floor_div;
use crate::vec3::{cross, cross_x, cross_y, cross_z, dot_spec, Vec3};
use crate::wide::{vcross, wdot, widen};
use vstd::arithmetic::div_mod::lemma_fundamental_div_mod;

verus! {

/// The largest component magnitude of a direction that a frame is built on.
pub const FRAME_LIMIT: i64 = 16384;

/// An orthonormal frame `(u, v, w)` in fixed point whose `w` axis points along
/// the direction it was built on: the exact orthogonal frame on that
/// direction, each axis scaled to length `AXIS_ONE` with rounding.
#[derive(Clone, Copy, Debug)]
pub struct Onb {
    pub axis: [Vec3; 3],
}

/// Whether `w` points mostly along x: its x part exceeds 0.9 of its length.
pub open spec fn mostly_x(w: Vec3) -> bool {
    100 * (w.x * w.x) > 81 * dot_spec(w, w)
}

/// The helper direction a frame on `w` is crossed with.
pub open spec fn helper_axis(w: Vec3) -> Vec3 {
    if mostly_x(w) {
        Vec3 { x: 0, y: 1, z: 0 }
    } else {
        Vec3 { x: 1, y: 0, z: 0 }
    }
}

/// `a × b` as a vector, where it fits.
pub open spec fn cross_spec(a: Vec3, b: Vec3) -> Vec3 {
    Vec3 { x: cross_x(a, b) as i64, y: cross_y(a, b) as i64, z: cross_z(a, b) as i64 }
}

/// A cross product is orthogonal to both its factors.
proof fn lemma_cross_orthogonal(a: Vec3, b: Vec3)
    ensures
        a.x * cross_x(a, b) + a.y * cross_y(a, b) + a.z * cross_z(a, b) == 0,
        b.x * cross_x(a, b) + b.y * cross_y(a, b) + b.z * cross_z(a, b) == 0,
{
    let (ax, ay, az, bx, by, bz) = (a.x as int, a.y as int, a.z as int, b.x as int, b.y as int, b.z as int);
    assert(ax * (ay * bz - az * by) + ay * (az * bx - ax * bz) + az * (ax * by - ay * bx) == 0)
        by (nonlinear_arith);
    assert(bx * (ay * bz - az * by) + by * (az * bx - ax * bz) + bz * (ax * by - ay * bx) == 0)
        by (nonlinear_arith);
}

/// Fixed-point length of each axis of a frame: `AXIS_ONE` stands for 1.
pub const AXIS_ONE: i64 = 65536;

/// `x` scaled to fixed-point unit length: with `s` the length of `x` times
/// `LENGTH_SCALE`, rounded down, each component becomes
/// `x * LENGTH_SCALE * AXIS_ONE / s`, rounded down; the zero vector stays zero.
pub open spec fn unit_scaled(x: Vec3) -> Vec3 {
    let s = isqrt_spec(dot_spec(x, x) * (LENGTH_SCALE * LENGTH_SCALE));
    if s == 0 {
        Vec3 { x: 0, y: 0, z: 0 }
    } else {
        Vec3 {
            x: (x.x * LENGTH_SCALE * AXIS_ONE / s) as i64,
            y: (x.y * LENGTH_SCALE * AXIS_ONE / s) as i64,
            z: (x.z * LENGTH_SCALE * AXIS_ONE / s) as i64,
        }
    }
}

/// The extra precision a length is taken with before the division.
pub const LENGTH_SCALE: i64 = 65536;

/// The exact, unscaled frame on `w`: `v = w × a`, `u = w × v`, `a` the y
/// axis when `w` points mostly along x and the x axis otherwise.
pub open spec fn frame_v(w: Vec3) -> Vec3 {
    cross_spec(w, helper_axis(w))
}

pub open spec fn frame_u(w: Vec3) -> Vec3 {
    cross_spec(w, frame_v(w))
}

/// The unscaled `v` axis is `(-w.z, 0, w.x)` or `(0, w.z, -w.y)`, and the
/// unscaled `u` axis stays within `2 * FRAME_LIMIT²`.
pub proof fn lemma_frame_bounds(w: Vec3)
    requires
        w.bounded(FRAME_LIMIT as int),
    ensures
        frame_v(w).bounded(FRAME_LIMIT as int),
        frame_u(w).bounded(0x2000_0000),
        frame_v(w)@ == vcross(w@, helper_axis(w)@),
        frame_u(w)@ == vcross(w@, frame_v(w)@),
{
    let v = frame_v(w);
    let a = helper_axis(w);
    let (wx, wy, wz, ax, ay, az) = (w.x as int, w.y as int, w.z as int, a.x as int, a.y as int, a.z as int);
    if mostly_x(w) {
        assert(ax == 0 && ay == 1 && az == 0);
        assert(wy * az - wz * ay == -wz && wz * ax - wx * az == 0 && wx * ay - wy * ax == wx) by (nonlinear_arith)
            requires
                ax == 0 && ay == 1 && az == 0,
        ;
    } else {
        assert(ax == 1 && ay == 0 && az == 0);
        assert(wy * az - wz * ay == 0 && wz * ax - wx * az == wz && wx * ay - wy * ax == -wy) by (nonlinear_arith)
            requires
                ax == 1 && ay == 0 && az == 0,
        ;
    }
    assert(v@ == vcross(w@, a@));
    let l = FRAME_LIMIT as int;
    lemma_mul_abs_bound(w.y as int, v.z as int, l, l);
    lemma_mul_abs_bound(w.z as int, v.y as int, l, l);
    lemma_mul_abs_bound(w.z as int, v.x as int, l, l);
    lemma_mul_abs_bound(w.x as int, v.z as int, l, l);
    lemma_mul_abs_bound(w.x as int, v.y as int, l, l);
    lemma_mul_abs_bound(w.y as int, v.x as int, l, l);
}

/// The exact frame is orthogonal.
pub proof fn lemma_frame_orthogonal(w: Vec3)
    requires
        w.bounded(FRAME_LIMIT as int),
    ensures
        dot_spec(frame_u(w), frame_v(w)) == 0,
        dot_spec(frame_v(w), w) == 0,
        dot_spec(frame_u(w), w) == 0,
{
    let a = helper_axis(w);
    let v = frame_v(w);
    let u = frame_u(w);
    lemma_frame_bounds(w);
    lemma_cross_orthogonal(w, a);
    lemma_cross_orthogonal(w, v);
    let (ux, uy, uz, vx, vy, vz) = (u.x as int, u.y as int, u.z as int, v.x as int, v.y as int, v.z as int);
    assert(ux * vx + uy * vy + uz * vz == 0) by (nonlinear_arith)
        requires
            vx * ux + vy * uy + vz * uz == 0,
    ;
    let (wx, wy, wz) = (w.x as int, w.y as int, w.z as int);
    assert(vx * wx + vy * wy + vz * wz == 0) by (nonlinear_arith)
        requires
            wx * vx + wy * vy + wz * vz == 0,
    ;
    assert(ux * wx + uy * wy + uz * wz == 0) by (nonlinear_arith)
        requires
            wx * ux + wy * uy + wz * uz == 0,
    ;
}

/// `x` scaled to fixed-point unit length.
fn unit_vector(x: &Vec3) -> (r: Vec3)
    requires
        x.bounded(0x4000_0000),
    ensures
        r == unit_scaled(*x),
        r.bounded(AXIS_ONE as int),
{
    proof {
        lemma_mul_abs_bound(x.x as int, x.x as int, 0x4000_0000, 0x4000_0000);
        lemma_mul_abs_bound(x.y as int, x.y as int, 0x4000_0000, 0x4000_0000);
        lemma_mul_abs_bound(x.z as int, x.z as int, 0x4000_0000, 0x4000_0000);
    }
    let xw = widen(x);
    let n0 = wdot(&xw, &xw, Ghost(0x4000_0000), Ghost(0x4000_0000));
    assert(n0 >= 0) by (nonlinear_arith)
        requires
            n0 == x.x * x.x + x.y * x.y + x.z * x.z,
    ;
    let n = n0 * 0x1_0000_0000;
    let s = isqrt(n);
    proof {
        lemma_isqrt_unique(n as int, s as int, isqrt_spec(n as int));
    }
    if s == 0 {
        return Vec3::new(0, 0, 0);
    }
    proof {
        let (a, b, c) = (x.x as int * 65536, x.y as int * 65536, x.z as int * 65536);
        assert(a * a <= n && b * b <= n && c * c <= n) by (nonlinear_arith)
            requires
                n == (x.x * x.x + x.y * x.y + x.z * x.z) * 0x1_0000_0000,
                a == x.x * 65536,
                b == x.y * 65536,
                c == x.z * 65536,
        ;
        // Each component, taken with the same precision, is at most the length.
        lemma_component_within_length(a, n as int, s as int);
        lemma_component_within_length(b, n as int, s as int);
        lemma_component_within_length(c, n as int, s as int);
        assert(s <= 0x1_0000_0000_0000) by (nonlinear_arith)
            requires
                s * s <= n,
                n <= 0xc000_0000_0000_0000_0000_0000,
                s >= 0,
        ;
    }
    let sl = s as i64;
    let r = Vec3::new(
        floor_div(x.x * LENGTH_SCALE * AXIS_ONE, sl),
        floor_div(x.y * LENGTH_SCALE * AXIS_ONE, sl),
        floor_div(x.z * LENGTH_SCALE * AXIS_ONE, sl),
    );
    proof {
        lemma_scaled_component(x.x * LENGTH_SCALE, s as int);
        lemma_scaled_component(x.y * LENGTH_SCALE, s as int);
        lemma_scaled_component(x.z * LENGTH_SCALE, s as int);
    }
    r
}

/// A component of a vector is at most its rounded-down length plus one in
/// magnitude: `c² <= n < (s + 1)²`.
proof fn lemma_component_within_length(c: int, n: int, s: int)
    requires
        c * c <= n,
        is_isqrt(n, s),
    ensures
        abs(c) <= s,
{
    if abs(c) > s {
        assert(abs(c) * abs(c) >= (s + 1) * (s + 1)) by (nonlinear_arith)
            requires
                abs(c) >= s + 1,
                s >= 0,
        ;
        assert(abs(c) * abs(c) == c * c) by (nonlinear_arith);
    }
}

/// `c * AXIS_ONE / s` lies in `[-AXIS_ONE, AXIS_ONE]` for `|c| <= s`.
proof fn lemma_scaled_component(c: int, s: int)
    requires
        abs(c) <= s,
        s > 0,
    ensures
        -AXIS_ONE <= c * AXIS_ONE / s <= AXIS_ONE,
{
    let q = c * AXIS_ONE / s;
    lemma_fundamental_div_mod(c * AXIS_ONE, s);
    lemma_mod_pos_bound_int(c * AXIS_ONE, s);
    assert(-AXIS_ONE <= q <= AXIS_ONE) by (nonlinear_arith)
        requires
            c * 65536 == s * q + (c * 65536) % s,
            0 <= (c * 65536) % s < s,
            -s <= c <= s,
            s > 0,
            AXIS_ONE == 65536,
    ;
}

/// `0 <= a % m < m` for positive `m`.
proof fn lemma_mod_pos_bound_int(a: int, m: int)
    requires
        m > 0,
    ensures
        0 <= a % m < m,
{
}

impl Onb {
    pub open spec fn u_spec(self) -> Vec3 {
        self.axis[0]
    }

    pub open spec fn v_spec(self) -> Vec3 {
        self.axis[1]
    }

    pub open spec fn w_spec(self) -> Vec3 {
        self.axis[2]
    }

    /// The orthonormal frame on `w`: the exact orthogonal frame
    /// (`frame_u`, `frame_v`, `w`), each axis scaled to fixed-point unit
    /// length `AXIS_ONE`.
    pub fn new(w: &Vec3) -> (r: Self)
        requires
            w.bounded(FRAME_LIMIT as int),
        ensures
            r.w_spec() == unit_scaled(*w),
            r.v_spec() == unit_scaled(frame_v(*w)),
            r.u_spec() == unit_scaled(frame_u(*w)),
            r.u_spec().bounded(AXIS_ONE as int),
            r.v_spec().bounded(AXIS_ONE as int),
            r.w_spec().bounded(AXIS_ONE as int),
            dot_spec(frame_u(*w), frame_v(*w)) == 0,
            dot_spec(frame_v(*w), *w) == 0,
            dot_spec(frame_u(*w), *w) == 0,
    {
        proof {
            lemma_mul_abs_bound(w.x as int, w.x as int, FRAME_LIMIT as int, FRAME_LIMIT as int);
            lemma_mul_abs_bound(w.y as int, w.y as int, FRAME_LIMIT as int, FRAME_LIMIT as int);
            lemma_mul_abs_bound(w.z as int, w.z as int, FRAME_LIMIT as int, FRAME_LIMIT as int);
            lemma_frame_orthogonal(*w);
        }
        let xx: i64 = w.x * w.x;
        let len2: i64 = xx + w.y * w.y + w.z * w.z;
        let a = if 100 * xx > 81 * len2 {
            Vec3::new(0, 1, 0)
        } else {
            Vec3::new(1, 0, 0)
        };
        assert(a == helper_axis(*w));
        proof {
            lemma_frame_bounds(*w);
        }
        let v = cross(w, &a);
        assert(v == frame_v(*w));
        let u = cross(w, &v);
        assert(u == frame_u(*w));
        let r = Self { axis: [unit_vector(&u), unit_vector(&v), unit_vector(w)] };
        r
    }

    pub fn u(&self) -> (r: Vec3)
        ensures
            r == self.u_spec(),
    {
        self.axis[0]
    }

    pub fn v(&self) -> (r: Vec3)
        ensures
            r == self.v_spec(),
    {
        self.axis[1]
    }

    pub fn w(&self) -> (r: Vec3)
        ensures
            r == self.w_spec(),
    {
        self.axis[2]
    }

    /// Axis `index` of the frame: 0 is `u`, 1 is `v`, 2 is `w`.
    pub fn index(&self, index: usize) -> (r: Vec3)
        requires
            index < 3,
        ensures
            r == self.axis[index as int],
    {
        self.axis[index]
    }

    /// The vector with coordinates `a` in this frame:
    /// `(u a.x + v a.y + w a.z) / AXIS_ONE`, each component rounded down.
    pub fn local(&self, a: &Vec3) -> (r: Vec3)
        requires
            self.u_spec().bounded(AXIS_ONE as int),
            self.v_spec().bounded(AXIS_ONE as int),
            self.w_spec().bounded(AXIS_ONE as int),
            a.bounded(0x100_0000_0000),
        ensures
            r.x == (self.u_spec().x * a.x + self.v_spec().x * a.y + self.w_spec().x * a.z) / (AXIS_ONE as int),
            r.y == (self.u_spec().y * a.x + self.v_spec().y * a.y + self.w_spec().y * a.z) / (AXIS_ONE as int),
            r.z == (self.u_spec().z * a.x + self.v_spec().z * a.y + self.w_spec().z * a.z) / (AXIS_ONE as int),
    {
        let (u, v, w) = (self.u(), self.v(), self.w());
        proof {
            let (m, n) = (AXIS_ONE as int, 0x100_0000_0000int);
            lemma_mul_abs_bound(u.x as int, a.x as int, m, n);
            lemma_mul_abs_bound(v.x as int, a.y as int, m, n);
            lemma_mul_abs_bound(w.x as int, a.z as int, m, n);
            lemma_mul_abs_bound(u.y as int, a.x as int, m, n);
            lemma_mul_abs_bound(v.y as int, a.y as int, m, n);
            lemma_mul_abs_bound(w.y as int, a.z as int, m, n);
            lemma_mul_abs_bound(u.z as int, a.x as int, m, n);
            lemma_mul_abs_bound(v.z as int, a.y as int, m, n);
            lemma_mul_abs_bound(w.z as int, a.z as int, m, n);
        }
        Vec3 {
            x: floor_div(u.x * a.x + v.x * a.y + w.x * a.z, AXIS_ONE),
            y: floor_div(u.y * a.x + v.y * a.y + w.y * a.z, AXIS_ONE),
            z: floor_div(u.z * a.x + v.z * a.y + w.z * a.z, AXIS_ONE),
        }
    }
}

} // verus!
