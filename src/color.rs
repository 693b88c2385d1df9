use vstd::prelude::*;
use crate::arith::lemma_mul_abs_bound;
use crate::interval::Interval;
use crate::vec3::Vec3;

verus! {

/// A linear color, each channel in fixed point with `COLOR_ONE` standing for 1.
pub type Color = Vec3;

/// The fixed-point value of full intensity in one channel.
pub const COLOR_ONE: i64 = 65536;

/// The largest gamma-corrected value a channel keeps before it is scaled to
/// a byte, in units of `1 / COLOR_ONE` (0.999 of full intensity).
pub const GAMMA_CEILING: i64 = 65470;

/// Whether `b` is the byte that a linear channel `c` tone-maps to: the square
/// root of `c / COLOR_ONE` (the gamma-2 curve), scaled by 256 and rounded down,
/// capped at 255, with every channel at or below zero giving 0. Since
/// `COLOR_ONE` is `256 * 256`, this is the integer square root of `c`.
pub open spec fn channel_byte(c: int, b: int) -> bool {
    &&& 0 <= b <= 255
    &&& c <= 0 ==> b == 0
    &&& c > 0 ==> b * b <= c && (b == 255 || c < (b + 1) * (b + 1))
}

/// A channel's fixed-point gamma value `g`: the square root of the linear
/// value, in units of `1 / COLOR_ONE`, rounded down.
pub open spec fn gamma_of(linear: int, g: int) -> bool {
    &&& linear <= 0 ==> g == 0
    &&& linear > 0 ==> 0 <= g && g * g <= linear * COLOR_ONE < (g + 1) * (g + 1)
}

impl Color {
    pub fn white() -> (r: Color)
        ensures
            r.x == COLOR_ONE && r.y == COLOR_ONE && r.z == COLOR_ONE,
    {
        Color { x: COLOR_ONE, y: COLOR_ONE, z: COLOR_ONE }
    }

    pub fn black() -> (r: Color)
        ensures
            r.x == 0 && r.y == 0 && r.z == 0,
    {
        Color { x: 0, y: 0, z: 0 }
    }

    /// The 8-bit sRGB-like triple for this linear color: each channel is
    /// gamma-corrected with a square root, capped just below full intensity,
    /// scaled by 256 and truncated.
    pub fn write_color(&self) -> (rgb: [u8; 3])
        ensures
            channel_byte(self.x as int, rgb[0] as int),
            channel_byte(self.y as int, rgb[1] as int),
            channel_byte(self.z as int, rgb[2] as int),
    {
        let r = to_byte(self.x);
        let g = to_byte(self.y);
        let b = to_byte(self.z);
        [r, g, b]
    }
}

/// Tone mapping keeps both ends of the range: a black channel becomes byte 0
/// and a channel at full intensity byte 255.
pub proof fn lemma_black_and_white_bytes(b: int)
    ensures
        channel_byte(0, b) ==> b == 0,
        channel_byte(COLOR_ONE as int, b) ==> b == 255,
{
    if channel_byte(COLOR_ONE as int, b) && b < 255 {
        assert((b + 1) * (b + 1) <= 65536) by (nonlinear_arith)
            requires
                0 <= b < 255,
        ;
    }
}

/// One channel tone-mapped to a byte.
fn to_byte(c: i64) -> (b: u8)
    ensures
        channel_byte(c as int, b as int),
{
    // Above full intensity the gamma value passes the ceiling anyway.
    let linear = if c > COLOR_ONE { COLOR_ONE } else { c };
    let intensity = Interval::new(0, GAMMA_CEILING);
    let g0 = linear_to_gamma(linear);
    let g = intensity.clamp(g0);
    proof {
        lemma_byte_of_gamma(c as int, linear as int, g0 as int, g as int);
    }
    (g / 256) as u8
}

/// Scaling a capped gamma value down to a byte gives the tone-mapped byte.
proof fn lemma_byte_of_gamma(c: int, linear: int, g0: int, g: int)
    requires
        linear == if c > COLOR_ONE { COLOR_ONE as int } else { c },
        gamma_of(linear, g0),
        g0 <= COLOR_ONE,
        g == if g0 < 0 { 0 } else if g0 > GAMMA_CEILING { GAMMA_CEILING as int } else { g0 },
    ensures
        channel_byte(c, g / 256),
{
    let b = g / 256;
    if c > 0 {
        if g0 <= GAMMA_CEILING {
            assert(c <= COLOR_ONE) by (nonlinear_arith)
                requires
                    g0 * g0 <= linear * 65536 < (g0 + 1) * (g0 + 1),
                    g0 <= 65470,
                    linear == if c > 65536 { 65536 } else { c },
            ;
            assert(b * b <= c) by (nonlinear_arith)
                requires
                    b == g0 / 256,
                    0 <= g0,
                    g0 * g0 <= c * 65536,
            ;
            assert(c < (b + 1) * (b + 1)) by (nonlinear_arith)
                requires
                    b == g0 / 256,
                    0 <= g0,
                    c * 65536 < (g0 + 1) * (g0 + 1),
            ;
        } else {
            assert(255 * 255 <= linear) by (nonlinear_arith)
                requires
                    linear * 65536 >= g0 * g0,
                    g0 > 65470,
            ;
        }
    }
}

/// The fixed-point gamma value of a linear channel at most `COLOR_ONE`: its
/// square root in units of `1 / COLOR_ONE`, rounded down; 0 for a channel at
/// or below zero.
fn linear_to_gamma(linear: i64) -> (g: i64)
    requires
        linear <= COLOR_ONE,
    ensures
        gamma_of(linear as int, g as int),
        g <= COLOR_ONE,
{
    if linear > 0 {
        let n: i64 = linear * COLOR_ONE;
        let mut lo: i64 = 0;
        let mut hi: i64 = COLOR_ONE + 1;
        assert(hi * hi > n) by (nonlinear_arith)
            requires
                hi == 65537,
                n <= 65536 * 65536,
        ;
        while hi - lo > 1
            invariant
                0 <= lo < hi <= COLOR_ONE + 1,
                n == linear * COLOR_ONE,
                0 < linear <= COLOR_ONE,
                lo * lo <= n,
                n < hi * hi,
            decreases hi - lo,
        {
            let mid = lo + (hi - lo) / 2;
            proof {
                lemma_mul_abs_bound(mid as int, mid as int, 65537, 65537);
            }
            if mid * mid <= n {
                lo = mid;
            } else {
                hi = mid;
            }
        }
        assert(hi == lo + 1);
        lo
    } else {
        0
    }
}

} // verus!
