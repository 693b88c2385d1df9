use vstd::prelude::*;
use vstd::arithmetic::div_mod::{
    lemma_fundamental_div_mod, lemma_fundamental_div_mod_converse, lemma_mod_pos_bound,
};
use crate::color::{Color, COLOR_ONE};
use crate::interval::Interval;
use crate::rtw_stb_image::{clamp_spec, pixel_offset, RTWImage};
use crate::vec3::Point3;

verus! {

/// Fixed-point one for texture coordinates `u` and `v`.
pub const UV_ONE: i64 = 65536;

/// A texture of one color everywhere.
#[derive(Clone, Copy, Debug)]
pub struct SolidColor {
    pub albedo: Color,
}

impl SolidColor {
    pub fn new(albedo: &Color) -> (r: Self)
        ensures
            r.albedo == *albedo,
    {
        Self { albedo: *albedo }
    }

    pub fn _new_rgb(r: i64, g: i64, b: i64) -> (s: Self)
        ensures
            s.albedo == (Color { x: r, y: g, z: b }),
    {
        Self::new(&Color::new(r, g, b))
    }
}

/// A 3-D checkerboard: cubes of side `scale` alternate between two textures.
#[derive(Debug)]
pub struct CheckerTexture {
    pub scale: i64,
    pub even: Box<Texture>,
    pub odd: Box<Texture>,
}

impl CheckerTexture {
    pub fn _new(scale: i64, even: Texture, odd: Texture) -> (r: Self)
        requires
            scale > 0,
        ensures
            r.scale == scale,
            *r.even == even,
            *r.odd == odd,
    {
        Self { scale, even: Box::new(even), odd: Box::new(odd) }
    }

    pub fn new_color(scale: i64, c1: &Color, c2: &Color) -> (r: Self)
        requires
            scale > 0,
        ensures
            r.scale == scale,
            *r.even == Texture::Solid(SolidColor { albedo: *c1 }),
            *r.odd == Texture::Solid(SolidColor { albedo: *c2 }),
    {
        Self {
            scale,
            even: Box::new(Texture::Solid(SolidColor::new(c1))),
            odd: Box::new(Texture::Solid(SolidColor::new(c2))),
        }
    }
}

/// A texture that maps `(u, v)` onto an image.
#[derive(Clone, Debug)]
pub struct ImageTexture {
    pub image: RTWImage,
}

impl ImageTexture {
    /// A texture over an image already decoded.
    pub fn new(image: RTWImage) -> (r: Self)
        ensures
            r.image == image,
    {
        Self { image }
    }
}

/// The surface colors a material can read.
#[derive(Debug)]
pub enum Texture {
    Solid(SolidColor),
    Checker(CheckerTexture),
    Image(ImageTexture),
}

/// The linear fixed-point value of an image byte: the byte over 255, squared.
pub open spec fn byte_to_linear(b: int) -> int {
    b * b * COLOR_ONE / (255 * 255) as int
}

/// The pixel coordinate that a texture coordinate lands on, for an image
/// `size` pixels across.
pub open spec fn texel(t: int, size: int) -> int {
    t * size / (UV_ONE as int)
}

/// The color of an image texture at `(u, v)`, `v` running upwards.
pub open spec fn image_value(img: RTWImage, u: int, v: int) -> Color {
    if img.image_height == 0 {
        Color { x: 0, y: COLOR_ONE, z: COLOR_ONE }
    } else {
        let uu = if u < 0 { 0 } else if u > UV_ONE { UV_ONE as int } else { u };
        let vv = UV_ONE - (if v < 0 { 0 } else if v > UV_ONE { UV_ONE as int } else { v });
        let i = texel(uu, img.image_width as int);
        let j = texel(vv, img.image_height as int);
        if img.image_width == 0 {
            Color {
                x: byte_to_linear(255) as i64,
                y: byte_to_linear(0) as i64,
                z: byte_to_linear(255) as i64,
            }
        } else {
            let off = pixel_offset(
                clamp_spec(i, 0, img.image_width as int),
                clamp_spec(j, 0, img.image_height as int),
                img.image_width as int,
            );
            Color {
                x: byte_to_linear(img.data@[off] as int) as i64,
                y: byte_to_linear(img.data@[off + 1] as int) as i64,
                z: byte_to_linear(img.data@[off + 2] as int) as i64,
            }
        }
    }
}

impl Texture {
    /// Whether every image in the texture is well formed and every checker
    /// scale is positive.
    pub open spec fn wf(self) -> bool
        decreases self,
    {
        match self {
            Texture::Solid(_) => true,
            Texture::Checker(c) => c.scale > 0 && c.even.wf() && c.odd.wf(),
            Texture::Image(t) => t.image.wf(),
        }
    }

    /// The color at texture coordinates `(u, v)` and point `p`.
    pub open spec fn value_spec(self, u: int, v: int, p: Point3) -> Color
        decreases self,
    {
        match self {
            Texture::Solid(s) => s.albedo,
            Texture::Checker(c) => {
                if (p.x / c.scale + p.y / c.scale + p.z / c.scale) % 2 == 0 {
                    c.even.value_spec(u, v, p)
                } else {
                    c.odd.value_spec(u, v, p)
                }
            },
            Texture::Image(t) => image_value(t.image, u, v),
        }
    }

    pub fn value(&self, u: i64, v: i64, p: &Point3) -> (r: Color)
        requires
            self.wf(),
        ensures
            r == self.value_spec(u as int, v as int, *p),
        decreases self,
    {
        match self {
            Texture::Solid(s) => s.albedo,
            Texture::Checker(c) => {
                let x = floor_div(p.x, c.scale);
                let y = floor_div(p.y, c.scale);
                let z = floor_div(p.z, c.scale);
                let is_even: bool = (x as i128 + y as i128 + z as i128) % 2 == 0;
                if is_even {
                    c.even.value(u, v, p)
                } else {
                    c.odd.value(u, v, p)
                }
            },
            Texture::Image(t) => image_texture_value(&t.image, u, v),
        }
    }
}

/// `a / b` rounded toward negative infinity.
pub(crate) fn floor_div(a: i64, b: i64) -> (q: i64)
    requires
        b > 0,
    ensures
        q == a as int / b as int,
{
    if a >= 0 {
        a / b
    } else {
        let m: i64 = -(a + 1);
        let t = m / b;
        let q = -t - 1;
        proof {
            let r = (m as int) % (b as int);
            lemma_fundamental_div_mod(m as int, b as int);
            lemma_mod_pos_bound(m as int, b as int);
            assert(t == (m as int) / (b as int));
            assert(m == b * t + r);
            let rem = b - 1 - r;
            assert(a == q * b + rem) by (nonlinear_arith)
                requires
                    m == b * t + r,
                    m == -(a + 1),
                    q == -t - 1,
                    rem == b - 1 - r,
            ;
            lemma_fundamental_div_mod_converse(a as int, b as int, q as int, rem as int);
        }
        q
    }
}

/// The color of an image at `(u, v)`; cyan where no image was loaded.
fn image_texture_value(image: &RTWImage, u: i64, v: i64) -> (r: Color)
    requires
        image.wf(),
    ensures
        r == image_value(*image, u as int, v as int),
{
    if image.height() == 0 {
        return Color::new(0, COLOR_ONE, COLOR_ONE);
    }
    let unit = Interval::new(0, UV_ONE);
    let uu = unit.clamp(u);
    let vv = UV_ONE - unit.clamp(v);
    proof {
        crate::arith::lemma_mul_abs_bound(uu as int, image.image_width as int, UV_ONE as int, u32::MAX as int);
        crate::arith::lemma_mul_abs_bound(vv as int, image.image_height as int, UV_ONE as int, u32::MAX as int);
        assert(uu * image.image_width / (UV_ONE as int) <= image.image_width) by (nonlinear_arith)
            requires
                0 <= uu <= UV_ONE,
                UV_ONE == 65536,
        ;
        assert(vv * image.image_height / (UV_ONE as int) <= image.image_height) by (nonlinear_arith)
            requires
                0 <= vv <= UV_ONE,
                UV_ONE == 65536,
        ;
    }
    let i = (uu * image.width() as i64 / UV_ONE) as u32;
    let j = (vv * image.height() as i64 / UV_ONE) as u32;
    let pixel = image.pixel_data(i, j);
    Color::new(gamma_to_linear(pixel[0]), gamma_to_linear(pixel[1]), gamma_to_linear(pixel[2]))
}

/// The linear fixed-point value of an image byte: the byte over 255, squared.
fn gamma_to_linear(b: u8) -> (r: i64)
    ensures
        r == byte_to_linear(b as int),
        0 <= r <= COLOR_ONE,
{
    proof {
        crate::arith::lemma_mul_abs_bound(b as int, b as int, 255, 255);
        assert(b * b * COLOR_ONE / (255 * 255) as int <= COLOR_ONE) by (nonlinear_arith)
            requires
                0 <= b * b <= 255 * 255,
                COLOR_ONE == 65536,
        ;
        assert(0 <= b * b * COLOR_ONE) by (nonlinear_arith)
            requires
                0 <= b * b,
                COLOR_ONE == 65536,
        ;
    }
    (b as i64) * (b as i64) * COLOR_ONE / (255 * 255)
}

} // verus!
