use vstd::prelude::*;
use crate::arith::lemma_mul_abs_bound;
use crate::random::random_below;
use vstd::arithmetic::div_mod::{lemma_fundamental_div_mod, lemma_mod_pos_bound};
use crate::color::{Color, COLOR_ONE};
use crate::texture::{byte_to_linear, image_value, SolidColor, Texture};
use crate::vec3::Point3;

verus! {

/// Whether every channel of `c` lies in `[0, COLOR_ONE]`: a reflectance that
/// neither creates nor absorbs more than all light.
pub open spec fn color_in_unit(c: Color) -> bool {
    0 <= c.x <= COLOR_ONE && 0 <= c.y <= COLOR_ONE && 0 <= c.z <= COLOR_ONE
}

/// Whether every color a texture can hand out lies in `[0, COLOR_ONE]`.
pub open spec fn texture_in_unit(t: Texture) -> bool
    decreases t,
{
    match t {
        Texture::Solid(s) => color_in_unit(s.albedo),
        Texture::Checker(c) => texture_in_unit(*c.even) && texture_in_unit(*c.odd),
        Texture::Image(_) => true,
    }
}

/// Diffuse reflection with a textured albedo.
#[derive(Debug)]
pub struct Lambertian {
    pub tex: Texture,
}

/// Mirror reflection tinted by `albedo`, blurred by `fuzz`.
#[derive(Clone, Copy, Debug)]
pub struct Metal {
    pub albedo: Color,
    pub fuzz: i64,
}

/// A clear refracting material; `refraction_index` is fixed point with
/// `COLOR_ONE` standing for 1.
#[derive(Clone, Copy, Debug)]
pub struct Dielectric {
    pub refraction_index: i64,
}

/// An emitter, lit on its front face only.
#[derive(Debug)]
pub struct DiffuseLight {
    pub tex: Texture,
}

/// The phase function of a participating medium: scatters evenly.
#[derive(Debug)]
pub struct Isotropic {
    pub tex: Texture,
}

/// The surface responses a hit can have.
#[derive(Debug)]
pub enum Material {
    Lambertian(Lambertian),
    Metal(Metal),
    Dielectric(Dielectric),
    DiffuseLight(DiffuseLight),
    Isotropic(Isotropic),
}

impl Lambertian {
    pub fn new(albedo: Color) -> (r: Self)
        ensures
            r.tex == Texture::Solid(SolidColor { albedo }),
    {
        Self { tex: Texture::Solid(SolidColor::new(&albedo)) }
    }

    pub fn new_tex(tex: Texture) -> (r: Self)
        ensures
            r.tex == tex,
    {
        Self { tex }
    }
}

impl Metal {
    pub fn new(albedo: Color, fuzz: i64) -> (r: Self)
        ensures
            r.albedo == albedo,
            r.fuzz == fuzz,
    {
        Self { albedo, fuzz }
    }
}

/// The largest refraction index the fixed-point arithmetic takes (`2^24`
/// times `COLOR_ONE`): beyond it the squares in Schlick's formula leave 128
/// bits.
pub const MAX_INDEX: i64 = 0x100_0000_0000;

/// `x` to the fifth power.
pub open spec fn pow5(x: int) -> int {
    x * x * x * x * x
}

/// Schlick's approximation, in fixed point: with `r0 = ((1 - n) / (1 + n))²`
/// the reflectance is `r0 + (1 - r0) (1 - cos)⁵`, each division rounded down.
pub open spec fn schlick(cos: int, n: int) -> int {
    let one = COLOR_ONE as int;
    let r0 = (one - n) * (one - n) * one / ((one + n) * (one + n));
    r0 + (one - r0) * pow5(one - cos) / pow5(one)
}

impl Dielectric {
    pub fn new(refraction_index: i64) -> (r: Self)
        ensures
            r.refraction_index == refraction_index,
    {
        Self { refraction_index }
    }

    /// The share of light reflected at an angle of cosine `cos`, by Schlick's
    /// approximation; both the cosine and the index are fixed point.
    pub fn reflectance(cos: i64, refraction_index: i64) -> (r: i64)
        requires
            0 <= cos <= COLOR_ONE,
            0 < refraction_index <= MAX_INDEX,
        ensures
            r == schlick(cos as int, refraction_index as int),
            0 <= r <= COLOR_ONE,
    {
        let one: i128 = COLOR_ONE as i128;
        let n = refraction_index as i128;
        let ghost (oi, ni) = (one as int, n as int);
        let ghost b: int = 0x200_0000_0000;
        proof {
            lemma_mul_abs_bound(oi - ni, oi - ni, b, b);
            lemma_mul_abs_bound((oi - ni) * (oi - ni), oi, 0x4_0000_0000_0000_0000_0000, b);
            lemma_mul_abs_bound(oi + ni, oi + ni, b, b);
        }
        let den = (one + n) * (one + n);
        let num = (one - n) * (one - n) * one;
        assert(den > 0 && num >= 0) by (nonlinear_arith)
            requires
                den == (oi + ni) * (oi + ni),
                num == (oi - ni) * (oi - ni) * oi,
                oi + ni > 0,
                oi > 0,
        ;
        assert(num <= den * oi) by (nonlinear_arith)
            requires
                den == (oi + ni) * (oi + ni),
                num == (oi - ni) * (oi - ni) * oi,
                ni > 0,
                oi > 0,
        ;
        let r0 = num / den;
        proof {
            lemma_div_bounds(num as int, den as int, oi);
        }
        let x = one - cos as i128;
        let ghost xi = x as int;
        proof {
            lemma_mul_abs_bound(xi, xi, oi, oi);
            lemma_mul_abs_bound(xi * xi, xi, oi * oi, oi);
            lemma_mul_abs_bound(xi * xi * xi, xi, oi * oi * oi, oi);
            lemma_mul_abs_bound(xi * xi * xi * xi, xi, oi * oi * oi * oi, oi);
        }
        let p = x * x * x * x * x;
        let full: i128 = 0x1_0000_0000_0000_0000_0000;
        assert(full == pow5(COLOR_ONE as int));
        assert(0 <= p <= full) by (nonlinear_arith)
            requires
                p == xi * xi * xi * xi * xi,
                0 <= xi <= 65536,
                full == 0x1_0000_0000_0000_0000_0000int,
        ;
        proof {
            lemma_mul_abs_bound(oi - r0, p as int, oi, full as int);
        }
        let tail = (one - r0) * p / full;
        proof {
            assert(0 <= (oi - r0) * p <= (full as int) * (oi - r0)) by (nonlinear_arith)
                requires
                    0 <= oi - r0,
                    0 <= p <= full,
            ;
            lemma_div_bounds((oi - r0) * p, full as int, oi - r0);
        }
        (r0 + tail) as i64
    }
}

/// Whether light inside a medium of relative index `ri` meeting the surface at
/// an angle of cosine `cos` is reflected: always when `ri sin θ > 1` (total
/// internal reflection), otherwise when the Schlick reflectance exceeds the
/// uniform draw `draw`. All three are fixed point.
pub open spec fn reflects_spec(cos: int, ri: int, draw: int) -> bool {
    let one = COLOR_ONE as int;
    ri * ri * (one * one - cos * cos) > one * one * one * one || schlick(cos, ri) > draw
}

/// The relative index of refraction seen by a ray: `1 / n` entering the
/// front face, `n` leaving through the back, in fixed point.
pub open spec fn relative_index(n: int, front_face: bool) -> int {
    if front_face {
        COLOR_ONE * COLOR_ONE / n
    } else {
        n
    }
}

impl Dielectric {
    /// The reflect-or-refract decision for one draw: see `reflects_spec`.
    pub fn reflects(cos: i64, ri: i64, draw: i64) -> (r: bool)
        requires
            0 <= cos <= COLOR_ONE,
            0 < ri <= MAX_INDEX,
        ensures
            r == reflects_spec(cos as int, ri as int, draw as int),
    {
        let one: i128 = COLOR_ONE as i128;
        let c = cos as i128;
        let n = ri as i128;
        proof {
            lemma_mul_abs_bound(c as int, c as int, 65536, 65536);
            lemma_mul_abs_bound(n as int, n as int, 0x100_0000_0000, 0x100_0000_0000);
            lemma_mul_abs_bound((n * n) as int, (one * one - c * c) as int, 0x1_0000_0000_0000_0000_0000, 0x1_0000_0000);
        }
        let sin2 = one * one - c * c;
        let total_internal = n * n * sin2 > one * one * one * one;
        total_internal || Self::reflectance(cos, ri) > draw
    }

    /// Whether a ray meeting this glass at an angle of cosine `cos` is
    /// reflected rather than refracted, drawing the uniform number the choice
    /// needs: whatever was drawn, the answer is `reflects_spec` of some draw
    /// in `[0, COLOR_ONE)`.
    pub fn scatter_reflects(&self, front_face: bool, cos: i64) -> (r: bool)
        requires
            0 <= cos <= COLOR_ONE,
            0 < self.refraction_index <= COLOR_ONE * COLOR_ONE,
        ensures
            exists|draw: int|
                0 <= draw < COLOR_ONE && r == reflects_spec(
                    cos as int,
                    relative_index(self.refraction_index as int, front_face),
                    draw,
                ),
    {
        let idx = self.refraction_index;
        let ri: i64 = if front_face {
            let q = COLOR_ONE * COLOR_ONE / idx;
            assert(0 < q <= MAX_INDEX) by (nonlinear_arith)
                requires
                    q == 4294967296int / (idx as int),
                    0 < idx <= 4294967296int,
                    MAX_INDEX == 0x100_0000_0000,
            ;
            q
        } else {
            idx
        };
        let draw = random_below(COLOR_ONE as u64) as i64;
        let r = Self::reflects(cos, ri, draw);
        assert(r == reflects_spec(cos as int, relative_index(self.refraction_index as int, front_face), draw as int));
        r
    }
}

impl DiffuseLight {
    pub fn new(emit: &Color) -> (r: Self)
        ensures
            r.tex == Texture::Solid(SolidColor { albedo: *emit }),
    {
        Self { tex: Texture::Solid(SolidColor::new(emit)) }
    }

    pub fn _new_tex(tex: Texture) -> (r: Self)
        ensures
            r.tex == tex,
    {
        Self { tex }
    }
}

impl Isotropic {
    pub fn new(albedo: &Color) -> (r: Self)
        ensures
            r.tex == Texture::Solid(SolidColor { albedo: *albedo }),
    {
        Self { tex: Texture::Solid(SolidColor::new(albedo)) }
    }

    pub fn _new_tex(tex: Texture) -> (r: Self)
        ensures
            r.tex == tex,
    {
        Self { tex }
    }
}

impl Material {
    pub open spec fn wf(self) -> bool {
        match self {
            Material::Lambertian(l) => l.tex.wf(),
            Material::DiffuseLight(d) => d.tex.wf(),
            Material::Isotropic(i) => i.tex.wf(),
            _ => true,
        }
    }

    /// The color a scattered ray is weighted by, or `None` for a material
    /// that never scatters (a light).
    pub open spec fn attenuation_spec(self, u: int, v: int, p: Point3) -> Option<Color> {
        match self {
            Material::Lambertian(l) => Some(l.tex.value_spec(u, v, p)),
            Material::Metal(m) => Some(m.albedo),
            Material::Dielectric(_) => Some(Color { x: COLOR_ONE, y: COLOR_ONE, z: COLOR_ONE }),
            Material::DiffuseLight(_) => None,
            Material::Isotropic(i) => Some(i.tex.value_spec(u, v, p)),
        }
    }

    /// Whether the material's albedo stays within `[0, COLOR_ONE]`.
    pub open spec fn albedo_in_unit(self) -> bool {
        match self {
            Material::Lambertian(l) => texture_in_unit(l.tex),
            Material::Metal(m) => color_in_unit(m.albedo),
            Material::Isotropic(i) => texture_in_unit(i.tex),
            _ => true,
        }
    }

    /// The light given off at a hit: a light's texture on its front face,
    /// black everywhere else.
    pub open spec fn emitted_spec(self, front_face: bool, u: int, v: int, p: Point3) -> Color {
        match self {
            Material::DiffuseLight(d) => if front_face {
                d.tex.value_spec(u, v, p)
            } else {
                Color { x: 0, y: 0, z: 0 }
            },
            _ => Color { x: 0, y: 0, z: 0 },
        }
    }

    pub fn attenuation(&self, u: i64, v: i64, p: &Point3) -> (r: Option<Color>)
        requires
            self.wf(),
        ensures
            r == self.attenuation_spec(u as int, v as int, *p),
    {
        match self {
            Material::Lambertian(l) => Some(l.tex.value(u, v, p)),
            Material::Metal(m) => Some(m.albedo),
            Material::Dielectric(_) => Some(Color::white()),
            Material::DiffuseLight(_) => None,
            Material::Isotropic(i) => Some(i.tex.value(u, v, p)),
        }
    }

    pub fn emitted(&self, front_face: bool, u: i64, v: i64, p: &Point3) -> (r: Color)
        requires
            self.wf(),
        ensures
            r == self.emitted_spec(front_face, u as int, v as int, *p),
    {
        match self {
            Material::DiffuseLight(d) => {
                if !front_face {
                    Color::black()
                } else {
                    d.tex.value(u, v, p)
                }
            },
            _ => Color::black(),
        }
    }

    /// Whether the material scatters along one set direction, with no
    /// distribution to sample (mirrors and glass).
    pub fn skips_pdf(&self) -> (r: bool)
        ensures
            r == (self is Metal || self is Dielectric),
    {
        match self {
            Material::Metal(_) => true,
            Material::Dielectric(_) => true,
            _ => false,
        }
    }
}

/// `0 <= a / d <= m` for `0 <= a <= d m` and positive `d`.
proof fn lemma_div_bounds(a: int, d: int, m: int)
    requires
        0 <= a <= d * m,
        d > 0,
    ensures
        0 <= a / d <= m,
{
    lemma_fundamental_div_mod(a, d);
    lemma_mod_pos_bound(a, d);
    let q = a / d;
    assert(0 <= q <= m) by (nonlinear_arith)
        requires
            a == d * q + a % d,
            0 <= a % d < d,
            0 <= a <= d * m,
            d > 0,
    ;
}

/// Every color a well-formed texture with colors in `[0, COLOR_ONE]` hands
/// out lies in `[0, COLOR_ONE]`.
pub proof fn lemma_texture_in_unit(t: Texture, u: int, v: int, p: Point3)
    requires
        t.wf(),
        texture_in_unit(t),
    ensures
        color_in_unit(t.value_spec(u, v, p)),
    decreases t,
{
    match t {
        Texture::Solid(_) => {},
        Texture::Checker(c) => {
            lemma_texture_in_unit(*c.even, u, v, p);
            lemma_texture_in_unit(*c.odd, u, v, p);
        },
        Texture::Image(im) => {
            let img = im.image;
            if img.image_height != 0 {
                assert forall|b: int| 0 <= b <= 255 implies 0 <= #[trigger] byte_to_linear(b) <= COLOR_ONE by {
                    assert(0 <= b * b * 65536 / 65025 <= 65536) by (nonlinear_arith)
                        requires
                            0 <= b <= 255,
                    ;
                }
            }
        },
    }
}

/// Scattering never amplifies light: for a material whose albedo lies in
/// `[0, COLOR_ONE]`, every attenuation it returns does too.
pub proof fn lemma_attenuation_in_unit(m: Material, u: int, v: int, p: Point3)
    requires
        m.wf(),
        m.albedo_in_unit(),
    ensures
        m.attenuation_spec(u, v, p) is Some ==> color_in_unit(m.attenuation_spec(u, v, p).unwrap()),
{
    match m {
        Material::Lambertian(l) => lemma_texture_in_unit(l.tex, u, v, p),
        Material::Isotropic(i) => lemma_texture_in_unit(i.tex, u, v, p),
        _ => {},
    }
}

} // verus!
