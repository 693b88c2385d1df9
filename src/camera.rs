use vstd::prelude::*;
use crate::arith::lemma_mul_abs_bound;
use crate::color::{Color, COLOR_ONE};
use crate::hittable::HitRecord;
use crate::material::Material;
use crate::vec3::Point3;

verus! {

/// What one bounce of the path integrator does with a ray.
#[derive(Clone, Copy, Debug, PartialEq, Eq, Structural)]
pub enum PathStep {
    /// The depth is spent: no more light is gathered.
    Black,
    /// The ray left the scene: it sees the background.
    Background,
    /// The ray met a surface that does not scatter: it sees its emission.
    Emit(Color),
    /// A mirror-like surface: follow its one scattered ray and weight what
    /// comes back by `attenuation`, adding `emitted`.
    Specular { attenuation: Color, emitted: Color },
    /// A diffuse surface: sample a direction from its distribution mixed
    /// with the lights', weight by `attenuation` and the density ratio, and
    /// add `emitted`.
    Sampled { attenuation: Color, emitted: Color },
}

/// The decision of one bounce: the depth left, the hit of the ray (if any),
/// and the texture coordinates and point of that hit.
pub open spec fn ray_color_step_spec(
    depth: int,
    hit: Option<HitRecord>,
    materials: Seq<Material>,
    u: int,
    v: int,
    p: Point3,
) -> PathStep {
    if depth <= 0 {
        PathStep::Black
    } else {
        match hit {
            None => PathStep::Background,
            Some(h) => {
                let m = materials[h.mat as int];
                let e = m.emitted_spec(h.front_face, u, v, p);
                match m.attenuation_spec(u, v, p) {
                    None => PathStep::Emit(e),
                    Some(a) => if (m is Metal || m is Dielectric) {
                        PathStep::Specular { attenuation: a, emitted: e }
                    } else {
                        PathStep::Sampled { attenuation: a, emitted: e }
                    },
                }
            },
        }
    }
}

/// One bounce of the path integrator: black once the depth is spent, the
/// background on a miss, the emission where the surface does not scatter,
/// otherwise the weights for following a specular or a sampled ray.
pub fn ray_color_step(depth: i32, hit: Option<HitRecord>, materials: &Vec<Material>, u: i64, v: i64, p: &Point3) -> (r:
    PathStep)
    requires
        hit is Some ==> hit.unwrap().mat < materials@.len(),
        forall|i: int| 0 <= i < materials@.len() ==> (#[trigger] materials@[i]).wf(),
    ensures
        r == ray_color_step_spec(depth as int, hit, materials@, u as int, v as int, *p),
{
    if depth <= 0 {
        return PathStep::Black;
    }
    match hit {
        None => PathStep::Background,
        Some(h) => {
            let m = &materials[h.mat];
            let e = m.emitted(h.front_face, u, v, p);
            match m.attenuation(u, v, p) {
                None => PathStep::Emit(e),
                Some(a) => {
                    if m.skips_pdf() {
                        PathStep::Specular { attenuation: a, emitted: e }
                    } else {
                        PathStep::Sampled { attenuation: a, emitted: e }
                    }
                },
            }
        },
    }
}

/// Whether every channel of `c` has magnitude at most `b`.
pub open spec fn color_bounded(c: Color, b: int) -> bool {
    -b <= c.x <= b && -b <= c.y <= b && -b <= c.z <= b
}

/// The light a specular bounce returns: the incoming light filtered
/// channel by channel by the attenuation, in fixed point, rounded down.
pub fn shade_specular(attenuation: Color, incoming: Color) -> (r: Color)
    requires
        color_bounded(attenuation, 0x4000_0000),
        color_bounded(incoming, 0x4000_0000),
    ensures
        r.x == attenuation.x * incoming.x / (COLOR_ONE as int),
        r.y == attenuation.y * incoming.y / (COLOR_ONE as int),
        r.z == attenuation.z * incoming.z / (COLOR_ONE as int),
{
    proof {
        let m: int = 0x4000_0000;
        lemma_mul_abs_bound(attenuation.x as int, incoming.x as int, m, m);
        lemma_mul_abs_bound(attenuation.y as int, incoming.y as int, m, m);
        lemma_mul_abs_bound(attenuation.z as int, incoming.z as int, m, m);
    }
    Color::new(
        crate::texture::floor_div(attenuation.x * incoming.x, COLOR_ONE),
        crate::texture::floor_div(attenuation.y * incoming.y, COLOR_ONE),
        crate::texture::floor_div(attenuation.z * incoming.z, COLOR_ONE),
    )
}

} // verus!
