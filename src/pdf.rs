use vstd::prelude::*;
use crate::onb::{frame_u, frame_v, unit_scaled, FRAME_LIMIT, Onb};
use crate::vec3::Vec3;

verus! {

/// The uniform distribution over all directions.
#[derive(Clone, Copy, Debug)]
pub struct SpherePDF {}

impl SpherePDF {
    pub fn _new() -> (r: Self) {
        Self {}
    }
}

/// The cosine-weighted distribution over the hemisphere around a normal,
/// sampled through a frame whose `w` axis is that normal.
#[derive(Clone, Copy, Debug)]
pub struct CosinePDF {
    pub uvw: Onb,
}

impl CosinePDF {
    pub fn new(w: &Vec3) -> (r: Self)
        requires
            w.bounded(FRAME_LIMIT as int),
        ensures
            r.uvw.w_spec() == unit_scaled(*w),
            r.uvw.v_spec() == unit_scaled(frame_v(*w)),
            r.uvw.u_spec() == unit_scaled(frame_u(*w)),
    {
        let uvw = Onb::new(w);
        Self { uvw }
    }
}

} // verus!
