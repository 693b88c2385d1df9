use vstd::prelude::*;
use crate::vec3::{Point3, Vec3};

verus! {

/// A ray `orig + t * dir`, stamped with the moment `tm` at which it was cast.
#[derive(Clone, Copy, Debug, PartialEq, Eq, Structural)]
pub struct Ray {
    pub orig: Point3,
    pub dir: Vec3,
    pub tm: i64,
}

impl Ray {
    /// The point at parameter `t`, over the integers.
    pub open spec fn at_spec(self, t: int, k: int) -> int {
        self.orig.axis_spec(k) + t * self.dir.axis_spec(k)
    }

    pub fn new(origin: &Point3, direction: &Vec3, tm: i64) -> (r: Self)
        ensures
            r.orig == *origin,
            r.dir == *direction,
            r.tm == tm,
    {
        Ray { orig: *origin, dir: *direction, tm }
    }

    pub fn origin(&self) -> (r: Point3)
        ensures
            r == self.orig,
    {
        self.orig
    }

    pub fn direction(&self) -> (r: Vec3)
        ensures
            r == self.dir,
    {
        self.dir
    }

    pub fn time(&self) -> (r: i64)
        ensures
            r == self.tm,
    {
        self.tm
    }

    /// The point reached at a whole-numbered parameter `t`.
    pub fn at(&self, t: i64) -> (r: Point3)
        requires
            forall|k: int|
                0 <= k < 3 ==> i64::MIN <= #[trigger] (t * self.dir.axis_spec(k)) <= i64::MAX,
            forall|k: int| 0 <= k < 3 ==> i64::MIN <= #[trigger] self.at_spec(t as int, k) <= i64::MAX,
        ensures
            forall|k: int| 0 <= k < 3 ==> #[trigger] r.axis_spec(k) == self.at_spec(t as int, k),
    {
        assert(i64::MIN <= t * self.dir.axis_spec(0) <= i64::MAX);
        assert(i64::MIN <= t * self.dir.axis_spec(1) <= i64::MAX);
        assert(i64::MIN <= t * self.dir.axis_spec(2) <= i64::MAX);
        assert(i64::MIN <= self.at_spec(t as int, 0) <= i64::MAX);
        assert(i64::MIN <= self.at_spec(t as int, 1) <= i64::MAX);
        assert(i64::MIN <= self.at_spec(t as int, 2) <= i64::MAX);
        Vec3 {
            x: self.orig.x + t * self.dir.x,
            y: self.orig.y + t * self.dir.y,
            z: self.orig.z + t * self.dir.z,
        }
    }
}

} // verus!
