use vstd::prelude::*;
use crate::arith::{abs, lemma_mul_abs_bound};

verus! {

/// A three-component integer vector. Positions and directions are counted in
/// the scene's grid units; colors are fixed-point, `Color::ONE` standing for 1.
#[derive(Clone, Copy, Debug, PartialEq, Eq, Structural)]
pub struct Vec3 {
    pub x: i64,
    pub y: i64,
    pub z: i64,
}

/// A vector read as a position.
pub type Point3 = Vec3;

/// `a · b` over the integers.
pub open spec fn dot_spec(a: Vec3, b: Vec3) -> int {
    a.x * b.x + a.y * b.y + a.z * b.z
}

/// The components of `a × b` over the integers.
pub open spec fn cross_x(a: Vec3, b: Vec3) -> int {
    a.y * b.z - a.z * b.y
}

pub open spec fn cross_y(a: Vec3, b: Vec3) -> int {
    a.z * b.x - a.x * b.z
}

pub open spec fn cross_z(a: Vec3, b: Vec3) -> int {
    a.x * b.y - a.y * b.x
}

impl Vec3 {
    /// Every component has magnitude at most `b`.
    pub open spec fn bounded(self, b: int) -> bool {
        abs(self.x as int) <= b && abs(self.y as int) <= b && abs(self.z as int) <= b
    }

    /// The component on axis `k` (0 = x, 1 = y, otherwise z).
    pub open spec fn axis_spec(self, k: int) -> int {
        if k == 0 {
            self.x as int
        } else if k == 1 {
            self.y as int
        } else {
            self.z as int
        }
    }

    /// `self + o`, where it fits.
    pub open spec fn add_spec(self, o: Vec3) -> Vec3 {
        Vec3 { x: (self.x + o.x) as i64, y: (self.y + o.y) as i64, z: (self.z + o.z) as i64 }
    }

    /// `self - o`, where it fits.
    pub open spec fn sub_spec(self, o: Vec3) -> Vec3 {
        Vec3 { x: (self.x - o.x) as i64, y: (self.y - o.y) as i64, z: (self.z - o.z) as i64 }
    }

    pub fn new(x: i64, y: i64, z: i64) -> (r: Self)
        ensures
            r.x == x,
            r.y == y,
            r.z == z,
    {
        Vec3 { x, y, z }
    }

    /// The component on axis `k` (0 = x, 1 = y, otherwise z).
    pub fn axis(&self, k: usize) -> (r: i64)
        ensures
            r == self.axis_spec(k as int),
    {
        if k == 0 {
            self.x
        } else if k == 1 {
            self.y
        } else {
            self.z
        }
    }

    pub fn plus(&self, o: &Vec3) -> (r: Vec3)
        requires
            i64::MIN <= self.x + o.x <= i64::MAX,
            i64::MIN <= self.y + o.y <= i64::MAX,
            i64::MIN <= self.z + o.z <= i64::MAX,
        ensures
            r.x == self.x + o.x,
            r.y == self.y + o.y,
            r.z == self.z + o.z,
            r == self.add_spec(*o),
    {
        Vec3 { x: self.x + o.x, y: self.y + o.y, z: self.z + o.z }
    }

    pub fn minus(&self, o: &Vec3) -> (r: Vec3)
        requires
            i64::MIN <= self.x - o.x <= i64::MAX,
            i64::MIN <= self.y - o.y <= i64::MAX,
            i64::MIN <= self.z - o.z <= i64::MAX,
        ensures
            r.x == self.x - o.x,
            r.y == self.y - o.y,
            r.z == self.z - o.z,
            r == self.sub_spec(*o),
    {
        Vec3 { x: self.x - o.x, y: self.y - o.y, z: self.z - o.z }
    }

    pub fn neg(&self) -> (r: Vec3)
        requires
            self.x > i64::MIN,
            self.y > i64::MIN,
            self.z > i64::MIN,
        ensures
            r.x == -self.x,
            r.y == -self.y,
            r.z == -self.z,
    {
        Vec3 { x: -self.x, y: -self.y, z: -self.z }
    }

    /// Every component multiplied by `k`.
    pub fn scale(&self, k: i64) -> (r: Vec3)
        requires
            i64::MIN <= self.x * k <= i64::MAX,
            i64::MIN <= self.y * k <= i64::MAX,
            i64::MIN <= self.z * k <= i64::MAX,
        ensures
            r.x == self.x * k,
            r.y == self.y * k,
            r.z == self.z * k,
    {
        Vec3 { x: self.x * k, y: self.y * k, z: self.z * k }
    }

    /// A vector whose components are all zero: the only direction along
    /// which nothing can travel.
    pub fn near_zero(&self) -> (r: bool)
        ensures
            r == (self.x == 0 && self.y == 0 && self.z == 0),
    {
        self.x == 0 && self.y == 0 && self.z == 0
    }

    pub fn length_squared(&self) -> (r: i128)
        requires
            self.bounded(0x1000_0000_0000_0000),
        ensures
            r == dot_spec(*self, *self),
    {
        dot(self, self)
    }
}

/// The dot product, exact for components up to 2^60.
pub fn dot(a: &Vec3, b: &Vec3) -> (r: i128)
    requires
        a.bounded(0x1000_0000_0000_0000),
        b.bounded(0x1000_0000_0000_0000),
    ensures
        r == dot_spec(*a, *b),
{
    proof {
        let m: int = 0x1000_0000_0000_0000;
        lemma_mul_abs_bound(a.x as int, b.x as int, m, m);
        lemma_mul_abs_bound(a.y as int, b.y as int, m, m);
        lemma_mul_abs_bound(a.z as int, b.z as int, m, m);
    }
    (a.x as i128) * (b.x as i128) + (a.y as i128) * (b.y as i128) + (a.z as i128) * (b.z as i128)
}

/// The cross product, exact for components up to 2^30.
pub fn cross(a: &Vec3, b: &Vec3) -> (r: Vec3)
    requires
        a.bounded(0x4000_0000),
        b.bounded(0x4000_0000),
    ensures
        r.x == cross_x(*a, *b),
        r.y == cross_y(*a, *b),
        r.z == cross_z(*a, *b),
{
    proof {
        let m: int = 0x4000_0000;
        lemma_mul_abs_bound(a.y as int, b.z as int, m, m);
        lemma_mul_abs_bound(a.z as int, b.y as int, m, m);
        lemma_mul_abs_bound(a.z as int, b.x as int, m, m);
        lemma_mul_abs_bound(a.x as int, b.z as int, m, m);
        lemma_mul_abs_bound(a.x as int, b.y as int, m, m);
        lemma_mul_abs_bound(a.y as int, b.x as int, m, m);
    }
    Vec3 {
        x: a.y * b.z - a.z * b.y,
        y: a.z * b.x - a.x * b.z,
        z: a.x * b.y - a.y * b.x,
    }
}

} // verus!
