use vstd::prelude::*;

verus! {

/// A closed range `[min, max]` of integers; `min > max` stands for the empty range.
#[derive(Clone, Copy, Debug, PartialEq, Eq, Structural)]
pub struct Interval {
    pub min: i64,
    pub max: i64,
}

impl Interval {
    /// Whether `x` lies in the closed range.
    pub open spec fn contains_spec(self, x: int) -> bool {
        self.min <= x <= self.max
    }

    /// Whether `x` lies strictly inside the range.
    pub open spec fn surrounds_spec(self, x: int) -> bool {
        self.min < x < self.max
    }

    /// The empty range, whose minimum is the largest value and maximum the smallest.
    pub fn _default() -> (r: Self)
        ensures
            r.min == i64::MAX,
            r.max == i64::MIN,
    {
        Self { min: i64::MAX, max: i64::MIN }
    }

    pub fn new(min: i64, max: i64) -> (r: Self)
        ensures
            r.min == min,
            r.max == max,
    {
        Self { min, max }
    }

    /// The smallest range holding both `a` and `b`.
    pub fn two_interval(a: &Interval, b: &Interval) -> (r: Self)
        ensures
            r.min == if a.min <= b.min { a.min } else { b.min },
            r.max == if a.max >= b.max { a.max } else { b.max },
    {
        let min = if a.min <= b.min { a.min } else { b.min };
        let max = if a.max >= b.max { a.max } else { b.max };
        Self { min, max }
    }

    pub fn size(&self) -> (r: i128)
        ensures
            r == self.max - self.min,
    {
        self.max as i128 - self.min as i128
    }

    pub fn contains(&self, x: i64) -> (r: bool)
        ensures
            r == self.contains_spec(x as int),
    {
        self.min <= x && x <= self.max
    }

    pub fn surrounds(&self, x: i64) -> (r: bool)
        ensures
            r == self.surrounds_spec(x as int),
    {
        self.min < x && x < self.max
    }

    /// Saturates `x` to the range: below it gives `min`, above it gives `max`.
    pub fn clamp(&self, x: i64) -> (r: i64)
        ensures
            r == if x < self.min {
                self.min
            } else if x > self.max {
                self.max
            } else {
                x
            },
    {
        if x < self.min {
            return self.min;
        }
        if x > self.max {
            return self.max;
        }
        x
    }

    /// Grows the range by `delta / 2` (rounded down) on each side.
    pub fn expand(&self, delta: i64) -> (r: Self)
        requires
            delta >= 0,
            self.min - delta / 2 >= i64::MIN,
            self.max + delta / 2 <= i64::MAX,
        ensures
            r.min == self.min - delta / 2,
            r.max == self.max + delta / 2,
    {
        let half = delta / 2;
        Self { min: self.min - half, max: self.max + half }
    }

    /// The range moved by `d`.
    pub(crate) fn shifted_by(&self, d: i64) -> (r: Self)
        requires
            i64::MIN + 1 <= self.min + d <= i64::MAX - 1,
            i64::MIN + 1 <= self.max + d <= i64::MAX - 1,
        ensures
            r.min == self.min + d,
            r.max == self.max + d,
    {
        Self { min: self.min + d, max: self.max + d }
    }

    /// The empty range.
    pub fn _empty() -> (r: Self)
        ensures
            r.min == i64::MAX,
            r.max == i64::MIN,
            forall|x: int| !r.contains_spec(x),
    {
        Interval::new(i64::MAX, i64::MIN)
    }

    /// The range of every representable value.
    pub fn universe() -> (r: Self)
        ensures
            r.min == i64::MIN,
            r.max == i64::MAX,
            forall|x: i64| r.contains_spec(x as int),
    {
        Interval::new(i64::MIN, i64::MAX)
    }
}

} // verus!
