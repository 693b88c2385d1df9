use vstd::prelude::*;
use crate::random::random_below;
use crate::vec3::Vec3;

verus! {

/// The number of lattice gradients and the length of each permutation.
pub const POINT_COUNT: usize = 256;

/// Fixed-point one for gradient components.
pub const GRADIENT_ONE: i64 = 65536;

/// Whether `s` holds each of `0..n` exactly once.
pub open spec fn is_permutation(s: Seq<u32>, n: nat) -> bool {
    &&& s.len() == n
    &&& forall|i: int| 0 <= i < n ==> #[trigger] s[i] < n
    &&& forall|i: int, j: int| 0 <= i < j < n ==> #[trigger] s[i] != #[trigger] s[j]
}

/// The state of a Perlin noise generator: random gradients at the lattice
/// points and three permutations that hash lattice coordinates to them.
#[derive(Clone, Debug)]
pub struct Perlin {
    pub rand_vec: Vec<Vec3>,
    pub perm_x: Vec<u32>,
    pub perm_y: Vec<u32>,
    pub perm_z: Vec<u32>,
}

impl Perlin {
    /// Whether the generator is well formed: `POINT_COUNT` gradients with
    /// components in `[-GRADIENT_ONE, GRADIENT_ONE)`, and three permutations
    /// of `0..POINT_COUNT`.
    pub open spec fn wf(self) -> bool {
        &&& self.rand_vec@.len() == POINT_COUNT
        &&& forall|i: int| 0 <= i < POINT_COUNT ==> gradient_range(#[trigger] self.rand_vec@[i])
        &&& is_permutation(self.perm_x@, POINT_COUNT as nat)
        &&& is_permutation(self.perm_y@, POINT_COUNT as nat)
        &&& is_permutation(self.perm_z@, POINT_COUNT as nat)
    }

    pub fn new() -> (r: Self)
        ensures
            r.wf(),
    {
        let mut rand_vec: Vec<Vec3> = Vec::new();
        let mut i: usize = 0;
        while i < POINT_COUNT
            invariant
                i <= POINT_COUNT,
                rand_vec@.len() == i,
                forall|k: int| 0 <= k < i ==> gradient_range(#[trigger] rand_vec@[k]),
            decreases POINT_COUNT - i,
        {
            rand_vec.push(random_gradient());
            i = i + 1;
        }
        Self {
            rand_vec,
            perm_x: Self::perlin_generate_perm(),
            perm_y: Self::perlin_generate_perm(),
            perm_z: Self::perlin_generate_perm(),
        }
    }

    /// A random permutation of `0..POINT_COUNT`.
    pub fn perlin_generate_perm() -> (p: Vec<u32>)
        ensures
            is_permutation(p@, POINT_COUNT as nat),
    {
        let mut p: Vec<u32> = Vec::new();
        let mut i: usize = 0;
        while i < POINT_COUNT
            invariant
                i <= POINT_COUNT,
                p@.len() == i,
                forall|k: int| 0 <= k < i ==> #[trigger] p@[k] == k,
            decreases POINT_COUNT - i,
        {
            p.push(i as u32);
            i = i + 1;
        }
        Self::permute(&mut p, POINT_COUNT);
        p
    }

    /// Shuffles `p[..n]` by swapping each position from `n - 2` down to 1
    /// with a random earlier one.
    fn permute(p: &mut Vec<u32>, n: usize)
        requires
            2 <= n <= old(p)@.len(),
            is_permutation(old(p)@, old(p)@.len()),
        ensures
            is_permutation(final(p)@, old(p)@.len()),
    {
        let ghost len = p@.len();
        let mut i: usize = n - 2;
        while i >= 1
            invariant
                i <= n - 2,
                n <= len,
                is_permutation(p@, len),
            decreases i,
        {
            let target = random_below(i as u64) as usize;
            let a = p[i];
            let b = p[target];
            p.set(i, b);
            p.set(target, a);
            i = i - 1;
        }
    }
}

/// Whether every component of `v` lies in `[-GRADIENT_ONE, GRADIENT_ONE)`.
pub open spec fn gradient_range(v: Vec3) -> bool {
    &&& -GRADIENT_ONE <= v.x < GRADIENT_ONE
    &&& -GRADIENT_ONE <= v.y < GRADIENT_ONE
    &&& -GRADIENT_ONE <= v.z < GRADIENT_ONE
}

/// A vector with each component drawn from `[-GRADIENT_ONE, GRADIENT_ONE)`.
fn random_gradient() -> (r: Vec3)
    ensures
        gradient_range(r),
{
    let span: u64 = 2 * GRADIENT_ONE as u64;
    let x = random_below(span) as i64 - GRADIENT_ONE;
    let y = random_below(span) as i64 - GRADIENT_ONE;
    let z = random_below(span) as i64 - GRADIENT_ONE;
    Vec3::new(x, y, z)
}

} // verus!
