//! The lattice of gradient noise: 256 random vectors and three random
//! permutations that say which vector sits at which lattice point.
use crate::rtweekend::random;
use crate::vec3::{Point3, Vec3};
use rand::rngs::StdRng;
use vstd::prelude::*;

verus! {

broadcast use vstd::seq_lib::group_to_multiset_ensures;

/// The number of random vectors, and the length of each permutation.
pub const POINT_COUNT: i32 = 256;

/// The numbers 0, 1, ... up to `n`, which is left out.
pub open spec fn counting(n: int) -> Seq<i32> {
    Seq::new(n as nat, |i: int| i as i32)
}

/// Whether `p` holds every number from 0 to 255 exactly once.
pub open spec fn is_permutation(p: Seq<i32>) -> bool {
    p.len() == POINT_COUNT && p.to_multiset() == counting(POINT_COUNT as int).to_multiset()
}

/// A sequence with the entries at the places `i` and `j` changed round.
pub open spec fn exchanged(s: Seq<i32>, i: int, j: int) -> Seq<i32> {
    s.update(i, s[j]).update(j, s[i])
}

/// Whether `draws` can be the random draws of a shuffle of the first `n`
/// entries: one draw for every place from `n - 2` down to 1, each draw a
/// place before the place that it is drawn for.
pub open spec fn draws_fit(n: int, draws: Seq<i32>) -> bool {
    &&& draws.len() == (if n >= 3 { n - 2 } else { 0 })
    &&& forall|k: int| 0 <= k < draws.len() ==> 0 <= #[trigger] draws[k] < n - 2 - k
}

/// What a shuffle of the first `n` entries makes of `s` with the given
/// draws: the first draw changes places with the entry at `n - 2`, the next
/// with the entry at `n - 3`, and so on down.
pub open spec fn shuffled(s: Seq<i32>, n: int, draws: Seq<i32>) -> Seq<i32>
    decreases draws.len(),
{
    if draws.len() == 0 {
        s
    } else {
        exchanged(
            shuffled(s, n, draws.drop_last()),
            n - 1 - draws.len(),
            draws.last() as int,
        )
    }
}

/// The place on a lattice axis, which repeats after 256 steps.
pub open spec fn wrapped(coordinate: int) -> int {
    coordinate % 256
}

/// The vectors and permutations of one noise field.
pub struct Perlin {
    ran_vec: Vec<Vec3>,
    perm_x: Vec<i32>,
    perm_y: Vec<i32>,
    perm_z: Vec<i32>,
}

/// Every entry of a permutation is a place in the table of vectors.
pub proof fn lemma_permutation_entries(p: Seq<i32>, k: int)
    requires
        is_permutation(p),
        0 <= k < p.len(),
    ensures
        0 <= p[k] < POINT_COUNT,
{
    let all = counting(POINT_COUNT as int);
    assert(p.contains(p[k]));
    assert(p.to_multiset().count(p[k]) > 0);
    assert(all.contains(p[k]));
}

impl Perlin {
    #[verifier::type_invariant]
    spec fn well_formed(self) -> bool {
        &&& self.ran_vec.len() == POINT_COUNT
        &&& is_permutation(self.perm_x@)
        &&& is_permutation(self.perm_y@)
        &&& is_permutation(self.perm_z@)
    }

    /// The random vectors.
    pub closed spec fn vectors(self) -> Seq<Vec3> {
        self.ran_vec@
    }

    /// The permutation of the x axis.
    pub closed spec fn x_order(self) -> Seq<i32> {
        self.perm_x@
    }

    /// The permutation of the y axis.
    pub closed spec fn y_order(self) -> Seq<i32> {
        self.perm_y@
    }

    /// The permutation of the z axis.
    pub closed spec fn z_order(self) -> Seq<i32> {
        self.perm_z@
    }

    /// The vector at the lattice point `(i, j, k)`: the three axes look up
    /// their permutations, and the exclusive or of what they find is the
    /// place of the vector.
    pub open spec fn at(self, i: int, j: int, k: int) -> Vec3 {
        self.vectors()[(self.x_order()[wrapped(i)] as u32 ^ self.y_order()[wrapped(j)] as u32
            ^ self.z_order()[wrapped(k)] as u32) as int]
    }

    /// The numbers from 0 to 255 in a random order.
    pub fn perlin_generate_perm(rng: &mut StdRng) -> (p: Vec<i32>)
        ensures
            is_permutation(p@),
    {
        let mut p: Vec<i32> = Vec::new();
        let mut i: i32 = 0;
        while i < POINT_COUNT
            invariant
                0 <= i <= POINT_COUNT,
                p@ == counting(i as int),
            decreases POINT_COUNT - i,
        {
            p.push(i);
            assert(p@ == counting(i as int + 1));
            i += 1;
        }
        Self::permute(&mut p, POINT_COUNT, rng);
        p
    }

    /// Shuffles the first `n` entries of `p`: from the last but one down to
    /// the second, each changes places with a random entry before it. Which
    /// entry that is, the draws decide; what they make of `p` is `shuffled`.
    pub fn permute(p: &mut Vec<i32>, n: i32, rng: &mut StdRng)
        requires
            n <= old(p).len(),
        ensures
            exists|draws: Seq<i32>| #[trigger]
                draws_fit(n as int, draws) && final(p)@ == shuffled(old(p)@, n as int, draws),
            final(p).len() == old(p).len(),
            final(p)@.to_multiset() == old(p)@.to_multiset(),
            forall|k: int| n - 1 <= k < old(p).len() && 0 <= k ==> final(p)[k] == old(p)[k],
    {
        let ghost mut draws: Seq<i32> = Seq::empty();
        if n < 3 {
            proof {
                assert(draws_fit(n as int, draws));
                assert(p@ == shuffled(old(p)@, n as int, draws));
            }
            return ;
        }
        let mut i: i32 = n - 2;
        while i >= 1
            invariant
                0 <= i <= n - 2,
                n <= p.len(),
                p.len() == old(p).len(),
                p@.to_multiset() == old(p)@.to_multiset(),
                forall|k: int| n - 1 <= k < p.len() ==> p[k] == old(p)[k],
                draws.len() == n - 2 - i,
                forall|k: int| 0 <= k < draws.len() ==> 0 <= #[trigger] draws[k] < n - 2 - k,
                p@ == shuffled(old(p)@, n as int, draws),
            decreases i,
        {
            let target = random(rng, 0, i);
            let ghost before = p@;
            let ghost drawn = draws;
            let temp = p[i as usize];
            let other = p[target as usize];
            p[i as usize] = other;
            p[target as usize] = temp;
            proof {
                draws = drawn.push(target);
                assert(draws.drop_last() == drawn);
                assert(draws.last() == target);
                assert(p@ == exchanged(before, i as int, target as int));
                let mid = before.update(i as int, other);
                assert(p@ == mid.update(target as int, temp));
                assert(mid.to_multiset() == before.to_multiset().insert(other).remove(temp));
                assert(p@.to_multiset() == mid.to_multiset().insert(temp).remove(other));
                assert(before.to_multiset().count(temp) > 0) by {
                    assert(before.contains(before[i as int]));
                }
                assert(p@.to_multiset() =~= before.to_multiset());
            }
            i -= 1;
        }
        proof {
            assert(draws_fit(n as int, draws));
        }
    }

    /// A noise field over the given random vectors, with three fresh
    /// permutations. There must be 256 vectors: any other number gives
    /// nothing.
    pub fn new(ran_vec: Vec<Vec3>, rng: &mut StdRng) -> (r: Option<Perlin>)
        ensures
            r is Some <==> ran_vec.len() == POINT_COUNT,
            r is Some ==> (r->0).vectors() == ran_vec@ && is_permutation((r->0).x_order())
                && is_permutation((r->0).y_order()) && is_permutation((r->0).z_order()),
    {
        if ran_vec.len() != POINT_COUNT as usize {
            return None;
        }
        let perm_x = Self::perlin_generate_perm(rng);
        let perm_y = Self::perlin_generate_perm(rng);
        let perm_z = Self::perlin_generate_perm(rng);
        Some(Perlin { ran_vec, perm_x, perm_y, perm_z })
    }

    /// The random vectors.
    pub fn ran_vec(&self) -> (r: &Vec<Vec3>)
        ensures
            r@ == self.vectors(),
    {
        &self.ran_vec
    }

    /// The permutation of the x axis.
    pub fn perm_x(&self) -> (r: &Vec<i32>)
        ensures
            r@ == self.x_order(),
            is_permutation(r@),
    {
        proof {
            use_type_invariant(self);
        }
        &self.perm_x
    }

    /// The permutation of the y axis.
    pub fn perm_y(&self) -> (r: &Vec<i32>)
        ensures
            r@ == self.y_order(),
            is_permutation(r@),
    {
        proof {
            use_type_invariant(self);
        }
        &self.perm_y
    }

    /// The permutation of the z axis.
    pub fn perm_z(&self) -> (r: &Vec<i32>)
        ensures
            r@ == self.z_order(),
            is_permutation(r@),
    {
        proof {
            use_type_invariant(self);
        }
        &self.perm_z
    }

    /// The random vector at the lattice point `(i, j, k)`.
    pub fn corner(&self, i: i32, j: i32, k: i32) -> (r: Vec3)
        ensures
            r == self.at(i as int, j as int, k as int),
    {
        self.corner_beside(i, 0, j, 0, k, 0)
    }

    /// The lattice part of the noise at a point: the eight random vectors
    /// round the cell that holds the point. The lowest corner of the cell is
    /// the floor of the point, and the corner `di`, `dj`, `dk` steps further
    /// on the three axes stands at place `4 * di + 2 * dj + dk`.
    pub fn noise(&self, point: &Point3) -> (c: Vec<Vec3>)
        ensures
            c.len() == 8,
            forall|di: int, dj: int, dk: int|
                0 <= di < 2 && 0 <= dj < 2 && 0 <= dk < 2 ==> #[trigger] c[4 * di + 2 * dj + dk]
                    == self.at(
                    point.x.floor_in_range() + di,
                    point.y.floor_in_range() + dj,
                    point.z.floor_in_range() + dk,
                ),
    {
        let i = point.x.floor_to_i32();
        let j = point.y.floor_to_i32();
        let k = point.z.floor_to_i32();
        let mut c: Vec<Vec3> = Vec::new();
        let mut n: usize = 0;
        while n < 8
            invariant
                n <= 8,
                c.len() == n,
                forall|m: int|
                    0 <= m < n ==> #[trigger] c[m] == self.at(
                        i + m / 4,
                        j + (m / 2) % 2,
                        k + m % 2,
                    ),
            decreases 8 - n,
        {
            let di: i32 = (n / 4) as i32;
            let dj: i32 = ((n / 2) % 2) as i32;
            let dk: i32 = (n % 2) as i32;
            let v = self.corner_beside(i, di, j, dj, k, dk);
            c.push(v);
            n += 1;
        }
        assert forall|di: int, dj: int, dk: int|
            0 <= di < 2 && 0 <= dj < 2 && 0 <= dk < 2 implies #[trigger] c[4 * di + 2 * dj + dk]
            == self.at(i + di, j + dj, k + dk) by {
            let m = 4 * di + 2 * dj + dk;
            assert(m / 4 == di && (m / 2) % 2 == dj && m % 2 == dk);
        }
        c
    }

    /// The random vector at the lattice point `(i + di, j + dj, k + dk)`.
    fn corner_beside(&self, i: i32, di: i32, j: i32, dj: i32, k: i32, dk: i32) -> (r: Vec3)
        requires
            0 <= di < 2,
            0 <= dj < 2,
            0 <= dk < 2,
        ensures
            r == self.at(i + di, j + dj, k + dk),
    {
        proof {
            use_type_invariant(self);
        }
        let ix = wrap_sum(i, di);
        let iy = wrap_sum(j, dj);
        let iz = wrap_sum(k, dk);
        proof {
            lemma_permutation_entries(self.perm_x@, ix as int);
            lemma_permutation_entries(self.perm_y@, iy as int);
            lemma_permutation_entries(self.perm_z@, iz as int);
        }
        let a: u32 = self.perm_x[ix] as u32;
        let b: u32 = self.perm_y[iy] as u32;
        let c: u32 = self.perm_z[iz] as u32;
        assert(a ^ b ^ c < 256) by (bit_vector)
            requires
                a < 256,
                b < 256,
                c < 256,
        ;
        self.ran_vec[(a ^ b ^ c) as usize]
    }
}

/// The place of `coordinate + step` on a lattice axis.
fn wrap_sum(coordinate: i32, step: i32) -> (r: usize)
    requires
        0 <= step < 2,
    ensures
        r == wrapped(coordinate + step),
        r < 256,
{
    let shifted: i64 = coordinate as i64 + step as i64 + 0x1_0000_0000;
    (shifted as u64 % 256) as usize
}

} // verus!
