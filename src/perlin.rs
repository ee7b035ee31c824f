use rand::seq::SliceRandom;
use vstd::prelude::*;

verus! {

/// Number of lattice gradients, and length of each permutation table.
pub const POINT_COUNT: usize = 256;

/// Each of `0..POINT_COUNT` stands exactly once in `p`.
pub open spec fn is_permutation(p: Seq<usize>) -> bool {
    &&& p.len() == POINT_COUNT
    &&& p.no_duplicates()
    &&& forall|n: int| 0 <= n < p.len() ==> #[trigger] p[n] < POINT_COUNT
}

/// The lattice coordinate `i` folded onto the tables' period.
pub open spec fn wrap(i: int) -> int {
    i % (POINT_COUNT as int)
}

/// Relies on rand's `SliceRandom::shuffle`, drawn from `thread_rng`: it permutes
/// the slice in place by swaps, so the slice keeps the same elements.
#[verifier::external_body]
fn shuffle(items: &mut Vec<usize>)
    ensures
        final(items)@.to_multiset() == old(items)@.to_multiset(),
        final(items)@.len() == old(items)@.len(),
{
    items.shuffle(&mut rand::thread_rng());
}

/// A random permutation of `0..POINT_COUNT`.
pub fn generate_perlin() -> (r: Vec<usize>)
    ensures
        is_permutation(r@),
{
    let mut p: Vec<usize> = Vec::new();
    let mut i: usize = 0;
    while i < POINT_COUNT
        invariant
            i <= POINT_COUNT,
            p@ == Seq::new(i as nat, |n: int| n as usize),
        decreases POINT_COUNT - i,
    {
        p.push(i);
        i = i + 1;
    }
    let ghost ordered = p@;
    proof {
        assert(ordered.no_duplicates());
        ordered.lemma_multiset_has_no_duplicates();
    }
    shuffle(&mut p);
    proof {
        broadcast use vstd::seq_lib::to_multiset_contains;

        p@.lemma_multiset_has_no_duplicates_conv();
        assert forall|n: int| 0 <= n < p@.len() implies #[trigger] p@[n] < POINT_COUNT by {
            assert(p@.contains(p@[n]));
            assert(ordered.to_multiset().count(p@[n]) > 0);
            assert(ordered.contains(p@[n]));
        }
    }
    p
}

/// `i & 255` is the non-negative residue of `i` modulo 256.
proof fn lemma_low_byte(i: i32)
    ensures
        (i & 255) as int == wrap(i as int),
        0 <= i & 255 < 256,
{
    assert(0 <= i & 255 < 256) by (bit_vector);
    assert((i >> 8) * 256 + (i & 255) == i) by (bit_vector);
    assert(i >> 8 <= 8388607 && i >> 8 >= -8388608) by (bit_vector);
    vstd::arithmetic::div_mod::lemma_fundamental_div_mod_converse(
        i as int,
        256,
        (i >> 8) as int,
        (i & 255) as int,
    );
}

/// The table slot of lattice coordinate `i + d`, computed without overflow.
fn wrap_index(i: i32, d: i32) -> (r: usize)
    requires
        0 <= d <= 1,
    ensures
        r as int == wrap(i + d),
{
    proof {
        lemma_low_byte(i);
    }
    let low: i32 = i & 255;
    let s: i32 = low + d;
    if s == 256 {
        0
    } else {
        s as usize
    }
}

/// The three permutation tables of a gradient-noise field. A lattice point
/// `(i, j, k)` picks its gradient by combining one entry of each table.
#[derive(Clone)]
pub struct PerlinHash {
    perm_x: Vec<usize>,
    perm_y: Vec<usize>,
    perm_z: Vec<usize>,
}

impl PerlinHash {
    pub closed spec fn wf(&self) -> bool {
        &&& is_permutation(self.perm_x@)
        &&& is_permutation(self.perm_y@)
        &&& is_permutation(self.perm_z@)
    }

    /// The gradient slot of lattice point `(i, j, k)`.
    pub closed spec fn slot(&self, i: int, j: int, k: int) -> usize {
        self.perm_x@[wrap(i)] ^ self.perm_y@[wrap(j)] ^ self.perm_z@[wrap(k)]
    }

    /// The gradient slots repeat every `POINT_COUNT` cells along each axis:
    /// shifting a lattice point by whole periods gives the same slot.
    pub proof fn lemma_slot_period(&self, i: int, j: int, k: int, a: int, b: int, c: int)
        ensures
            self.slot(
                i + POINT_COUNT * a,
                j + POINT_COUNT * b,
                k + POINT_COUNT * c,
            ) == self.slot(i, j, k),
    {
        vstd::arithmetic::div_mod::lemma_mod_multiples_vanish(a, i, POINT_COUNT as int);
        vstd::arithmetic::div_mod::lemma_mod_multiples_vanish(b, j, POINT_COUNT as int);
        vstd::arithmetic::div_mod::lemma_mod_multiples_vanish(c, k, POINT_COUNT as int);
        assert(wrap(i + POINT_COUNT * a) == wrap(i));
        assert(wrap(j + POINT_COUNT * b) == wrap(j));
        assert(wrap(k + POINT_COUNT * c) == wrap(k));
    }

    /// Three independent random permutations of `0..POINT_COUNT`.
    pub fn new() -> (r: Self)
        ensures
            r.wf(),
    {
        PerlinHash { perm_x: generate_perlin(), perm_y: generate_perlin(), perm_z: generate_perlin() }
    }

    /// The gradient slot of the cell corner `(i + di, j + dj, k + dk)`, where each
    /// offset is 0 or 1. It always indexes a table of `POINT_COUNT` gradients.
    pub fn corner(&self, i: i32, j: i32, k: i32, di: i32, dj: i32, dk: i32) -> (r: usize)
        requires
            self.wf(),
            0 <= di <= 1,
            0 <= dj <= 1,
            0 <= dk <= 1,
        ensures
            r == self.slot(i + di, j + dj, k + dk),
            r < POINT_COUNT,
    {
        let x = self.perm_x[wrap_index(i, di)];
        let y = self.perm_y[wrap_index(j, dj)];
        let z = self.perm_z[wrap_index(k, dk)];
        assert(x ^ y ^ z < 256) by (bit_vector)
            requires
                x < 256,
                y < 256,
                z < 256,
        ;
        x ^ y ^ z
    }
}

} // verus!
