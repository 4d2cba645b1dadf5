//! Perceptual hashes of an image, and the distance between two hash values.
//!
//! Each hash reduces the image to a small grid of grey levels and keeps one
//! bit per cell, in row-major order: the bit of row `j` and column `i` of an
//! eight-cell row has index `8 * j + i`.
use vstd::prelude::*;
use crate::metrics::Ratio;
use crate::raster::{Image, ImageView};
use crate::traits::Comparison;

verus! {

/// Whether bit `i` of `x` is set.
pub open spec fn bit_at(x: u64, i: nat) -> bool {
    (x >> (i as u64)) & 1 == 1
}

/// Whether the bit of row `j` and column `i` of `x` is set, in rows of eight.
pub open spec fn cell_bit(x: u64, j: int, i: int) -> bool {
    bit_at(x, (8 * j + i) as nat)
}

/// The number of set bits among the lowest `n` bits of `x`.
pub open spec fn ones_below(x: u64, n: nat) -> nat
    decreases n,
{
    if n == 0 {
        0
    } else {
        ones_below(x, (n - 1) as nat) + if bit_at(x, (n - 1) as nat) { 1nat } else { 0nat }
    }
}

/// The number of set bits of `x`.
pub open spec fn popcount(x: u64) -> nat {
    ones_below(x, 64)
}

/// The number of bit positions in which `a` and `b` differ. Divided by 64 it
/// is the dissimilarity of two hashes: 0 for equal hashes, 1 for complements.
pub open spec fn distance_bits(a: u64, b: u64) -> nat {
    popcount(a ^ b)
}

/// The value whose bit `k`, for `k < n`, is `flags[k]`, and whose other bits are clear.
pub open spec fn pack_below(flags: Seq<bool>, n: nat) -> u64
    decreases n,
{
    if n == 0 {
        0
    } else {
        let rest = pack_below(flags, (n - 1) as nat);
        if flags[n - 1] {
            rest | (1u64 << ((n - 1) as u64))
        } else {
            rest
        }
    }
}

/// The 64-bit value whose bit `k` is `flags[k]`.
pub open spec fn pack(flags: Seq<bool>) -> u64 {
    pack_below(flags, 64)
}

/// The sum of the cells of a grid.
pub open spec fn total(grid: Seq<u8>) -> int
    decreases grid.len(),
{
    if grid.len() == 0 {
        0
    } else {
        total(grid.drop_last()) + grid.last()
    }
}

/// The bits of the average hash: a cell's bit is set when the cell is
/// brighter than the mean of the 64 cells, that is when 64 times the cell
/// exceeds their sum.
pub open spec fn average_flags(grid: Seq<u8>) -> Seq<bool> {
    Seq::new(64, |k: int| 64 * grid[k] > total(grid))
}

/// The average hash of an 8 by 8 grid.
pub open spec fn average_hash(grid: Seq<u8>) -> u64 {
    pack(average_flags(grid))
}

/// The bits of the difference hash of a grid nine cells wide and eight tall:
/// the bit of row `j` and column `i`, for each of the first eight columns,
/// is set when the cell is brighter than its right neighbour.
pub open spec fn difference_flags(grid: Seq<u8>) -> Seq<bool> {
    Seq::new(64, |k: int| grid[9 * (k / 8) + k % 8] > grid[9 * (k / 8) + k % 8 + 1])
}

/// The difference hash of a 9 by 8 grid.
pub open spec fn difference_hash(grid: Seq<u8>) -> u64 {
    pack(difference_flags(grid))
}

proof fn lemma_set_bit(h: u64, k: u64, m: u64)
    requires
        k < 64,
        m < 64,
    ensures
        (((h | (1u64 << k)) >> m) & 1 == 1) <==> (((h >> m) & 1 == 1) || m == k),
{
    assert((((h | (1u64 << k)) >> m) & 1 == 1) <==> (((h >> m) & 1 == 1) || m == k))
        by (bit_vector)
        requires
            k < 64,
            m < 64,
    ;
}

proof fn lemma_zero_bits(m: u64)
    requires
        m < 64,
    ensures
        (0u64 >> m) & 1 == 0,
{
    assert((0u64 >> m) & 1 == 0) by (bit_vector);
}

proof fn lemma_ones_below_zero(n: nat)
    requires
        n <= 64,
    ensures
        ones_below(0, n) == 0,
    decreases n,
{
    if n > 0 {
        lemma_ones_below_zero((n - 1) as nat);
        lemma_zero_bits((n - 1) as u64);
    }
}

/// Counts the set bits of `x`.
pub fn count_ones(x: u64) -> (n: u32)
    ensures
        n == popcount(x),
        n <= 64,
{
    let mut n: u32 = 0;
    let mut i: u64 = 0;
    while i < 64
        invariant
            i <= 64,
            n <= i,
            n == ones_below(x, i as nat),
        decreases 64 - i,
    {
        if (x >> i) & 1 == 1 {
            n += 1;
        }
        i += 1;
    }
    n
}

/// The Hamming distance of two hashes, as a count of bits out of 64.
pub fn hamming_distance(a: u64, b: u64) -> (d: u32)
    ensures
        d == distance_bits(a, b),
        d <= 64,
{
    count_ones(a ^ b)
}

/// The distance of two hashes: the share of the 64 bits in which they
/// differ, 0 for equal hashes and 1 for hashes that differ in every bit.
impl Comparison<u64> for u64 {
    open spec fn distance(a: &u64, b: &u64) -> Ratio {
        Ratio { numerator: distance_bits(*a, *b) as u128, denominator: 64 }
    }

    fn compare(original_hash: &u64, other_hash: &u64) -> (r: Ratio) {
        let d = hamming_distance(*original_hash, *other_hash);
        Ratio { numerator: d as u128, denominator: 64 }
    }
}

/// The distance of two hashes does not depend on their order.
pub proof fn lemma_distance_symmetric(a: u64, b: u64)
    ensures
        distance_bits(a, b) == distance_bits(b, a),
        <u64 as Comparison<u64>>::distance(&a, &b) == <u64 as Comparison<u64>>::distance(&b, &a),
{
    assert(a ^ b == b ^ a) by (bit_vector);
}

/// A hash is at distance zero from itself.
pub proof fn lemma_distance_self(a: u64)
    ensures
        distance_bits(a, a) == 0,
        <u64 as Comparison<u64>>::distance(&a, &a).numerator == 0,
{
    assert(a ^ a == 0) by (bit_vector);
    lemma_ones_below_zero(64);
}

/// The distance of two hashes is at most one: at most 64 of 64 bits differ.
pub proof fn lemma_distance_bounded(a: u64, b: u64)
    ensures
        distance_bits(a, b) <= 64,
        <u64 as Comparison<u64>>::distance(&a, &b).numerator <= <u64 as Comparison<u64>>::distance(
            &a,
            &b,
        ).denominator,
{
    lemma_ones_below_bound(a ^ b, 64);
}

proof fn lemma_ones_below_bound(x: u64, n: nat)
    ensures
        ones_below(x, n) <= n,
    decreases n,
{
    if n > 0 {
        lemma_ones_below_bound(x, (n - 1) as nat);
    }
}

/// Packs 64 flags into a hash value, flag `k` into bit `k`.
pub fn pack_bits(flags: &Vec<bool>) -> (h: u64)
    requires
        flags.len() == 64,
    ensures
        h == pack(flags@),
        forall|k: nat| k < 64 ==> bit_at(h, k) == flags@[k as int],
{
    let mut h: u64 = 0;
    let mut k: u64 = 0;
    proof {
        assert forall|m: nat| m < 64 implies !bit_at(h, m) by {
            lemma_zero_bits(m as u64);
        }
    }
    while k < 64
        invariant
            k <= 64,
            flags.len() == 64,
            h == pack_below(flags@, k as nat),
            forall|m: nat| m < 64 ==> bit_at(h, m) == (m < k && flags@[m as int]),
        decreases 64 - k,
    {
        let ghost before = h;
        if flags[k as usize] {
            h = h | (1u64 << k);
            proof {
                assert forall|m: nat| m < 64 implies bit_at(h, m) == (m < k + 1 && flags@[m as int]) by {
                    lemma_set_bit(before, k, m as u64);
                    assert(bit_at(before, m) == (m < k && flags@[m as int]));
                    assert(bit_at(h, m) == (bit_at(before, m) || m == k));
                }
            }
        }
        k += 1;
    }
    h
}


proof fn lemma_total_step(grid: Seq<u8>, k: int)
    requires
        0 <= k < grid.len(),
    ensures
        total(grid.take(k + 1)) == total(grid.take(k)) + grid[k],
{
    assert(grid.take(k + 1).drop_last() =~= grid.take(k));
}

/// A hash of an image: a 64-bit value that depends on the image alone, so
/// that hashing an image twice gives the same value.
pub trait ImageHash {
    /// The hash of an image.
    spec fn hash_of(image: ImageView) -> u64;

    /// Computes the hash of an image.
    fn hash(image: &Image) -> (h: u64)
        ensures
            h == Self::hash_of(image@),
    ;
}

/// The average hash: the image is made grey and reduced to 8 by 8 cells, and
/// a cell's bit tells whether the cell is brighter than the mean.
pub struct AHash;

impl AHash {
    /// The average hash of a grid of 8 by 8 grey levels, row by row.
    pub fn hash_grid(grid: &Vec<u8>) -> (h: u64)
        requires
            grid.len() == 64,
        ensures
            h == average_hash(grid@),
            forall|k: nat| k < 64 ==> bit_at(h, k) == (64 * grid@[k as int] > total(grid@)),
    {
        let mut sum: u32 = 0;
        let mut i: usize = 0;
        while i < 64
            invariant
                i <= 64,
                grid.len() == 64,
                sum == total(grid@.take(i as int)),
                sum <= 255 * i,
            decreases 64 - i,
        {
            proof {
                lemma_total_step(grid@, i as int);
            }
            sum += grid[i] as u32;
            i += 1;
        }
        assert(grid@.take(64) =~= grid@);
        let mut flags: Vec<bool> = Vec::new();
        let mut k: usize = 0;
        while k < 64
            invariant
                k <= 64,
                grid.len() == 64,
                sum == total(grid@),
                sum <= 255 * 64,
                flags.len() == k,
                forall|m: int| 0 <= m < k ==> flags@[m] == (64 * grid@[m] > total(grid@)),
            decreases 64 - k,
        {
            flags.push(64 * (grid[k] as u32) > sum);
            k += 1;
        }
        assert(flags@ =~= average_flags(grid@));
        pack_bits(&flags)
    }
}

impl ImageHash for AHash {
    open spec fn hash_of(image: ImageView) -> u64 {
        average_hash(image.lanczos_luma8(8, 8))
    }

    fn hash(image: &Image) -> (h: u64) {
        proof {
            use_type_invariant(image);
        }
        let grid = image.lanczos_luma8(8, 8);
        AHash::hash_grid(&grid)
    }
}

/// The difference hash: the image is made grey and reduced to nine cells by
/// eight, and a cell's bit tells whether the cell is brighter than its right
/// neighbour.
pub struct DHash;

impl DHash {
    /// The difference hash of a grid of grey levels nine wide and eight
    /// tall, row by row.
    pub fn hash_grid(grid: &Vec<u8>) -> (h: u64)
        requires
            grid.len() == 72,
        ensures
            h == difference_hash(grid@),
            forall|j: int, i: int|
                0 <= j < 8 && 0 <= i < 8 ==> #[trigger] cell_bit(h, j, i) == (grid@[9 * j + i] > grid@[9 * j + i
                    + 1]),
    {
        let mut flags: Vec<bool> = Vec::new();
        let mut k: usize = 0;
        while k < 64
            invariant
                k <= 64,
                grid.len() == 72,
                flags.len() == k,
                forall|m: int| 0 <= m < k ==> flags@[m] == difference_flags(grid@)[m],
            decreases 64 - k,
        {
            let j = k / 8;
            let i = k % 8;
            flags.push(grid[9 * j + i] > grid[9 * j + i + 1]);
            k += 1;
        }
        assert(flags@ =~= difference_flags(grid@));
        let h = pack_bits(&flags);
        proof {
            assert forall|j: int, i: int| 0 <= j < 8 && 0 <= i < 8 implies #[trigger] cell_bit(h, j, i) == (grid@[9
                * j + i] > grid@[9 * j + i + 1]) by {
                let m = 8 * j + i;
                assert(m / 8 == j && m % 8 == i);
                assert(flags@[m] == difference_flags(grid@)[m]);
            }
        }
        h
    }
}

impl ImageHash for DHash {
    open spec fn hash_of(image: ImageView) -> u64 {
        difference_hash(image.lanczos_luma8(9, 8))
    }

    fn hash(image: &Image) -> (h: u64) {
        proof {
            use_type_invariant(image);
        }
        let grid = image.lanczos_luma8(9, 8);
        DHash::hash_grid(&grid)
    }
}

/// The frequency hash works on the image made grey and reduced to 32 by 32
/// cells. The library prepares that grid; the cosine transform of it and the
/// comparison of its low frequencies with their mean are left to the caller.
pub struct PHash;

impl PHash {
    /// The 32 by 32 grey levels that the frequency hash transforms, row by row.
    pub fn grid(image: &Image) -> (out: Vec<u8>)
        ensures
            out@ == image@.lanczos_luma8(32, 32),
            out@.len() == 1024,
    {
        proof {
            use_type_invariant(image);
        }
        image.lanczos_luma8(32, 32)
    }
}

} // verus!
