//! Binary descriptor matching: Hamming distances between bit strings.

use vstd::prelude::*;

verus! {

/// Number of set bits of `x`.
pub open spec fn popcount(x: u32) -> nat
    decreases x,
{
    if x == 0 {
        0
    } else {
        (x % 2) as nat + popcount(x / 2)
    }
}

/// Clearing the lowest set bit of a non-zero value removes exactly one set bit.
proof fn lemma_clear_lowest_bit(x: u32)
    requires
        x != 0,
    ensures
        popcount(x & ((x - 1) as u32)) + 1 == popcount(x),
    decreases x,
{
    let y: u32 = x & ((x - 1) as u32);
    if x % 2 == 1 {
        assert(x % 2 == 1u32 ==> x & ((x - 1) as u32) == (x - 1) as u32) by (bit_vector);
        assert(x % 2 == 1u32 ==> ((x - 1) as u32) / 2 == x / 2 && ((x - 1) as u32) % 2 == 0)
            by (bit_vector);
        assert(popcount(y) == popcount(((x - 1) as u32) / 2));
    } else {
        let h: u32 = x / 2;
        assert(x != 0u32 && x % 2 == 0u32 ==> (x / 2) != 0u32) by (bit_vector);
        assert(x != 0u32 && x % 2 == 0u32 ==> (x & ((x - 1) as u32)) % 2 == 0u32
            && (x & ((x - 1) as u32)) / 2 == (x / 2) & (((x / 2) - 1) as u32)) by (bit_vector);
        lemma_clear_lowest_bit(h);
        assert(popcount(y) == popcount(y / 2));
    }
}

/// Hamming weight of `distance`: the number of bits in which two descriptors
/// differ when `distance` is their exclusive or.
pub fn hanming_distance(distance: u32) -> (count: u32)
    ensures
        count == popcount(distance),
{
    let ghost distance_in = distance;
    let mut distance = distance;
    let mut count: u32 = 0;
    let ghost start = distance;
    proof { lemma_popcount_bound(start); }
    while distance != 0
        invariant
            count + popcount(distance) == popcount(start),
            popcount(start) <= 32,
            start == distance_in,
        decreases distance,
    {
        proof {
            lemma_clear_lowest_bit(distance);
            assert(distance != 0u32 ==> distance & ((distance - 1) as u32) < distance)
                by (bit_vector);
        }
        count = count + 1;
        distance = distance & (distance - 1);
    }
    count
}

/// A 32-bit value has at most 32 set bits.
pub proof fn lemma_popcount_bound(x: u32)
    ensures
        popcount(x) <= 32,
{
    vstd::arithmetic::power2::lemma2_to64();
    lemma_popcount_bound_by_width(x, 32);
}

proof fn lemma_popcount_bound_by_width(x: u32, n: nat)
    requires
        n <= 32,
        (x as int) < vstd::arithmetic::power2::pow2(n),
    ensures
        popcount(x) <= n,
    decreases n,
{
    vstd::arithmetic::power2::lemma2_to64();
    if n == 0 {
    } else {
        vstd::arithmetic::power2::lemma_pow2_unfold(n);
        lemma_popcount_bound_by_width(x / 2, (n - 1) as nat);
    }
}

/// Number types in which a match distance is measured.
pub trait Match: Copy + Sized {
}

impl Match for usize {
}

impl Match for u32 {
}

/// A correspondence between descriptor `i1` of the first image and
/// descriptor `i2` of the second, at distance `distance`.
#[derive(Debug)]
pub struct DMatch<T: Match> {
    pub i1: usize,
    pub i2: usize,
    pub distance: T,
}

/// The distance between two descriptors is zero exactly when they are equal.
pub proof fn lemma_hamming_zero_iff_equal(a: u32, b: u32)
    ensures
        (popcount(a ^ b) == 0) <==> (a == b),
{
    lemma_popcount_zero_iff(a ^ b);
    assert((a ^ b) == 0u32 <==> a == b) by (bit_vector);
}

/// A value has no set bit exactly when it is zero.
pub proof fn lemma_popcount_zero_iff(x: u32)
    ensures
        (popcount(x) == 0) <==> (x == 0),
    decreases x,
{
    if x != 0 {
        if x % 2 == 0 {
            assert(x != 0u32 && x % 2 == 0u32 ==> x / 2 != 0u32) by (bit_vector);
            lemma_popcount_zero_iff(x / 2);
        }
    }
}

/// The distance does not depend on the order of the two descriptors.
pub proof fn lemma_hamming_symmetric(a: u32, b: u32)
    ensures
        popcount(a ^ b) == popcount(b ^ a),
{
    assert(a ^ b == b ^ a) by (bit_vector);
}

/// Triangle inequality: going through a third descriptor never shortens the
/// distance between two descriptors.
pub proof fn lemma_hamming_triangle(a: u32, b: u32, c: u32)
    ensures
        popcount(a ^ c) <= popcount(a ^ b) + popcount(b ^ c),
    decreases a + b + c,
{
    assert((a ^ c) / 2 == (a / 2) ^ (c / 2) && (a ^ b) / 2 == (a / 2) ^ (b / 2) && (b ^ c) / 2
        == (b / 2) ^ (c / 2)) by (bit_vector);
    assert((a ^ c) % 2 <= (a ^ b) % 2 + (b ^ c) % 2) by (bit_vector);
    if a == 0 && b == 0 && c == 0 {
    } else {
        assert(a / 2 + b / 2 + c / 2 < a + b + c);
        lemma_hamming_triangle(a / 2, b / 2, c / 2);
        lemma_popcount_unfold(a ^ c);
        lemma_popcount_unfold(a ^ b);
        lemma_popcount_unfold(b ^ c);
    }
}

/// One step of the bit count: lowest bit plus the count of the rest.
proof fn lemma_popcount_unfold(x: u32)
    ensures
        popcount(x) == (x % 2) as nat + popcount(x / 2),
{
    if x == 0 {
        assert(popcount(0u32 / 2) == 0);
    }
}

} // verus!
