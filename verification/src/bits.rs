//! Facts about single bits of a 64-bit word, on which the set reading of a
//! mask rests.

use vstd::prelude::*;
use vstd::std_specs::bits::{
    axiom_u64_leading_zeros, axiom_u64_trailing_zeros, u64_leading_zeros, u64_trailing_zeros,
};

verus! {

/// Whether bit `i` of `x` is set. False outside `0..64`.
pub open spec fn bit(x: u64, i: int) -> bool {
    0 <= i < 64 && (x >> (i as u64)) & 1 == 1
}

/// The word with only bit `i` set.
pub open spec fn single(i: int) -> u64 {
    1u64 << (i as u64)
}

/// The index of the lowest set bit of `x`; 64 for the empty word.
pub open spec fn lowest(x: u64) -> int {
    u64_trailing_zeros(x) as int
}

/// The index of the highest set bit of `x`; -1 for the empty word.
pub open spec fn highest(x: u64) -> int {
    63 - u64_leading_zeros(x)
}

/// `x` without its lowest set bit.
pub open spec fn drop_lowest(x: u64) -> u64 {
    x & !single(lowest(x))
}

proof fn lemma_bitwise(a: u64, b: u64, i: u64)
    by (bit_vector)
    requires
        i < 64,
    ensures
        ((a | b) >> i) & 1 == 1 <==> ((a >> i) & 1 == 1 || (b >> i) & 1 == 1),
        ((a & b) >> i) & 1 == 1 <==> ((a >> i) & 1 == 1 && (b >> i) & 1 == 1),
        ((a ^ b) >> i) & 1 == 1 <==> ((a >> i) & 1 == 1) != ((b >> i) & 1 == 1),
        ((!a) >> i) & 1 == 1 <==> (a >> i) & 1 != 1,
        (0u64 >> i) & 1 == 0,
        (0xffff_ffff_ffff_ffffu64 >> i) & 1 == 1,
        (a >> i) & 1 == 1 ==> a != 0,
        (a >> i) & 1 == 0 || (a >> i) & 1 == 1,
{
}

proof fn lemma_single(s: u64, i: u64)
    by (bit_vector)
    requires
        s < 64,
        i < 64,
    ensures
        ((1u64 << s) >> i) & 1 == 1 <==> i == s,
        1u64 << s != 0,
{
}

proof fn lemma_xor_zero(a: u64, b: u64)
    by (bit_vector)
    ensures
        a ^ b == 0 ==> a == b,
{
}

proof fn lemma_clear_smaller(x: u64, s: u64)
    by (bit_vector)
    requires
        s < 64,
        (x >> s) & 1 == 1,
    ensures
        x & !(1u64 << s) < x,
{
}

/// A bit of a union, an intersection, a symmetric difference, a complement.
pub broadcast proof fn lemma_bit_or(a: u64, b: u64, i: int)
    ensures
        #[trigger] bit(a | b, i) <==> bit(a, i) || bit(b, i),
{
    if 0 <= i < 64 {
        lemma_bitwise(a, b, i as u64);
    }
}

pub broadcast proof fn lemma_bit_and(a: u64, b: u64, i: int)
    ensures
        #[trigger] bit(a & b, i) <==> bit(a, i) && bit(b, i),
{
    if 0 <= i < 64 {
        lemma_bitwise(a, b, i as u64);
    }
}

pub broadcast proof fn lemma_bit_xor(a: u64, b: u64, i: int)
    ensures
        #[trigger] bit(a ^ b, i) <==> (bit(a, i) != bit(b, i)),
{
    if 0 <= i < 64 {
        lemma_bitwise(a, b, i as u64);
    }
}

pub broadcast proof fn lemma_bit_not(a: u64, i: int)
    ensures
        #[trigger] bit(!a, i) <==> 0 <= i < 64 && !bit(a, i),
{
    if 0 <= i < 64 {
        lemma_bitwise(a, a, i as u64);
    }
}

pub broadcast proof fn lemma_bit_zero(i: int)
    ensures
        !#[trigger] bit(0u64, i),
{
    if 0 <= i < 64 {
        lemma_bitwise(0, 0, i as u64);
    }
}

pub broadcast proof fn lemma_bit_full(i: int)
    ensures
        #[trigger] bit(0xffff_ffff_ffff_ffffu64, i) <==> 0 <= i < 64,
{
    if 0 <= i < 64 {
        lemma_bitwise(0, 0, i as u64);
    }
}

pub broadcast proof fn lemma_bit_single(s: int, i: int)
    requires
        0 <= s < 64,
    ensures
        #[trigger] bit(single(s), i) <==> i == s,
{
    if 0 <= i < 64 {
        lemma_single(s as u64, i as u64);
    }
}

pub broadcast group group_bit_facts {
    lemma_bit_or,
    lemma_bit_and,
    lemma_bit_xor,
    lemma_bit_not,
    lemma_bit_zero,
    lemma_bit_full,
    lemma_bit_single,
}

/// A word with a set bit is not zero.
pub proof fn lemma_bit_nonzero(x: u64, i: int)
    requires
        bit(x, i),
    ensures
        x != 0,
{
    lemma_bitwise(x, x, i as u64);
}

/// Words with the same bits are the same word.
pub proof fn lemma_bits_equal(a: u64, b: u64)
    requires
        forall|i: int| 0 <= i < 64 ==> bit(a, i) == bit(b, i),
    ensures
        a == b,
{
    let d = a ^ b;
    if d != 0 {
        axiom_u64_trailing_zeros(d);
        let z = lowest(d);
        assert(bit(d, z));
        lemma_bit_xor(a, b, z);
        assert(false);
    }
    lemma_xor_zero(a, b);
}

/// The lowest set bit of a word that has one: it is set, nothing below it
/// is, and dropping it leaves the other bits and a smaller word.
pub proof fn lemma_lowest(x: u64)
    requires
        x != 0,
    ensures
        0 <= lowest(x) < 64,
        bit(x, lowest(x)),
        forall|j: int| 0 <= j < lowest(x) ==> !bit(x, j),
        forall|j: int| bit(drop_lowest(x), j) <==> bit(x, j) && j != lowest(x),
        drop_lowest(x) < x,
{
    axiom_u64_trailing_zeros(x);
    let z = lowest(x);
    assert forall|j: int| 0 <= j < z implies !bit(x, j) by {
        let ju = j as u64;
        assert((x >> ju) & 1u64 == 0u64);
    }
    assert forall|j: int| bit(drop_lowest(x), j) <==> bit(x, j) && j != z by {
        lemma_bit_and(x, !single(z), j);
        lemma_bit_not(single(z), j);
        lemma_bit_single(z, j);
    }
    lemma_clear_smaller(x, z as u64);
}

/// The empty word has no lowest bit.
pub proof fn lemma_lowest_none(x: u64)
    ensures
        x == 0 <==> lowest(x) == 64,
        0 <= lowest(x) <= 64,
{
    axiom_u64_trailing_zeros(x);
}

/// The highest set bit of a word that has one: it is set and nothing above
/// it is.
pub proof fn lemma_highest(x: u64)
    ensures
        x == 0 <==> highest(x) == -1,
        -1 <= highest(x) < 64,
        x != 0 ==> bit(x, highest(x)),
        forall|j: int| highest(x) < j < 64 ==> !bit(x, j),
{
    axiom_u64_leading_zeros(x);
    let lz = u64_leading_zeros(x);
    if x != 0 {
        let h = (63 - lz) as u64;
        assert((x >> h) & 1u64 != 0u64);
        lemma_bitwise(x, x, h);
    }
    assert forall|j: int| highest(x) < j < 64 implies !bit(x, j) by {
        let ju = j as u64;
        assert((x >> ju) & 1u64 == 0u64);
    }
}

} // verus!
