//! The identity hash of symbols and keywords.

use vstd::prelude::*;

verus! {

/// Seed of the first accumulator.
pub const SEED_LOW: u32 = 0xdeadbeef;

/// Seed of the second accumulator.
pub const SEED_HIGH: u32 = 0x41c6ce57;

/// One round of an accumulator: XOR the code point in, then multiply modulo 2^32.
pub open spec fn mix(h: u32, c: char, k: u32) -> u32 {
    (h ^ (c as u32)).wrapping_mul(k)
}

/// The first accumulator after all of `s` went in.
pub open spec fn low_rounds(s: Seq<char>) -> u32
    decreases s.len(),
{
    if s.len() == 0 {
        SEED_LOW
    } else {
        mix(low_rounds(s.drop_last()), s.last(), 2654435761)
    }
}

/// The second accumulator after all of `s` went in.
pub open spec fn high_rounds(s: Seq<char>) -> u32
    decreases s.len(),
{
    if s.len() == 0 {
        SEED_HIGH
    } else {
        mix(high_rounds(s.drop_last()), s.last(), 1597334677)
    }
}

/// One half of the closing avalanche.
pub open spec fn avalanche(a: u32, b: u32) -> u32 {
    (a ^ (a >> 16)).wrapping_mul(2246822507) ^ (b ^ (b >> 13)).wrapping_mul(3266489909)
}

/// The fingerprint of a string: the first word, and above it the low 21 bits of the second
/// word as multiples of 2^21.
pub open spec fn spec_hash_cyrb53(s: Seq<char>) -> int {
    let h1 = avalanche(low_rounds(s), high_rounds(s));
    let h2 = avalanche(high_rounds(s), h1);
    2097152 * (h2 & 2097151) + h1
}

/// Hashes `input` code point by code point, in one walk over it.
pub fn hash_cyrb53(input: &str) -> (hash: i64)
    ensures
        hash == spec_hash_cyrb53(input@),
        0 <= hash < 0x20_0000_0000_0000,
{
    let mut h1: u32 = SEED_LOW;
    let mut h2: u32 = SEED_HIGH;
    for c in it: input.chars()
        invariant
            it.seq() == input@,
            h1 == low_rounds(it.seq().take(it.index() as int)),
            h2 == high_rounds(it.seq().take(it.index() as int)),
    {
        let ch: u32 = c as u32;
        proof {
            let next = it.seq().take(it.index() + 1);
            assert(next.drop_last() == it.seq().take(it.index() as int));
            assert(next.last() == c);
        }
        h1 = (h1 ^ ch).wrapping_mul(2654435761);
        h2 = (h2 ^ ch).wrapping_mul(1597334677);
    }
    assert(input@.take(input@.len() as int) == input@);
    let a: u32 = h1;
    h1 = (a ^ (a >> 16)).wrapping_mul(2246822507) ^ (h2 ^ (h2 >> 13)).wrapping_mul(3266489909);
    h2 = (h2 ^ (h2 >> 16)).wrapping_mul(2246822507) ^ (h1 ^ (h1 >> 13)).wrapping_mul(3266489909);
    let high: u32 = h2 & 2097151;
    assert(high <= 2097151) by (bit_vector)
        requires
            high == h2 & 2097151,
    ;
    2097152 * (high as i64) + (h1 as i64)
}

/// The closing steps on two given accumulators, by the bits.
proof fn lemma_finish(l: u32, h: u32, h1: u32, h2: u32, top: u32)
    by (bit_vector)
    requires
        h1 == (l ^ (l >> 16)).wrapping_mul(2246822507) ^ (h ^ (h >> 13)).wrapping_mul(3266489909),
        h2 == (h ^ (h >> 16)).wrapping_mul(2246822507) ^ (h1 ^ (h1 >> 13)).wrapping_mul(
            3266489909,
        ),
        top == h2 & 2097151,
    ensures
        l == 0xdeadbeefu32 && h == 0x41c6ce57u32 ==> h1 == 0x1aee8d83u32 && top == 0xbdcb8u32,
        l == 0xa9b3de2eu32 && h == 0xac711d6eu32 ==> h1 == 0x82c97901u32 && top == 0x1c2ba7u32,
{
}

/// The hash of the empty string.
pub proof fn lemma_hash_of_empty()
    ensures
        spec_hash_cyrb53(Seq::<char>::empty()) == 1630777806211,
{
    let s = Seq::<char>::empty();
    let l = low_rounds(s);
    let h = high_rounds(s);
    let h1 = avalanche(l, h);
    let h2 = avalanche(h, h1);
    lemma_finish(l, h, h1, h2, h2 & 2097151);
}

/// The hash of the string `a`.
pub proof fn lemma_hash_of_a()
    ensures
        spec_hash_cyrb53(seq!['a']) == 3873920612609,
{
    let s = seq!['a'];
    assert(low_rounds(s.drop_last()) == 0xdeadbeefu32);
    assert(high_rounds(s.drop_last()) == 0x41c6ce57u32);
    let c = 'a' as u32;
    let l = low_rounds(s);
    let h = high_rounds(s);
    assert(l == 0xa9b3de2eu32 && h == 0xac711d6eu32) by (bit_vector)
        requires
            c == 97u32,
            l == (0xdeadbeefu32 ^ c).wrapping_mul(2654435761),
            h == (0x41c6ce57u32 ^ c).wrapping_mul(1597334677),
    ;
    let h1 = avalanche(l, h);
    let h2 = avalanche(h, h1);
    lemma_finish(l, h, h1, h2, h2 & 2097151);
}

/// Every hash is a non-negative integer of fewer than 53 bits.
pub proof fn lemma_hash_range(s: Seq<char>)
    ensures
        0 <= spec_hash_cyrb53(s) < 0x20_0000_0000_0000,
{
    let h1 = avalanche(low_rounds(s), high_rounds(s));
    let h2 = avalanche(high_rounds(s), h1);
    let top = h2 & 2097151;
    assert(top <= 2097151) by (bit_vector)
        requires
            top == h2 & 2097151u32,
    ;
}

} // verus!
