//! Bytes as packs of eight bits.

use vstd::prelude::*;

verus! {

/// Whether bit `k` of `x` is set; bit 0 is the least significant.
pub open spec fn bit(x: u8, k: int) -> bool {
    0 <= k < 8 && (x >> (k as u8)) & 1u8 == 1u8
}

/// The byte whose bit `k` is set exactly when `f(k)` holds.
pub open spec fn pack(f: spec_fn(int) -> bool) -> u8 {
    (if f(0) { 1u8 } else { 0u8 }) | (if f(1) { 2u8 } else { 0u8 }) | (if f(2) { 4u8 } else { 0u8 })
        | (if f(3) { 8u8 } else { 0u8 }) | (if f(4) { 16u8 } else { 0u8 }) | (if f(5) { 32u8 } else { 0u8 })
        | (if f(6) { 64u8 } else { 0u8 }) | (if f(7) { 128u8 } else { 0u8 })
}

/// `pack` is read back bit by bit.
pub proof fn lemma_bit_of_pack(f: spec_fn(int) -> bool, k: int)
    requires
        0 <= k < 8,
    ensures
        bit(pack(f), k) == f(k),
{
    let c0 = if f(0) { 1u8 } else { 0u8 };
    let c1 = if f(1) { 2u8 } else { 0u8 };
    let c2 = if f(2) { 4u8 } else { 0u8 };
    let c3 = if f(3) { 8u8 } else { 0u8 };
    let c4 = if f(4) { 16u8 } else { 0u8 };
    let c5 = if f(5) { 32u8 } else { 0u8 };
    let c6 = if f(6) { 64u8 } else { 0u8 };
    let c7 = if f(7) { 128u8 } else { 0u8 };
    let x = c0 | c1 | c2 | c3 | c4 | c5 | c6 | c7;
    let j = k as u8;
    assert(((x >> j) & 1u8 == 1u8) == ((j == 0 && c0 != 0) || (j == 1 && c1 != 0) || (j == 2 && c2 != 0)
        || (j == 3 && c3 != 0) || (j == 4 && c4 != 0) || (j == 5 && c5 != 0) || (j == 6 && c6 != 0)
        || (j == 7 && c7 != 0))) by (bit_vector)
        requires
            x == c0 | c1 | c2 | c3 | c4 | c5 | c6 | c7,
            j < 8,
            c0 == 0 || c0 == 1,
            c1 == 0 || c1 == 2,
            c2 == 0 || c2 == 4,
            c3 == 0 || c3 == 8,
            c4 == 0 || c4 == 16,
            c5 == 0 || c5 == 32,
            c6 == 0 || c6 == 64,
            c7 == 0 || c7 == 128,
    ;
}

/// Two bytes with the same eight bits are the same byte.
pub proof fn lemma_bits_determine_byte(a: u8, b: u8)
    requires
        forall|k: int| 0 <= k < 8 ==> bit(a, k) == bit(b, k),
    ensures
        a == b,
{
    assert(bit(a, 0) == bit(b, 0));
    assert(bit(a, 1) == bit(b, 1));
    assert(bit(a, 2) == bit(b, 2));
    assert(bit(a, 3) == bit(b, 3));
    assert(bit(a, 4) == bit(b, 4));
    assert(bit(a, 5) == bit(b, 5));
    assert(bit(a, 6) == bit(b, 6));
    assert(bit(a, 7) == bit(b, 7));
    assert(a == b) by (bit_vector)
        requires
            ((a >> 0u8) & 1u8 == 1u8) == ((b >> 0u8) & 1u8 == 1u8),
            ((a >> 1u8) & 1u8 == 1u8) == ((b >> 1u8) & 1u8 == 1u8),
            ((a >> 2u8) & 1u8 == 1u8) == ((b >> 2u8) & 1u8 == 1u8),
            ((a >> 3u8) & 1u8 == 1u8) == ((b >> 3u8) & 1u8 == 1u8),
            ((a >> 4u8) & 1u8 == 1u8) == ((b >> 4u8) & 1u8 == 1u8),
            ((a >> 5u8) & 1u8 == 1u8) == ((b >> 5u8) & 1u8 == 1u8),
            ((a >> 6u8) & 1u8 == 1u8) == ((b >> 6u8) & 1u8 == 1u8),
            ((a >> 7u8) & 1u8 == 1u8) == ((b >> 7u8) & 1u8 == 1u8),
    ;
}

/// Testing a bit with a one-hot mask reads that bit.
pub proof fn lemma_mask_test(x: u8, k: u8)
    requires
        k < 8,
    ensures
        ((x & (1u8 << k)) != 0) == bit(x, k as int),
{
    assert(((x & (1u8 << k)) != 0) == ((x >> k) & 1u8 == 1u8)) by (bit_vector)
        requires
            k < 8,
    ;
}

/// Or-ing in a one-hot mask sets that bit and keeps the other seven.
pub proof fn lemma_mask_set(x: u8, k: u8, j: int)
    requires
        k < 8,
        0 <= j < 8,
    ensures
        bit(x | (1u8 << k), j) == (j == k || bit(x, j)),
{
    let i = j as u8;
    assert((((x | (1u8 << k)) >> i) & 1u8 == 1u8) == (i == k || ((x >> i) & 1u8 == 1u8)))
        by (bit_vector)
        requires
            k < 8,
            i < 8,
    ;
}

/// And-ing with the complement of a one-hot mask clears that bit and keeps the other seven.
pub proof fn lemma_mask_clear(x: u8, k: u8, j: int)
    requires
        k < 8,
        0 <= j < 8,
    ensures
        bit(x & !(1u8 << k), j) == (j != k && bit(x, j)),
{
    let i = j as u8;
    assert((((x & !(1u8 << k)) >> i) & 1u8 == 1u8) == (i != k && ((x >> i) & 1u8 == 1u8)))
        by (bit_vector)
        requires
            k < 8,
            i < 8,
    ;
}

/// The zero byte has no bit set.
pub proof fn lemma_zero_has_no_bit(k: int)
    ensures
        !bit(0u8, k),
{
    if 0 <= k < 8 {
        let j = k as u8;
        assert((0u8 >> j) & 1u8 == 0u8) by (bit_vector);
    }
}

} // verus!
