//! Geometry of the arena: capacity, allocation granularity and the size of
//! the occupancy bitmap that lives in the arena's leading word-slots.

use vstd::prelude::*;

verus! {

/// Capacity of the arena in bytes.
pub const SIZE: usize = 1024;

/// Allocation granularity: bytes per word-slot.
pub const WORD: usize = 8;

/// The least `q` with `q * b >= a`, for positive `b`.
pub open spec fn ceil_div(a: int, b: int) -> int {
    if a % b == 0 {
        a / b
    } else {
        a / b + 1
    }
}

/// Number of word-slots in the arena.
pub open spec fn word_count() -> int {
    SIZE as int / WORD as int
}

/// Number of bytes the bitmap needs: one bit per word-slot.
pub open spec fn bitmap_byte_count() -> int {
    ceil_div(word_count(), 8)
}

/// Number of leading word-slots that hold the bitmap itself.
pub open spec fn bitmap_word_count() -> int {
    ceil_div(bitmap_byte_count(), WORD as int)
}

/// Rounded-up quotient, for every `a`: no intermediate sum that could overflow.
pub fn div_ceil(a: usize, b: usize) -> (q: usize)
    requires
        b > 0,
    ensures
        q == ceil_div(a as int, b as int),
{
    if a % b == 0 {
        a / b
    } else {
        assert(a / b < a) by (nonlinear_arith)
            requires
                b > 0,
                a % b != 0,
        ;
        a / b + 1
    }
}

/// Number of word-slots in the arena.
pub fn words() -> (n: usize)
    ensures
        n == word_count(),
        n == 128,
{
    SIZE / WORD
}

/// Number of bytes occupied by the bitmap.
pub fn bitmap_bytes() -> (n: usize)
    ensures
        n == bitmap_byte_count(),
        n == 16,
{
    div_ceil(words(), 8)
}

/// Number of word-slots reserved for the bitmap.
pub fn bitmap_words() -> (n: usize)
    ensures
        n == bitmap_word_count(),
        n == 2,
{
    div_ceil(bitmap_bytes(), WORD)
}

/// `ceil_div(a, b)` is the least multiple count of `b` that covers `a`.
pub proof fn ceil_div_is_least_cover(a: int, b: int)
    requires
        a >= 0,
        b > 0,
    ensures
        ceil_div(a, b) * b >= a,
        (ceil_div(a, b) - 1) * b < a || a == 0,
        a == 0 ==> ceil_div(a, b) == 0,
        a > 0 ==> ceil_div(a, b) >= 1,
{
    assert(a == b * (a / b) + a % b && 0 <= a % b < b) by (nonlinear_arith)
        requires
            a >= 0,
            b > 0,
    ;
    assert((a / b + 1) * b == (a / b) * b + b) by (nonlinear_arith);
    assert((a / b - 1) * b == (a / b) * b - b) by (nonlinear_arith);
    assert((a / b) * b == b * (a / b)) by (nonlinear_arith);
    if a > 0 && a / b <= 0 && a % b == 0 {
        assert(b * (a / b) <= 0) by (nonlinear_arith)
            requires
                b > 0,
                a / b <= 0,
        ;
    }
}

} // verus!
