//! Values that can be kept in the arena, and their store and load.
//!
//! The integer types of one to eight bytes are such values: they are laid out
//! least significant byte first, the signed ones in two's complement.

use vstd::prelude::*;
use crate::arena::{
    claim, cleared, fits, has_fit, first_fit, initialized, lemma_first_fit, lemma_first_fit_is,
    lemma_initialized, lemma_malloc, lemma_malloc_image, malloc_image, malloc_result, slots_for,
};
use crate::bus::{Bus, occupied};
use crate::layout::{SIZE, bitmap_byte_count, word_count};
use crate::repr::{
    decode_le, encode_le, le_bytes, le_value, lemma_le_bytes_len, lemma_le_bytes_of_value,
    lemma_le_value_of_bytes, lemma_span_values, to_signed, to_unsigned,
};

verus! {

/// A value of fixed size with a byte representation that loses nothing.
pub trait Plain: Sized {
    /// Number of bytes in the representation of every value of the type.
    spec fn width() -> nat;

    /// The representation of a value.
    spec fn bytes(&self) -> Seq<u8>;

    /// The value that a representation stands for.
    spec fn from_bytes(b: Seq<u8>) -> Self;

    /// A representation has `width()` bytes and stands for the value it was made from.
    proof fn lemma_representation(&self)
        ensures
            self.bytes().len() == Self::width(),
            Self::from_bytes(self.bytes()) == *self,
    ;

    /// Number of bytes in the representation.
    fn size() -> (n: usize)
        ensures
            n == Self::width(),
    ;

    /// Writes out the representation.
    fn encode(&self) -> (out: Vec<u8>)
        ensures
            out@ == self.bytes(),
    ;

    /// Reads a value back from `width()` bytes.
    fn decode(b: &[u8]) -> (v: Self)
        requires
            b@.len() == Self::width(),
        ensures
            v == Self::from_bytes(b@),
    ;
}

impl Plain for u8 {
    open spec fn width() -> nat {
        1
    }

    open spec fn bytes(&self) -> Seq<u8> {
        le_bytes(*self as nat, 1)
    }

    open spec fn from_bytes(b: Seq<u8>) -> u8 {
        le_value(b) as u8
    }

    proof fn lemma_representation(&self) {
        lemma_span_values();
        lemma_le_bytes_len(*self as nat, 1);
        lemma_le_value_of_bytes(*self as nat, 1);
    }

    fn size() -> (n: usize) {
        1
    }

    fn encode(&self) -> (out: Vec<u8>) {
        encode_le(*self as u64, 1)
    }

    fn decode(b: &[u8]) -> (v: u8) {
        proof {
            lemma_span_values();
            lemma_le_bytes_of_value(b@);
        }
        decode_le(b) as u8
    }
}

impl Plain for u16 {
    open spec fn width() -> nat {
        2
    }

    open spec fn bytes(&self) -> Seq<u8> {
        le_bytes(*self as nat, 2)
    }

    open spec fn from_bytes(b: Seq<u8>) -> u16 {
        le_value(b) as u16
    }

    proof fn lemma_representation(&self) {
        lemma_span_values();
        lemma_le_bytes_len(*self as nat, 2);
        lemma_le_value_of_bytes(*self as nat, 2);
    }

    fn size() -> (n: usize) {
        2
    }

    fn encode(&self) -> (out: Vec<u8>) {
        encode_le(*self as u64, 2)
    }

    fn decode(b: &[u8]) -> (v: u16) {
        proof {
            lemma_span_values();
            lemma_le_bytes_of_value(b@);
        }
        decode_le(b) as u16
    }
}

impl Plain for u32 {
    open spec fn width() -> nat {
        4
    }

    open spec fn bytes(&self) -> Seq<u8> {
        le_bytes(*self as nat, 4)
    }

    open spec fn from_bytes(b: Seq<u8>) -> u32 {
        le_value(b) as u32
    }

    proof fn lemma_representation(&self) {
        lemma_span_values();
        lemma_le_bytes_len(*self as nat, 4);
        lemma_le_value_of_bytes(*self as nat, 4);
    }

    fn size() -> (n: usize) {
        4
    }

    fn encode(&self) -> (out: Vec<u8>) {
        encode_le(*self as u64, 4)
    }

    fn decode(b: &[u8]) -> (v: u32) {
        proof {
            lemma_span_values();
            lemma_le_bytes_of_value(b@);
        }
        decode_le(b) as u32
    }
}

impl Plain for u64 {
    open spec fn width() -> nat {
        8
    }

    open spec fn bytes(&self) -> Seq<u8> {
        le_bytes(*self as nat, 8)
    }

    open spec fn from_bytes(b: Seq<u8>) -> u64 {
        le_value(b) as u64
    }

    proof fn lemma_representation(&self) {
        lemma_span_values();
        lemma_le_bytes_len(*self as nat, 8);
        lemma_le_value_of_bytes(*self as nat, 8);
    }

    fn size() -> (n: usize) {
        8
    }

    fn encode(&self) -> (out: Vec<u8>) {
        encode_le(*self as u64, 8)
    }

    fn decode(b: &[u8]) -> (v: u64) {
        proof {
            lemma_span_values();
            lemma_le_bytes_of_value(b@);
        }
        decode_le(b) as u64
    }
}

impl Plain for i8 {
    open spec fn width() -> nat {
        1
    }

    open spec fn bytes(&self) -> Seq<u8> {
        le_bytes(to_unsigned(*self as int, 1), 1)
    }

    open spec fn from_bytes(b: Seq<u8>) -> i8 {
        to_signed(le_value(b), 1) as i8
    }

    proof fn lemma_representation(&self) {
        lemma_span_values();
        lemma_le_bytes_len(to_unsigned(*self as int, 1), 1);
        lemma_le_value_of_bytes(to_unsigned(*self as int, 1), 1);
    }

    fn size() -> (n: usize) {
        1
    }

    fn encode(&self) -> (out: Vec<u8>) {
        let x = *self;
        proof {
            lemma_span_values();
            assert(x as u8 == (if x < 0 { x + 0x100 } else { x as int })) by (bit_vector);
        }
        encode_le((x as u8) as u64, 1)
    }

    fn decode(b: &[u8]) -> (v: i8) {
        proof {
            lemma_span_values();
            lemma_le_bytes_of_value(b@);
        }
        let u = decode_le(b) as u8;
        proof {
            assert(u as i8 == (if u >= 0x80 { u - 0x100 } else { u as int })) by (bit_vector);
        }
        u as i8
    }
}

impl Plain for i16 {
    open spec fn width() -> nat {
        2
    }

    open spec fn bytes(&self) -> Seq<u8> {
        le_bytes(to_unsigned(*self as int, 2), 2)
    }

    open spec fn from_bytes(b: Seq<u8>) -> i16 {
        to_signed(le_value(b), 2) as i16
    }

    proof fn lemma_representation(&self) {
        lemma_span_values();
        lemma_le_bytes_len(to_unsigned(*self as int, 2), 2);
        lemma_le_value_of_bytes(to_unsigned(*self as int, 2), 2);
    }

    fn size() -> (n: usize) {
        2
    }

    fn encode(&self) -> (out: Vec<u8>) {
        let x = *self;
        proof {
            lemma_span_values();
            assert(x as u16 == (if x < 0 { x + 0x1_0000 } else { x as int })) by (bit_vector);
        }
        encode_le((x as u16) as u64, 2)
    }

    fn decode(b: &[u8]) -> (v: i16) {
        proof {
            lemma_span_values();
            lemma_le_bytes_of_value(b@);
        }
        let u = decode_le(b) as u16;
        proof {
            assert(u as i16 == (if u >= 0x8000 { u - 0x1_0000 } else { u as int })) by (bit_vector);
        }
        u as i16
    }
}

impl Plain for i32 {
    open spec fn width() -> nat {
        4
    }

    open spec fn bytes(&self) -> Seq<u8> {
        le_bytes(to_unsigned(*self as int, 4), 4)
    }

    open spec fn from_bytes(b: Seq<u8>) -> i32 {
        to_signed(le_value(b), 4) as i32
    }

    proof fn lemma_representation(&self) {
        lemma_span_values();
        lemma_le_bytes_len(to_unsigned(*self as int, 4), 4);
        lemma_le_value_of_bytes(to_unsigned(*self as int, 4), 4);
    }

    fn size() -> (n: usize) {
        4
    }

    fn encode(&self) -> (out: Vec<u8>) {
        let x = *self;
        proof {
            lemma_span_values();
            assert(x as u32 == (if x < 0 { x + 0x1_0000_0000 } else { x as int })) by (bit_vector);
        }
        encode_le((x as u32) as u64, 4)
    }

    fn decode(b: &[u8]) -> (v: i32) {
        proof {
            lemma_span_values();
            lemma_le_bytes_of_value(b@);
        }
        let u = decode_le(b) as u32;
        proof {
            assert(u as i32 == (if u >= 0x8000_0000 { u - 0x1_0000_0000 } else { u as int })) by (bit_vector);
        }
        u as i32
    }
}

impl Plain for i64 {
    open spec fn width() -> nat {
        8
    }

    open spec fn bytes(&self) -> Seq<u8> {
        le_bytes(to_unsigned(*self as int, 8), 8)
    }

    open spec fn from_bytes(b: Seq<u8>) -> i64 {
        to_signed(le_value(b), 8) as i64
    }

    proof fn lemma_representation(&self) {
        lemma_span_values();
        lemma_le_bytes_len(to_unsigned(*self as int, 8), 8);
        lemma_le_value_of_bytes(to_unsigned(*self as int, 8), 8);
    }

    fn size() -> (n: usize) {
        8
    }

    fn encode(&self) -> (out: Vec<u8>) {
        let x = *self;
        proof {
            lemma_span_values();
            assert(x as u64 == (if x < 0 { x + 0x1_0000_0000_0000_0000 } else { x as int })) by (bit_vector);
        }
        encode_le((x as u64) as u64, 8)
    }

    fn decode(b: &[u8]) -> (v: i64) {
        proof {
            lemma_span_values();
            lemma_le_bytes_of_value(b@);
        }
        let u = decode_le(b) as u64;
        proof {
            assert(u as i64 == (if u >= 0x8000_0000_0000_0000 { u - 0x1_0000_0000_0000_0000 } else { u as int })) by (bit_vector);
        }
        u as i64
    }
}

/// The image `b` with `data` laid over it from offset `loc` on.
pub open spec fn stored(b: Seq<u8>, loc: int, data: Seq<u8>) -> Seq<u8> {
    Seq::new(b.len(), |i: int| if loc <= i < loc + data.len() { data[i - loc] } else { b[i] })
}

/// The `n` bytes of the image `b` from offset `loc` on.
pub open spec fn loaded(b: Seq<u8>, loc: int, n: nat) -> Seq<u8> {
    b.subrange(loc, loc + n)
}

/// Stores `val` at offset `loc`: its representation overwrites the bytes
/// `loc .. loc + width`, whatever they held, and no other byte changes.
pub fn setter<T: Plain>(bus: &mut Bus, val: T, loc: usize)
    requires
        loc + T::width() <= SIZE,
    ensures
        final(bus)@ == stored(old(bus)@, loc as int, val.bytes()),
        final(bus)@.len() == SIZE,
{
    proof {
        bus.lemma_len();
        val.lemma_representation();
    }
    let ghost orig = bus@;
    let data = val.encode();
    let n = data.len();
    let mut k: usize = 0;
    while k < n
        invariant
            k <= n == data@.len(),
            loc + n <= SIZE,
            orig.len() == SIZE,
            bus@ == stored(orig, loc as int, data@.subrange(0, k as int)),
        decreases n - k,
    {
        bus.bus_write(loc + k, data[k]);
        k += 1;
        assert(bus@ =~= stored(orig, loc as int, data@.subrange(0, k as int)));
    }
    assert(data@.subrange(0, n as int) =~= data@);
}

/// Loads a value of type `T` from offset `loc`: a copy of the bytes
/// `loc .. loc + width`, read as a `T`. The arena is left as it is.
pub fn getter<T: Plain>(bus: &Bus, loc: usize) -> (val: T)
    requires
        loc + T::width() <= SIZE,
    ensures
        val == T::from_bytes(loaded(bus@, loc as int, T::width())),
{
    proof {
        bus.lemma_len();
    }
    let n = T::size();
    let mut data: Vec<u8> = Vec::new();
    let mut k: usize = 0;
    while k < n
        invariant
            k <= n,
            loc + n <= SIZE,
            bus@.len() == SIZE,
            data@ == bus@.subrange(loc as int, loc + k),
        decreases n - k,
    {
        data.push(bus.bus_read(loc + k));
        k += 1;
        assert(data@ =~= bus@.subrange(loc as int, loc + k));
    }
    T::decode(data.as_slice())
}

/// A value stored at an offset is the value loaded from that offset.
pub proof fn lemma_load_after_store<T: Plain>(b: Seq<u8>, val: T, loc: int)
    requires
        0 <= loc,
        loc + T::width() <= b.len(),
    ensures
        T::from_bytes(loaded(stored(b, loc, val.bytes()), loc, T::width())) == val,
{
    val.lemma_representation();
    assert(loaded(stored(b, loc, val.bytes()), loc, T::width()) =~= val.bytes());
}

/// Memory that was granted holds what is stored in it: a value no wider than
/// the request can be stored at the offset that `malloc` returned and is loaded
/// from there unchanged, and the store stays clear of the bitmap.
pub proof fn lemma_granted_memory_holds<T: Plain>(b: Seq<u8>, s: usize, val: T)
    requires
        b.len() == SIZE,
        malloc_result(b, s) is Some,
        T::width() <= s,
    ensures
        ({
            let off = malloc_result(b, s)->0 as int;
            &&& bitmap_byte_count() <= off
            &&& off + T::width() <= SIZE
            &&& T::from_bytes(
                loaded(stored(malloc_image(b, s), off, val.bytes()), off, T::width()),
            ) == val
        }),
{
    lemma_malloc(b, s);
    lemma_malloc_image(b, s);
    lemma_load_after_store(malloc_image(b, s), val, malloc_result(b, s)->0 as int);
}

/// A store changes nothing outside the bytes it writes: a range that does not
/// meet them loads what it loaded before.
pub proof fn lemma_store_elsewhere(b: Seq<u8>, loc: int, data: Seq<u8>, at: int, n: nat)
    requires
        0 <= at,
        at + n <= b.len(),
        loc + data.len() <= at || at + n <= loc,
    ensures
        loaded(stored(b, loc, data), at, n) == loaded(b, at, n),
{
    assert(loaded(stored(b, loc, data), at, n) =~= loaded(b, at, n));
}

/// A store behind the bitmap leaves every occupancy mark as it was.
pub proof fn lemma_store_keeps_marks(b: Seq<u8>, loc: int, data: Seq<u8>, t: int)
    requires
        b.len() == SIZE,
        bitmap_byte_count() <= loc,
        0 <= t < word_count(),
    ensures
        occupied(stored(b, loc, data), t) == occupied(b, t),
{
}

/// Allocation looks at the bitmap only: a store behind the bitmap does not
/// change what a later request returns, and it makes no difference whether the
/// store comes before the request or after it.
pub proof fn lemma_store_then_malloc(b: Seq<u8>, loc: int, data: Seq<u8>, s: usize)
    requires
        b.len() == SIZE,
        bitmap_byte_count() <= loc,
    ensures
        malloc_result(stored(b, loc, data), s) == malloc_result(b, s),
        malloc_image(stored(b, loc, data), s) == stored(malloc_image(b, s), loc, data),
{
    let c = stored(b, loc, data);
    let n = slots_for(s);
    lemma_initialized(b);
    assert(initialized(c) =~= stored(initialized(b), loc, data)) by {
        reveal(claim);
        reveal(cleared);
    }
    let ib = initialized(b);
    let ic = initialized(c);
    assert forall|w: int| #[trigger] fits(ic, w, n) == fits(ib, w, n) by {
        if fits(ib, w, n) {
            assert forall|t: int| w <= t < w + n implies !#[trigger] occupied(ic, t) by {
                lemma_store_keeps_marks(ib, loc, data, t);
            }
        }
        if fits(ic, w, n) {
            assert forall|t: int| w <= t < w + n implies !#[trigger] occupied(ib, t) by {
                lemma_store_keeps_marks(ib, loc, data, t);
            }
        }
    }
    if has_fit(ib, n) {
        lemma_first_fit(ib, n);
        let w = first_fit(ib, n);
        assert(fits(ic, w, n));
        assert forall|v: int| v < w implies !#[trigger] fits(ic, v, n) by {
            assert(fits(ic, v, n) == fits(ib, v, n));
        }
        lemma_first_fit_is(ic, n, w);
        assert(claim(ic, w, n) =~= stored(claim(ib, w, n), loc, data)) by {
            reveal(claim);
        }
    } else {
        if has_fit(ic, n) {
            lemma_first_fit(ic, n);
            let w = first_fit(ic, n);
            assert(fits(ib, w, n) == fits(ic, w, n));
            assert forall|v: int| v < w implies !#[trigger] fits(ib, v, n) by {
                assert(fits(ic, v, n) == fits(ib, v, n));
            }
            lemma_first_fit_is(ib, n, w);
        }
    }
}

} // verus!
