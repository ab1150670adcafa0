//! The arena itself: a fixed block of bytes addressed by offset.

use vstd::prelude::*;
use crate::bits::{bit, pack, lemma_bit_of_pack, lemma_bits_determine_byte, lemma_mask_clear, lemma_mask_set, lemma_mask_test};
use crate::layout::SIZE;

verus! {

/// The arena ("the bus"): `SIZE` bytes that hold both the occupancy bitmap and
/// the callers' data. Every offset handed out or taken by this crate is an
/// index into these bytes.
pub struct Bus {
    bytes: [u8; SIZE],
}

impl View for Bus {
    type V = Seq<u8>;

    closed spec fn view(&self) -> Seq<u8> {
        self.bytes@
    }
}

/// The image of an arena that nothing has touched yet: `SIZE` zero bytes.
pub open spec fn fresh() -> Seq<u8> {
    Seq::new(SIZE as nat, |i: int| 0u8)
}

impl Bus {
    /// A fresh arena: every byte is zero.
    pub fn new() -> (bus: Bus)
        ensures
            bus@ == fresh(),
            bus@.len() == SIZE,
    {
        let bus = Bus { bytes: [0u8; SIZE] };
        assert(bus.bytes@ =~= fresh());
        bus
    }

    /// The arena always holds exactly `SIZE` bytes.
    pub proof fn lemma_len(&self)
        ensures
            self@.len() == SIZE,
    {
    }

    /// Reads the byte at offset `i`.
    pub fn bus_read(&self, i: usize) -> (v: u8)
        requires
            i < SIZE,
        ensures
            v == self@[i as int],
    {
        self.bytes[i]
    }

    /// Overwrites the byte at offset `i`.
    pub fn bus_write(&mut self, i: usize, v: u8)
        requires
            i < SIZE,
        ensures
            final(self)@ == old(self)@.update(i as int, v),
    {
        self.bytes[i] = v;
    }
}

/// Whether word-slot `w` is marked occupied in the arena image `b`:
/// bit `w` of the bitmap, which is bit `w % 8` of byte `w / 8`.
pub open spec fn occupied(b: Seq<u8>, w: int) -> bool {
    bit(b[w / 8], w % 8)
}

/// The image `b` with the mark of word-slot `w` set to `used` and every other
/// bit as it was.
pub open spec fn with_slot(b: Seq<u8>, w: int, used: bool) -> Seq<u8> {
    b.update(w / 8, pack(|k: int| if k == w % 8 { used } else { bit(b[w / 8], k) }))
}

/// Changing one slot's mark changes that slot's mark only.
pub proof fn lemma_with_slot(b: Seq<u8>, w: int, used: bool, t: int)
    requires
        0 <= w < 8 * b.len(),
        0 <= t < 8 * b.len(),
    ensures
        occupied(with_slot(b, w, used), t) == (if t == w { used } else { occupied(b, t) }),
        with_slot(b, w, used).len() == b.len(),
        forall|i: int| 0 <= i < b.len() && i != w / 8 ==> with_slot(b, w, used)[i] == b[i],
{
    let f = |k: int| if k == w % 8 { used } else { bit(b[w / 8], k) };
    if t / 8 == w / 8 {
        lemma_bit_of_pack(f, t % 8);
    }
}

/// Reads the occupancy mark of word-slot `word_i`.
pub fn bit_get(bus: &Bus, word_i: usize) -> (used: bool)
    requires
        word_i < 8 * SIZE,
    ensures
        used == occupied(bus@, word_i as int),
{
    proof {
        assert(word_i >> 3 == word_i / 8) by (bit_vector);
        assert(word_i & 7 == word_i % 8) by (bit_vector);
    }
    let byte = word_i >> 3;
    let pos = (word_i & 7) as u8;
    proof {
        lemma_mask_test(bus@[byte as int], pos);
    }
    (bus.bus_read(byte) & (1u8 << pos)) != 0
}

/// Sets the occupancy mark of word-slot `word_i` to `used`.
pub fn bit_set(bus: &mut Bus, word_i: usize, used: bool)
    requires
        word_i < 8 * SIZE,
    ensures
        final(bus)@ == with_slot(old(bus)@, word_i as int, used),
{
    proof {
        assert(word_i >> 3 == word_i / 8) by (bit_vector);
        assert(word_i & 7 == word_i % 8) by (bit_vector);
    }
    let byte = word_i >> 3;
    let pos = (word_i & 7) as u8;
    let mask = 1u8 << pos;
    let cur = bus.bus_read(byte);
    let next = if used {
        cur | mask
    } else {
        cur & !mask
    };
    proof {
        let f = |k: int| if k == word_i as int % 8 { used } else { bit(cur, k) };
        assert forall|j: int| 0 <= j < 8 implies bit(next, j) == bit(pack(f), j) by {
            lemma_bit_of_pack(f, j);
            lemma_mask_set(cur, pos, j);
            lemma_mask_clear(cur, pos, j);
        }
        lemma_bits_determine_byte(next, pack(f));
    }
    bus.bus_write(byte, next);
}

} // verus!
