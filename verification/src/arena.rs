//! First-fit allocation of word-slot runs, tracked by the bitmap that the
//! arena keeps in its own leading word-slots.

use vstd::prelude::*;
use crate::bits::{bit, lemma_bit_of_pack, lemma_bits_determine_byte, lemma_zero_has_no_bit, pack};
use crate::bus::{bit_get, bit_set, lemma_with_slot, occupied, with_slot, Bus};
use crate::layout::{
    SIZE, WORD, bitmap_byte_count, bitmap_bytes, bitmap_word_count, bitmap_words, ceil_div,
    div_ceil, word_count, words,
};

verus! {

/// The image `b` with every byte of the bitmap zeroed.
#[verifier::opaque]
pub open spec fn cleared(b: Seq<u8>) -> Seq<u8> {
    Seq::new(b.len(), |i: int| if i < bitmap_byte_count() { 0u8 } else { b[i] })
}

/// The image `b` with the word-slots `w .. w + need` marked occupied: bit `k`
/// of bitmap byte `i` speaks for slot `8 * i + k`. Nothing else changes.
#[verifier::opaque]
pub open spec fn claim(b: Seq<u8>, w: int, need: int) -> Seq<u8> {
    Seq::new(
        b.len(),
        |i: int|
            if i < bitmap_byte_count() {
                pack(|k: int| bit(b[i], k) || w <= 8 * i + k < w + need)
            } else {
                b[i]
            },
    )
}

/// The image after making sure the bitmap is set up. An image whose slot 0 is
/// already marked is taken as set up and left alone; otherwise the bitmap is
/// zeroed and the slots that hold the bitmap itself are marked occupied.
pub open spec fn initialized(b: Seq<u8>) -> Seq<u8> {
    if occupied(b, 0) {
        b
    } else {
        claim(cleared(b), 0, bitmap_word_count())
    }
}

/// Whether the `need` word-slots from `w` on are all free in `b`.
pub open spec fn run_is_free(b: Seq<u8>, w: int, need: int) -> bool {
    forall|t: int| w <= t < w + need ==> !#[trigger] occupied(b, t)
}

/// Whether a run of `need` word-slots can be placed at slot `w`: it lies
/// behind the bitmap, inside the arena, and on free slots only.
pub open spec fn fits(b: Seq<u8>, w: int, need: int) -> bool {
    &&& bitmap_word_count() <= w
    &&& w + need <= word_count()
    &&& run_is_free(b, w, need)
}

/// Whether a run of `need` word-slots can be placed anywhere in `b`.
#[verifier::opaque]
pub open spec fn has_fit(b: Seq<u8>, need: int) -> bool {
    exists|w: int| #[trigger] fits(b, w, need)
}

/// The lowest slot at which a run of `need` word-slots can be placed.
#[verifier::opaque]
pub open spec fn first_fit(b: Seq<u8>, need: int) -> int {
    choose|w: int| #[trigger]
        fits(b, w, need) && forall|v: int| v < w ==> !#[trigger] fits(b, v, need)
}

/// Number of word-slots that a request of `s` bytes takes.
pub open spec fn slots_for(s: usize) -> int {
    ceil_div(s as int, WORD as int)
}

/// What `malloc(s)` returns on an arena whose image is `b`.
pub open spec fn malloc_result(b: Seq<u8>, s: usize) -> Option<usize> {
    if s != 0 && has_fit(initialized(b), slots_for(s)) {
        Some((first_fit(initialized(b), slots_for(s)) * WORD) as usize)
    } else {
        None
    }
}

/// The image that `malloc(s)` leaves behind on an arena whose image is `b`.
pub open spec fn malloc_image(b: Seq<u8>, s: usize) -> Seq<u8> {
    if s == 0 {
        b
    } else if has_fit(initialized(b), slots_for(s)) {
        claim(initialized(b), first_fit(initialized(b), slots_for(s)), slots_for(s))
    } else {
        initialized(b)
    }
}

/// Number of bytes that lie behind the bitmap: the most that can ever be handed out.
pub open spec fn usable_bytes() -> int {
    (word_count() - bitmap_word_count()) * WORD
}

/// Makes sure the bitmap is set up: a no-op once slot 0 is marked.
pub fn init(bus: &mut Bus)
    ensures
        final(bus)@ == initialized(old(bus)@),
        final(bus)@.len() == SIZE,
{
    proof {
        bus.lemma_len();
    }
    if bit_get(bus, 0) {
        return ;
    }
    let ghost orig = bus@;
    let nbytes = bitmap_bytes();
    let mut i: usize = 0;
    while i < nbytes
        invariant
            i <= nbytes == 16,
            bus@.len() == SIZE,
            orig.len() == SIZE,
            forall|j: int| 0 <= j < SIZE ==> bus@[j] == (if j < i { 0u8 } else { orig[j] }),
        decreases nbytes - i,
    {
        bus.bus_write(i, 0);
        i += 1;
    }
    proof {
        reveal(cleared);
        assert(bus@ =~= cleared(orig));
        lemma_claim_nothing(cleared(orig), 0);
    }
    let nwords = bitmap_words();
    let mut w: usize = 0;
    while w < nwords
        invariant
            w <= nwords == 2,
            orig.len() == SIZE,
            bus@ == claim(cleared(orig), 0, w as int),
        decreases nwords - w,
    {
        bit_set(bus, w, true);
        proof {
            lemma_bitmap_only(orig, 0, 0);
            lemma_claim_step(cleared(orig), 0, w as int);
        }
        w += 1;
    }
    proof {
        bus.lemma_len();
    }
}

/// Reserves `s` bytes: the lowest run of free word-slots that covers them is
/// marked occupied and its byte offset returned. `None` when `s` is zero or no
/// such run exists; the occupancy marks are then as `init` leaves them.
pub fn malloc(bus: &mut Bus, s: usize) -> (r: Option<usize>)
    ensures
        r == malloc_result(old(bus)@, s),
        final(bus)@ == malloc_image(old(bus)@, s),
        final(bus)@.len() == SIZE,
        s == 0 ==> r is None && final(bus)@ == old(bus)@,
        s > usable_bytes() ==> r is None,
        r is Some <==> s > 0 && has_fit(initialized(old(bus)@), slots_for(s)),
        r is None && s > 0 ==> final(bus)@ == initialized(old(bus)@),
        r is None && occupied(old(bus)@, 0) ==> final(bus)@ == old(bus)@,
        r matches Some(off) ==> {
            &&& off % WORD == 0
            &&& off == first_fit(initialized(old(bus)@), slots_for(s)) * WORD
            &&& bitmap_word_count() * WORD <= off
            &&& off + s <= SIZE
        },
{
    proof {
        bus.lemma_len();
        lemma_malloc(bus@, s);
    }
    if s == 0 {
        return None;
    }
    let ghost orig = bus@;
    init(bus);
    proof {
        bus.lemma_len();
    }
    let ghost img = bus@;
    let need = div_ceil(s, WORD);
    let start = bitmap_words();
    let total = words();
    if need > total - start {
        proof {
            assert forall|v: int| !#[trigger] fits(img, v, need as int) by {}
            lemma_no_fit(img, need as int);
        }
        return None;
    }
    let mut w = start;
    while w <= total - need
        invariant
            start == 2,
            total == 128,
            1 <= need <= total - start,
            start <= w <= total - need + 1,
            bus@ == img,
            img.len() == SIZE,
            img == initialized(orig),
            orig == old(bus)@,
            s != 0,
            need == slots_for(s),
            forall|v: int| v < w ==> !#[trigger] fits(img, v, need as int),
        decreases total - need + 1 - w,
    {
        let mut ok = true;
        let mut k: usize = 0;
        while k < need
            invariant_except_break
                ok,
            invariant
                k <= need,
                w + need <= total == 128,
                bus@ == img,
                forall|t: int| w <= t < w + k ==> !occupied(img, t),
            ensures
                ok ==> run_is_free(img, w as int, need as int),
                !ok ==> !run_is_free(img, w as int, need as int),
            decreases need - k,
        {
            if bit_get(bus, w + k) {
                ok = false;
                break ;
            }
            k += 1;
        }
        if ok {
            proof {
                lemma_claim_nothing(img, w as int);
            }
            let mut k: usize = 0;
            while k < need
                invariant
                    k <= need,
                    w + need <= total == 128,
                    img.len() == SIZE,
                    bus@ == claim(img, w as int, k as int),
                decreases need - k,
            {
                bit_set(bus, w + k, true);
                proof {
                    lemma_claim_step(img, w as int, k as int);
                }
                k += 1;
            }
            proof {
                lemma_first_fit_is(img, need as int, w as int);
                bus.lemma_len();
            }
            return Some(w * WORD);
        }
        w += 1;
    }
    proof {
        assert forall|v: int| !#[trigger] fits(img, v, need as int) by {}
        lemma_no_fit(img, need as int);
    }
    None
}

/// Where a fit exists, `first_fit` is a fit and no lower slot is one.
pub proof fn lemma_first_fit(b: Seq<u8>, need: int)
    requires
        has_fit(b, need),
    ensures
        fits(b, first_fit(b, need), need),
        forall|v: int| v < first_fit(b, need) ==> !#[trigger] fits(b, v, need),
{
    reveal(has_fit);
    reveal(first_fit);
    let w0 = choose|w: int| #[trigger] fits(b, w, need);
    lemma_least_fit(b, need, w0, w0 - bitmap_word_count());
}

proof fn lemma_least_fit(b: Seq<u8>, need: int, w: int, gap: int)
    requires
        fits(b, w, need),
        gap == w - bitmap_word_count(),
    ensures
        exists|u: int| #[trigger]
            fits(b, u, need) && forall|v: int| v < u ==> !#[trigger] fits(b, v, need),
    decreases gap,
{
    if exists|v: int| v < w && #[trigger] fits(b, v, need) {
        let v = choose|v: int| v < w && #[trigger] fits(b, v, need);
        lemma_least_fit(b, need, v, v - bitmap_word_count());
    } else {
        assert(fits(b, w, need) && forall|v: int| v < w ==> !#[trigger] fits(b, v, need));
    }
}

/// A fit with no fit below it is the first fit.
pub proof fn lemma_first_fit_is(b: Seq<u8>, need: int, w: int)
    requires
        fits(b, w, need),
        forall|v: int| v < w ==> !#[trigger] fits(b, v, need),
    ensures
        has_fit(b, need),
        first_fit(b, need) == w,
{
    assert(has_fit(b, need)) by {
        reveal(has_fit);
    }
    lemma_first_fit(b, need);
    let f = first_fit(b, need);
    if f < w {
        assert(!fits(b, f, need));
    } else if w < f {
        assert(!fits(b, w, need));
    }
}

/// Without a fit at any slot there is no fit.
pub proof fn lemma_no_fit(b: Seq<u8>, need: int)
    requires
        forall|v: int| !#[trigger] fits(b, v, need),
    ensures
        !has_fit(b, need),
{
    reveal(has_fit);
}

/// What follows from the definitions of `malloc_result` and `malloc_image`:
/// when a request succeeds, where its run lies, and what a failure leaves behind.
pub proof fn lemma_malloc(b: Seq<u8>, s: usize)
    requires
        b.len() == SIZE,
    ensures
        s == 0 ==> malloc_result(b, s) is None && malloc_image(b, s) == b,
        s > usable_bytes() ==> malloc_result(b, s) is None,
        malloc_result(b, s) is Some <==> s > 0 && has_fit(initialized(b), slots_for(s)),
        malloc_result(b, s) is None && s > 0 ==> malloc_image(b, s) == initialized(b),
        malloc_result(b, s) is None && occupied(b, 0) ==> malloc_image(b, s) == b,
        malloc_result(b, s) matches Some(off) ==> {
            &&& off % WORD == 0
            &&& off == first_fit(initialized(b), slots_for(s)) * WORD
            &&& fits(initialized(b), off as int / WORD as int, slots_for(s))
            &&& 0 < s <= slots_for(s) * WORD
            &&& bitmap_word_count() * WORD <= off
            &&& off + s <= SIZE
            &&& malloc_image(b, s) == claim(initialized(b), off as int / WORD as int, slots_for(s))
        },
{
    let img = initialized(b);
    let need = slots_for(s);
    crate::layout::ceil_div_is_least_cover(s as int, WORD as int);
    if s != 0 && has_fit(img, need) {
        lemma_first_fit(img, need);
    }
    if s > usable_bytes() {
        assert(need > word_count() - bitmap_word_count());
        assert forall|v: int| !#[trigger] fits(img, v, need) by {}
        lemma_no_fit(img, need);
    }
}

/// `claim` and `cleared` keep the size of the image and every byte behind the bitmap;
/// `cleared` leaves no slot marked.
pub proof fn lemma_bitmap_only(b: Seq<u8>, w: int, need: int)
    ensures
        claim(b, w, need).len() == b.len(),
        cleared(b).len() == b.len(),
        forall|i: int| bitmap_byte_count() <= i < b.len() ==> #[trigger] claim(b, w, need)[i] == b[i],
        forall|i: int| bitmap_byte_count() <= i < b.len() ==> #[trigger] cleared(b)[i] == b[i],
        forall|t: int| 0 <= t < 8 * bitmap_byte_count() <= 8 * b.len() ==> !#[trigger] occupied(cleared(b), t),
{
    reveal(claim);
    reveal(cleared);
    assert forall|t: int| 0 <= t < 8 * bitmap_byte_count() <= 8 * b.len() implies !#[trigger] occupied(
        cleared(b),
        t,
    ) by {
        lemma_zero_has_no_bit(t % 8);
    }
}

/// After `claim`, a slot is occupied if it was before or lies in the claimed run.
pub proof fn lemma_claim_occupancy(b: Seq<u8>, w: int, need: int, t: int)
    requires
        b.len() == SIZE,
        0 <= t < word_count(),
    ensures
        occupied(claim(b, w, need), t) == (occupied(b, t) || w <= t < w + need),
{
    reveal(claim);
    let i = t / 8;
    lemma_bit_of_pack(|k: int| bit(b[i], k) || w <= 8 * i + k < w + need, t % 8);
}

/// Claiming an empty run changes nothing.
pub proof fn lemma_claim_nothing(b: Seq<u8>, w: int)
    requires
        b.len() == SIZE,
    ensures
        claim(b, w, 0) == b,
{
    reveal(claim);
    assert forall|i: int| 0 <= i < b.len() implies claim(b, w, 0)[i] == b[i] by {
        if i < bitmap_byte_count() {
            let f = |k: int| bit(b[i], k) || w <= 8 * i + k < w + 0;
            assert forall|k: int| 0 <= k < 8 implies bit(pack(f), k) == bit(b[i], k) by {
                lemma_bit_of_pack(f, k);
            }
            lemma_bits_determine_byte(pack(f), b[i]);
        }
    }
    assert(claim(b, w, 0) =~= b);
}

/// Claiming `n + 1` slots is claiming `n` and then marking the next one.
pub proof fn lemma_claim_step(b: Seq<u8>, w: int, n: int)
    requires
        b.len() == SIZE,
        0 <= w,
        0 <= n,
        w + n < word_count(),
    ensures
        with_slot(claim(b, w, n), w + n, true) == claim(b, w, n + 1),
{
    reveal(claim);
    let c = claim(b, w, n);
    let m = with_slot(c, w + n, true);
    let d = claim(b, w, n + 1);
    assert forall|i: int| 0 <= i < b.len() implies m[i] == d[i] by {
        if i < bitmap_byte_count() {
            let fc = |k: int| bit(b[i], k) || w <= 8 * i + k < w + n;
            let fd = |k: int| bit(b[i], k) || w <= 8 * i + k < w + (n + 1);
            assert forall|k: int| 0 <= k < 8 implies bit(m[i], k) == bit(d[i], k) by {
                lemma_bit_of_pack(fc, k);
                lemma_bit_of_pack(fd, k);
                lemma_with_slot(c, w + n, true, 8 * i + k);
                assert((8 * i + k) / 8 == i && (8 * i + k) % 8 == k);
            }
            lemma_bits_determine_byte(m[i], d[i]);
        }
    }
    assert(m =~= d);
}

/// Setting up the bitmap marks the bitmap's own slots, touches no byte behind
/// the bitmap, and is idempotent.
pub proof fn lemma_initialized(b: Seq<u8>)
    requires
        b.len() == SIZE,
    ensures
        initialized(b).len() == SIZE,
        initialized(initialized(b)) == initialized(b),
        occupied(initialized(b), 0),
        !occupied(b, 0) ==> forall|t: int|
            0 <= t < bitmap_word_count() ==> occupied(initialized(b), t),
        forall|i: int| bitmap_byte_count() <= i < SIZE ==> initialized(b)[i] == b[i],
        occupied(b, 0) ==> initialized(b) == b,
{
    lemma_bitmap_only(cleared(b), 0, bitmap_word_count());
    lemma_bitmap_only(b, 0, 0);
    if !occupied(b, 0) {
        assert forall|t: int| 0 <= t < bitmap_word_count() implies occupied(initialized(b), t) by {
            lemma_claim_occupancy(cleared(b), 0, bitmap_word_count(), t);
        }
        assert(occupied(initialized(b), 0));
    }
}

/// An allocation only ever adds marks: it keeps the arena's size, leaves every
/// byte behind the bitmap alone, and on an arena that is set up every slot that
/// was occupied stays occupied.
pub proof fn lemma_malloc_image(b: Seq<u8>, s: usize)
    requires
        b.len() == SIZE,
    ensures
        malloc_image(b, s).len() == SIZE,
        s > 0 ==> occupied(malloc_image(b, s), 0),
        forall|i: int| bitmap_byte_count() <= i < SIZE ==> malloc_image(b, s)[i] == b[i],
        s > 0 ==> forall|t: int|
            0 <= t < word_count() && occupied(initialized(b), t) ==> occupied(
                malloc_image(b, s),
                t,
            ),
        forall|t: int|
            0 <= t < word_count() && occupied(b, 0) && occupied(b, t) ==> occupied(
                malloc_image(b, s),
                t,
            ),
{
    lemma_initialized(b);
    lemma_malloc(b, s);
    let img = initialized(b);
    let need = slots_for(s);
    if s != 0 && has_fit(img, need) {
        let w = first_fit(img, need);
        lemma_bitmap_only(img, w, need);
        assert forall|t: int| 0 <= t < word_count() && occupied(img, t) implies occupied(
            malloc_image(b, s),
            t,
        ) by {
            lemma_claim_occupancy(img, w, need, t);
        }
        lemma_claim_occupancy(img, w, need, 0);
    }
}

/// A granted request lies behind the bitmap and inside the arena, on slots
/// that were free before and are occupied after.
pub proof fn lemma_granted(b: Seq<u8>, s: usize)
    requires
        b.len() == SIZE,
        malloc_result(b, s) is Some,
    ensures
        ({
            let off = malloc_result(b, s)->0 as int;
            let w = off / WORD as int;
            let n = slots_for(s);
            &&& 0 < s <= n * WORD
            &&& off == w * WORD
            &&& bitmap_word_count() <= w
            &&& w + n <= word_count()
            &&& run_is_free(initialized(b), w, n)
            &&& forall|t: int| w <= t < w + n ==> #[trigger] occupied(malloc_image(b, s), t)
        }),
{
    lemma_malloc(b, s);
    lemma_initialized(b);
    let off = malloc_result(b, s)->0 as int;
    let w = off / WORD as int;
    let n = slots_for(s);
    assert forall|t: int| w <= t < w + n implies #[trigger] occupied(malloc_image(b, s), t) by {
        lemma_claim_occupancy(initialized(b), w, n, t);
    }
}

/// A request that is not empty is granted whenever a free run behind the
/// bitmap is large enough for it, whichever run that is; the offset returned
/// is a multiple of `WORD` and no run that is large enough starts lower.
pub proof fn lemma_room_is_granted(b: Seq<u8>, s: usize, w: int, n: int)
    requires
        b.len() == SIZE,
        s > 0,
        fits(initialized(b), w, n),
        s <= n * WORD,
    ensures
        malloc_result(b, s) is Some,
        malloc_result(b, s)->0 % WORD == 0,
        malloc_result(b, s)->0 <= w * WORD,
{
    let img = initialized(b);
    let need = slots_for(s);
    crate::layout::ceil_div_is_least_cover(s as int, WORD as int);
    assert(fits(img, w, need));
    assert(has_fit(img, need)) by {
        reveal(has_fit);
    }
    lemma_first_fit(img, need);
    lemma_malloc(b, s);
}

/// Two successful allocations, one right after the other, never overlap:
/// neither their runs of word-slots nor their byte ranges share anything.
pub proof fn lemma_allocations_disjoint(b: Seq<u8>, s1: usize, s2: usize)
    requires
        b.len() == SIZE,
        malloc_result(b, s1) is Some,
        malloc_result(malloc_image(b, s1), s2) is Some,
    ensures
        ({
            let o1 = malloc_result(b, s1)->0 as int;
            let o2 = malloc_result(malloc_image(b, s1), s2)->0 as int;
            let w1 = o1 / WORD as int;
            let w2 = o2 / WORD as int;
            &&& w1 + slots_for(s1) <= w2 || w2 + slots_for(s2) <= w1
            &&& o1 + s1 <= o2 || o2 + s2 <= o1
        }),
{
    let b1 = malloc_image(b, s1);
    lemma_granted(b, s1);
    lemma_malloc_image(b, s1);
    lemma_initialized(b1);
    lemma_granted(b1, s2);
    let w1 = malloc_result(b, s1)->0 as int / WORD as int;
    let w2 = malloc_result(b1, s2)->0 as int / WORD as int;
    if !(w1 + slots_for(s1) <= w2 || w2 + slots_for(s2) <= w1) {
        let t = if w1 >= w2 { w1 } else { w2 };
        assert(occupied(b1, t));
        assert(!occupied(b1, t));
    }
}

} // verus!
