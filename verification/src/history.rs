//! Histories of allocation requests: what holds of every sequence of calls.

use vstd::prelude::*;
use crate::arena::{
    cleared, fits, initialized, lemma_bitmap_only, lemma_claim_occupancy,
    lemma_first_fit_is, lemma_granted, lemma_initialized, lemma_malloc, lemma_malloc_image,
    lemma_no_fit, malloc_image, malloc_result, slots_for,
};
use crate::bus::{fresh, occupied};
use crate::layout::{SIZE, WORD, bitmap_word_count, word_count};

verus! {

/// The image after a history of allocation requests, served in order.
pub open spec fn replay(b: Seq<u8>, requests: Seq<usize>) -> Seq<u8>
    decreases requests.len(),
{
    if requests.len() == 0 {
        b
    } else {
        malloc_image(replay(b, requests.drop_last()), requests.last())
    }
}

/// What the request at position `i` of a history returns.
pub open spec fn replay_result(b: Seq<u8>, requests: Seq<usize>, i: int) -> Option<usize> {
    malloc_result(replay(b, requests.take(i)), requests[i])
}

/// A history of requests leaves the arena's size as it was.
pub proof fn lemma_replay_len(b: Seq<u8>, requests: Seq<usize>)
    requires
        b.len() == SIZE,
    ensures
        replay(b, requests).len() == SIZE,
    decreases requests.len(),
{
    if requests.len() > 0 {
        lemma_replay_len(b, requests.drop_last());
        lemma_malloc_image(replay(b, requests.drop_last()), requests.last());
    }
}

/// One more request is served on the image that the earlier ones left.
pub proof fn lemma_replay_step(b: Seq<u8>, requests: Seq<usize>, j: int)
    requires
        0 <= j < requests.len(),
    ensures
        replay(b, requests.take(j + 1)) == malloc_image(replay(b, requests.take(j)), requests[j]),
{
    assert(requests.take(j + 1).drop_last() =~= requests.take(j));
}

/// A slot handed out at some point of a history is still marked occupied at
/// every later point: nothing is ever given back.
pub proof fn lemma_allocation_stays(b: Seq<u8>, requests: Seq<usize>, i: int, j: int, t: int)
    requires
        b.len() == SIZE,
        0 <= i < j <= requests.len(),
        replay_result(b, requests, i) is Some,
        replay_result(b, requests, i)->0 as int / WORD as int <= t,
        t < replay_result(b, requests, i)->0 as int / WORD as int + slots_for(requests[i]),
    ensures
        replay(b, requests.take(j)).len() == SIZE,
        occupied(replay(b, requests.take(j)), 0),
        occupied(replay(b, requests.take(j)), t),
        0 <= t < word_count(),
    decreases j - i,
{
    let before = replay(b, requests.take(j - 1));
    lemma_replay_step(b, requests, j - 1);
    lemma_replay_len(b, requests.take(j - 1));
    lemma_malloc_image(before, requests[j - 1]);
    if i == j - 1 {
        lemma_granted(before, requests[i]);
    } else {
        lemma_allocation_stays(b, requests, i, j - 1, t);
    }
}

/// Any two successful allocations of a history, however many requests lie
/// between them, are disjoint in word-slots and in bytes.
pub proof fn lemma_history_disjoint(b: Seq<u8>, requests: Seq<usize>, i: int, j: int)
    requires
        b.len() == SIZE,
        0 <= i < j < requests.len(),
        replay_result(b, requests, i) is Some,
        replay_result(b, requests, j) is Some,
    ensures
        ({
            let o1 = replay_result(b, requests, i)->0 as int;
            let o2 = replay_result(b, requests, j)->0 as int;
            let w1 = o1 / WORD as int;
            let w2 = o2 / WORD as int;
            &&& w1 + slots_for(requests[i]) <= w2 || w2 + slots_for(requests[j]) <= w1
            &&& o1 + requests[i] <= o2 || o2 + requests[j] <= o1
        }),
{
    let bi = replay(b, requests.take(i));
    let bj = replay(b, requests.take(j));
    let w1 = replay_result(b, requests, i)->0 as int / WORD as int;
    let w2 = replay_result(b, requests, j)->0 as int / WORD as int;
    lemma_replay_len(b, requests.take(i));
    lemma_replay_len(b, requests.take(j));
    lemma_granted(bi, requests[i]);
    lemma_granted(bj, requests[j]);
    if !(w1 + slots_for(requests[i]) <= w2 || w2 + slots_for(requests[j]) <= w1) {
        let t = if w1 >= w2 { w1 } else { w2 };
        lemma_allocation_stays(b, requests, i, j, t);
        lemma_initialized(bj);
        assert(initialized(bj) == bj);
        assert(!occupied(bj, t));
    }
}

/// Whether the occupied slots of `b` are exactly the slots below `top`.
pub open spec fn packed(b: Seq<u8>, top: int) -> bool {
    forall|t: int| 0 <= t < word_count() ==> #[trigger] occupied(b, t) == (t < top)
}

/// What a request of `s` bytes returns when exactly the slots below `top` are occupied.
pub open spec fn packed_result(top: int, s: usize) -> Option<usize> {
    if s > 0 && top + slots_for(s) <= word_count() {
        Some((top * WORD) as usize)
    } else {
        None
    }
}

/// The first free slot after a request of `s` bytes, when it was `top` before.
pub open spec fn packed_top(top: int, s: usize) -> int {
    if s > 0 && top + slots_for(s) <= word_count() {
        top + slots_for(s)
    } else {
        top
    }
}

/// Setting up a fresh arena marks the bitmap's own slots and nothing else.
pub proof fn lemma_fresh(s: usize)
    ensures
        fresh().len() == SIZE,
        initialized(fresh()).len() == SIZE,
        packed(initialized(fresh()), bitmap_word_count()),
        malloc_result(fresh(), s) == malloc_result(initialized(fresh()), s),
        s > 0 ==> malloc_image(fresh(), s) == malloc_image(initialized(fresh()), s),
{
    let b = fresh();
    lemma_initialized(b);
    lemma_bitmap_only(b, 0, 0);
    assert(cleared(b).len() == SIZE);
    assert(!occupied(cleared(b), 0));
    assert(cleared(b) =~= b) by {
        reveal(cleared);
    }
    assert forall|t: int| 0 <= t < word_count() implies #[trigger] occupied(initialized(b), t) == (t
        < bitmap_word_count()) by {
        lemma_claim_occupancy(cleared(b), 0, bitmap_word_count(), t);
    }
}

/// With no slot ever given back the allocator works as a bump pointer: when
/// exactly the slots below `top` are occupied, a request is placed at `top` if
/// it still fits below the end of the arena, and refused otherwise.
pub proof fn lemma_malloc_packed(b: Seq<u8>, top: int, s: usize)
    requires
        b.len() == SIZE,
        bitmap_word_count() <= top <= word_count(),
        packed(b, top),
    ensures
        malloc_result(b, s) == packed_result(top, s),
        packed(malloc_image(b, s), packed_top(top, s)),
        malloc_image(b, s).len() == SIZE,
        bitmap_word_count() <= packed_top(top, s) <= word_count(),
{
    let n = slots_for(s);
    assert(occupied(b, 0));
    lemma_initialized(b);
    lemma_malloc(b, s);
    lemma_malloc_image(b, s);
    crate::layout::ceil_div_is_least_cover(s as int, WORD as int);
    if s > 0 && top + n <= word_count() {
        assert(fits(b, top, n));
        assert forall|v: int| v < top implies !#[trigger] fits(b, v, n) by {
            if bitmap_word_count() <= v {
                assert(occupied(b, v));
            }
        }
        lemma_first_fit_is(b, n, top);
        assert forall|t: int| 0 <= t < word_count() implies #[trigger] occupied(
            malloc_image(b, s),
            t,
        ) == (t < top + n) by {
            lemma_claim_occupancy(b, top, n, t);
        }
    } else if s > 0 {
        assert forall|v: int| !#[trigger] fits(b, v, n) by {
            if bitmap_word_count() <= v && v + n <= word_count() {
                assert(v < top);
                assert(occupied(b, v));
            }
        }
        lemma_no_fit(b, n);
    }
}

/// Requests of one size `s` on a fresh arena are granted back to back from the
/// end of the bitmap on, until the next would cross the end of the arena: the
/// `i`-th request (from 0) is granted exactly when `(i + 1)` runs fit behind
/// the bitmap, and from then on every request is refused.
pub proof fn lemma_uniform_requests(s: usize, count: nat, i: int)
    requires
        s > 0,
        0 <= i < count,
    ensures
        ({
            let requests = Seq::new(count, |k: int| s);
            let n = slots_for(s);
            replay_result(fresh(), requests, i) == if bitmap_word_count() + (i + 1) * n
                <= word_count() {
                Some(((bitmap_word_count() + i * n) * WORD) as usize)
            } else {
                None::<usize>
            }
        }),
{
    let requests = Seq::new(count, |k: int| s);
    let n = slots_for(s);
    crate::layout::ceil_div_is_least_cover(s as int, WORD as int);
    lemma_uniform_prefix(s, count, i);
    let fill = if i * n <= word_count() - bitmap_word_count() {
        i
    } else {
        (word_count() - bitmap_word_count()) / n
    };
    let top = bitmap_word_count() + fill * n;
    assert(fill * n + n == (fill + 1) * n) by (nonlinear_arith);
    assert(i * n + n == (i + 1) * n) by (nonlinear_arith);
    if i * n <= word_count() - bitmap_word_count() {
    } else {
        let q = (word_count() - bitmap_word_count()) / n;
        assert(q * n <= word_count() - bitmap_word_count() < q * n + n) by (nonlinear_arith)
            requires
                n > 0,
                q == (word_count() - bitmap_word_count()) / n,
                word_count() - bitmap_word_count() >= 0,
        ;
    }
    if i == 0 {
        lemma_fresh(s);
        assert(requests.take(0) =~= Seq::<usize>::empty());
        lemma_malloc_packed(initialized(fresh()), top, s);
    } else {
        lemma_malloc_packed(replay(fresh(), requests.take(i)), top, s);
    }
}

/// After `i` requests of one size on a fresh arena, exactly the slots below
/// the bitmap's end plus the granted runs are occupied.
proof fn lemma_uniform_prefix(s: usize, count: nat, i: int)
    requires
        s > 0,
        0 <= i <= count,
    ensures
        ({
            let requests = Seq::new(count, |k: int| s);
            let n = slots_for(s);
            let fill = if i * n <= word_count() - bitmap_word_count() {
                i
            } else {
                (word_count() - bitmap_word_count()) / n
            };
            &&& n > 0
            &&& bitmap_word_count() + fill * n <= word_count()
            &&& fill >= 0
            &&& i > 0 ==> replay(fresh(), requests.take(i)).len() == SIZE
            &&& i > 0 ==> packed(replay(fresh(), requests.take(i)), bitmap_word_count() + fill * n)
        }),
    decreases i,
{
    let requests = Seq::new(count, |k: int| s);
    let n = slots_for(s);
    let room = word_count() - bitmap_word_count();
    crate::layout::ceil_div_is_least_cover(s as int, WORD as int);
    let q = room / n;
    assert(q * n <= room < q * n + n && q >= 0) by (nonlinear_arith)
        requires
            n > 0,
            q == room / n,
            room >= 0,
    ;
    assert(0 * n == 0) by (nonlinear_arith);
    if i > 0 {
        lemma_uniform_prefix(s, count, i - 1);
        lemma_replay_step(fresh(), requests, i - 1);
        let j = i - 1;
        let fill_j = if j * n <= room { j } else { q };
        let top = bitmap_word_count() + fill_j * n;
        assert(j * n + n == i * n) by (nonlinear_arith)
            requires
                j == i - 1,
        ;
        assert(fill_j * n + n == (fill_j + 1) * n) by (nonlinear_arith);
        if j * n > room {
            assert(i * n > room);
        }
        if j * n <= room && i * n > room {
            // the run that would cross the end: `j` runs fit, one more does not
            assert(j == q) by (nonlinear_arith)
                requires
                    n > 0,
                    j * n <= room,
                    (j + 1) * n > room,
                    q * n <= room < q * n + n,
                    j >= 0,
                    q >= 0,
            {
                assert((j + 1) * n == j * n + n);
                if j < q {
                    assert((j + 1) * n <= q * n);
                }
                if q < j {
                    assert((q + 1) * n <= j * n);
                    assert((q + 1) * n == q * n + n);
                }
            }
        }
        if j == 0 {
            lemma_fresh(s);
            assert(requests.take(0) =~= Seq::<usize>::empty());
            lemma_malloc_packed(initialized(fresh()), top, s);
        } else {
            lemma_malloc_packed(replay(fresh(), requests.take(j)), top, s);
        }
    }
}

} // verus!
