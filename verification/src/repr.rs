//! Byte representations of fixed-size values: least significant byte first.

use vstd::prelude::*;

verus! {

/// Number of values that `n` bytes can tell apart: `256^n`.
pub open spec fn span(n: nat) -> nat
    decreases n,
{
    if n == 0 {
        1
    } else {
        256 * span((n - 1) as nat)
    }
}

/// The `n` low-order base-256 digits of `x`, least significant first.
pub open spec fn le_bytes(x: nat, n: nat) -> Seq<u8>
    decreases n,
{
    if n == 0 {
        Seq::empty()
    } else {
        seq![(x % 256) as u8] + le_bytes(x / 256, (n - 1) as nat)
    }
}

/// The number whose base-256 digits, least significant first, are `b`.
pub open spec fn le_value(b: Seq<u8>) -> nat
    decreases b.len(),
{
    if b.len() == 0 {
        0
    } else {
        b[0] as nat + 256 * le_value(b.drop_first())
    }
}

/// The unsigned number that stands for `x` in `n`-byte two's complement.
pub open spec fn to_unsigned(x: int, n: nat) -> nat {
    if x < 0 {
        (x + span(n)) as nat
    } else {
        x as nat
    }
}

/// The signed number that `u` stands for in `n`-byte two's complement.
pub open spec fn to_signed(u: nat, n: nat) -> int {
    if 2 * u >= span(n) {
        u - span(n)
    } else {
        u as int
    }
}

/// `le_bytes(x, n)` has `n` bytes.
pub proof fn lemma_le_bytes_len(x: nat, n: nat)
    ensures
        le_bytes(x, n).len() == n,
    decreases n,
{
    if n > 0 {
        lemma_le_bytes_len(x / 256, (n - 1) as nat);
    }
}

/// A number below `256^n` is read back from its `n` bytes.
pub proof fn lemma_le_value_of_bytes(x: nat, n: nat)
    requires
        x < span(n),
    ensures
        le_value(le_bytes(x, n)) == x,
    decreases n,
{
    if n > 0 {
        let rest = le_bytes(x / 256, (n - 1) as nat);
        lemma_le_bytes_len(x / 256, (n - 1) as nat);
        lemma_le_value_of_bytes(x / 256, (n - 1) as nat);
        assert(le_bytes(x, n).drop_first() =~= rest);
    }
}

/// `n` bytes read as a number below `256^n`, whose bytes they are.
pub proof fn lemma_le_bytes_of_value(b: Seq<u8>)
    ensures
        le_value(b) < span(b.len()),
        le_bytes(le_value(b), b.len()) == b,
    decreases b.len(),
{
    if b.len() > 0 {
        lemma_le_bytes_of_value(b.drop_first());
        let hi = le_value(b.drop_first());
        assert((b[0] as nat + 256 * hi) / 256 == hi);
        assert((b[0] as nat + 256 * hi) % 256 == b[0] as nat);
        assert(le_bytes(le_value(b), b.len()) =~= b);
    }
}

/// The values of `span` at the sizes of the primitive integers.
pub proof fn lemma_span_values()
    ensures
        span(0) == 1,
        span(1) == 0x100,
        span(2) == 0x1_0000,
        span(4) == 0x1_0000_0000,
        span(8) == 0x1_0000_0000_0000_0000,
{
    reveal_with_fuel(span, 9);
}

/// Writes out the `n` low-order bytes of `x`, least significant first.
pub fn encode_le(x: u64, n: usize) -> (out: Vec<u8>)
    ensures
        out@ == le_bytes(x as nat, n as nat),
{
    let mut out: Vec<u8> = Vec::new();
    let mut rest = x;
    let mut k: usize = 0;
    while k < n
        invariant
            k <= n,
            out@ + le_bytes(rest as nat, (n - k) as nat) == le_bytes(x as nat, n as nat),
        decreases n - k,
    {
        let ghost tail = le_bytes(rest as nat, (n - k) as nat);
        out.push((rest % 256) as u8);
        rest = rest / 256;
        k += 1;
        assert(out@ + le_bytes(rest as nat, (n - k) as nat) =~= out@.drop_last() + tail);
    }
    assert(out@ + Seq::<u8>::empty() =~= out@);
    out
}

/// Reads up to eight bytes, least significant first, as a number.
pub fn decode_le(b: &[u8]) -> (x: u64)
    requires
        b@.len() <= 8,
    ensures
        x == le_value(b@),
{
    let mut acc: u64 = 0;
    let mut i: usize = b.len();
    while i > 0
        invariant
            i <= b@.len() <= 8,
            acc == le_value(b@.subrange(i as int, b@.len() as int)),
        decreases i,
    {
        let ghost tail = b@.subrange(i as int, b@.len() as int);
        i -= 1;
        let ghost next = b@.subrange(i as int, b@.len() as int);
        proof {
            assert(next.drop_first() =~= tail);
            lemma_le_bytes_of_value(next);
            lemma_span_monotone(next.len(), 8);
            lemma_span_values();
        }
        acc = acc * 256 + b[i] as u64;
    }
    assert(b@.subrange(0, b@.len() as int) =~= b@);
    acc
}

/// `span` grows with the number of bytes.
pub proof fn lemma_span_monotone(m: nat, n: nat)
    requires
        m <= n,
    ensures
        span(m) <= span(n),
        span(m) >= 1,
    decreases n,
{
    if m < n {
        lemma_span_monotone(m, (n - 1) as nat);
    } else if m > 0 {
        lemma_span_monotone((m - 1) as nat, (m - 1) as nat);
    }
}

} // verus!
