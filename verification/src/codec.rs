//! Unsigned numbers as little-endian byte strings of a given width.
//!
//! Every value that crosses the process boundary is a string of bytes. This
//! module fixes, once and for every width, which number such a string stands
//! for.

use vstd::prelude::*;

verus! {

/// The number of values that `n` bytes can tell apart: 256 to the power of `n`.
pub open spec fn span(n: nat) -> nat
    decreases n,
{
    if n == 0 {
        1
    } else {
        256 * span((n - 1) as nat)
    }
}

/// The number that `s` stands for, lowest byte first.
pub open spec fn le_value(s: Seq<u8>) -> nat
    decreases s.len(),
{
    if s.len() == 0 {
        0
    } else {
        s[0] as nat + 256 * le_value(s.skip(1))
    }
}

/// The `n` lowest bytes of `x`, lowest first.
pub open spec fn le_bytes(x: nat, n: nat) -> Seq<u8>
    decreases n,
{
    if n == 0 {
        Seq::<u8>::empty()
    } else {
        seq![(x % 256) as u8] + le_bytes(x / 256, (n - 1) as nat)
    }
}

/// The spans of the widths that occur: one, two, four and eight bytes.
pub proof fn lemma_span_values()
    ensures
        span(0) == 1,
        span(1) == 0x100,
        span(2) == 0x1_0000,
        span(4) == 0x1_0000_0000,
        span(8) == 0x1_0000_0000_0000_0000,
{
    reveal_with_fuel(span, 9);
}

/// A wider string spans more.
pub proof fn lemma_span_monotonic(a: nat, b: nat)
    requires
        a <= b,
    ensures
        1 <= span(a) <= span(b),
    decreases b,
{
    if b == 0 {
    } else if a == b {
        lemma_span_monotonic(0, (b - 1) as nat);
    } else {
        lemma_span_monotonic(a, (b - 1) as nat);
    }
}

/// `le_bytes` yields exactly `n` bytes.
pub proof fn lemma_le_bytes_len(x: nat, n: nat)
    ensures
        le_bytes(x, n).len() == n,
    decreases n,
{
    if n > 0 {
        lemma_le_bytes_len(x / 256, (n - 1) as nat);
    }
}

/// A string of `n` bytes stands for a number below `span(n)`.
pub proof fn lemma_le_value_bound(s: Seq<u8>)
    ensures
        le_value(s) < span(s.len()),
    decreases s.len(),
{
    if s.len() > 0 {
        lemma_le_value_bound(s.skip(1));
    }
}

/// Decoding the `n` bytes of a number that fits in them gives the number back.
pub proof fn lemma_le_value_of_bytes(x: nat, n: nat)
    requires
        x < span(n),
    ensures
        le_value(le_bytes(x, n)) == x,
    decreases n,
{
    if n > 0 {
        let rest = le_bytes(x / 256, (n - 1) as nat);
        lemma_le_bytes_len(x / 256, (n - 1) as nat);
        lemma_le_value_of_bytes(x / 256, (n - 1) as nat);
        assert(le_bytes(x, n).skip(1) =~= rest);
    }
}

/// Encoding the number of a string in as many bytes gives the string back.
pub proof fn lemma_le_bytes_of_value(s: Seq<u8>)
    ensures
        le_bytes(le_value(s), s.len()) == s,
    decreases s.len(),
{
    if s.len() > 0 {
        lemma_le_bytes_of_value(s.skip(1));
        assert(le_bytes(le_value(s), s.len()) =~= s);
    }
}

/// Reads the number that at most eight bytes stand for.
pub fn decode(bytes: &[u8]) -> (x: u64)
    requires
        bytes@.len() <= 8,
    ensures
        x == le_value(bytes@),
{
    let mut x: u64 = 0;
    let mut i: usize = bytes.len();
    while i > 0
        invariant
            i <= bytes@.len() <= 8,
            x == le_value(bytes@.skip(i as int)),
        decreases i,
    {
        proof {
            let tail = bytes@.skip(i as int);
            lemma_le_value_bound(tail);
            lemma_span_monotonic(tail.len(), 7);
            reveal_with_fuel(span, 8);
            assert(bytes@.skip(i - 1).skip(1) =~= tail);
        }
        i = i - 1;
        x = x * 256 + bytes[i] as u64;
    }
    assert(bytes@.skip(0) =~= bytes@);
    x
}

/// Writes the `n` lowest bytes of `x`, lowest first.
pub fn encode(x: u64, n: usize) -> (bytes: Vec<u8>)
    ensures
        bytes@ == le_bytes(x as nat, n as nat),
{
    let mut bytes: Vec<u8> = Vec::new();
    let mut rest: u64 = x;
    let mut i: usize = 0;
    while i < n
        invariant
            i <= n,
            bytes@ + le_bytes(rest as nat, (n - i) as nat) == le_bytes(x as nat, n as nat),
        decreases n - i,
    {
        let ghost before = bytes@;
        bytes.push((rest % 256) as u8);
        proof {
            let tail = le_bytes((rest / 256) as nat, (n - i - 1) as nat);
            assert(before + (seq![(rest % 256) as u8] + tail) =~= bytes@ + tail);
        }
        rest = rest / 256;
        i = i + 1;
    }
    assert(bytes@ + Seq::<u8>::empty() =~= bytes@);
    bytes
}

} // verus!
