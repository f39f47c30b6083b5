//! Little-endian 32-bit words inside byte sequences.

use vstd::prelude::*;

verus! {

/// The value of the little-endian 32-bit word that `b` stores at `at`.
pub open spec fn word_at(b: Seq<u8>, at: int) -> u32 {
    (b[at] as int + 0x100 * (b[at + 1] as int) + 0x1_0000 * (b[at + 2] as int) + 0x100_0000 * (b[at
        + 3] as int)) as u32
}

/// The four bytes that store `x` little-endian.
pub open spec fn word_bytes(x: u32) -> Seq<u8> {
    seq![
        (x % 0x100) as u8,
        (x / 0x100 % 0x100) as u8,
        (x / 0x1_0000 % 0x100) as u8,
        (x / 0x100_0000) as u8,
    ]
}

/// Reading back a stored word gives the word.
pub proof fn lemma_word_roundtrip(x: u32)
    ensures
        word_bytes(x).len() == 4,
        word_at(word_bytes(x), 0) == x,
{
    assert(x % 0x100 + 0x100 * (x / 0x100 % 0x100) + 0x1_0000 * (x / 0x1_0000 % 0x100) + 0x100_0000
        * (x / 0x100_0000) == x) by (bit_vector);
    assert(x % 0x100 < 0x100 && x / 0x100 % 0x100 < 0x100 && x / 0x1_0000 % 0x100 < 0x100 && x
        / 0x100_0000 < 0x100) by (bit_vector);
}

/// Reads the little-endian word at `at`.
pub fn read_word(b: &[u8], at: usize) -> (x: u32)
    requires
        at + 4 <= b@.len(),
    ensures
        x == word_at(b@, at as int),
{
    let b0 = b[at];
    let b1 = b[at + 1];
    let b2 = b[at + 2];
    let b3 = b[at + 3];
    let x = (b0 as u32) | (b1 as u32) << 8 | (b2 as u32) << 16 | (b3 as u32) << 24;
    assert(x == b0 as u32 + 0x100 * (b1 as u32) + 0x1_0000 * (b2 as u32) + 0x100_0000 * (b3 as u32))
        by (bit_vector)
        requires
            x == (b0 as u32) | (b1 as u32) << 8 | (b2 as u32) << 16 | (b3 as u32) << 24,
    ;
    x
}

/// The four bytes of `x`, least significant first.
pub fn word_to_bytes(x: u32) -> (r: [u8; 4])
    ensures
        r@ == word_bytes(x),
{
    let r = [(x & 0xff) as u8, ((x >> 8) & 0xff) as u8, ((x >> 16) & 0xff) as u8, (x >> 24) as u8];
    assert((x & 0xff) as u8 == (x % 0x100) as u8 && ((x >> 8) & 0xff) as u8 == (x / 0x100 % 0x100) as u8
        && ((x >> 16) & 0xff) as u8 == (x / 0x1_0000 % 0x100) as u8 && (x >> 24) as u8 == (x
        / 0x100_0000) as u8) by (bit_vector);
    assert(r@ =~= word_bytes(x));
    r
}

/// Appends the four bytes of `x` to `out`.
pub fn push_word(out: &mut Vec<u8>, x: u32)
    ensures
        final(out)@ == old(out)@ + word_bytes(x),
{
    let w = word_to_bytes(x);
    out.push(w[0]);
    out.push(w[1]);
    out.push(w[2]);
    out.push(w[3]);
    assert(out@ =~= old(out)@ + word_bytes(x));
}

/// Stores the four bytes of `x` at `at`, leaving every other byte as it was.
pub fn write_word(out: &mut Vec<u8>, at: usize, x: u32)
    requires
        at + 4 <= old(out)@.len(),
    ensures
        final(out)@ == stored(old(out)@, at as int, x),
{
    let w = word_to_bytes(x);
    let n = out.len();
    assert(at + 4 <= n);
    out.set(at, w[0]);
    out.set(at + 1, w[1]);
    out.set(at + 2, w[2]);
    out.set(at + 3, w[3]);
    assert(out@ =~= stored(old(out)@, at as int, x));
}

/// `b` with the word at `at` replaced by `x`.
pub open spec fn stored(b: Seq<u8>, at: int, x: u32) -> Seq<u8> {
    b.subrange(0, at) + word_bytes(x) + b.subrange(at + 4, b.len() as int)
}

/// After a store, the word at `at` is `x` and a word that does not overlap
/// it is unchanged.
pub proof fn lemma_stored(b: Seq<u8>, at: int, x: u32, other: int)
    requires
        0 <= at,
        at + 4 <= b.len(),
    ensures
        stored(b, at, x).len() == b.len(),
        word_at(stored(b, at, x), at) == x,
        0 <= other && other + 4 <= b.len() && (other + 4 <= at || at + 4 <= other) ==> word_at(
            stored(b, at, x),
            other,
        ) == word_at(b, other),
{
    let s = stored(b, at, x);
    let w = word_bytes(x);
    lemma_word_roundtrip(x);
    assert(s[at] == w[0] && s[at + 1] == w[1] && s[at + 2] == w[2] && s[at + 3] == w[3]);
    if 0 <= other && other + 4 <= b.len() && (other + 4 <= at || at + 4 <= other) {
        assert(s[other] == b[other] && s[other + 1] == b[other + 1] && s[other + 2] == b[other + 2]
            && s[other + 3] == b[other + 3]);
    }
}

} // verus!
