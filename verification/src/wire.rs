//! The numeric and byte-order building blocks shared by the dense and
//! sparse codecs: spec-level views of 16- and 32-bit words as byte
//! sequences, their executable counterparts, the lemmas tying the two
//! directions together, and the IEEE-754 facts about 32-bit float bit
//! patterns that the codecs' zero test and equality need.

use vstd::prelude::*;

verus! {

/// Whether a 32-bit float bit pattern compares equal to zero: exactly the
/// two IEEE-754 zero encodings, positive and negative.
pub open spec fn f32_bits_zero(x: u32) -> bool {
    x == 0u32 || x == 0x8000_0000u32
}

/// Whether a 32-bit float bit pattern encodes a NaN: exponent bits all
/// ones and a non-zero mantissa.
pub open spec fn f32_bits_nan(x: u32) -> bool {
    (x >> 23) & 0xff == 0xff && (x & 0x007f_ffff) != 0
}

/// IEEE-754 equality of two 32-bit float bit patterns: neither encodes a
/// NaN, and the patterns agree or both encode zero.
pub open spec fn f32_bits_eq(x: u32, y: u32) -> bool {
    !f32_bits_nan(x) && !f32_bits_nan(y) && (x == y || (f32_bits_zero(x) && f32_bits_zero(y)))
}

/// The executable IEEE-754 equality test on two float bit patterns.
pub fn f32_bits_equal(x: u32, y: u32) -> (r: bool)
    ensures
        r == f32_bits_eq(x, y),
{
    let x_nan = (x >> 23) & 0xff == 0xff && (x & 0x007f_ffff) != 0;
    let y_nan = (y >> 23) & 0xff == 0xff && (y & 0x007f_ffff) != 0;
    !x_nan && !y_nan && (x == y || ((x == 0 || x == 0x8000_0000) && (y == 0 || y == 0x8000_0000)))
}

/// The 16-bit word whose big-endian bytes are `b0`, `b1`.
pub open spec fn u16_of(b0: u8, b1: u8) -> u16 {
    (((b0 as u16) << 8) | (b1 as u16)) as u16
}

/// The 32-bit word whose big-endian bytes are `b0`, `b1`, `b2`, `b3`.
pub open spec fn u32_of(b0: u8, b1: u8, b2: u8, b3: u8) -> u32 {
    (((b0 as u32) << 24) | ((b1 as u32) << 16) | ((b2 as u32) << 8) | (b3 as u32)) as u32
}

/// The two big-endian bytes of a 16-bit word.
pub open spec fn u16_bytes(x: u16) -> Seq<u8> {
    seq![(x >> 8) as u8, x as u8]
}

/// The four big-endian bytes of a 32-bit word.
pub open spec fn u32_bytes(x: u32) -> Seq<u8> {
    seq![(x >> 24) as u8, (x >> 16) as u8, (x >> 8) as u8, x as u8]
}

/// The 16-bit word at byte offset `off` of `b`, big-endian.
pub open spec fn u16_at(b: Seq<u8>, off: int) -> u16
    recommends
        0 <= off,
        off + 2 <= b.len(),
{
    u16_of(b[off], b[off + 1])
}

/// The 32-bit word at byte offset `off` of `b`, big-endian.
pub open spec fn u32_at(b: Seq<u8>, off: int) -> u32
    recommends
        0 <= off,
        off + 4 <= b.len(),
{
    u32_of(b[off], b[off + 1], b[off + 2], b[off + 3])
}

/// The `n` consecutive 32-bit big-endian words starting at byte offset `off`.
pub open spec fn words_at(b: Seq<u8>, off: int, n: int) -> Seq<u32>
    recommends
        0 <= off,
        0 <= n,
        off + 4 * n <= b.len(),
{
    Seq::new(n as nat, |i: int| u32_at(b, off + 4 * i))
}

/// As `words_at`, with each word reinterpreted as a signed 32-bit integer.
pub open spec fn ints_at(b: Seq<u8>, off: int, n: int) -> Seq<i32>
    recommends
        0 <= off,
        0 <= n,
        off + 4 * n <= b.len(),
{
    Seq::new(n as nat, |i: int| u32_at(b, off + 4 * i) as i32)
}

/// The concatenation of the big-endian bytes of each word of `s`, in order.
pub open spec fn words_bytes(s: Seq<u32>) -> Seq<u8>
    decreases s.len(),
{
    if s.len() == 0 {
        Seq::empty()
    } else {
        words_bytes(s.drop_last()) + u32_bytes(s.last())
    }
}

/// The concatenation of the big-endian bytes of each signed word of `s`.
pub open spec fn ints_bytes(s: Seq<i32>) -> Seq<u8>
    decreases s.len(),
{
    if s.len() == 0 {
        Seq::empty()
    } else {
        ints_bytes(s.drop_last()) + u32_bytes(s.last() as u32)
    }
}

/// Reading back the two bytes of a 16-bit word yields the word.
pub proof fn lemma_u16_round_trip(x: u16)
    ensures
        u16_of((x >> 8) as u8, x as u8) == x,
{
    assert((((((x >> 8) as u8) as u16) << 8) | ((x as u8) as u16)) == x) by (bit_vector);
}

/// Reading back the four bytes of a 32-bit word yields the word.
pub proof fn lemma_u32_round_trip(x: u32)
    ensures
        u32_of((x >> 24) as u8, (x >> 16) as u8, (x >> 8) as u8, x as u8) == x,
{
    assert(((((x >> 24) as u8) as u32) << 24) | ((((x >> 16) as u8) as u32) << 16) | ((((x
        >> 8) as u8) as u32) << 8) | ((x as u8) as u32) == x) by (bit_vector);
}

/// A signed 32-bit value survives the trip through its unsigned bit pattern.
pub proof fn lemma_i32_bits_round_trip(x: i32)
    ensures
        (x as u32) as i32 == x,
{
    assert((x as u32) as i32 == x) by (bit_vector);
}

/// `words_bytes` spends exactly four bytes per word.
pub proof fn lemma_words_bytes_len(s: Seq<u32>)
    ensures
        words_bytes(s).len() == 4 * s.len(),
    decreases s.len(),
{
    if s.len() > 0 {
        lemma_words_bytes_len(s.drop_last());
    }
}

/// `ints_bytes` spends exactly four bytes per word.
pub proof fn lemma_ints_bytes_len(s: Seq<i32>)
    ensures
        ints_bytes(s).len() == 4 * s.len(),
    decreases s.len(),
{
    if s.len() > 0 {
        lemma_ints_bytes_len(s.drop_last());
    }
}

/// The bytes of word `i` sit at offset `4 * i` of `words_bytes`.
pub proof fn lemma_words_bytes_index(s: Seq<u32>, i: int)
    requires
        0 <= i < s.len(),
    ensures
        words_bytes(s).subrange(4 * i, 4 * i + 4) == u32_bytes(s[i]),
    decreases s.len(),
{
    lemma_words_bytes_len(s.drop_last());
    if i == s.len() - 1 {
        assert(words_bytes(s).subrange(4 * i, 4 * i + 4) =~= u32_bytes(s.last()));
    } else {
        lemma_words_bytes_index(s.drop_last(), i);
        assert(words_bytes(s).subrange(4 * i, 4 * i + 4) =~= words_bytes(s.drop_last()).subrange(
            4 * i,
            4 * i + 4,
        ));
    }
}

/// The bytes of signed word `i` sit at offset `4 * i` of `ints_bytes`.
pub proof fn lemma_ints_bytes_index(s: Seq<i32>, i: int)
    requires
        0 <= i < s.len(),
    ensures
        ints_bytes(s).subrange(4 * i, 4 * i + 4) == u32_bytes(s[i] as u32),
    decreases s.len(),
{
    lemma_ints_bytes_len(s.drop_last());
    if i == s.len() - 1 {
        assert(ints_bytes(s).subrange(4 * i, 4 * i + 4) =~= u32_bytes(s.last() as u32));
    } else {
        lemma_ints_bytes_index(s.drop_last(), i);
        assert(ints_bytes(s).subrange(4 * i, 4 * i + 4) =~= ints_bytes(s.drop_last()).subrange(
            4 * i,
            4 * i + 4,
        ));
    }
}

/// Appending one word to `s` appends its four bytes to `words_bytes(s)`.
pub proof fn lemma_words_bytes_push(s: Seq<u32>, x: u32)
    ensures
        words_bytes(s.push(x)) == words_bytes(s) + u32_bytes(x),
{
    assert(s.push(x).drop_last() =~= s);
    assert(s.push(x).last() == x);
}

/// Appending one signed word to `s` appends its four bytes to `ints_bytes(s)`.
pub proof fn lemma_ints_bytes_push(s: Seq<i32>, x: i32)
    ensures
        ints_bytes(s.push(x)) == ints_bytes(s) + u32_bytes(x as u32),
{
    assert(s.push(x).drop_last() =~= s);
    assert(s.push(x).last() == x);
}

/// The executable big-endian read of a 16-bit word from two bytes.
pub fn be_u16(b0: u8, b1: u8) -> (r: u16)
    ensures
        r == u16_of(b0, b1),
{
    ((b0 as u16) << 8) | (b1 as u16)
}

/// The executable big-endian read of a 32-bit word from four bytes.
pub fn be_u32(b0: u8, b1: u8, b2: u8, b3: u8) -> (r: u32)
    ensures
        r == u32_of(b0, b1, b2, b3),
{
    ((b0 as u32) << 24) | ((b1 as u32) << 16) | ((b2 as u32) << 8) | (b3 as u32)
}


} // verus!
