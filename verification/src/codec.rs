//! Little-endian codec for half-precision storage words.
//!
//! A blob is an array of 16-bit storage words, each a little-endian byte
//! pair. The library keeps every word as its raw bit pattern; promotion of a
//! word to a full-precision value is the caller's concern.

use vstd::arithmetic::div_mod::{
    lemma_fundamental_div_mod, lemma_mod_multiples_vanish, lemma_small_mod,
};
use vstd::prelude::*;

verus! {

/// The 16-bit storage word formed by a little-endian byte pair.
pub open spec fn word_of(lo: u8, hi: u8) -> u16 {
    (lo + 256 * hi) as u16
}

/// The low byte of a storage word.
pub open spec fn lo_byte(w: u16) -> u8 {
    (w % 256) as u8
}

/// The high byte of a storage word.
pub open spec fn hi_byte(w: u16) -> u8 {
    (w / 256) as u8
}

/// The storage words held by a byte sequence, read pairwise little-endian.
/// A trailing odd byte, if any, is ignored here; the decoder rejects it.
pub open spec fn words_of_bytes(bytes: Seq<u8>) -> Seq<u16> {
    Seq::new((bytes.len() / 2) as nat, |i: int| word_of(bytes[2 * i], bytes[2 * i + 1]))
}

/// The little-endian byte sequence that encodes a word sequence.
pub open spec fn bytes_of_words(words: Seq<u16>) -> Seq<u8> {
    Seq::new(
        (2 * words.len()) as nat,
        |i: int|
            if i % 2 == 0 {
                lo_byte(words[i / 2])
            } else {
                hi_byte(words[i / 2])
            },
    )
}

/// Reads one storage word from its little-endian byte pair.
pub fn storage_word_from_le(lo: u8, hi: u8) -> (w: u16)
    ensures
        w == word_of(lo, hi),
{
    lo as u16 + 256 * (hi as u16)
}

/// Writes one storage word as its little-endian byte pair.
pub fn storage_word_to_le(w: u16) -> (r: (u8, u8))
    ensures
        r.0 == lo_byte(w),
        r.1 == hi_byte(w),
{
    ((w % 256) as u8, (w / 256) as u8)
}

/// Reads the storage words of a byte sequence whose length is even.
pub fn decode_words(bytes: &Vec<u8>) -> (r: Vec<u16>)
    requires
        bytes@.len() % 2 == 0,
    ensures
        r@ == words_of_bytes(bytes@),
{
    let len = bytes.len();
    let count = len / 2;
    let mut words: Vec<u16> = Vec::new();
    let mut i: usize = 0;
    while i < count
        invariant
            i <= count,
            count == bytes@.len() / 2,
            bytes@.len() % 2 == 0,
            len == bytes@.len(),
            words@.len() == i,
            forall|k: int| 0 <= k < i ==> words@[k] == word_of(bytes@[2 * k], bytes@[2 * k + 1]),
        decreases count - i,
    {
        proof {
            lemma_fundamental_div_mod(len as int, 2);
        }
        let w = storage_word_from_le(bytes[2 * i], bytes[2 * i + 1]);
        words.push(w);
        i += 1;
    }
    proof {
        assert(words@ =~= words_of_bytes(bytes@));
    }
    words
}

/// Writes the little-endian encoding of a word sequence.
pub fn encode_words(words: &Vec<u16>) -> (r: Vec<u8>)
    requires
        2 * words@.len() <= usize::MAX,
    ensures
        r@ == bytes_of_words(words@),
{
    let count = words.len();
    let mut bytes: Vec<u8> = Vec::new();
    let mut i: usize = 0;
    while i < count
        invariant
            i <= count,
            count == words@.len(),
            2 * words@.len() <= usize::MAX,
            bytes@.len() == 2 * i,
            forall|k: int|
                0 <= k < 2 * i ==> bytes@[k] == (if k % 2 == 0 {
                    lo_byte(words@[k / 2])
                } else {
                    hi_byte(words@[k / 2])
                }),
        decreases count - i,
    {
        let (lo, hi) = storage_word_to_le(words[i]);
        bytes.push(lo);
        bytes.push(hi);
        i += 1;
    }
    proof {
        assert(bytes@ =~= bytes_of_words(words@));
    }
    bytes
}

/// Law: decoding the little-endian encoding of any word sequence yields the
/// same words back — half-precision storage round-trips bit for bit.
pub proof fn lemma_words_round_trip(words: Seq<u16>)
    ensures
        words_of_bytes(bytes_of_words(words)) == words,
{
    let enc = bytes_of_words(words);
    assert forall|i: int| 0 <= i < words.len() implies words_of_bytes(enc)[i] == words[i] by {
        assert(enc[2 * i] == lo_byte(words[i]));
        assert(enc[2 * i + 1] == hi_byte(words[i]));
        lemma_fundamental_div_mod(words[i] as int, 256);
    }
    assert(words_of_bytes(enc) =~= words);
}

/// A word splits into its little-endian byte pair and nothing else.
proof fn lemma_word_split(lo: u8, hi: u8)
    ensures
        lo_byte(word_of(lo, hi)) == lo,
        hi_byte(word_of(lo, hi)) == hi,
{
    let w = word_of(lo, hi);
    lemma_mod_multiples_vanish(hi as int, lo as int, 256);
    lemma_small_mod(lo as nat, 256);
    lemma_fundamental_div_mod(w as int, 256);
}

/// Law: re-encoding the words read from an even-length byte sequence yields
/// the same bytes back — the decoder loses nothing.
pub proof fn lemma_bytes_round_trip(bytes: Seq<u8>)
    requires
        bytes.len() % 2 == 0,
    ensures
        bytes_of_words(words_of_bytes(bytes)) == bytes,
{
    let words = words_of_bytes(bytes);
    lemma_fundamental_div_mod(bytes.len() as int, 2);
    assert forall|i: int| 0 <= i < bytes.len() implies bytes_of_words(words)[i] == bytes[i] by {
        lemma_fundamental_div_mod(i, 2);
        if i % 2 == 0 {
            assert(2 * (i / 2) == i);
            lemma_word_split(bytes[i], bytes[i + 1]);
        } else {
            assert(2 * (i / 2) == i - 1);
            lemma_word_split(bytes[i - 1], bytes[i]);
        }
    }
    assert(bytes_of_words(words) =~= bytes);
}

} // verus!
