//! Packing of byte buffers into native machine words and back.
//!
//! Remote reads and writes move one word at a time, so code buffers are packed
//! into words before they travel and unpacked after they come back.  Both
//! directions are little-endian: byte `i` of the buffer occupies bits
//! `8*(i % 8) .. 8*(i % 8) + 8` of word `i / 8`.  A buffer whose length is not
//! a multiple of the word size is padded up to the next word boundary with a
//! single-byte breakpoint trap opcode, which both pads and, if execution ever
//! reaches it, forces a trap stop that flags fall-through past the intended
//! code.

use vstd::prelude::*;
use vstd::bytes::{
    lemma_auto_spec_u64_to_from_le_bytes, spec_u64_from_le_bytes, spec_u64_to_le_bytes,
    u64_from_le_bytes, u64_to_le_bytes,
};
use vstd::slice::slice_subrange;

verus! {

/// Single-byte breakpoint trap opcode, used as the padding sentinel.
pub const TRAP_BYTE: u8 = 0xcc;

/// Native word size of the supported target architecture, in bytes.
pub const WORD_SIZE: usize = 8;

/// A byte buffer padded up to the next word boundary with the trap opcode;
/// a buffer that already ends on a word boundary is left as it is.
pub open spec fn spec_pad(bytes: Seq<u8>) -> Seq<u8> {
    if bytes.len() % 8 == 0 {
        bytes
    } else {
        bytes + Seq::new((8 - bytes.len() % 8) as nat, |i: int| TRAP_BYTE)
    }
}

/// The words of a word-aligned byte buffer, little-endian.
pub open spec fn spec_pack(bytes: Seq<u8>) -> Seq<u64>
    recommends
        bytes.len() % 8 == 0,
{
    Seq::new(bytes.len() / 8, |i: int| spec_u64_from_le_bytes(bytes.subrange(8 * i, 8 * i + 8)))
}

/// The bytes of a word buffer, little-endian.
pub open spec fn spec_unpack(words: Seq<u64>) -> Seq<u8>
    decreases words.len(),
{
    if words.len() == 0 {
        Seq::empty()
    } else {
        spec_unpack(words.drop_last()) + spec_u64_to_le_bytes(words.last())
    }
}

/// Pack a byte buffer into native words, padding a partial final word with
/// the trap opcode.
pub fn vec_conversion(buf: Vec<u8>) -> (words: Vec<u64>)
    requires
        buf@.len() + 7 <= usize::MAX,
    ensures
        words@ == spec_pack(spec_pad(buf@)),
{
    let ghost orig = buf@;
    let mut buf = buf;
    if buf.len() % 8 != 0 {
        let pad: usize = 8 - buf.len() % 8;
        let mut k: usize = 0;
        while k < pad
            invariant
                k <= pad,
                pad == 8 - orig.len() % 8,
                orig.len() % 8 != 0,
                buf@ == orig + Seq::new(k as nat, |i: int| TRAP_BYTE),
            decreases pad - k,
        {
            buf.push(TRAP_BYTE);
            assert(buf@ =~= orig + Seq::new((k + 1) as nat, |i: int| TRAP_BYTE));
            k = k + 1;
        }
    }
    assert(buf@ =~= spec_pad(orig));
    proof {
        lemma_pad_aligned(orig);
    }
    let n = buf.len() / 8;
    let mut words: Vec<u64> = Vec::new();
    let mut i: usize = 0;
    while i < n
        invariant
            i <= n,
            8 * n == buf@.len(),
            buf@.len() <= usize::MAX,
            words@.len() == i,
            forall|k: int|
                0 <= k < i ==> words@[k] == spec_u64_from_le_bytes(
                    buf@.subrange(8 * k, 8 * k + 8),
                ),
        decreases n - i,
    {
        let chunk = slice_subrange(buf.as_slice(), 8 * i, 8 * i + 8);
        let w = u64_from_le_bytes(chunk);
        words.push(w);
        i = i + 1;
    }
    assert(words@ =~= spec_pack(buf@));
    words
}

/// Unpack a word buffer back into its bytes.
pub fn vec_bytes(buf: Vec<u64>) -> (bytes: Vec<u8>)
    ensures
        bytes@ == spec_unpack(buf@),
{
    let mut bytes: Vec<u8> = Vec::new();
    let mut i: usize = 0;
    while i < buf.len()
        invariant
            i <= buf@.len(),
            bytes@ == spec_unpack(buf@.take(i as int)),
        decreases buf@.len() - i,
    {
        let mut w8 = u64_to_le_bytes(buf[i]);
        bytes.append(&mut w8);
        assert(buf@.take(i + 1).drop_last() =~= buf@.take(i as int));
        i = i + 1;
    }
    assert(buf@.take(buf@.len() as int) =~= buf@);
    bytes
}

/// Padding always yields a word-aligned buffer.
pub proof fn lemma_pad_aligned(bytes: Seq<u8>)
    ensures
        spec_pad(bytes).len() % 8 == 0,
        spec_pad(bytes).len() >= bytes.len(),
        spec_pad(bytes).len() <= bytes.len() + 7,
{
    if bytes.len() % 8 != 0 {
        let q = bytes.len() / 8;
        assert(bytes.len() == 8 * q + bytes.len() % 8) by (nonlinear_arith)
            requires q == bytes.len() / 8,
        ;
        assert(spec_pad(bytes).len() == 8 * q + 8);
        assert((8 * q + 8) % 8 == 0) by (nonlinear_arith);
    }
}

/// The unpacked form of a word buffer has eight bytes per word.
pub proof fn lemma_unpack_len(words: Seq<u64>)
    ensures
        spec_unpack(words).len() == 8 * words.len(),
    decreases words.len(),
{
    lemma_auto_spec_u64_to_from_le_bytes();
    if words.len() > 0 {
        lemma_unpack_len(words.drop_last());
    }
}

/// Unpacking the packed form of a word-aligned byte buffer reproduces the
/// buffer exactly.
#[verifier::rlimit(50)]
pub proof fn lemma_pack_unpack(bytes: Seq<u8>)
    requires
        bytes.len() % 8 == 0,
    ensures
        spec_unpack(spec_pack(bytes)) == bytes,
    decreases bytes.len(),
{
    lemma_auto_spec_u64_to_from_le_bytes();
    if bytes.len() == 0 {
        assert(spec_pack(bytes) =~= Seq::<u64>::empty());
        assert(spec_unpack(spec_pack(bytes)) =~= bytes);
    } else {
        assert(bytes.len() >= 8) by (nonlinear_arith)
            requires bytes.len() % 8 == 0, bytes.len() > 0,
        ;
        let head = bytes.subrange(0, bytes.len() - 8);
        let tail = bytes.subrange(bytes.len() - 8, bytes.len() as int);
        assert(head.len() % 8 == 0) by (nonlinear_arith)
            requires head.len() == bytes.len() - 8, bytes.len() % 8 == 0,
        ;
        lemma_pack_unpack(head);
        assert(spec_pack(bytes).drop_last() =~= spec_pack(head)) by {
            assert forall|k: int| 0 <= k < spec_pack(bytes).len() - 1 implies spec_pack(
                bytes,
            ).drop_last()[k] == spec_pack(head)[k] by {
                assert(bytes.subrange(8 * k, 8 * k + 8) =~= head.subrange(8 * k, 8 * k + 8));
            }
        }
        assert(spec_pack(bytes).last() == spec_u64_from_le_bytes(tail));
        assert(spec_unpack(spec_pack(bytes)) == spec_unpack(spec_pack(head))
            + spec_u64_to_le_bytes(spec_u64_from_le_bytes(tail)));
        assert(spec_u64_to_le_bytes(spec_u64_from_le_bytes(tail)) == tail);
        assert(head + tail =~= bytes);
    }
}

/// Packing a byte buffer into words and unpacking the words again reproduces
/// the original bytes exactly, for any length: the unpacked buffer carries the
/// original bytes first, followed only by trap-opcode padding up to the word
/// boundary.
pub proof fn lemma_words_roundtrip(bytes: Seq<u8>)
    ensures
        spec_unpack(spec_pack(spec_pad(bytes))) == spec_pad(bytes),
        spec_pad(bytes).subrange(0, bytes.len() as int) == bytes,
        forall|i: int|
            bytes.len() <= i < spec_pad(bytes).len() ==> spec_pad(bytes)[i] == TRAP_BYTE,
{
    lemma_pad_aligned(bytes);
    lemma_pack_unpack(spec_pad(bytes));
    assert(spec_pad(bytes).subrange(0, bytes.len() as int) =~= bytes);
}

} // verus!
