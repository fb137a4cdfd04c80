//! Binary files of memory images: 32-bit words, least significant byte
//! first.
use vstd::prelude::*;

verus! {

/// Byte `k` (0 = least significant) of a word.
pub open spec fn byte_of(w: u32, k: int) -> u8 {
    ((w >> ((8 * k) as u32)) & 0xFFu32) as u8
}

/// The bytes of the words, least significant first in each word.
pub open spec fn le_bytes(words: Seq<u32>) -> Seq<u8> {
    Seq::new(4 * words.len(), |i: int| byte_of(words[i / 4], i % 4))
}

/// The word of four bytes, least significant first.
pub open spec fn word_of(b0: u8, b1: u8, b2: u8, b3: u8) -> u32 {
    (b0 as u32) | ((b1 as u32) << 8u32) | ((b2 as u32) << 16u32) | ((b3 as u32) << 24u32)
}

/// The words of the bytes, four bytes each (a shorter rest is dropped),
/// as signed values.
pub open spec fn le_words(bytes: Seq<u8>) -> Seq<i32> {
    Seq::new(
        bytes.len() / 4,
        |i: int| word_of(bytes[4 * i], bytes[4 * i + 1], bytes[4 * i + 2], bytes[4 * i + 3]) as i32,
    )
}

/// The bytes of a memory image, as the compiler writes it.
pub fn image_bytes(words: &Vec<u32>) -> (r: Vec<u8>)
    requires
        4 * words@.len() <= usize::MAX,
    ensures
        r@ == le_bytes(words@),
{
    let mut out: Vec<u8> = Vec::new();
    let mut i: usize = 0;
    while i < words.len()
        invariant
            i <= words@.len(),
            4 * words@.len() <= usize::MAX,
            out@.len() == 4 * i,
            forall|j: int| 0 <= j < 4 * i ==> #[trigger] out@[j] == byte_of(words@[j / 4], j % 4),
        decreases words@.len() - i,
    {
        let w = words[i];
        let ghost before = out@;
        out.push((w & 0xFF) as u8);
        out.push(((w >> 8) & 0xFF) as u8);
        out.push(((w >> 16) & 0xFF) as u8);
        out.push(((w >> 24) & 0xFF) as u8);
        assert forall|j: int| 0 <= j < 4 * (i + 1) implies #[trigger] out@[j] == byte_of(
            words@[j / 4],
            j % 4,
        ) by {
            if j >= 4 * i {
                assert(j / 4 == i);
                assert(w >> 0u32 == w) by (bit_vector);
            } else {
                assert(out@[j] == before[j]);
            }
        }
        i = i + 1;
    }
    assert(out@ =~= le_bytes(words@));
    out
}

/// The words of a binary file, as the simulator loads it.
pub fn image_words(bytes: &Vec<u8>) -> (r: Vec<i32>)
    ensures
        r@ == le_words(bytes@),
{
    let mut out: Vec<i32> = Vec::new();
    let mut i: usize = 0;
    let len = bytes.len();
    let n = len / 4;
    while i < n
        invariant
            i <= n,
            n == bytes@.len() / 4,
            len == bytes@.len(),
            out@ =~= le_words(bytes@).take(i as int),
        decreases n - i,
    {
        assert(4 * i + 3 < len) by (nonlinear_arith)
            requires
                i < n,
                n == len / 4,
        ;
        let w = word_of_exec(bytes[4 * i], bytes[4 * i + 1], bytes[4 * i + 2], bytes[4 * i + 3]);
        out.push(w as i32);
        i = i + 1;
        assert(out@ =~= le_words(bytes@).take(i as int));
    }
    assert(le_words(bytes@).take(i as int) =~= le_words(bytes@));
    out
}

fn word_of_exec(b0: u8, b1: u8, b2: u8, b3: u8) -> (r: u32)
    ensures
        r == word_of(b0, b1, b2, b3),
{
    (b0 as u32) | ((b1 as u32) << 8) | ((b2 as u32) << 16) | ((b3 as u32) << 24)
}

/// Reading back the bytes of an image gives its words: what the simulator
/// loads is what the compiler wrote, word for word (as signed values).
pub proof fn lemma_image_round_trip(words: Seq<u32>)
    ensures
        le_words(le_bytes(words)) == words.map_values(|w: u32| w as i32),
{
    let b = le_bytes(words);
    assert(b.len() / 4 == words.len()) by (nonlinear_arith)
        requires
            b.len() == 4 * words.len(),
    ;
    assert forall|i: int| 0 <= i < words.len() implies #[trigger] le_words(b)[i] == words[i] as i32 by {
        let w = words[i];
        assert((4 * i) / 4 == i && (4 * i + 1) / 4 == i && (4 * i + 2) / 4 == i && (4 * i + 3) / 4
            == i && (4 * i) % 4 == 0 && (4 * i + 1) % 4 == 1 && (4 * i + 2) % 4 == 2 && (4 * i + 3)
            % 4 == 3) by (nonlinear_arith)
            requires
                0 <= i,
        ;
        assert(4 * i + 3 < b.len());
        assert(word_of(byte_of(w, 0), byte_of(w, 1), byte_of(w, 2), byte_of(w, 3)) == w) by {
            assert(((w >> 0u32) & 0xFFu32) as u8 as u32 | ((((w >> 8u32) & 0xFFu32) as u8 as u32)
                << 8u32) | ((((w >> 16u32) & 0xFFu32) as u8 as u32) << 16u32) | ((((w >> 24u32)
                & 0xFFu32) as u8 as u32) << 24u32) == w) by (bit_vector);
        }
    }
    assert(le_words(b) =~= words.map_values(|w: u32| w as i32));
}

} // verus!
