//! Words of memory and the bytes that they consist of. The first byte of a word is its
//! lowest, as x86 has it.
use vstd::prelude::*;

use crate::arch::ARCH_WORD_SIZE;

verus! {

/// Byte `i` of a word.
pub open spec fn byte_of(word: usize, i: int) -> u8
    decreases i,
{
    if i <= 0 {
        (word % 256) as u8
    } else {
        byte_of(word / 256, i - 1)
    }
}

/// The word with another first byte.
pub open spec fn first_byte_set(word: usize, byte: u8) -> usize {
    (word - word % 256 + byte) as usize
}

/// Replaces the first byte of a word, and leaves the others as they are.
pub fn with_first_byte(word: usize, byte: u8) -> (w: usize)
    ensures
        w == first_byte_set(word, byte),
        byte_of(w, 0) == byte,
        forall|i: int| 1 <= i < ARCH_WORD_SIZE ==> #[trigger] byte_of(w, i) == byte_of(word, i),
{
    proof {
        law_only_the_first_byte_changes(word, byte);
    }
    word - word % 256 + byte as usize
}

/// Setting the first byte of a word changes that byte and no other.
pub proof fn law_only_the_first_byte_changes(word: usize, byte: u8)
    ensures
        word - word % 256 + byte <= usize::MAX,
        byte_of(first_byte_set(word, byte), 0) == byte,
        forall|i: int|
            1 <= i < ARCH_WORD_SIZE ==> #[trigger] byte_of(first_byte_set(word, byte), i)
                == byte_of(word, i),
{
    assert(usize::MAX % 256 == 255) by {
        if usize::BITS == 64 {
            assert(usize::MAX == 0xffff_ffff_ffff_ffff);
        } else {
            assert(usize::MAX == 0xffff_ffff);
        }
    }
    let w = first_byte_set(word, byte);
    assert(w % 256 == byte);
    assert(w / 256 == word / 256);
}

/// The bytes of words, one word after the other. A word that could not be read counts as
/// empty bytes.
pub open spec fn bytes_of(words: Seq<Option<usize>>) -> Seq<u8> {
    Seq::new(
        words.len() * ARCH_WORD_SIZE as nat,
        |k: int|
            match words[k / (ARCH_WORD_SIZE as int)] {
                Some(word) => byte_of(word, k % (ARCH_WORD_SIZE as int)),
                None => 0,
            },
    )
}

/// Whether any of the words could be read.
pub open spec fn any_read(words: Seq<Option<usize>>) -> bool {
    exists|i: int| 0 <= i < words.len() && #[trigger] words[i] is Some
}

/// The bytes of words, one word after the other.
pub fn to_bytes(words: &Vec<Option<usize>>) -> (bytes: Vec<u8>)
    ensures
        bytes@ == bytes_of(words@),
{
    let mut bytes: Vec<u8> = Vec::new();
    let mut i: usize = 0;
    while i < words.len()
        invariant
            i <= words@.len(),
            bytes@ == bytes_of(words@.take(i as int)),
        decreases words@.len() - i,
    {
        let ghost before = bytes@;
        let mut rest: usize = match words[i] {
            Some(word) => word,
            None => 0,
        };
        let ghost word = rest;
        let mut j: usize = 0;
        while j < ARCH_WORD_SIZE
            invariant
                j <= ARCH_WORD_SIZE,
                before.len() == i * ARCH_WORD_SIZE,
                bytes@.len() == before.len() + j,
                forall|k: int| 0 <= k < before.len() ==> bytes@[k] == before[k],
                forall|k: int| 0 <= k < j ==> bytes@[before.len() + k] == #[trigger] byte_of(word, k),
                forall|k: int| j <= k ==> #[trigger] byte_of(word, k) == byte_of(rest, k - j),
            decreases ARCH_WORD_SIZE - j,
        {
            assert(byte_of(word, j as int) == byte_of(rest, 0));
            bytes.push((rest % 256) as u8);
            assert forall|k: int| j + 1 <= k implies #[trigger] byte_of(word, k) == byte_of(
                rest / 256,
                k - j - 1,
            ) by {
                assert(byte_of(word, k) == byte_of(rest, k - j));
            }
            rest = rest / 256;
            j = j + 1;
        }
        proof {
            let next = bytes_of(words@.take(i + 1));
            assert forall|k: int| 0 <= k < next.len() implies bytes@[k] == next[k] by {
                if k < before.len() {
                    assert(0 <= k / 8 < i);
                    assert(words@.take(i + 1)[k / 8] == words@.take(i as int)[k / 8]);
                    assert(before[k] == bytes_of(words@.take(i as int))[k]);
                } else {
                    assert(k / 8 == i);
                    assert(k - before.len() == k % 8);
                    assert(words@.take(i + 1)[i as int] == words@[i as int]);
                    assert(bytes@[before.len() + k % 8] == byte_of(word, k % 8));
                    if words@[i as int] is None {
                        lemma_zero(k % 8);
                    }
                }
            }
            assert(bytes@ =~= next);
        }
        i = i + 1;
    }
    assert(words@.take(i as int) =~= words@);
    bytes
}

/// The bytes of zero are zero.
proof fn lemma_zero(i: int)
    ensures
        byte_of(0, i) == 0,
    decreases i,
{
    if i > 0 {
        lemma_zero(i - 1);
    }
}

/// Whether any of the words could be read.
pub fn some_read(words: &Vec<Option<usize>>) -> (found: bool)
    ensures
        found == any_read(words@),
{
    let mut i: usize = 0;
    while i < words.len()
        invariant
            i <= words@.len(),
            forall|j: int| 0 <= j < i ==> !(#[trigger] words@[j] is Some),
        decreases words@.len() - i,
    {
        if words[i].is_some() {
            return true;
        }
        i = i + 1;
    }
    false
}

/// Whether all of the words could be read, the first at `addr` of this memory and each
/// `stride` bytes past the one before.
pub open spec fn read_from(
    words: Seq<Option<usize>>,
    addr: int,
    stride: int,
    memory: spec_fn(int) -> u8,
) -> bool {
    forall|i: int, j: int|
        0 <= i < words.len() && 0 <= j < ARCH_WORD_SIZE ==> words[i] is Some && (
        #[trigger] byte_of(words[i]->0, j)) == memory(addr + i * stride + j)
}

/// Words that were read one after the other from `addr` on have the bytes that stand in
/// memory from there on, in order.
pub proof fn law_bytes_in_order(words: Seq<Option<usize>>, addr: int, memory: spec_fn(int) -> u8)
    requires
        read_from(words, addr, ARCH_WORD_SIZE as int, memory),
    ensures
        forall|k: int|
            0 <= k < words.len() * ARCH_WORD_SIZE ==> #[trigger] bytes_of(words)[k] == memory(
                addr + k,
            ),
{
    assert forall|k: int| 0 <= k < words.len() * ARCH_WORD_SIZE implies #[trigger] bytes_of(
        words,
    )[k] == memory(addr + k) by {
        let i = k / 8;
        let j = k % 8;
        assert(byte_of(words[i]->0, j) == memory(addr + i * ARCH_WORD_SIZE + j));
        assert(addr + i * ARCH_WORD_SIZE + j == addr + k);
    }
}

/// The first byte of a word is its remainder, and the others are those of what is left of it.
/// Words are taken apart one after the other, into that many bytes each. One that could not be
/// read counts as nothing but zeros.
pub proof fn law_bytes_of_words(words: Seq<Option<usize>>, i: int, j: int, word: usize)
    ensures
        byte_of(word, 0) == word % 256,
        j >= 0 ==> byte_of(word, j + 1) == byte_of(word / 256, j),
        bytes_of(words).len() == 8 * words.len(),
        0 <= i < words.len() && 0 <= j < 8 ==> bytes_of(words)[8 * i + j] == (match words[i] {
            Some(word) => byte_of(word, j),
            None => 0,
        }),
{
    if 0 <= i < words.len() && 0 <= j < 8 {
        assert((8 * i + j) / 8 == i);
        assert((8 * i + j) % 8 == j);
    }
}

/// Something was read if one of the words was.
pub proof fn law_any_read(words: Seq<Option<usize>>, i: int)
    ensures
        0 <= i < words.len() && words[i] is Some ==> any_read(words),
        any_read(words) ==> exists|k: int| 0 <= k < words.len() && #[trigger] words[k] is Some,
{
}

} // verus!
