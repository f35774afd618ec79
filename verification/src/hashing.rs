//! Hashing of word sequences with the standard library's `DefaultHasher`.
use vstd::prelude::*;

use std::collections::hash_map::DefaultHasher;
use std::hash::Hasher;
use vstd::std_specs::hash::DefaultHasherAdditionalSpecFns;

verus! {

/// The `n` low bytes of `x`, least significant first.
pub open spec fn bytes_of(x: nat, n: nat) -> Seq<u8>
    decreases n,
{
    if n == 0 {
        Seq::empty()
    } else {
        seq![(x % 256) as u8] + bytes_of(x / 256, (n - 1) as nat)
    }
}

/// The eight bytes of a word, least significant first.
pub open spec fn word_bytes(x: u64) -> Seq<u8> {
    bytes_of(x as nat, 8)
}

/// The writes that hashing a word sequence makes: one 8-byte write per word.
pub open spec fn word_writes(words: Seq<u64>) -> Seq<Seq<u8>> {
    words.map_values(|x: u64| word_bytes(x))
}

/// The hash of a word sequence.
pub open spec fn words_hash(words: Seq<u64>) -> u64 {
    DefaultHasher::spec_finish(word_writes(words))
}

/// The eight bytes of a word.
fn word_to_bytes(x: u64) -> (r: Vec<u8>)
    ensures
        r@ == word_bytes(x),
{
    let mut v: Vec<u8> = Vec::new();
    let mut cur: u64 = x;
    let mut i: usize = 0;
    while i < 8
        invariant
            i <= 8,
            v@ + bytes_of(cur as nat, (8 - i) as nat) == bytes_of(x as nat, 8),
        decreases 8 - i,
    {
        let b = (cur % 256) as u8;
        proof {
            assert(bytes_of(cur as nat, (8 - i) as nat) == seq![b] + bytes_of(
                (cur / 256) as nat,
                (8 - i - 1) as nat,
            ));
            assert(v@.push(b) + bytes_of((cur / 256) as nat, (8 - i - 1) as nat) =~= v@ + (seq![b]
                + bytes_of((cur / 256) as nat, (8 - i - 1) as nat)));
        }
        v.push(b);
        cur = cur / 256;
        i = i + 1;
    }
    assert(v@ + bytes_of(cur as nat, 0) =~= v@);
    v
}

/// Hash a sequence of words: each word is written as its eight bytes,
/// least significant first.
pub fn hash_words(words: &Vec<u64>) -> (r: u64)
    ensures
        r == words_hash(words@),
{
    let mut hasher = DefaultHasher::new();
    let mut i: usize = 0;
    while i < words.len()
        invariant
            i <= words@.len(),
            hasher@ == word_writes(words@.take(i as int)),
        decreases words.len() - i,
    {
        let bytes = word_to_bytes(words[i]);
        hasher.write(bytes.as_slice());
        proof {
            assert(words@.take(i + 1) =~= words@.take(i as int).push(words@[i as int]));
            assert(word_writes(words@.take(i + 1)) =~= word_writes(words@.take(i as int)).push(
                word_bytes(words@[i as int]),
            ));
        }
        i = i + 1;
    }
    assert(words@.take(words@.len() as int) =~= words@);
    hasher.finish()
}

} // verus!
