//! MurmurHash2, the 32-bit variant: a seedable hash of a byte string.

use vstd::prelude::*;
use vstd::wrapping::u32_specs::wrapping_mul;

verus! {

/// The multiplier of every mixing step.
pub const MIX_MULTIPLIER: u32 = 0x5bd1_e995;

/// The right shift applied to a word between its two multiplications.
pub const MIX_SHIFT: u32 = 24;

/// The low 32 bits of a length: the only part of it that enters the hash.
pub open spec fn length_word(len: nat) -> u32 {
    (len % 0x1_0000_0000) as u32
}

/// The four bytes of `key` from offset `at` on, read as a little-endian word.
pub open spec fn word_at(key: Seq<u8>, at: int) -> u32 {
    (key[at] as u32) | ((key[at + 1] as u32) << 8) | ((key[at + 2] as u32) << 16) | ((key[at + 3] as u32) << 24)
}

/// A word of the key, scrambled before it is folded into the state.
pub open spec fn scramble(k: u32) -> u32 {
    let k1 = wrapping_mul(k, MIX_MULTIPLIER);
    wrapping_mul(k1 ^ (k1 >> MIX_SHIFT), MIX_MULTIPLIER)
}

/// The state `h` after one more word `k` of the key.
pub open spec fn absorb_word(h: u32, k: u32) -> u32 {
    wrapping_mul(h, MIX_MULTIPLIER) ^ scramble(k)
}

/// The state after the first `words` four-byte words of `key`, starting from `h`.
pub open spec fn absorb_words(key: Seq<u8>, h: u32, words: nat) -> u32
    decreases words,
{
    if words == 0 {
        h
    } else {
        absorb_word(absorb_words(key, h, (words - 1) as nat), word_at(key, 4 * (words - 1)))
    }
}

/// The state after the at most three bytes that follow the last full word.
/// The bytes enter from the highest offset down, and only the byte at offset 0
/// is followed by a multiplication.
pub open spec fn absorb_tail(h: u32, tail: Seq<u8>) -> u32 {
    let h3 = if tail.len() >= 3 { h ^ ((tail[2] as u32) << 16) } else { h };
    let h2 = if tail.len() >= 2 { h3 ^ ((tail[1] as u32) << 8) } else { h3 };
    if tail.len() >= 1 {
        wrapping_mul(h2 ^ (tail[0] as u32), MIX_MULTIPLIER)
    } else {
        h2
    }
}

/// The final mixing of the state.
pub open spec fn avalanche(h: u32) -> u32 {
    let h1 = h ^ (h >> 13);
    let h2 = wrapping_mul(h1, MIX_MULTIPLIER);
    h2 ^ (h2 >> 15)
}

/// MurmurHash2 of `key` under `seed`.
///
/// The length enters the hash as a 32-bit word, and the bytes that are hashed
/// are the first `length_word(key.len())` of the key: for every key shorter
/// than 4 GiB that is the whole key.
pub open spec fn murmur2(key: Seq<u8>, seed: u32) -> u32 {
    let len = length_word(key.len());
    let h = absorb_words(key, seed ^ len, (len / 4) as nat);
    avalanche(absorb_tail(h, key.subrange(len / 4 * 4, len as int)))
}

/// Hashes `key` under `seed`. The result is a function of the key's bytes and
/// the seed alone.
pub fn murmurhash2(key: &[u8], seed: u32) -> (h: u32)
    ensures
        h == murmur2(key@, seed),
{
    let m: u32 = MIX_MULTIPLIER;
    let r: u32 = MIX_SHIFT;
    let total: u32 = ((key.len() as u64) % 0x1_0000_0000) as u32;
    let mut len: u32 = total;
    let mut h: u32 = seed ^ len;
    let mut i: usize = 0;

    while len / 4 > 0
        invariant
            total == length_word(key@.len()),
            m == MIX_MULTIPLIER,
            r == MIX_SHIFT,
            i + len == total,
            i % 4 == 0,
            h == absorb_words(key@, seed ^ total, (i / 4) as nat),
        decreases len,
    {
        let mut k: u32 = (key[i] as u32) | ((key[i + 1] as u32) << 8) | ((key[i + 2] as u32) << 16)
            | ((key[i + 3] as u32) << 24);
        k = k.wrapping_mul(m);
        k ^= k >> r;
        k = k.wrapping_mul(m);

        h = h.wrapping_mul(m);
        h ^= k;
        len -= 4;
        i += 4;
    }

    let ghost tail = key@.subrange(i as int, total as int);
    if len >= 3 {
        h ^= (key[i + 2] as u32) << 16;
    }
    if len >= 2 {
        h ^= (key[i + 1] as u32) << 8;
    }
    if len >= 1 {
        h ^= key[i] as u32;
        h = h.wrapping_mul(m);
    }
    assert(h == absorb_tail(absorb_words(key@, seed ^ total, (i / 4) as nat), tail));

    h ^= h >> 13;
    h = h.wrapping_mul(m);
    h ^= h >> 15;
    h
}

} // verus!
