//! The Bloom filter: a bit array of fixed size, and the operations that mark
//! and test the positions probed for a key.

use vstd::prelude::*;
use vstd::string::StringSliceAdditionalSpecFns;
use crate::hash::{murmur2, murmurhash2};
use crate::model::{lemma_probed_positions, probe, FilterModel, PROBE_SEED};

verus! {

/// Why a filter could not be built.
#[derive(Clone, Copy, Debug, PartialEq, Eq, Structural)]
pub enum BloomError {
    /// The dimensions asked for leave the filter without a bit or without a probe.
    InvalidParameters,
}

/// The number of bytes that hold `bits` bits.
pub open spec fn byte_count(bits: nat) -> nat {
    if bits % 8 != 0 {
        bits / 8 + 1
    } else {
        bits / 8
    }
}

/// Whether bit `p` is set in `bytes`: bit `p % 8`, counted from the least
/// significant, of the byte at `p / 8`.
pub open spec fn bit_is_set(bytes: Seq<u8>, p: int) -> bool {
    bytes[p / 8] & (1u8 << ((p % 8) as u32)) != 0
}

/// The positions below `bits` whose bit is set in `bytes`.
pub open spec fn marked_bits(bytes: Seq<u8>, bits: nat) -> Set<int> {
    Set::new(|p: int| 0 <= p < bits && bit_is_set(bytes, p))
}

/// Setting one bit of a byte sets that bit and leaves the other seven as they were.
proof fn lemma_set_bit(c: u8, k: u32, l: u32)
    by (bit_vector)
    requires
        k < 8,
        l < 8,
    ensures
        ((c | (1u8 << k)) & (1u8 << l) != 0) <==> (l == k || (c & (1u8 << l) != 0)),
{
}

/// Writing `c | (1 << x % 8)` over the byte `c` at `x / 8` marks position `x`
/// and no other.
proof fn lemma_mark_position(bytes: Seq<u8>, bits: nat, x: int)
    requires
        0 <= x < bits,
        bytes.len() == byte_count(bits),
    ensures
        marked_bits(
            bytes.update(x / 8, bytes[x / 8] | (1u8 << ((x % 8) as u32))),
            bits,
        ) == marked_bits(bytes, bits).insert(x),
{
    let c = bytes[x / 8];
    let k = (x % 8) as u32;
    let after = bytes.update(x / 8, c | (1u8 << k));
    assert forall|p: int| 0 <= p < bits implies (bit_is_set(after, p) <==> (p == x || bit_is_set(
        bytes,
        p,
    ))) by {
        if p / 8 == x / 8 {
            lemma_set_bit(c, k, (p % 8) as u32);
        }
    }
    assert(marked_bits(after, bits) =~= marked_bits(bytes, bits).insert(x));
}

/// No bit is set in a byte of zero.
proof fn lemma_zero_byte(l: u32)
    by (bit_vector)
    requires
        l < 8,
    ensures
        0u8 & (1u8 << l) == 0,
{
}

/// A Bloom filter over byte strings.
///
/// It answers whether a key has possibly been added or has definitely not
/// been: bits are only ever set, so a key that was added is always found.
pub struct Bloom {
    bits: u32,
    hashes: i32,
    bf: Vec<u8>,
}

impl View for Bloom {
    type V = FilterModel;

    open spec fn view(&self) -> FilterModel {
        FilterModel {
            bits: self.bit_count(),
            hashes: self.hash_count(),
            marked: marked_bits(self.bytes(), self.bit_count()),
        }
    }
}

impl Bloom {
    /// The number of addressable bits.
    pub closed spec fn bit_count(&self) -> nat {
        self.bits as nat
    }

    /// The number of positions probed for each key.
    pub closed spec fn hash_count(&self) -> nat {
        if self.hashes >= 0 {
            self.hashes as nat
        } else {
            0
        }
    }

    /// The buffer that holds the bits, eight to a byte.
    pub closed spec fn bytes(&self) -> Seq<u8> {
        self.bf@
    }

    /// What holds of every filter: it has a bit and a probe, and its buffer
    /// has the one length that its number of bits asks for.
    #[verifier::type_invariant]
    pub open spec fn well_formed(&self) -> bool {
        &&& self.bit_count() >= 1
        &&& self.hash_count() >= 1
        &&& self.bytes().len() == byte_count(self.bit_count())
    }

    /// The model of a well-formed filter is well-formed.
    pub proof fn lemma_view_well_formed(&self)
        requires
            self.well_formed(),
        ensures
            self@.well_formed(),
    {
    }

    /// Builds the empty filter of `bits` bits that probes `hashes` positions
    /// for each key. Dimensions that leave it without a bit or without a probe
    /// are refused.
    pub fn with_dimensions(bits: u32, hashes: i32) -> (made: Result<Bloom, BloomError>)
        ensures
            made is Ok <==> bits >= 1 && hashes >= 1,
            made matches Ok(filter) ==> filter@ == FilterModel::empty(bits as nat, hashes as nat)
                && filter.bytes() == Seq::new(byte_count(bits as nat), |i: int| 0u8),
            made matches Err(e) ==> e == BloomError::InvalidParameters,
    {
        if bits < 1 || hashes < 1 {
            return Err(BloomError::InvalidParameters);
        }
        let bytes: usize = (if bits % 8 != 0 {
            bits / 8 + 1
        } else {
            bits / 8
        }) as usize;
        let bf: Vec<u8> = vec![0u8; bytes];
        proof {
            assert forall|p: int| 0 <= p < bits implies !bit_is_set(bf@, p) by {
                lemma_zero_byte((p % 8) as u32);
            }
            assert(marked_bits(bf@, bits as nat) =~= Set::<int>::empty());
        }
        Ok(Bloom { bits, hashes, bf })
    }

    /// Tests whether every position probed for `buffer` is set and, where
    /// `adding` holds, sets those that are not. The answer is that of the
    /// filter as it stood before the call.
    pub fn check_add(&mut self, buffer: &[u8], adding: bool) -> (hit: bool)
        ensures
            hit == old(self)@.contains(buffer@),
            adding ==> final(self)@ == old(self)@.insert(buffer@),
            adding ==> final(self)@.contains(buffer@),
            !adding ==> *final(self) == *old(self),
            old(self)@.marked.subset_of(final(self)@.marked),
            final(self).bytes().len() == old(self).bytes().len(),
    {
        proof {
            use_type_invariant(&*self);
        }
        let a = murmurhash2(buffer, PROBE_SEED);
        let b = murmurhash2(buffer, a);
        let ghost before = self@;
        let ghost key = buffer@;

        let mut hits: i32 = 0;
        let mut i: i32 = 0;
        while i < self.hashes
            invariant
                self.well_formed(),
                self.bits == old(self).bits,
                self.hashes == old(self).hashes,
                before == old(self)@,
                key == buffer@,
                a == murmur2(key, PROBE_SEED),
                b == murmur2(key, a),
                0 <= hits <= i <= self.hashes,
                hits == i <==> forall|j: int|
                    0 <= j < i ==> before.marked.contains(#[trigger] probe(before.bits, key, j)),
                !adding ==> *self == *old(self),
                adding ==> self@.marked == Set::new(
                    |p: int|
                        before.marked.contains(p) || exists|j: int|
                            0 <= j < i && probe(before.bits, key, j) == p,
                ),
            decreases self.hashes - i,
        {
            assert((i as u64) * (b as u64) <= 0x7fff_ffff * 0xffff_ffff) by (nonlinear_arith)
                requires
                    0 <= i <= 0x7fff_ffff,
                    0 <= b <= 0xffff_ffff,
            ;
            let wide: u64 = a as u64 + (i as u64) * (b as u64);
            let x: u32 = (wide % (self.bits as u64)) as u32;
            assert(x == probe(before.bits, key, i as int));
            assert(x >> 3 == x / 8) by (bit_vector);
            let byte = (x >> 3) as usize;
            let c = self.bf[byte];
            let mask: u8 = 1u8 << (x % 8);
            let ghost marked_here = self@.marked;
            assert(c & mask != 0 <==> marked_here.contains(x as int));

            if c & mask != 0 {
                hits += 1;
            } else if adding {
                proof {
                    lemma_mark_position(self.bf@, self.bits as nat, x as int);
                }
                self.bf[byte] = c | mask;
            }

            proof {
                if adding {
                    assert(self@.marked =~= Set::new(
                        |p: int|
                            before.marked.contains(p) || exists|j: int|
                                0 <= j < i + 1 && probe(before.bits, key, j) == p,
                    )) by {
                        assert(self@.marked =~= marked_here.insert(x as int));
                    }
                }
            }
            i += 1;
        }

        proof {
            before.lemma_contains_each_probe(key);
            if adding {
                before.lemma_insert_idempotent(key);
                assert(self@.marked =~= before.insert(key).marked) by {
                    assert forall|p: int|
                        before.positions(key).to_set().contains(p) <==> exists|j: int|
                            0 <= j < before.hashes && probe(before.bits, key, j) == p by {
                        lemma_probed_positions(before.bits, before.hashes, key, p);
                    }
                }
            }
        }
        hits == self.hashes
    }

    /// Tests whether `buffer` has possibly been added. `false` means that it
    /// definitely has not. The filter is left as it was.
    pub fn check(&mut self, buffer: &str) -> (found: bool)
        ensures
            found == old(self)@.contains(buffer.spec_bytes()),
            *final(self) == *old(self),
    {
        self.check_add(buffer.as_bytes(), false)
    }

    /// Adds `buffer` to the filter, and tells whether the filter already
    /// reported it present before this call.
    pub fn add(&mut self, buffer: &str) -> (present: bool)
        ensures
            present == old(self)@.contains(buffer.spec_bytes()),
            final(self)@ == old(self)@.insert(buffer.spec_bytes()),
            final(self)@.contains(buffer.spec_bytes()),
            old(self)@.marked.subset_of(final(self)@.marked),
            final(self).bytes().len() == old(self).bytes().len(),
    {
        self.check_add(buffer.as_bytes(), true)
    }
}

} // verus!
