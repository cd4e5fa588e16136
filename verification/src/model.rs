//! The mathematical model of a Bloom filter: a set of marked bit positions,
//! and for each key the positions that it probes.

use vstd::prelude::*;
use crate::hash::murmur2;

verus! {

/// The seed of the first of the two hashes from which a key's probes derive.
pub const PROBE_SEED: u32 = 0x9747_b28c;

/// The `i`-th position probed for `key` in a filter of `bits` bits. With `a` the
/// hash of the key under `PROBE_SEED` and `b` its hash under `a`, it is
/// `a + i * b` reduced modulo `bits`; the sum is taken over the integers, so
/// nothing wraps before the reduction.
pub open spec fn probe(bits: nat, key: Seq<u8>, i: int) -> int {
    let a = murmur2(key, PROBE_SEED);
    let b = murmur2(key, a);
    (a + i * b) % (bits as int)
}

/// The positions probed for `key` in a filter of `bits` bits and `hashes`
/// probes, in probing order. They need not be distinct.
pub open spec fn probe_positions(bits: nat, hashes: nat, key: Seq<u8>) -> Seq<int> {
    Seq::new(hashes, |i: int| probe(bits, key, i))
}

/// What a filter is, apart from how its bits are stored.
pub struct FilterModel {
    /// The number of addressable bits.
    pub bits: nat,
    /// The number of positions probed for each key.
    pub hashes: nat,
    /// The positions of the bits that are set.
    pub marked: Set<int>,
}

impl FilterModel {
    /// The filter of the given dimensions in which no bit is set.
    pub open spec fn empty(bits: nat, hashes: nat) -> FilterModel {
        FilterModel { bits, hashes, marked: Set::empty() }
    }

    /// A filter has at least one bit and one probe, and marks only its own bits.
    pub open spec fn well_formed(self) -> bool {
        &&& self.bits >= 1
        &&& self.hashes >= 1
        &&& forall|p: int| self.marked.contains(p) ==> 0 <= p < self.bits
    }

    /// The positions that this filter probes for `key`.
    pub open spec fn positions(self, key: Seq<u8>) -> Seq<int> {
        probe_positions(self.bits, self.hashes, key)
    }

    /// Whether the filter reports `key` as possibly present: every position
    /// probed for it is marked.
    pub open spec fn contains(self, key: Seq<u8>) -> bool {
        self.positions(key).to_set().subset_of(self.marked)
    }

    /// The filter after `key` has been added: its probed positions are marked
    /// as well, and nothing else changes.
    pub open spec fn insert(self, key: Seq<u8>) -> FilterModel {
        FilterModel {
            bits: self.bits,
            hashes: self.hashes,
            marked: self.marked.union(self.positions(key).to_set()),
        }
    }

    /// The filter after the keys of `keys` have been added, first to last.
    pub open spec fn insert_all(self, keys: Seq<Seq<u8>>) -> FilterModel
        decreases keys.len(),
    {
        if keys.len() == 0 {
            self
        } else {
            self.insert_all(keys.drop_last()).insert(keys.last())
        }
    }
}

/// Every probed position addresses a bit of the filter.
pub proof fn lemma_probe_in_range(bits: nat, key: Seq<u8>, i: int)
    requires
        bits >= 1,
    ensures
        0 <= probe(bits, key, i) < bits,
{
}

/// A position is among those probed for `key` exactly when it is the `i`-th
/// probe for some `i` below the number of hashes.
pub proof fn lemma_probed_positions(bits: nat, hashes: nat, key: Seq<u8>, p: int)
    ensures
        probe_positions(bits, hashes, key).to_set().contains(p) <==> exists|i: int|
            0 <= i < hashes && probe(bits, key, i) == p,
{
    let s = probe_positions(bits, hashes, key);
    if s.to_set().contains(p) {
        let i = choose|i: int| 0 <= i < s.len() && s[i] == p;
        assert(0 <= i < hashes && probe(bits, key, i) == p);
    }
    if exists|i: int| 0 <= i < hashes && probe(bits, key, i) == p {
        let i = choose|i: int| 0 <= i < hashes && probe(bits, key, i) == p;
        assert(s[i] == p);
        assert(s.contains(p));
    }
}

impl FilterModel {
    /// A key is reported present exactly when each of its probes is marked.
    pub proof fn lemma_contains_each_probe(self, key: Seq<u8>)
        ensures
            self.contains(key) <==> forall|i: int|
                0 <= i < self.hashes ==> self.marked.contains(
                    #[trigger] probe(self.bits, key, i),
                ),
    {
        let s = self.positions(key);
        if self.contains(key) {
            assert forall|i: int| 0 <= i < self.hashes implies self.marked.contains(
                #[trigger] probe(self.bits, key, i),
            ) by {
                lemma_probed_positions(self.bits, self.hashes, key, probe(self.bits, key, i));
            }
        }
        if forall|i: int|
            0 <= i < self.hashes ==> self.marked.contains(#[trigger] probe(self.bits, key, i)) {
            assert forall|p: int| s.to_set().contains(p) implies self.marked.contains(p) by {
                lemma_probed_positions(self.bits, self.hashes, key, p);
            }
        }
    }

    /// Adding a key keeps a well-formed filter well-formed, and changes
    /// neither the number of bits nor the number of probes.
    pub proof fn lemma_insert_well_formed(self, key: Seq<u8>)
        requires
            self.well_formed(),
        ensures
            self.insert(key).well_formed(),
            self.insert(key).bits == self.bits,
            self.insert(key).hashes == self.hashes,
    {
        assert forall|p: int| self.insert(key).marked.contains(p) implies 0 <= p < self.bits by {
            lemma_probed_positions(self.bits, self.hashes, key, p);
        }
    }

    /// Bits are only ever set: what is marked before an addition is marked
    /// after it.
    pub proof fn lemma_insert_only_marks(self, key: Seq<u8>)
        ensures
            self.marked.subset_of(self.insert(key).marked),
    {
    }

    /// A key that is reported present stays so when another key is added.
    pub proof fn lemma_insert_keeps_members(self, key: Seq<u8>, other: Seq<u8>)
        requires
            self.contains(key),
        ensures
            self.insert(other).contains(key),
    {
    }

    /// A key that is reported present stays so whatever keys are added later.
    pub proof fn lemma_insert_all_keeps_members(self, key: Seq<u8>, later: Seq<Seq<u8>>)
        requires
            self.contains(key),
        ensures
            self.insert_all(later).contains(key),
        decreases later.len(),
    {
        if later.len() > 0 {
            self.lemma_insert_all_keeps_members(key, later.drop_last());
            self.insert_all(later.drop_last()).lemma_insert_keeps_members(key, later.last());
        }
    }

    /// No false negatives: once a key has been added it is reported present,
    /// then and after any further additions.
    pub proof fn lemma_no_false_negatives(self, key: Seq<u8>, later: Seq<Seq<u8>>)
        ensures
            self.insert(key).contains(key),
            self.insert(key).insert_all(later).contains(key),
    {
        let added = self.insert(key);
        assert(added.contains(key));
        added.lemma_insert_all_keeps_members(key, later);
    }

    /// Adding a key a second time finds it present and changes nothing.
    pub proof fn lemma_insert_idempotent(self, key: Seq<u8>)
        ensures
            self.insert(key).contains(key),
            self.insert(key).insert(key) == self.insert(key),
    {
        let once = self.insert(key);
        assert(once.contains(key));
        assert(once.insert(key).marked =~= once.marked);
    }
}

} // verus!
