//! The dedup table: which page contents are stored, where, and how often they
//! are referenced.
//!
//! A Bloom filter in front of the table answers most lookups of unknown pages
//! without touching the table.

use std::collections::HashMap;

use vstd::prelude::*;

use crate::fingerprint;
use crate::fingerprint::{
    bloom_indices, fingerprint_key, page_prefix, verify_page_prefix, Fingerprint,
};

verus! {

broadcast use vstd::std_specs::hash::group_hash_axioms;

// ---------------------------------------------------------------------------
// Bloom filter
// ---------------------------------------------------------------------------

/// Bits that the filter spends on each page that it is sized for.
pub const BLOOM_BITS_PER_PAGE: usize = 10;

/// A Bloom filter with three hash functions.
pub struct BloomFilter {
    words: Vec<u64>,
    num_bits: usize,
}

spec fn word_bit(w: u64, b: u64) -> bool {
    (w >> b) & 1 == 1
}

proof fn lemma_set_bit(w: u64, b: u64, c: u64)
    requires
        b < 64,
        c < 64,
    ensures
        word_bit(w | (1u64 << b), c) == (c == b || word_bit(w, c)),
{
    assert(((w | (1u64 << b)) >> c) & 1 == 1 <==> (c == b || (w >> c) & 1 == 1)) by (bit_vector)
        requires
            b < 64,
            c < 64,
    ;
}

proof fn lemma_zero_bit(c: u64)
    requires
        c < 64,
    ensures
        !word_bit(0, c),
{
    assert((0u64 >> c) & 1 == 0) by (bit_vector)
        requires
            c < 64,
    ;
}

impl BloomFilter {
    pub closed spec fn wf(&self) -> bool {
        &&& self.num_bits >= 1
        &&& self.words@.len() == self.num_bits / 64 + 1
    }

    /// The number of bits.
    pub closed spec fn size(&self) -> usize {
        self.num_bits
    }

    /// Whether bit `i` is set.
    pub closed spec fn bit(&self, i: int) -> bool {
        0 <= i < self.num_bits && word_bit(self.words@[i / 64], (i % 64) as u64)
    }

    /// The bit that the `i`th hash function assigns to a fingerprint.
    pub open spec fn index_of(&self, fp: Seq<u8>, i: int) -> int {
        ((fingerprint::bloom_hash(fp, i) as usize) % self.size()) as int
    }

    /// Whether all bits of the fingerprint are set.
    pub open spec fn may_hold(&self, fp: Seq<u8>) -> bool {
        forall|i: int| 0 <= i < 3 ==> self.bit(#[trigger] self.index_of(fp, i))
    }

    /// An empty filter for the given number of pages.
    pub fn new(capacity: usize) -> (r: Self)
        ensures
            r.wf(),
            forall|i: int| !r.bit(i),
            10 * capacity <= usize::MAX ==> r.size() == (if 10 * capacity < 64 {
                64
            } else {
                10 * capacity
            }),
            10 * capacity > usize::MAX ==> r.size() == capacity,
    {
        let wanted: usize = match capacity.checked_mul(BLOOM_BITS_PER_PAGE) {
            Some(n) => n,
            None => capacity,
        };
        let num_bits: usize = if wanted < 64 {
            64
        } else {
            wanted
        };
        let words: Vec<u64> = vec![0u64; num_bits / 64 + 1];
        let r = BloomFilter { words, num_bits };
        assert forall|i: int| !r.bit(i) by {
            if 0 <= i < num_bits {
                lemma_zero_bit((i % 64) as u64);
            }
        }
        r
    }

    fn get(&self, i: usize) -> (r: bool)
        requires
            self.wf(),
            i < self.size(),
        ensures
            r == self.bit(i as int),
    {
        let shift: u64 = (i % 64) as u64;
        (self.words[i / 64] >> shift) & 1 == 1
    }

    fn set(&mut self, i: usize)
        requires
            old(self).wf(),
            i < old(self).size(),
        ensures
            final(self).wf(),
            final(self).size() == old(self).size(),
            forall|k: int|
                #[trigger] final(self).bit(k) == (k == i || old(self).bit(k)),
    {
        let shift: u64 = (i % 64) as u64;
        let at: usize = i / 64;
        let ghost before = *self;
        let word: u64 = self.words[at];
        self.words.set(at, word | (1u64 << shift));
        assert forall|k: int| #[trigger] self.bit(k) == (k == i || before.bit(k)) by {
            if 0 <= k < self.num_bits && k / 64 == at {
                lemma_set_bit(word, shift, (k % 64) as u64);
            }
        }
    }

    /// Whether the fingerprint may have been added.
    pub fn contains(&self, fp: &Fingerprint) -> (r: bool)
        requires
            self.wf(),
        ensures
            r == self.may_hold(fp@),
    {
        let at = bloom_indices(fp, self.num_bits);
        assert(at@[0] == self.index_of(fp@, 0));
        assert(at@[1] == self.index_of(fp@, 1));
        assert(at@[2] == self.index_of(fp@, 2));
        self.get(at[0]) && self.get(at[1]) && self.get(at[2])
    }

    /// Adds a fingerprint: its three bits are set, no other bit changes.
    pub fn insert(&mut self, fp: &Fingerprint)
        requires
            old(self).wf(),
        ensures
            final(self).wf(),
            final(self).size() == old(self).size(),
            final(self).may_hold(fp@),
            forall|k: int|
                #[trigger] final(self).bit(k) == (old(self).bit(k) || k == old(self).index_of(fp@, 0)
                    || k == old(self).index_of(fp@, 1) || k == old(self).index_of(fp@, 2)),
    {
        let at = bloom_indices(fp, self.num_bits);
        assert(at@[0] == self.index_of(fp@, 0));
        assert(at@[1] == self.index_of(fp@, 1));
        assert(at@[2] == self.index_of(fp@, 2));
        self.set(at[0]);
        self.set(at[1]);
        self.set(at[2]);
    }
}

// ---------------------------------------------------------------------------
// Dedup table
// ---------------------------------------------------------------------------

/// A stored page that can be shared.
#[derive(Debug, Clone, Copy)]
pub struct DedupEntry {
    /// Backend slot of the page.
    pub backend_offset: u64,
    /// How many virtual pages refer to it.
    pub ref_count: u64,
    /// The first bytes of the page, as a guard against collisions.
    pub prefix: [u8; 64],
}

/// The outcome of a lookup.
#[derive(Debug, Clone, Copy)]
pub enum LookupResult {
    /// A page with this fingerprint and the same first bytes is stored.
    Duplicate { backend_offset: u64 },
    /// No such page is stored.
    Miss,
}

/// The outcome of dropping a reference.
#[derive(Debug, Clone, Copy)]
pub enum ReferenceRemoval {
    /// Other virtual pages still refer to the page.
    StillReferenced,
    /// That was the last reference; the slot belongs to nobody now.
    Removed { backend_offset: u64 },
    /// The table does not know the fingerprint.
    NotTracked,
}

/// Dedup table statistics.
#[derive(Debug, Clone, Copy)]
pub struct DedupStats {
    pub table_entries: u64,
    pub unique_pages: u64,
    pub duplicate_hits: u64,
    pub evictions: u64,
    pub bloom_false_positives: u64,
}

/// The dedup table.
pub struct DedupTable {
    entries: HashMap<u128, DedupEntry>,
    bloom: BloomFilter,
    max_entries: u64,
    unique_pages: u64,
    duplicate_hits: u64,
    bloom_false_positives: u64,
}

/// The contents of a dedup table.
#[verifier::ext_equal]
pub struct DedupView {
    /// The stored pages, by the number of their fingerprint.
    pub entries: Map<u128, DedupEntry>,
    pub max_entries: u64,
    pub unique_pages: u64,
    pub duplicate_hits: u64,
    pub bloom_false_positives: u64,
}

impl View for DedupTable {
    type V = DedupView;

    closed spec fn view(&self) -> DedupView {
        DedupView {
            entries: self.entries@,
            max_entries: self.max_entries,
            unique_pages: self.unique_pages,
            duplicate_hits: self.duplicate_hits,
            bloom_false_positives: self.bloom_false_positives,
        }
    }
}

impl DedupView {
    /// Whether a page is stored that a lookup takes for a duplicate.
    pub open spec fn finds(self, k: u128, page: Seq<u8>) -> bool {
        self.entries.contains_key(k) && fingerprint::prefixes_agree(self.entries[k].prefix@, page)
    }

    /// Whether a new page would be accepted.
    pub open spec fn accepts(self, k: u128) -> bool {
        !self.entries.contains_key(k) && self.entries.len() < self.max_entries
    }

    /// What a lookup answers.
    pub open spec fn lookup_result(self, k: u128, page: Seq<u8>) -> LookupResult {
        if self.finds(k, page) {
            LookupResult::Duplicate { backend_offset: self.entries[k].backend_offset }
        } else {
            LookupResult::Miss
        }
    }

    /// The table after a lookup that the filter let through or not: a duplicate
    /// is counted as a hit, an unknown page that passed the filter as a false
    /// positive.
    pub open spec fn looked_up(self, k: u128, page: Seq<u8>, passed: bool) -> DedupView {
        if self.finds(k, page) {
            DedupView { duplicate_hits: self.duplicate_hits.wrapping_add(1), ..self }
        } else if passed && !self.entries.contains_key(k) {
            DedupView { bloom_false_positives: self.bloom_false_positives.wrapping_add(1), ..self }
        } else {
            self
        }
    }

    /// The table with a new page, referenced once.
    pub open spec fn tracking(self, k: u128, backend_offset: u64, prefix: [u8; 64]) -> DedupView {
        DedupView {
            entries: self.entries.insert(k, DedupEntry { backend_offset, ref_count: 1, prefix }),
            unique_pages: self.unique_pages.wrapping_add(1),
            ..self
        }
    }

    /// The table with one more reference to a page.
    pub open spec fn referenced(self, k: u128) -> DedupView {
        DedupView {
            entries: self.entries.insert(
                k,
                DedupEntry {
                    ref_count: (self.entries[k].ref_count + 1) as u64,
                    ..self.entries[k]
                },
            ),
            ..self
        }
    }

    /// The table with one reference less to a page; the last one takes the
    /// page out.
    pub open spec fn dereferenced(self, k: u128) -> DedupView {
        if !self.entries.contains_key(k) {
            self
        } else if self.entries[k].ref_count > 1 {
            DedupView {
                entries: self.entries.insert(
                    k,
                    DedupEntry {
                        ref_count: (self.entries[k].ref_count - 1) as u64,
                        ..self.entries[k]
                    },
                ),
                ..self
            }
        } else {
            DedupView { entries: self.entries.remove(k), ..self }
        }
    }
}

impl DedupTable {
    /// Whether the filter would let a lookup of this fingerprint through.
    pub closed spec fn passes_filter(&self, fp: Seq<u8>) -> bool {
        self.bloom.may_hold(fp)
    }

    /// The filter in front of the table.
    pub closed spec fn filter(&self) -> BloomFilter {
        self.bloom
    }

    /// The filter knows every page of the table, so it never hides one.
    pub closed spec fn wf(&self) -> bool {
        &&& self.bloom.wf()
        &&& self.entries@.dom().finite()
        &&& forall|fp: Fingerprint| #[trigger]
            self.entries@.contains_key(fingerprint::key_of(fp)) ==> self.bloom.may_hold(fp@)
    }

    pub fn new(max_entries: u64, bloom_capacity: usize) -> (r: Self)
        ensures
            r.wf(),
            r@ == (DedupView {
                entries: Map::empty(),
                max_entries,
                unique_pages: 0,
                duplicate_hits: 0,
                bloom_false_positives: 0,
            }),
            forall|fp: Seq<u8>| !r.passes_filter(fp),
            forall|i: int| !r.filter().bit(i),
            64 <= 10 * bloom_capacity <= usize::MAX ==> r.filter().size() == 10 * bloom_capacity,
    {
        let r = DedupTable {
            entries: HashMap::new(),
            bloom: BloomFilter::new(bloom_capacity),
            max_entries,
            unique_pages: 0,
            duplicate_hits: 0,
            bloom_false_positives: 0,
        };
        assert forall|fp: Seq<u8>| !r.passes_filter(fp) by {
            assert(!r.bloom.bit(r.bloom.index_of(fp, 0)));
        }
        r
    }

    /// Looks a page up. It is a duplicate exactly if a page with its
    /// fingerprint is stored and their first bytes agree.
    pub fn lookup(&mut self, fp: &Fingerprint, page: &[u8]) -> (r: LookupResult)
        requires
            old(self).wf(),
        ensures
            final(self).wf(),
            forall|g: Seq<u8>| #[trigger]
                final(self).passes_filter(g) == old(self).passes_filter(g),
            final(self).filter() == old(self).filter(),
            r == old(self)@.lookup_result(fingerprint::key_of(*fp), page@),
            final(self)@ == old(self)@.looked_up(
                fingerprint::key_of(*fp),
                page@,
                old(self).passes_filter(fp@),
            ),
    {
        if !self.bloom.contains(fp) {
            return LookupResult::Miss;
        }
        let key: u128 = fingerprint_key(fp);
        match self.entries.get(&key) {
            None => {
                self.bloom_false_positives = self.bloom_false_positives.wrapping_add(1);
                LookupResult::Miss
            },
            Some(entry) => {
                let found: DedupEntry = *entry;
                if verify_page_prefix(found.prefix.as_slice(), page) {
                    self.duplicate_hits = self.duplicate_hits.wrapping_add(1);
                    LookupResult::Duplicate { backend_offset: found.backend_offset }
                } else {
                    LookupResult::Miss
                }
            },
        }
    }

    /// Adds a page with one reference. Refused if the table is full or if the
    /// fingerprint is taken.
    pub fn insert(&mut self, fp: Fingerprint, page: &[u8], backend_offset: u64) -> (r: bool)
        requires
            old(self).wf(),
        ensures
            final(self).wf(),
            r == old(self)@.accepts(fingerprint::key_of(fp)),
            r ==> final(self)@ == old(self)@.tracking(
                fingerprint::key_of(fp),
                backend_offset,
                final(self)@.entries[fingerprint::key_of(fp)].prefix,
            ),
            r ==> final(self)@.entries[fingerprint::key_of(fp)].prefix@ == fingerprint::padded(
                page@,
                64,
            ),
            !r ==> final(self)@ == old(self)@,
            r ==> final(self).passes_filter(fp@),
            forall|g: Seq<u8>| #[trigger]
                old(self).passes_filter(g) ==> final(self).passes_filter(g),
            !r ==> forall|g: Seq<u8>| #[trigger]
                final(self).passes_filter(g) == old(self).passes_filter(g),
            final(self).filter().size() == old(self).filter().size(),
            forall|k: int| #[trigger]
                final(self).filter().bit(k) == (old(self).filter().bit(k) || r && (k
                    == old(self).filter().index_of(fp@, 0) || k == old(self).filter().index_of(
                    fp@,
                    1,
                ) || k == old(self).filter().index_of(fp@, 2))),
            forall|g: Seq<u8>| #[trigger]
                final(self).passes_filter(g) == final(self).filter().may_hold(g),
    {
        let key: u128 = fingerprint_key(&fp);
        if self.entries.contains_key(&key) || self.entries.len() as u64 >= self.max_entries {
            return false;
        }
        let ghost before = *self;
        self.bloom.insert(&fp);
        assert forall|g: Seq<u8>| #[trigger] before.bloom.may_hold(g) implies self.bloom.may_hold(
            g,
        ) by {
            assert forall|i: int| 0 <= i < 3 implies self.bloom.bit(
                #[trigger] self.bloom.index_of(g, i),
            ) by {
                assert(before.bloom.bit(before.bloom.index_of(g, i)));
            }
        }
        self.entries.insert(
            key,
            DedupEntry { backend_offset, ref_count: 1, prefix: page_prefix(page) },
        );
        self.unique_pages = self.unique_pages.wrapping_add(1);
        assert forall|g: Fingerprint| #[trigger]
            self.entries@.contains_key(fingerprint::key_of(g)) implies self.bloom.may_hold(g@) by {
            if fingerprint::key_of(g) == key {
                fingerprint::law_key_identifies_fingerprint(g, fp);
            } else {
                assert(before.entries@.contains_key(fingerprint::key_of(g)));
            }
        }
        true
    }

    /// Adds a reference to a page that is tracked.
    pub fn add_reference(&mut self, fp: &Fingerprint) -> (r: bool)
        requires
            old(self).wf(),
        ensures
            final(self).wf(),
            r == (old(self)@.entries.contains_key(fingerprint::key_of(*fp))
                && old(self)@.entries[fingerprint::key_of(*fp)].ref_count < u64::MAX),
            final(self)@ == (if r {
                old(self)@.referenced(fingerprint::key_of(*fp))
            } else {
                old(self)@
            }),
            forall|g: Seq<u8>| #[trigger]
                final(self).passes_filter(g) == old(self).passes_filter(g),
            final(self).filter() == old(self).filter(),
    {
        let key: u128 = fingerprint_key(fp);
        match self.entries.get(&key) {
            None => false,
            Some(entry) => {
                let found: DedupEntry = *entry;
                if found.ref_count == u64::MAX {
                    return false;
                }
                let ghost before = *self;
                self.entries.insert(key, DedupEntry { ref_count: found.ref_count + 1, ..found });
                assert forall|g: Fingerprint| #[trigger]
                    self.entries@.contains_key(fingerprint::key_of(g)) implies self.bloom.may_hold(
                    g@,
                ) by {
                    assert(before.entries@.contains_key(fingerprint::key_of(g)));
                }
                true
            },
        }
    }

    /// Drops a reference; the last one takes the page out of the table.
    pub fn remove_reference(&mut self, fp: &Fingerprint) -> (r: ReferenceRemoval)
        requires
            old(self).wf(),
        ensures
            final(self).wf(),
            final(self)@ == old(self)@.dereferenced(fingerprint::key_of(*fp)),
            r == (if !old(self)@.entries.contains_key(fingerprint::key_of(*fp)) {
                ReferenceRemoval::NotTracked
            } else if old(self)@.entries[fingerprint::key_of(*fp)].ref_count > 1 {
                ReferenceRemoval::StillReferenced
            } else {
                ReferenceRemoval::Removed {
                    backend_offset: old(self)@.entries[fingerprint::key_of(*fp)].backend_offset,
                }
            }),
            forall|g: Seq<u8>| #[trigger]
                final(self).passes_filter(g) == old(self).passes_filter(g),
            final(self).filter() == old(self).filter(),
    {
        let key: u128 = fingerprint_key(fp);
        let ghost before = *self;
        match self.entries.get(&key) {
            None => ReferenceRemoval::NotTracked,
            Some(entry) => {
                let found: DedupEntry = *entry;
                if found.ref_count > 1 {
                    self.entries.insert(
                        key,
                        DedupEntry { ref_count: found.ref_count - 1, ..found },
                    );
                    assert forall|g: Fingerprint| #[trigger]
                        self.entries@.contains_key(
                            fingerprint::key_of(g),
                        ) implies self.bloom.may_hold(g@) by {
                        assert(before.entries@.contains_key(fingerprint::key_of(g)));
                    }
                    ReferenceRemoval::StillReferenced
                } else {
                    self.entries.remove(&key);
                    assert forall|g: Fingerprint| #[trigger]
                        self.entries@.contains_key(
                            fingerprint::key_of(g),
                        ) implies self.bloom.may_hold(g@) by {
                        assert(before.entries@.contains_key(fingerprint::key_of(g)));
                    }
                    ReferenceRemoval::Removed { backend_offset: found.backend_offset }
                }
            },
        }
    }

    /// Get dedup statistics. The table refuses pages when it is full and
    /// evicts none.
    pub fn stats(&self) -> (r: DedupStats)
        requires
            self.wf(),
        ensures
            r == (DedupStats {
                table_entries: self@.entries.len() as u64,
                unique_pages: self@.unique_pages,
                duplicate_hits: self@.duplicate_hits,
                evictions: 0,
                bloom_false_positives: self@.bloom_false_positives,
            }),
    {
        DedupStats {
            table_entries: self.entries.len() as u64,
            unique_pages: self.unique_pages,
            duplicate_hits: self.duplicate_hits,
            evictions: 0,
            bloom_false_positives: self.bloom_false_positives,
        }
    }
}

/// Adding a reference and dropping it again leaves the table as it was.
pub proof fn law_references_balance(t: DedupView, k: u128)
    requires
        t.entries.contains_key(k),
        1 <= t.entries[k].ref_count < u64::MAX,
    ensures
        t.referenced(k).dereferenced(k) == t,
{
    let u = t.referenced(k).dereferenced(k);
    assert(u.entries[k] == t.entries[k]);
    assert(u.entries =~= t.entries);
}

// ---------------------------------------------------------------------------
// Laws
// ---------------------------------------------------------------------------

/// A page that is tracked is found where it was stored, as long as it begins with the
/// bytes that were remembered; no other entry changes, and nothing else is counted but
/// one more unique page.
pub proof fn law_tracked_page_is_found(
    view: DedupView,
    k: u128,
    offset: u64,
    prefix: [u8; 64],
    page: Seq<u8>,
    other: u128,
)
    requires
        view.unique_pages < u64::MAX,
    ensures
        ({
            let after = view.tracking(k, offset, prefix);
            &&& (forall|i: int| 0 <= i < 64 && i < page.len() ==> #[trigger] prefix@[i] == page[i])
                <==> after.lookup_result(k, page) == (LookupResult::Duplicate {
                backend_offset: offset,
            })
            &&& other != k ==> after.lookup_result(other, page) == view.lookup_result(other, page)
            &&& after.entries[k].ref_count == 1
            &&& after.unique_pages == view.unique_pages + 1
            &&& after.duplicate_hits == view.duplicate_hits
            &&& after.bloom_false_positives == view.bloom_false_positives
            &&& after.max_entries == view.max_entries
        }),
{
    fingerprint::law_prefixes_agree_byte_by_byte(prefix@, page);
}

/// A page is only found if its key is known: without an entry a lookup misses.
pub proof fn law_unknown_page_is_missed(view: DedupView, k: u128, page: Seq<u8>)
    ensures
        !view.entries.contains_key(k) ==> view.lookup_result(k, page) is Miss,
        view.lookup_result(k, page) matches LookupResult::Duplicate { backend_offset } ==> {
            &&& view.entries.contains_key(k)
            &&& backend_offset == view.entries[k].backend_offset
        },
        view.accepts(k) <==> !view.entries.contains_key(k) && view.entries.len() + 1
            <= view.max_entries,
{
}

/// A lookup counts: a hit where the page is found, a false positive where the filter let a
/// key pass that has no entry, and else nothing. It changes no entry.
pub proof fn law_lookups_are_counted(view: DedupView, k: u128, page: Seq<u8>, passed: bool)
    requires
        view.duplicate_hits < u64::MAX,
        view.bloom_false_positives < u64::MAX,
    ensures
        ({
            let after = view.looked_up(k, page, passed);
            let hit = view.lookup_result(k, page) is Duplicate;
            &&& after.entries == view.entries
            &&& after.unique_pages == view.unique_pages
            &&& after.max_entries == view.max_entries
            &&& after.duplicate_hits - view.duplicate_hits == (if hit {
                1int
            } else {
                0int
            })
            &&& after.bloom_false_positives - view.bloom_false_positives == (if passed
                && !view.entries.contains_key(k) {
                1int
            } else {
                0int
            })
        }),
{
}

/// A reference more is a reference more, and nothing else changes.
pub proof fn law_references_are_counted(view: DedupView, k: u128)
    requires
        view.entries.contains_key(k),
        1 <= view.entries[k].ref_count < u64::MAX,
    ensures
        view.referenced(k).entries[k].ref_count == view.entries[k].ref_count + 1,
        view.referenced(k).entries[k].backend_offset == view.entries[k].backend_offset,
        view.referenced(k).entries[k].prefix == view.entries[k].prefix,
        view.entries[k].ref_count > 1 ==> view.dereferenced(k).entries.contains_key(k)
            && view.dereferenced(k).entries[k].ref_count == view.entries[k].ref_count - 1,
        view.entries[k].ref_count == 1 ==> !view.dereferenced(k).entries.contains_key(k),
        view.dereferenced(k).unique_pages == view.unique_pages,
        view.dereferenced(k).duplicate_hits == view.duplicate_hits,
        view.dereferenced(k).bloom_false_positives == view.bloom_false_positives,
{
}

/// The filter holds a fingerprint if it holds all three of its places.
pub proof fn law_filter_has_three_places(filter: BloomFilter, hash: u128)
    ensures
        ({
            let fp = fingerprint::le_bytes(hash as nat, 16);
            let low = (hash % 0x1_0000_0000_0000_0000) as u64;
            let high = (hash / 0x1_0000_0000_0000_0000) as u64;
            let sum = ((low + high) % 0x1_0000_0000_0000_0000) as u64;
            let n = filter.size();
            filter.may_hold(fp) <==> filter.bit(((low as usize) % n) as int) && filter.bit(
                ((high as usize) % n) as int,
            ) && filter.bit(((sum as usize) % n) as int)
        }),
{
    let fp = fingerprint::le_bytes(hash as nat, 16);
    fingerprint::law_filter_places_come_from_the_halves(hash);
    if filter.may_hold(fp) {
        assert(filter.bit(filter.index_of(fp, 0)));
        assert(filter.bit(filter.index_of(fp, 1)));
        assert(filter.bit(filter.index_of(fp, 2)));
    } else {
        let i = choose|i: int| 0 <= i < 3 && !filter.bit(#[trigger] filter.index_of(fp, i));
        assert(i == 0 || i == 1 || i == 2);
    }
}

} // verus!
