//! The storage engine of the swap proxy.
//!
//! The engine decides where a page goes; the caller moves the bytes. A write or
//! a read therefore runs in steps: each step says what has to be read from or
//! written to the page store, and the next one takes the outcome. Between the
//! steps of one operation the engine is not used for another.

use vstd::multiset::Multiset;
use vstd::prelude::*;

use crate::backend::{
    MappingKind, PageStore, PageStoreView, ProxyError, SlotAllocator, TranslationEntry,
    TranslationTable,
};
use crate::dedup::{DedupEntry, DedupTable, DedupView, LookupResult, ReferenceRemoval};
use crate::fingerprint;
use crate::fingerprint::{fingerprint_page, normalize_page, Fingerprint, PAGE_SIZE};
use crate::ledger;
use crate::ledger::Ledger;

verus! {

/// Statistics of the proxy.
#[derive(Debug, Clone, Copy)]
pub struct ProxyStats {
    pub total_writes: u64,
    pub unique_writes: u64,
    pub duplicate_writes: u64,
    pub total_reads: u64,
    pub discards: u64,
}

impl ProxyStats {
    pub fn new() -> (r: Self)
        ensures
            r == (ProxyStats {
                total_writes: 0,
                unique_writes: 0,
                duplicate_writes: 0,
                total_reads: 0,
                discards: 0,
            }),
    {
        ProxyStats {
            total_writes: 0,
            unique_writes: 0,
            duplicate_writes: 0,
            total_reads: 0,
            discards: 0,
        }
    }
}

/// A write that waits for the stored page that it may be a duplicate of.
pub struct PendingCheck {
    pub virtual_offset: u64,
    pub page: [u8; PAGE_SIZE],
    pub fingerprint: Fingerprint,
    /// The slot of the stored page.
    pub slot: u64,
}

/// A write that waits for its page to be stored.
pub struct PendingStore {
    pub virtual_offset: u64,
    pub page: [u8; PAGE_SIZE],
    /// The fingerprint under which the page is to be shared; none in
    /// passthrough mode.
    pub fingerprint: Option<Fingerprint>,
    /// The slot that is reserved for the page.
    pub slot: u64,
}

/// How a write goes on.
pub enum WriteStep {
    /// The write is over.
    Done(Result<(), ProxyError>),
    /// Read the page at byte `offset` of the store, then resume the check.
    Fetch { offset: u64, check: PendingCheck },
    /// Write `pending.page` at byte `offset` of the store, then complete it.
    Store { offset: u64, pending: PendingStore },
}

/// How a read goes on.
pub enum ReadStep {
    /// Nothing is stored there; this is the page.
    Done(Vec<u8>),
    /// Read the page at byte `offset` of the store, then finish the read.
    Fetch { offset: u64 },
}

/// The swap proxy storage engine.
pub struct ProxyEngine {
    pub dedup_table: DedupTable,
    pub store: PageStore,
    pub translation: TranslationTable,
    pub slot_allocator: SlotAllocator,
    pub stats: ProxyStats,
    /// While set, pages are stored without looking for duplicates.
    pub passthrough: bool,
}

/// Whether two pages hold the same bytes.
fn same_bytes(a: &[u8], b: &[u8]) -> (r: bool)
    ensures
        r == (a@ == b@),
{
    if a.len() != b.len() {
        return false;
    }
    let mut i: usize = 0;
    while i < a.len()
        invariant
            i <= a.len(),
            a.len() == b.len(),
            forall|k: int| 0 <= k < i ==> a@[k] == b@[k],
        decreases a.len() - i,
    {
        if a[i] != b[i] {
            return false;
        }
        i += 1;
    }
    assert(a@ =~= b@);
    true
}

/// What a page is compared by: its hash.
pub open spec fn page_key(page: Seq<u8>) -> u128 {
    fingerprint::xxh3_128_of(page)
}

impl PendingStore {
    /// Whether the dedup table takes the page.
    pub open spec fn is_shared(&self, before: &ProxyEngine) -> bool {
        self.fingerprint matches Some(fp) && before.dedup_table@.accepts(fingerprint::key_of(fp))
    }

    /// The engine went from `before` to `after` by completing this write: the
    /// page is mapped to its slot, under its fingerprint if the table took it.
    pub open spec fn completes(&self, before: &ProxyEngine, after: &ProxyEngine) -> bool {
        &&& after.store@ == PageStoreView {
            pages_written: before.store@.pages_written.wrapping_add(1),
            ..before.store@
        }
        &&& after.stats == ProxyStats {
            unique_writes: before.stats.unique_writes.wrapping_add(1),
            ..before.stats
        }
        &&& after.dedup_table@ == DedupView {
            entries: after.dedup_table@.entries,
            unique_pages: if self.is_shared(before) {
                before.dedup_table@.unique_pages.wrapping_add(1)
            } else {
                before.dedup_table@.unique_pages
            },
            ..before.dedup_table@
        }
        &&& if self.is_shared(before) {
            exists|entry: DedupEntry|
                {
                    &&& entry.backend_offset == self.slot
                    &&& entry.ref_count == 1
                    &&& entry.prefix@ == fingerprint::padded(self.page@, 64)
                    &&& after.ledger() == #[trigger] before.ledger().tracking(
                        fingerprint::key_of(self.fingerprint->0),
                        entry,
                    ).remapped(
                        self.virtual_offset,
                        TranslationEntry {
                            kind: MappingKind::Deduplicated { fingerprint: self.fingerprint->0 },
                            backend_slot: self.slot,
                        },
                    )
                }
        } else {
            after.ledger() == before.ledger().remapped(
                self.virtual_offset,
                TranslationEntry { kind: MappingKind::Direct, backend_slot: self.slot },
            )
        }
    }
}

impl PendingCheck {
    /// The engine went from `before` to `after` by sharing the stored page.
    pub open spec fn shares(&self, before: &ProxyEngine, after: &ProxyEngine) -> bool {
        &&& after.ledger() == before.ledger().referenced(
            fingerprint::key_of(self.fingerprint),
        ).remapped(
            self.virtual_offset,
            TranslationEntry {
                kind: MappingKind::Deduplicated { fingerprint: self.fingerprint },
                backend_slot: self.slot,
            },
        )
        &&& after.stats == ProxyStats {
            duplicate_writes: before.stats.duplicate_writes.wrapping_add(1),
            ..before.stats
        }
    }

    /// Whether the table still knows the page that this one may duplicate.
    pub open spec fn fits(&self, engine: &ProxyEngine) -> bool {
        let k = fingerprint::key_of(self.fingerprint);
        &&& engine.ledger().table.contains_key(k)
        &&& engine.ledger().table[k].backend_offset == self.slot
    }
}

impl WriteStep {
    /// The write of `page` to `v` waits for a slot of its own to be filled, or
    /// failed because there is none.
    pub open spec fn stores(
        self,
        before: &ProxyEngine,
        after: &ProxyEngine,
        v: u64,
        page: Seq<u8>,
        key: Option<u128>,
    ) -> bool {
        match self {
            WriteStep::Done(result) => {
                &&& result == Err::<(), _>(ProxyError::StoreFull)
                &&& before.slot_allocator.is_full()
                &&& after.ledger() == before.ledger()
                &&& after.wf()
            },
            WriteStep::Fetch { .. } => false,
            WriteStep::Store { offset, pending } => {
                &&& pending.virtual_offset == v
                &&& pending.page@ == page
                &&& match (pending.fingerprint, key) {
                    (Some(fp), Some(k)) => fingerprint::key_of(fp) == k,
                    (None, None) => true,
                    _ => false,
                }
                &&& pending.slot < before.store@.total_slots
                &&& offset == pending.slot * PAGE_SIZE
                &&& !before.ledger().allocated.contains(pending.slot)
                &&& after.ledger() == before.ledger().reserving(pending.slot)
                &&& after.wf_with(set![pending.slot])
            },
        }
    }
}

impl WriteStep {
    /// This is how the write of `data` to `v` begins, and the engine goes from
    /// `before` to `after` by it. In passthrough mode the page is stored; else
    /// it is checked against the page that it seems to duplicate, or stored if
    /// there is none.
    pub open spec fn starts_write(
        self,
        before: &ProxyEngine,
        after: &ProxyEngine,
        v: u64,
        data: Seq<u8>,
    ) -> bool {
        let page = fingerprint::padded(data, PAGE_SIZE as nat);
        let k = page_key(page);
        &&& after.translation@ == before.translation@
        &&& after.store@ == before.store@
        &&& after.stats == ProxyStats {
            total_writes: before.stats.total_writes.wrapping_add(1),
            ..before.stats
        }
        &&& after.passthrough == before.passthrough
        &&& if before.passthrough {
            &&& self.stores(before, after, v, page, None)
            &&& after.dedup_table@ == before.dedup_table@
        } else {
            &&& after.dedup_table@ == before.dedup_table@.looked_up(
                k,
                page,
                before.dedup_table.passes_filter(fingerprint::le_bytes(k as nat, 16)),
            )
            &&& if before.dedup_table@.finds(k, page) {
                &&& self matches WriteStep::Fetch { offset, check }
                &&& check.virtual_offset == v
                &&& check.page@ == page
                &&& fingerprint::key_of(check.fingerprint) == k
                &&& check.fits(after)
                &&& check.slot == before.ledger().table[k].backend_offset
                &&& offset == check.slot * PAGE_SIZE
                &&& after.ledger() == before.ledger()
                &&& after.wf()
            } else {
                self.stores(before, after, v, page, Some(k))
            }
        }
    }

    /// This is how a write goes on after the stored page that it seems to
    /// duplicate was read as `bytes`. The page is shared if all bytes agree and
    /// its count allows another reference.
    pub open spec fn resumes_check(
        self,
        before: &ProxyEngine,
        after: &ProxyEngine,
        check: PendingCheck,
        bytes: Seq<u8>,
    ) -> bool {
        let k = fingerprint::key_of(check.fingerprint);
        &&& after.store@ == PageStoreView {
            pages_read: before.store@.pages_read.wrapping_add(1),
            ..before.store@
        }
        &&& after.dedup_table@ == DedupView {
            entries: after.dedup_table@.entries,
            ..before.dedup_table@
        }
        &&& after.passthrough == before.passthrough
        &&& if bytes == check.page@ && before.ledger().table[k].ref_count < u64::MAX {
            &&& self == WriteStep::Done(Ok(()))
            &&& check.shares(before, after)
            &&& after.wf()
        } else {
            &&& self.stores(before, after, check.virtual_offset, check.page@, Some(k))
            &&& after.stats == before.stats
        }
    }
}

impl ReadStep {
    /// This is how the read of `v` begins, and the engine goes from `before` to
    /// `after` by it.
    pub open spec fn starts_read(self, before: &ProxyEngine, after: &ProxyEngine, v: u64) -> bool {
        &&& after.wf()
        &&& after.ledger() == before.ledger()
        &&& after.dedup_table@ == before.dedup_table@
        &&& after.store@ == before.store@
        &&& after.passthrough == before.passthrough
        &&& after.stats == ProxyStats {
            total_reads: before.stats.total_reads.wrapping_add(1),
            ..before.stats
        }
        &&& match self {
            ReadStep::Done(page) => {
                &&& !before.ledger().mapping.contains_key(v)
                &&& page@ == fingerprint::zero_page()
            },
            ReadStep::Fetch { offset } => {
                &&& before.ledger().mapping.contains_key(v)
                &&& before.ledger().mapping[v].backend_slot < before.store@.total_slots
                &&& offset == before.ledger().mapping[v].backend_slot * PAGE_SIZE
            },
        }
    }
}

impl ProxyEngine {
    /// The engine went from `before` to `after` by forgetting the page at `v`.
    pub open spec fn discards(before: &ProxyEngine, after: &ProxyEngine, v: u64) -> bool {
        &&& after.wf()
        &&& after.ledger() == before.ledger().unmapped(v)
        &&& after.dedup_table@ == DedupView {
            entries: after.dedup_table@.entries,
            ..before.dedup_table@
        }
        &&& after.store@ == before.store@
        &&& after.passthrough == before.passthrough
        &&& after.stats == ProxyStats {
            discards: before.stats.discards.wrapping_add(1),
            ..before.stats
        }
    }

    /// The accounting state of the engine.
    pub open spec fn ledger(&self) -> Ledger {
        Ledger {
            mapping: self.translation@,
            table: self.dedup_table@.entries,
            allocated: self.slot_allocator.allocated(),
        }
    }

    /// The parts of the engine are each in order.
    pub open spec fn parts_wf(&self) -> bool {
        &&& self.dedup_table.wf()
        &&& self.store.wf()
        &&& self.slot_allocator.wf()
        &&& self.slot_allocator.total() == self.store@.total_slots
    }

    /// The engine is in order, with the given slots reserved.
    pub open spec fn wf_with(&self, reserved: Set<u64>) -> bool {
        &&& self.parts_wf()
        &&& self.ledger().balanced(reserved, Multiset::empty())
    }

    /// The engine is in order between operations.
    pub open spec fn wf(&self) -> bool {
        self.wf_with(Set::empty())
    }

    /// An empty engine for a device of `size_gb` gigabytes. If the page store
    /// does not exist yet, the length that its file must be given comes with it.
    /// Passthrough is on: duplicates are only looked for once pressure is low.
    pub fn new(
        store_exists: bool,
        size_gb: u64,
        max_entries: u64,
        bloom_capacity: usize,
    ) -> (r: (Self, Option<u64>))
        requires
            size_gb * 0x4000_0000 <= u64::MAX,
        ensures
            r.0.wf(),
            r.0.ledger() == (Ledger {
                mapping: Map::empty(),
                table: Map::empty(),
                allocated: Set::empty(),
            }),
            r.0.dedup_table@ == (DedupView {
                entries: Map::empty(),
                max_entries,
                unique_pages: 0,
                duplicate_hits: 0,
                bloom_false_positives: 0,
            }),
            r.0.store@ == (PageStoreView {
                total_slots: (size_gb * 0x4000_0000 / 4096) as u64,
                pages_written: 0,
                pages_read: 0,
            }),
            r.0.stats == (ProxyStats {
                total_writes: 0,
                unique_writes: 0,
                duplicate_writes: 0,
                total_reads: 0,
                discards: 0,
            }),
            r.0.passthrough,
            r.1 == (if store_exists {
                None
            } else {
                Some((size_gb * 0x4000_0000) as u64)
            }),
    {
        let bytes: u64 = size_gb * 0x4000_0000;
        let total_slots: u64 = bytes / PAGE_SIZE as u64;
        assert(bytes == 4096 * (size_gb * 0x4_0000));
        assert(total_slots * 4096 == bytes);
        let (store, length) = if store_exists {
            (PageStore::open(total_slots), None)
        } else {
            let (store, length) = PageStore::create_file(total_slots);
            (store, Some(length))
        };
        let engine = ProxyEngine {
            dedup_table: DedupTable::new(max_entries, bloom_capacity),
            store,
            translation: TranslationTable::new(),
            slot_allocator: SlotAllocator::new(total_slots),
            stats: ProxyStats::new(),
            passthrough: true,
        };
        (engine, length)
    }

    /// Gives up what a mapping that is no longer there claimed.
    fn release_mapping(&mut self, entry: TranslationEntry)
        requires
            old(self).parts_wf(),
            old(self).ledger().backs(entry),
        ensures
            final(self).parts_wf(),
            final(self).ledger() == old(self).ledger().released(entry),
            final(self).dedup_table@ == (DedupView {
                entries: final(self).dedup_table@.entries,
                ..old(self).dedup_table@
            }),
            final(self).store@ == old(self).store@,
            final(self).stats == old(self).stats,
            final(self).passthrough == old(self).passthrough,
    {
        match entry.kind {
            MappingKind::Direct => {
                self.slot_allocator.free(entry.backend_slot);
            },
            MappingKind::Deduplicated { fingerprint } => {
                match self.dedup_table.remove_reference(&fingerprint) {
                    ReferenceRemoval::StillReferenced => {},
                    ReferenceRemoval::Removed { backend_offset } => {
                        self.slot_allocator.free(backend_offset);
                    },
                    ReferenceRemoval::NotTracked => {
                        // The table does not know the page, so the mapping was
                        // the only owner of the slot.
                        self.slot_allocator.free(entry.backend_slot);
                    },
                }
            },
        }
    }

    /// Maps a virtual offset to a new place and releases its old one.
    fn replace_mapping(&mut self, virtual_offset: u64, entry: TranslationEntry)
        requires
            old(self).parts_wf(),
            old(self).ledger().mapping.contains_key(virtual_offset) ==> old(self).ledger().backs(
                old(self).ledger().mapping[virtual_offset],
            ),
        ensures
            final(self).parts_wf(),
            final(self).ledger() == old(self).ledger().remapped(virtual_offset, entry),
            final(self).dedup_table@ == (DedupView {
                entries: final(self).dedup_table@.entries,
                ..old(self).dedup_table@
            }),
            final(self).store@ == old(self).store@,
            final(self).stats == old(self).stats,
            final(self).passthrough == old(self).passthrough,
    {
        let replaced = self.translation.insert(virtual_offset, entry);
        assert(self.ledger() == old(self).ledger().with(virtual_offset, entry));
        match replaced {
            Some(entry) => self.release_mapping(entry),
            None => {},
        }
    }

    /// Reserves a slot for a page.
    fn reserve_slot(
        &mut self,
        virtual_offset: u64,
        page: [u8; PAGE_SIZE],
        fingerprint: Option<Fingerprint>,
    ) -> (r: WriteStep)
        requires
            old(self).wf(),
        ensures
            r.stores(
                old(self),
                final(self),
                virtual_offset,
                page@,
                match fingerprint {
                    Some(fp) => Some(fingerprint::key_of(fp)),
                    None => None,
                },
            ),
            final(self).dedup_table == old(self).dedup_table,
            final(self).translation == old(self).translation,
            final(self).store == old(self).store,
            final(self).stats == old(self).stats,
            final(self).passthrough == old(self).passthrough,
    {
        match self.slot_allocator.allocate() {
            None => {
                assert(self.ledger() =~= old(self).ledger());
                WriteStep::Done(Err(ProxyError::StoreFull))
            },
            Some(slot) => {
                proof {
                    assert(self.ledger() =~= old(self).ledger().reserving(slot));
                    ledger::lemma_reserve(
                        old(self).ledger(),
                        Set::empty(),
                        Multiset::empty(),
                        slot,
                    );
                    assert(Set::<u64>::empty().insert(slot) =~= set![slot]);
                }
                match self.store.write_page(slot, page.as_slice()) {
                    Err(e) => WriteStep::Done(Err(e)),
                    Ok(write) => {
                        assert(write.page@ =~= page@);
                        WriteStep::Store {
                            offset: write.offset,
                            pending: PendingStore {
                                virtual_offset,
                                page: write.page,
                                fingerprint,
                                slot,
                            },
                        }
                    },
                }
            },
        }
    }

    /// Starts the write of a page: fingerprint, check for a duplicate, store or
    /// share. Data that is shorter or longer than a page is padded or cut.
    pub fn handle_write(&mut self, virtual_offset: u64, data: &[u8]) -> (r: WriteStep)
        requires
            old(self).wf(),
        ensures
            r.starts_write(old(self), final(self), virtual_offset, data@),
    {
        self.stats.total_writes = self.stats.total_writes.wrapping_add(1);
        let page: [u8; PAGE_SIZE] = normalize_page(data);
        if self.passthrough {
            assert(self.ledger() =~= old(self).ledger());
            return self.reserve_slot(virtual_offset, page, None);
        }
        let fp = fingerprint_page(page.as_slice());
        match self.dedup_table.lookup(&fp, page.as_slice()) {
            LookupResult::Duplicate { backend_offset } => {
                assert(self.ledger() =~= old(self).ledger());
                proof {
                    let k = page_key(page@);
                    let l = self.ledger();
                    assert(l.owns(ledger::Owner::Table(k), backend_offset));
                    crate::backend::law_allocated_slots_exist(self.slot_allocator, backend_offset);
                }
                match self.store.read_page(backend_offset) {
                    Err(e) => WriteStep::Done(Err(e)),
                    Ok(offset) => WriteStep::Fetch {
                        offset,
                        check: PendingCheck {
                            virtual_offset,
                            page,
                            fingerprint: fp,
                            slot: backend_offset,
                        },
                    },
                }
            },
            LookupResult::Miss => {
                assert(self.ledger() =~= old(self).ledger());
                self.reserve_slot(virtual_offset, page, Some(fp))
            },
        }
    }

    /// Goes on with a write once the page that it may duplicate was read. Only
    /// if all bytes agree is the stored page shared.
    pub fn resume_check(&mut self, pending: PendingCheck, stored: Result<Vec<u8>, String>) -> (r:
        WriteStep)
        requires
            old(self).wf(),
            pending.fits(old(self)),
        ensures
            match stored {
                Err(e) => {
                    &&& r == WriteStep::Done(Err(ProxyError::Device(e)))
                    &&& *final(self) == *old(self)
                },
                Ok(bytes) => r.resumes_check(old(self), final(self), pending, bytes@),
            },
    {
        let bytes = match stored {
            Err(e) => {
                return WriteStep::Done(Err(ProxyError::Device(e)));
            },
            Ok(bytes) => bytes,
        };
        self.store.count_read();
        assert(self.ledger() =~= old(self).ledger());
        let ghost k = fingerprint::key_of(pending.fingerprint);
        let ghost before = self.ledger();
        let ghost slot = pending.slot;
        if same_bytes(bytes.as_slice(), pending.page.as_slice()) && self.dedup_table.add_reference(
            &pending.fingerprint,
        ) {
            let entry = TranslationEntry::deduplicated(pending.fingerprint, pending.slot);
            assert(self.ledger() =~= before.referenced(k));
            proof {
                let v = pending.virtual_offset;
                let held = Multiset::<u128>::empty().insert(k);
                ledger::lemma_reference(before, Set::empty(), Multiset::empty(), k);
                ledger::lemma_remapped_shared(self.ledger(), Set::empty(), held, v, entry, k);
                assert(held.remove(k) =~= Multiset::empty());
                if before.mapping.contains_key(v) {
                    ledger::lemma_backs(self.ledger(), Set::empty(), held, v);
                }
            }
            self.stats.duplicate_writes = self.stats.duplicate_writes.wrapping_add(1);
            assert(self.ledger() =~= before.referenced(k));
            self.replace_mapping(pending.virtual_offset, entry);
            WriteStep::Done(Ok(()))
        } else {
            assert(self.ledger() =~= before);
            self.reserve_slot(pending.virtual_offset, pending.page, Some(pending.fingerprint))
        }
    }

    /// Ends a write once its page was stored, or failed to be. A page that was
    /// stored is offered to the dedup table; if the table does not take it, the
    /// mapping owns the slot.
    pub fn complete_store(&mut self, pending: PendingStore, result: Result<(), String>) -> (r:
        Result<(), ProxyError>)
        requires
            old(self).wf_with(set![pending.slot]),
        ensures
            final(self).wf(),
            final(self).passthrough == old(self).passthrough,
            match result {
                Err(e) => {
                    &&& r == Err::<(), _>(ProxyError::Device(e))
                    &&& final(self).ledger() == old(self).ledger().freeing(pending.slot)
                    &&& final(self).dedup_table@ == old(self).dedup_table@
                    &&& final(self).store@ == old(self).store@
                    &&& final(self).stats == old(self).stats
                },
                Ok(_) => {
                    &&& r == Ok::<_, ProxyError>(())
                    &&& pending.completes(old(self), final(self))
                },
            },
    {
        let ghost before = self.ledger();
        let ghost reserved = set![pending.slot];
        let ghost none = Multiset::<u128>::empty();
        let slot: u64 = pending.slot;
        let v: u64 = pending.virtual_offset;
        assert(reserved.contains(slot));
        assert(reserved.remove(slot) =~= Set::empty());
        match result {
            Err(e) => {
                proof {
                    ledger::lemma_free(before, reserved, none, slot);
                }
                self.slot_allocator.free(slot);
                assert(self.ledger() =~= before.freeing(slot));
                return Err(ProxyError::Device(e));
            },
            Ok(_) => {},
        }
        self.store.count_write();
        let shared: Option<Fingerprint> = match pending.fingerprint {
            Some(fp) => if self.dedup_table.insert(fp, pending.page.as_slice(), slot) {
                Some(fp)
            } else {
                None
            },
            None => None,
        };
        let entry = match shared {
            Some(fp) => TranslationEntry::deduplicated(fp, slot),
            None => TranslationEntry::direct(slot),
        };
        self.stats.unique_writes = self.stats.unique_writes.wrapping_add(1);
        let ghost middle = self.ledger();
        proof {
            match shared {
                Some(fp) => {
                    let k = fingerprint::key_of(fp);
                    let e = self.dedup_table@.entries[k];
                    let held = none.insert(k);
                    assert(middle =~= before.tracking(k, e));
                    ledger::lemma_track(before, reserved, none, k, e);
                    ledger::lemma_remapped_shared(middle, Set::empty(), held, v, entry, k);
                    assert(held.remove(k) =~= none);
                    if middle.mapping.contains_key(v) {
                        ledger::lemma_backs(middle, Set::empty(), held, v);
                    }
                },
                None => {
                    assert(middle =~= before);
                    ledger::lemma_remapped_direct(before, reserved, none, v, entry);
                    if middle.mapping.contains_key(v) {
                        ledger::lemma_backs(before, reserved, none, v);
                    }
                },
            }
        }
        self.replace_mapping(v, entry);
        Ok(())
    }

    /// Starts the read of a page. What was never written reads as zeroes.
    pub fn handle_read(&mut self, virtual_offset: u64) -> (r: ReadStep)
        requires
            old(self).wf(),
        ensures
            r.starts_read(old(self), final(self), virtual_offset),
    {
        self.stats.total_reads = self.stats.total_reads.wrapping_add(1);
        assert(self.ledger() =~= old(self).ledger());
        let slot: u64 = match self.translation.lookup(virtual_offset) {
            None => {
                let page: Vec<u8> = vec![0u8; PAGE_SIZE];
                assert(page@ =~= fingerprint::zero_page());
                return ReadStep::Done(page);
            },
            Some(entry) => entry.backend_slot,
        };
        proof {
            ledger::lemma_backs(self.ledger(), Set::empty(), Multiset::empty(), virtual_offset);
            crate::backend::law_allocated_slots_exist(self.slot_allocator, slot);
        }
        match self.store.read_page(slot) {
            Ok(offset) => ReadStep::Fetch { offset },
            Err(_) => ReadStep::Done(Vec::new()),
        }
    }

    /// Ends a read with what came from the store.
    pub fn finish_read(&mut self, result: Result<Vec<u8>, String>) -> (r: Result<
        Vec<u8>,
        ProxyError,
    >)
        requires
            old(self).wf(),
        ensures
            final(self).wf(),
            final(self).ledger() == old(self).ledger(),
            final(self).dedup_table@ == old(self).dedup_table@,
            final(self).stats == old(self).stats,
            final(self).passthrough == old(self).passthrough,
            match result {
                Ok(page) => {
                    &&& r == Ok::<_, ProxyError>(page)
                    &&& final(self).store@ == (PageStoreView {
                        pages_read: old(self).store@.pages_read.wrapping_add(1),
                        ..old(self).store@
                    })
                },
                Err(e) => {
                    &&& r == Err::<Vec<u8>, _>(ProxyError::Device(e))
                    &&& final(self).store@ == old(self).store@
                },
            },
    {
        match result {
            Ok(page) => {
                self.store.count_read();
                assert(self.ledger() =~= old(self).ledger());
                Ok(page)
            },
            Err(e) => Err(ProxyError::Device(e)),
        }
    }

    /// Forgets a page.
    pub fn handle_discard(&mut self, virtual_offset: u64)
        requires
            old(self).wf(),
        ensures
            Self::discards(old(self), final(self), virtual_offset),
    {
        let ghost before = self.ledger();
        self.stats.discards = self.stats.discards.wrapping_add(1);
        proof {
            ledger::lemma_unmapped(before, Set::empty(), Multiset::empty(), virtual_offset);
            if before.mapping.contains_key(virtual_offset) {
                ledger::lemma_backs(before, Set::empty(), Multiset::empty(), virtual_offset);
            }
        }
        let removed = self.translation.remove(virtual_offset);
        assert(self.ledger() =~= before.without(virtual_offset));
        match removed {
            Some(entry) => self.release_mapping(entry),
            None => {
                assert(self.ledger() =~= before);
            },
        }
    }
}

// ---------------------------------------------------------------------------
// Laws
// ---------------------------------------------------------------------------

/// Mapping an offset to a new place changes where that offset is read from, and
/// nothing else.
proof fn lemma_remapped_mapping(l: Ledger, v: u64, entry: TranslationEntry)
    ensures
        l.remapped(v, entry).mapping == l.mapping.insert(v, entry),
{
}

/// A page that was stored is read back: after a write whose page went to the
/// slot that it was given, the offset reads as that page, and every other
/// offset reads as before.
pub proof fn law_stored_page_is_read_back(
    before: &ProxyEngine,
    waiting: &ProxyEngine,
    after: &ProxyEngine,
    offset: u64,
    pending: PendingStore,
    v: u64,
    page: Seq<u8>,
    key: Option<u128>,
    disk: Map<u64, Seq<u8>>,
    u: u64,
)
    requires
        before.wf(),
        (WriteStep::Store { offset, pending }).stores(before, waiting, v, page, key),
        pending.completes(waiting, after),
    ensures
        after.ledger().page_at(disk.insert(pending.slot, page), u) == (if u == v {
            page
        } else {
            before.ledger().page_at(disk, u)
        }),
{
    let l = waiting.ledger();
    ledger::law_reserved_slots_are_never_read(
        l,
        set![pending.slot],
        Multiset::empty(),
        disk,
        pending.slot,
        page,
        u,
    );
    if pending.is_shared(waiting) {
        let k = fingerprint::key_of(pending.fingerprint->0);
        let target = TranslationEntry {
            kind: MappingKind::Deduplicated { fingerprint: pending.fingerprint->0 },
            backend_slot: pending.slot,
        };
        let entry = choose|entry: DedupEntry|
            after.ledger() == #[trigger] l.tracking(k, entry).remapped(v, target);
        lemma_remapped_mapping(l.tracking(k, entry), v, target);
    } else {
        lemma_remapped_mapping(
            l,
            v,
            TranslationEntry { kind: MappingKind::Direct, backend_slot: pending.slot },
        );
    }
}

/// A page that the table took is found by the next write of the same bytes, so
/// it is stored only once.
pub proof fn law_stored_page_is_found_again(
    before: &ProxyEngine,
    waiting: &ProxyEngine,
    after: &ProxyEngine,
    offset: u64,
    pending: PendingStore,
    v: u64,
    page: Seq<u8>,
)
    requires
        before.wf(),
        (WriteStep::Store { offset, pending }).stores(
            before,
            waiting,
            v,
            page,
            Some(page_key(page)),
        ),
        pending.is_shared(waiting),
        pending.completes(waiting, after),
    ensures
        after.dedup_table@.finds(page_key(page), page),
{
    let l = waiting.ledger();
    let k = page_key(page);
    let target = TranslationEntry {
        kind: MappingKind::Deduplicated { fingerprint: pending.fingerprint->0 },
        backend_slot: pending.slot,
    };
    let entry = choose|entry: DedupEntry|
        {
            &&& entry.prefix@ == fingerprint::padded(page, 64)
            &&& after.ledger() == #[trigger] l.tracking(k, entry).remapped(v, target)
        };
    fingerprint::law_page_agrees_with_its_prefix(page);
    if l.mapping.contains_key(v) {
        match l.mapping[v].shared_key() {
            Some(j) => {
                assert(l.owns(ledger::Owner::Table(j), l.mapping[v].backend_slot));
                assert(j != k);
            },
            None => {},
        }
    }
    assert(after.ledger().table[k] == entry);
}

/// A page that is shared is read back: after a write whose bytes were found in
/// the store, the offset reads as that page, and every other offset reads as
/// before.
pub proof fn law_shared_page_is_read_back(
    before: &ProxyEngine,
    after: &ProxyEngine,
    check: PendingCheck,
    disk: Map<u64, Seq<u8>>,
    u: u64,
)
    requires
        disk[check.slot] == check.page@,
        check.shares(before, after),
    ensures
        after.ledger().page_at(disk, u) == (if u == check.virtual_offset {
            check.page@
        } else {
            before.ledger().page_at(disk, u)
        }),
{
    lemma_remapped_mapping(
        before.ledger().referenced(fingerprint::key_of(check.fingerprint)),
        check.virtual_offset,
        TranslationEntry {
            kind: MappingKind::Deduplicated { fingerprint: check.fingerprint },
            backend_slot: check.slot,
        },
    );
}

/// A write that failed while its page was stored leaves the accounting as it
/// was, and every offset reads as before, whatever ended up in the slot.
pub proof fn law_failed_store_changes_nothing(
    before: &ProxyEngine,
    waiting: &ProxyEngine,
    offset: u64,
    pending: PendingStore,
    v: u64,
    page: Seq<u8>,
    key: Option<u128>,
    disk: Map<u64, Seq<u8>>,
    garbage: Seq<u8>,
    u: u64,
)
    requires
        before.wf(),
        (WriteStep::Store { offset, pending }).stores(before, waiting, v, page, key),
    ensures
        waiting.ledger().freeing(pending.slot) == before.ledger(),
        before.ledger().page_at(disk.insert(pending.slot, garbage), u) == before.ledger().page_at(
            disk,
            u,
        ),
{
    assert(waiting.ledger().freeing(pending.slot) =~= before.ledger());
    ledger::law_reserved_slots_are_never_read(
        waiting.ledger(),
        set![pending.slot],
        Multiset::empty(),
        disk,
        pending.slot,
        garbage,
        u,
    );
}

/// A discarded page reads as zeroes, whatever its slot still holds; every other
/// offset reads as before.
pub proof fn law_discarded_page_reads_as_zeroes(
    engine: &ProxyEngine,
    v: u64,
    disk: Map<u64, Seq<u8>>,
    u: u64,
)
    ensures
        engine.ledger().unmapped(v).page_at(disk, u) == (if u == v {
            fingerprint::zero_page()
        } else {
            engine.ledger().page_at(disk, u)
        }),
{
}

/// Once every page was discarded, every slot is free again.
pub proof fn law_empty_engine_holds_no_slot(engine: &ProxyEngine)
    requires
        engine.wf(),
        engine.ledger().mapping.dom() =~= Set::<u64>::empty(),
    ensures
        engine.slot_allocator.allocated() =~= Set::<u64>::empty(),
{
    ledger::law_no_slot_leaks(engine.ledger());
}

/// The page of a slot lies at 4096 times its number, inside the store: what is written
/// there is read there, and no two slots touch.
pub proof fn law_slots_lie_at_their_offsets(
    before: &ProxyEngine,
    after: &ProxyEngine,
    v: u64,
    page: Seq<u8>,
    key: Option<u128>,
    write: WriteStep,
    read: ReadStep,
)
    ensures
        write.stores(before, after, v, page, key) ==> match write {
            WriteStep::Store { offset, pending } => {
                &&& offset % 4096 == 0
                &&& offset / 4096 == pending.slot
                &&& offset + 4096 <= before.store@.total_slots * 4096
            },
            _ => true,
        },
        read.starts_read(before, after, v) ==> match read {
            ReadStep::Fetch { offset } => {
                &&& offset % 4096 == 0
                &&& offset / 4096 == before.ledger().mapping[v].backend_slot
                &&& offset + 4096 <= before.store@.total_slots * 4096
            },
            _ => true,
        },
{
}

/// A page that may be a duplicate is compared with the page in the slot of the entry, as a
/// whole: it is shared only if all bytes are equal.
pub proof fn law_only_equal_pages_are_shared(
    before: &ProxyEngine,
    after: &ProxyEngine,
    v: u64,
    data: Seq<u8>,
    step: WriteStep,
    checked: &ProxyEngine,
    check: PendingCheck,
    bytes: Seq<u8>,
)
    ensures
        step.starts_write(before, after, v, data) ==> match step {
            WriteStep::Fetch { offset, check } => {
                &&& offset % 4096 == 0
                &&& offset / 4096 == check.slot
                &&& check.slot == before.dedup_table@.entries[page_key(
                    check.page@,
                )].backend_offset
                &&& check.virtual_offset == v
                &&& !before.passthrough
            },
            _ => true,
        },
        step.resumes_check(after, checked, check, bytes) && step is Done && step->Done_0 is Ok
            ==> bytes == check.page@,
{
}

/// No step switches deduplication on or off or changes the size of the store. Starting a
/// read or a write and discarding neither write a page nor read one; a page that is
/// compared counts as read, and a page that was stored counts as written.
pub proof fn law_steps_leave_the_rest_alone(
    before: &ProxyEngine,
    after: &ProxyEngine,
    v: u64,
    data: Seq<u8>,
    write: WriteStep,
    read: ReadStep,
    check: PendingCheck,
    pending: PendingStore,
)
    requires
        before.store@.pages_read < u64::MAX,
        before.store@.pages_written < u64::MAX,
    ensures
        write.starts_write(before, after, v, data) ==> {
            &&& after.passthrough == before.passthrough
            &&& after.store@.total_slots == before.store@.total_slots
            &&& after.store@.pages_read == before.store@.pages_read
            &&& after.store@.pages_written == before.store@.pages_written
        },
        write.resumes_check(before, after, check, data) ==> {
            &&& after.passthrough == before.passthrough
            &&& after.store@.total_slots == before.store@.total_slots
            &&& after.store@.pages_read == before.store@.pages_read + 1
            &&& after.store@.pages_written == before.store@.pages_written
        },
        read.starts_read(before, after, v) ==> {
            &&& after.passthrough == before.passthrough
            &&& after.store@.total_slots == before.store@.total_slots
            &&& after.store@.pages_read == before.store@.pages_read
            &&& after.store@.pages_written == before.store@.pages_written
        },
        ProxyEngine::discards(before, after, v) ==> {
            &&& after.passthrough == before.passthrough
            &&& after.store@.total_slots == before.store@.total_slots
            &&& after.store@.pages_read == before.store@.pages_read
            &&& after.store@.pages_written == before.store@.pages_written
        },
        pending.completes(before, after) ==> {
            &&& after.store@.total_slots == before.store@.total_slots
            &&& after.store@.pages_read == before.store@.pages_read
            &&& after.store@.pages_written == before.store@.pages_written + 1
        },
{
}

/// Without deduplication every write is stored on its own, and no fingerprint is kept.
pub proof fn law_passthrough_stores_every_page(
    before: &ProxyEngine,
    after: &ProxyEngine,
    v: u64,
    data: Seq<u8>,
    write: WriteStep,
)
    requires
        before.passthrough,
        write.starts_write(before, after, v, data),
    ensures
        match write {
            WriteStep::Store { pending, .. } => {
                &&& pending.fingerprint is None
                &&& pending.virtual_offset == v
                &&& pending.page@.len() == 4096
            },
            WriteStep::Done(result) => result == Err::<(), _>(ProxyError::StoreFull),
            WriteStep::Fetch { .. } => false,
        },
{
}

} // verus!
