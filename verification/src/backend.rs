//! Backend bookkeeping of the swap proxy.
//!
//! Keeps track of the page slots of the underlying device and of the
//! translation between virtual swap offsets and backend slots. The page bytes
//! themselves are read and written by the caller, at the offsets given here.

use std::collections::HashMap;

use vstd::prelude::*;
use vstd::string::StringExecFns;

use crate::fingerprint;
use crate::fingerprint::{normalize_page, Fingerprint, PAGE_SIZE};
use crate::text;
use crate::text::decimal_text;

verus! {

broadcast use vstd::std_specs::hash::group_hash_axioms;

/// What can go wrong in the swap proxy.
#[derive(Debug, Clone)]
pub enum ProxyError {
    /// The slot does not exist in a store of `total_slots` slots.
    SlotOutOfRange { slot: u64, total_slots: u64 },
    /// Every slot of the store is in use.
    StoreFull,
    /// The device failed, with the given description.
    Device(String),
}

impl ProxyError {
    pub open spec fn spec_message(self) -> Seq<char> {
        match self {
            ProxyError::SlotOutOfRange { slot, total_slots } => "Slot "@ + text::decimal(slot as nat)
                + " out of range (max "@ + text::decimal(total_slots as nat) + ")"@,
            ProxyError::StoreFull => "page store is full"@,
            ProxyError::Device(detail) => detail@,
        }
    }

    /// The message shown to the user.
    pub fn message(&self) -> (r: String)
        ensures
            r@ == self.spec_message(),
    {
        match self {
            ProxyError::SlotOutOfRange { slot, total_slots } => {
                let mut out = String::from_str("Slot ");
                out.append(decimal_text(*slot).as_str());
                out.append(" out of range (max ");
                out.append(decimal_text(*total_slots).as_str());
                out.append(")");
                out
            },
            ProxyError::StoreFull => String::from_str("page store is full"),
            ProxyError::Device(detail) => String::from_str(detail.as_str()),
        }
    }
}

/// Backend storage statistics.
#[derive(Debug, Clone, Copy)]
pub struct BackendStats {
    pub pages_written: u64,
    pub pages_read: u64,
    pub bytes_written: u64,
    pub bytes_read: u64,
    pub slots_allocated: u64,
    pub slots_freed: u64,
}

/// The bookkeeping of a page store: how many slots it has, and how many pages
/// went in and out.
pub struct PageStore {
    total_slots: u64,
    pages_written: u64,
    pages_read: u64,
}

/// The contents of a page store.
#[verifier::ext_equal]
pub struct PageStoreView {
    pub total_slots: u64,
    pub pages_written: u64,
    pub pages_read: u64,
}

/// One page that has to be written at a byte offset.
pub struct PageWrite {
    pub offset: u64,
    pub page: [u8; PAGE_SIZE],
}

impl View for PageStore {
    type V = PageStoreView;

    closed spec fn view(&self) -> PageStoreView {
        PageStoreView {
            total_slots: self.total_slots,
            pages_written: self.pages_written,
            pages_read: self.pages_read,
        }
    }
}

impl PageStore {
    /// The byte offset of every slot fits a `u64`.
    pub open spec fn wf(&self) -> bool {
        self@.total_slots * PAGE_SIZE <= u64::MAX
    }

    /// Bookkeeping for an existing block device or file of `total_slots` slots.
    pub fn open(total_slots: u64) -> (r: Self)
        requires
            total_slots * PAGE_SIZE <= u64::MAX,
        ensures
            r.wf(),
            r@ == (PageStoreView { total_slots, pages_written: 0, pages_read: 0 }),
    {
        PageStore { total_slots, pages_written: 0, pages_read: 0 }
    }

    /// Bookkeeping for a new file, with the length that the file must be given.
    pub fn create_file(total_slots: u64) -> (r: (Self, u64))
        requires
            total_slots * PAGE_SIZE <= u64::MAX,
        ensures
            r.0.wf(),
            r.0@ == (PageStoreView { total_slots, pages_written: 0, pages_read: 0 }),
            r.1 == total_slots * PAGE_SIZE,
    {
        (PageStore { total_slots, pages_written: 0, pages_read: 0 }, total_slots * PAGE_SIZE as u64)
    }

    /// The byte offset of a slot.
    fn slot_offset(&self, slot: u64) -> (r: Result<u64, ProxyError>)
        requires
            self.wf(),
        ensures
            match r {
                Ok(offset) => slot < self@.total_slots && offset == slot * PAGE_SIZE,
                Err(e) => slot >= self@.total_slots && e == (ProxyError::SlotOutOfRange {
                    slot,
                    total_slots: self@.total_slots,
                }),
            },
    {
        if slot >= self.total_slots {
            return Err(ProxyError::SlotOutOfRange { slot, total_slots: self.total_slots });
        }
        assert(slot * 4096 <= self.total_slots * 4096);
        Ok(slot * PAGE_SIZE as u64)
    }

    /// Prepares the write of a page to the given slot: the data, cut or padded
    /// to a page, goes to the slot's offset.
    pub fn write_page(&self, slot: u64, data: &[u8]) -> (r: Result<PageWrite, ProxyError>)
        requires
            self.wf(),
        ensures
            match r {
                Ok(w) => {
                    &&& slot < self@.total_slots
                    &&& w.offset == slot * PAGE_SIZE
                    &&& w.page@ == fingerprint::padded(data@, PAGE_SIZE as nat)
                },
                Err(e) => slot >= self@.total_slots && e == (ProxyError::SlotOutOfRange {
                    slot,
                    total_slots: self@.total_slots,
                }),
            },
    {
        match self.slot_offset(slot) {
            Ok(offset) => Ok(PageWrite { offset, page: normalize_page(data) }),
            Err(e) => Err(e),
        }
    }

    /// Prepares the read of a page: the offset at which the slot begins.
    pub fn read_page(&self, slot: u64) -> (r: Result<u64, ProxyError>)
        requires
            self.wf(),
        ensures
            match r {
                Ok(offset) => slot < self@.total_slots && offset == slot * PAGE_SIZE,
                Err(e) => slot >= self@.total_slots && e == (ProxyError::SlotOutOfRange {
                    slot,
                    total_slots: self@.total_slots,
                }),
            },
    {
        self.slot_offset(slot)
    }

    /// Counts a page that was written.
    pub fn count_write(&mut self)
        ensures
            final(self)@ == (PageStoreView {
                pages_written: old(self)@.pages_written.wrapping_add(1),
                ..old(self)@
            }),
    {
        self.pages_written = self.pages_written.wrapping_add(1);
    }

    /// Counts a page that was read.
    pub fn count_read(&mut self)
        ensures
            final(self)@ == (PageStoreView {
                pages_read: old(self)@.pages_read.wrapping_add(1),
                ..old(self)@
            }),
    {
        self.pages_read = self.pages_read.wrapping_add(1);
    }

    /// Get backend statistics.
    pub fn stats(&self) -> (r: BackendStats)
        ensures
            r == (BackendStats {
                pages_written: self@.pages_written,
                pages_read: self@.pages_read,
                bytes_written: 0,
                bytes_read: 0,
                slots_allocated: self@.total_slots,
                slots_freed: 0,
            }),
    {
        BackendStats {
            pages_written: self.pages_written,
            pages_read: self.pages_read,
            bytes_written: 0,
            bytes_read: 0,
            slots_allocated: self.total_slots,
            slots_freed: 0,
        }
    }

    /// Total capacity in pages.
    pub fn total_slots(&self) -> (r: u64)
        ensures
            r == self@.total_slots,
    {
        self.total_slots
    }
}

/// Slots of one store never overlap: their byte ranges are disjoint.
pub proof fn law_slots_are_disjoint(a: u64, b: u64)
    requires
        a < b,
    ensures
        a * PAGE_SIZE + PAGE_SIZE <= b * PAGE_SIZE,
{
}

// ---------------------------------------------------------------------------
// Slot allocation
// ---------------------------------------------------------------------------

/// Hands out backend slots.
pub struct SlotAllocator {
    total_slots: u64,
    next_unused: u64,
    freed: Vec<u64>,
}

impl SlotAllocator {
    /// The slots that are handed out.
    pub closed spec fn allocated(&self) -> Set<u64> {
        Set::new(|s: u64| s < self.next_unused && !self.freed@.contains(s))
    }

    /// The number of slots there are.
    pub closed spec fn total(&self) -> u64 {
        self.total_slots
    }

    pub closed spec fn wf(&self) -> bool {
        &&& self.next_unused <= self.total_slots
        &&& self.freed@.no_duplicates()
        &&& forall|i: int| 0 <= i < self.freed@.len() ==> self.freed@[i] < self.next_unused
    }

    /// Whether no slot is left.
    pub open spec fn is_full(&self) -> bool {
        forall|s: u64| s < self.total() ==> self.allocated().contains(s)
    }

    pub fn new(total_slots: u64) -> (r: Self)
        ensures
            r.wf(),
            r.total() == total_slots,
            r.allocated() == Set::<u64>::empty(),
    {
        let r = SlotAllocator { total_slots, next_unused: 0, freed: Vec::new() };
        assert(r.allocated() =~= Set::<u64>::empty());
        r
    }

    /// Hands out a slot that is not in use; nothing if all are.
    pub fn allocate(&mut self) -> (r: Option<u64>)
        requires
            old(self).wf(),
        ensures
            final(self).wf(),
            final(self).total() == old(self).total(),
            match r {
                Some(slot) => {
                    &&& slot < old(self).total()
                    &&& !old(self).allocated().contains(slot)
                    &&& final(self).allocated() == old(self).allocated().insert(slot)
                },
                None => old(self).is_full() && final(self).allocated() == old(self).allocated(),
            },
    {
        let ghost before = *self;
        match self.freed.pop() {
            Some(slot) => {
                assert(before.freed@.last() == slot);
                assert(before.freed@.contains(slot));
                assert forall|s: u64| #[trigger] self.allocated().contains(s) == before.allocated().insert(
                    slot,
                ).contains(s) by {
                    if before.freed@.contains(s) && s != slot {
                        let i = choose|i: int| 0 <= i < before.freed@.len() && before.freed@[i] == s;
                        assert(self.freed@[i] == s);
                    }
                    if self.freed@.contains(s) {
                        let i = choose|i: int| 0 <= i < self.freed@.len() && self.freed@[i] == s;
                        assert(before.freed@[i] == s);
                    }
                }
                assert(self.allocated() =~= before.allocated().insert(slot));
                Some(slot)
            },
            None => {
                if self.next_unused < self.total_slots {
                    let slot = self.next_unused;
                    self.next_unused = slot + 1;
                    assert(!self.freed@.contains(slot));
                    assert(self.allocated() =~= before.allocated().insert(slot));
                    Some(slot)
                } else {
                    assert(self.allocated() =~= before.allocated());
                    assert forall|s: u64| s < before.total() implies before.allocated().contains(
                        s,
                    ) by {}
                    None
                }
            },
        }
    }

    /// Takes a slot back.
    pub fn free(&mut self, slot: u64)
        requires
            old(self).wf(),
            old(self).allocated().contains(slot),
        ensures
            final(self).wf(),
            final(self).total() == old(self).total(),
            final(self).allocated() == old(self).allocated().remove(slot),
    {
        let ghost before = *self;
        self.freed.push(slot);
        assert forall|s: u64| #[trigger] self.allocated().contains(s) == before.allocated().remove(
            slot,
        ).contains(s) by {
            assert(self.freed@[before.freed@.len() as int] == slot);
            if before.freed@.contains(s) {
                let i = choose|i: int| 0 <= i < before.freed@.len() && before.freed@[i] == s;
                assert(self.freed@[i] == s);
            }
        }
        assert(self.allocated() =~= before.allocated().remove(slot));
    }
}

/// Every allocated slot exists.
pub proof fn law_allocated_slots_exist(a: SlotAllocator, slot: u64)
    requires
        a.wf(),
        a.allocated().contains(slot),
    ensures
        slot < a.total(),
{
}

// ---------------------------------------------------------------------------
// Translation
// ---------------------------------------------------------------------------

/// How a virtual page is stored.
#[derive(Debug, Clone, Copy)]
pub enum MappingKind {
    /// The mapping owns its backend slot.
    Direct,
    /// The backend slot belongs to the dedup table and is shared by reference
    /// count.
    Deduplicated { fingerprint: Fingerprint },
}

/// Where the data of a virtual page lives.
#[derive(Debug, Clone, Copy)]
pub struct TranslationEntry {
    pub kind: MappingKind,
    /// Backend slot where the actual data lives.
    pub backend_slot: u64,
}

impl TranslationEntry {
    pub fn direct(backend_slot: u64) -> (r: Self)
        ensures
            r == (TranslationEntry { kind: MappingKind::Direct, backend_slot }),
    {
        TranslationEntry { kind: MappingKind::Direct, backend_slot }
    }

    pub fn deduplicated(fingerprint: Fingerprint, backend_slot: u64) -> (r: Self)
        ensures
            r == (TranslationEntry {
                kind: MappingKind::Deduplicated { fingerprint },
                backend_slot,
            }),
    {
        TranslationEntry { kind: MappingKind::Deduplicated { fingerprint }, backend_slot }
    }

    /// The number of the fingerprint that the mapping shares its slot by.
    pub open spec fn shared_key(self) -> Option<u128> {
        match self.kind {
            MappingKind::Direct => None,
            MappingKind::Deduplicated { fingerprint } => Some(fingerprint::key_of(fingerprint)),
        }
    }
}

/// Translation table mapping virtual swap offsets to backend slots.
pub struct TranslationTable {
    entries: HashMap<u64, TranslationEntry>,
}

impl View for TranslationTable {
    type V = Map<u64, TranslationEntry>;

    closed spec fn view(&self) -> Map<u64, TranslationEntry> {
        self.entries@
    }
}

impl TranslationTable {
    pub fn new() -> (r: Self)
        ensures
            r@ == Map::<u64, TranslationEntry>::empty(),
    {
        TranslationTable { entries: HashMap::new() }
    }

    /// Records where a virtual offset is stored; returns what it replaced.
    pub fn insert(&mut self, virtual_offset: u64, entry: TranslationEntry) -> (r: Option<
        TranslationEntry,
    >)
        ensures
            final(self)@ == old(self)@.insert(virtual_offset, entry),
            r == (if old(self)@.contains_key(virtual_offset) {
                Some(old(self)@[virtual_offset])
            } else {
                None
            }),
    {
        self.entries.insert(virtual_offset, entry)
    }

    /// Look up the translation for a virtual offset.
    pub fn lookup(&self, virtual_offset: u64) -> (r: Option<&TranslationEntry>)
        ensures
            match r {
                Some(e) => self@.contains_key(virtual_offset) && *e == self@[virtual_offset],
                None => !self@.contains_key(virtual_offset),
            },
    {
        self.entries.get(&virtual_offset)
    }

    /// Remove a translation entry (when the virtual page is discarded).
    pub fn remove(&mut self, virtual_offset: u64) -> (r: Option<TranslationEntry>)
        ensures
            final(self)@ == old(self)@.remove(virtual_offset),
            r == (if old(self)@.contains_key(virtual_offset) {
                Some(old(self)@[virtual_offset])
            } else {
                None
            }),
    {
        self.entries.remove(&virtual_offset)
    }

    /// Number of active translations; there are finitely many.
    pub fn len(&self) -> (r: usize)
        ensures
            r == self@.len(),
            self@.dom().finite(),
    {
        self.entries.len()
    }
}

/// Every translation table holds finitely many translations.
pub proof fn law_translations_are_finite(table: TranslationTable)
    ensures
        table@.dom().finite(),
{
}

/// The message of an error says what is wrong: the slot and how many there are, that the
/// store is full, or what the device said.
pub proof fn law_messages_say_what_is_wrong(e: ProxyError)
    ensures
        match e {
            ProxyError::SlotOutOfRange { slot, total_slots } => {
                &&& text::contains_text(e.spec_message(), text::decimal(slot as nat))
                &&& text::contains_text(e.spec_message(), text::decimal(total_slots as nat))
            },
            ProxyError::StoreFull => e.spec_message() == "page store is full"@,
            ProxyError::Device(detail) => e.spec_message() == detail@,
        },
{
    if let ProxyError::SlotOutOfRange { slot, total_slots } = e {
        let a = "Slot "@;
        let n = text::decimal(slot as nat);
        let b = " out of range (max "@;
        let m = text::decimal(total_slots as nat);
        let c = ")"@;
        let rest = b + m + c;
        assert(a + n + rest =~= e.spec_message());
        text::lemma_contains(a, n, rest);
        let front = a + n + b;
        text::lemma_contains(front, m, c);
    }
}

/// A mapping shares its slot with others exactly if it is deduplicated, under the key of
/// its fingerprint.
pub proof fn law_deduplicated_mappings_share(slot: u64, fingerprint: Fingerprint)
    ensures
        (TranslationEntry { kind: MappingKind::Direct, backend_slot: slot }).shared_key() is None,
        (TranslationEntry {
            kind: MappingKind::Deduplicated { fingerprint },
            backend_slot: slot,
        }).shared_key() == Some(fingerprint::key_of(fingerprint)),
{
}

} // verus!
