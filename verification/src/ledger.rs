//! Who owns which backend slot.
//!
//! A backend slot that is in use belongs to exactly one owner: a direct
//! mapping, or an entry of the dedup table, whose reference count says how many
//! mappings share it. This module states that accounting and shows that mapping,
//! unmapping and releasing pages keep it balanced. All of it is specification.

use vstd::multiset::Multiset;
use vstd::prelude::*;

use crate::backend::TranslationEntry;
use crate::dedup::DedupEntry;
use crate::fingerprint;

verus! {

/// The accounting state of the swap proxy.
#[verifier::ext_equal]
pub struct Ledger {
    /// Where each virtual offset is stored.
    pub mapping: Map<u64, TranslationEntry>,
    /// The shared pages, by the number of their fingerprint.
    pub table: Map<u128, DedupEntry>,
    /// The backend slots that are handed out.
    pub allocated: Set<u64>,
}

/// Who a backend slot belongs to.
pub enum Owner {
    /// The direct mapping of a virtual offset.
    Mapping(u64),
    /// A page of the dedup table.
    Table(u128),
}

/// The virtual offsets that share the page with number `k`.
pub open spec fn sharers(mapping: Map<u64, TranslationEntry>, k: u128) -> Set<u64> {
    mapping.dom().filter(|v: u64| mapping[v].shared_key() == Some(k))
}

impl Ledger {
    /// Whether slot `s` belongs to `owner`.
    pub open spec fn owns(self, owner: Owner, s: u64) -> bool {
        match owner {
            Owner::Mapping(v) => {
                &&& self.mapping.contains_key(v)
                &&& self.mapping[v].shared_key() is None
                &&& self.mapping[v].backend_slot == s
            },
            Owner::Table(k) => self.table.contains_key(k) && self.table[k].backend_offset == s,
        }
    }

    /// A slot with an owner is allocated and not reserved.
    pub open spec fn owned_is_allocated(self, reserved: Set<u64>) -> bool {
        forall|o: Owner, s: u64| #[trigger]
            self.owns(o, s) ==> self.allocated.contains(s) && !reserved.contains(s)
    }

    /// No slot has two owners.
    pub open spec fn owners_are_unique(self) -> bool {
        forall|o1: Owner, o2: Owner, s: u64| #[trigger]
            self.owns(o1, s) && #[trigger] self.owns(o2, s) ==> o1 == o2
    }

    /// No slot leaks: what is allocated is owned or reserved.
    pub open spec fn allocated_is_owned(self, reserved: Set<u64>) -> bool {
        forall|s: u64| #[trigger]
            self.allocated.contains(s) && !reserved.contains(s) ==> exists|o: Owner|
                self.owns(o, s)
    }

    /// A shared mapping points at the slot of the page that it shares.
    pub open spec fn shares_are_tracked(self) -> bool {
        forall|v: u64| #[trigger]
            self.mapping.contains_key(v) ==> match self.mapping[v].shared_key() {
                Some(k) => self.owns(Owner::Table(k), self.mapping[v].backend_slot),
                None => true,
            }
    }

    /// Reference counts count the mappings that share the page and the
    /// references that are held on the way.
    pub open spec fn counts_are_exact(self, held: Multiset<u128>) -> bool {
        forall|k: u128| #[trigger]
            self.table.contains_key(k) ==> {
                &&& self.table[k].ref_count == sharers(self.mapping, k).len() + held.count(k)
                &&& self.table[k].ref_count >= 1
            }
    }

    /// The accounting is right, given the slots that are reserved for a write
    /// on the way and the references that are held on the way.
    pub open spec fn balanced(self, reserved: Set<u64>, held: Multiset<u128>) -> bool {
        &&& self.mapping.dom().finite()
        &&& self.owned_is_allocated(reserved)
        &&& self.owners_are_unique()
        &&& self.allocated_is_owned(reserved)
        &&& self.shares_are_tracked()
        &&& self.counts_are_exact(held)
        &&& forall|s: u64| #[trigger] reserved.contains(s) ==> self.allocated.contains(s)
        &&& forall|k: u128| #[trigger] held.count(k) > 0 ==> self.table.contains_key(k)
    }

    /// The ledger with virtual offset `v` mapped to `entry`.
    pub open spec fn with(self, v: u64, entry: TranslationEntry) -> Ledger {
        Ledger { mapping: self.mapping.insert(v, entry), ..self }
    }

    /// The ledger with virtual offset `v` not mapped.
    pub open spec fn without(self, v: u64) -> Ledger {
        Ledger { mapping: self.mapping.remove(v), ..self }
    }

    /// The ledger with one reference less to page `k`: the last one takes the
    /// page out of the table and frees its slot.
    pub open spec fn dereferenced(self, k: u128) -> Ledger {
        if self.table[k].ref_count > 1 {
            Ledger {
                table: self.table.insert(
                    k,
                    DedupEntry { ref_count: (self.table[k].ref_count - 1) as u64, ..self.table[k] },
                ),
                ..self
            }
        } else {
            Ledger {
                table: self.table.remove(k),
                allocated: self.allocated.remove(self.table[k].backend_offset),
                ..self
            }
        }
    }

    /// The ledger after a mapping that is no longer there gave up its claim.
    pub open spec fn released(self, entry: TranslationEntry) -> Ledger {
        match entry.shared_key() {
            Some(k) if self.table.contains_key(k) => self.dereferenced(k),
            _ => Ledger { allocated: self.allocated.remove(entry.backend_slot), ..self },
        }
    }

    /// The ledger after a virtual offset was mapped to a new place and its old
    /// mapping, if it had one, was released.
    pub open spec fn remapped(self, v: u64, entry: TranslationEntry) -> Ledger {
        let mapped = self.with(v, entry);
        if self.mapping.contains_key(v) {
            mapped.released(self.mapping[v])
        } else {
            mapped
        }
    }

    /// The ledger after the mapping of a virtual offset was dropped.
    pub open spec fn unmapped(self, v: u64) -> Ledger {
        if self.mapping.contains_key(v) {
            self.without(v).released(self.mapping[v])
        } else {
            self
        }
    }

    /// The ledger with a slot handed out.
    pub open spec fn reserving(self, s: u64) -> Ledger {
        Ledger { allocated: self.allocated.insert(s), ..self }
    }

    /// The ledger with a slot taken back.
    pub open spec fn freeing(self, s: u64) -> Ledger {
        Ledger { allocated: self.allocated.remove(s), ..self }
    }

    /// The ledger with page `k` in the dedup table, referenced once.
    pub open spec fn tracking(self, k: u128, entry: DedupEntry) -> Ledger {
        Ledger { table: self.table.insert(k, entry), ..self }
    }

    /// The ledger with one more reference to page `k`.
    pub open spec fn referenced(self, k: u128) -> Ledger {
        Ledger {
            table: self.table.insert(
                k,
                DedupEntry { ref_count: (self.table[k].ref_count + 1) as u64, ..self.table[k] },
            ),
            ..self
        }
    }

    /// Whether what a mapping claims is there: its own slot, or the page that it
    /// shares, with the slot of that page.
    pub open spec fn backs(self, entry: TranslationEntry) -> bool {
        match entry.shared_key() {
            Some(k) => self.table.contains_key(k) && self.allocated.contains(
                self.table[k].backend_offset,
            ),
            None => self.allocated.contains(entry.backend_slot),
        }
    }

    /// What a read of virtual offset `v` gives, for a disk with the given pages.
    pub open spec fn page_at(self, disk: Map<u64, Seq<u8>>, v: u64) -> Seq<u8> {
        if self.mapping.contains_key(v) {
            disk[self.mapping[v].backend_slot]
        } else {
            fingerprint::zero_page()
        }
    }
}

// ---------------------------------------------------------------------------
// Counting
// ---------------------------------------------------------------------------

proof fn lemma_sharers_removed(mapping: Map<u64, TranslationEntry>, v: u64, k: u128)
    requires
        mapping.dom().finite(),
        mapping.contains_key(v),
    ensures
        sharers(mapping.remove(v), k).len() == sharers(mapping, k).len() - (if mapping[v].shared_key()
            == Some(k) {
            1int
        } else {
            0int
        }),
{
    assert(sharers(mapping.remove(v), k) =~= sharers(mapping, k).remove(v));
    assert(sharers(mapping, k).contains(v) == (mapping[v].shared_key() == Some(k)));
}

proof fn lemma_sharers_added(
    mapping: Map<u64, TranslationEntry>,
    v: u64,
    entry: TranslationEntry,
    k: u128,
)
    requires
        mapping.dom().finite(),
        !mapping.contains_key(v),
    ensures
        sharers(mapping.insert(v, entry), k).len() == sharers(mapping, k).len() + (if entry.shared_key()
            == Some(k) {
            1int
        } else {
            0int
        }),
{
    if entry.shared_key() == Some(k) {
        assert(sharers(mapping.insert(v, entry), k) =~= sharers(mapping, k).insert(v));
    } else {
        assert(sharers(mapping.insert(v, entry), k) =~= sharers(mapping, k));
    }
    assert(!sharers(mapping, k).contains(v));
}

// ---------------------------------------------------------------------------
// Single steps
// ---------------------------------------------------------------------------

/// Handing out a fresh slot reserves it.
pub proof fn lemma_reserve(l: Ledger, reserved: Set<u64>, held: Multiset<u128>, s: u64)
    requires
        l.balanced(reserved, held),
        !l.allocated.contains(s),
    ensures
        l.reserving(s).balanced(reserved.insert(s), held),
{
    let m = l.reserving(s);
    assert forall|o: Owner, t: u64| #[trigger] m.owns(o, t) implies m.allocated.contains(t)
        && !reserved.insert(s).contains(t) by {
        assert(l.owns(o, t));
    }
    assert forall|o1: Owner, o2: Owner, t: u64| #[trigger]
        m.owns(o1, t) && #[trigger] m.owns(o2, t) implies o1 == o2 by {
        assert(l.owns(o1, t) && l.owns(o2, t));
    }
    assert forall|t: u64| #[trigger]
        m.allocated.contains(t) && !reserved.insert(s).contains(t) implies exists|o: Owner|
        m.owns(o, t) by {
        assert(l.allocated.contains(t));
        let o = choose|o: Owner| l.owns(o, t);
        assert(m.owns(o, t));
    }
    assert forall|v: u64| #[trigger] m.mapping.contains_key(v) implies match m.mapping[v].shared_key() {
        Some(k) => m.owns(Owner::Table(k), m.mapping[v].backend_slot),
        None => true,
    } by {
        assert(l.mapping.contains_key(v));
    }
    assert(m.counts_are_exact(held)) by {
        assert forall|k: u128| #[trigger] m.table.contains_key(k) implies {
            &&& m.table[k].ref_count == sharers(m.mapping, k).len() + held.count(k)
            &&& m.table[k].ref_count >= 1
        } by {
            assert(l.table.contains_key(k));
        }
    }
}

/// Taking back a reserved slot.
pub proof fn lemma_free(l: Ledger, reserved: Set<u64>, held: Multiset<u128>, s: u64)
    requires
        l.balanced(reserved, held),
        reserved.contains(s),
    ensures
        l.freeing(s).balanced(reserved.remove(s), held),
{
    let m = l.freeing(s);
    assert forall|o: Owner, t: u64| #[trigger] m.owns(o, t) implies m.allocated.contains(t)
        && !reserved.remove(s).contains(t) by {
        assert(l.owns(o, t));
    }
    assert forall|o1: Owner, o2: Owner, t: u64| #[trigger]
        m.owns(o1, t) && #[trigger] m.owns(o2, t) implies o1 == o2 by {
        assert(l.owns(o1, t) && l.owns(o2, t));
    }
    assert forall|t: u64| #[trigger]
        m.allocated.contains(t) && !reserved.remove(s).contains(t) implies exists|o: Owner|
        m.owns(o, t) by {
        assert(l.allocated.contains(t));
        let o = choose|o: Owner| l.owns(o, t);
        assert(m.owns(o, t));
    }
    assert forall|v: u64| #[trigger] m.mapping.contains_key(v) implies match m.mapping[v].shared_key() {
        Some(k) => m.owns(Owner::Table(k), m.mapping[v].backend_slot),
        None => true,
    } by {
        assert(l.mapping.contains_key(v));
    }
    assert(m.counts_are_exact(held)) by {
        assert forall|k: u128| #[trigger] m.table.contains_key(k) implies {
            &&& m.table[k].ref_count == sharers(m.mapping, k).len() + held.count(k)
            &&& m.table[k].ref_count >= 1
        } by {
            assert(l.table.contains_key(k));
        }
    }
}

/// Dropping a direct mapping leaves its slot reserved.
proof fn lemma_unmap_direct(l: Ledger, reserved: Set<u64>, held: Multiset<u128>, v: u64)
    requires
        l.balanced(reserved, held),
        l.mapping.contains_key(v),
        l.mapping[v].shared_key() is None,
    ensures
        !reserved.contains(l.mapping[v].backend_slot),
        l.without(v).balanced(
            reserved.insert(l.mapping[v].backend_slot),
            held,
        ),
{
    let m = l.without(v);
    let s = l.mapping[v].backend_slot;
    let after = reserved.insert(s);
    assert(l.owns(Owner::Mapping(v), s));
    assert forall|o: Owner, t: u64| #[trigger] m.owns(o, t) implies m.allocated.contains(t)
        && !after.contains(t) by {
        assert(l.owns(o, t));
        assert(o != Owner::Mapping(v));
    }
    assert forall|o1: Owner, o2: Owner, t: u64| #[trigger]
        m.owns(o1, t) && #[trigger] m.owns(o2, t) implies o1 == o2 by {
        assert(l.owns(o1, t) && l.owns(o2, t));
    }
    assert forall|t: u64| #[trigger]
        m.allocated.contains(t) && !after.contains(t) implies exists|o: Owner| m.owns(o, t) by {
        assert(l.allocated.contains(t));
        let o = choose|o: Owner| l.owns(o, t);
        assert(m.owns(o, t));
    }
    assert forall|u: u64| #[trigger] m.mapping.contains_key(u) implies match m.mapping[u].shared_key() {
        Some(k) => m.owns(Owner::Table(k), m.mapping[u].backend_slot),
        None => true,
    } by {
        assert(l.mapping.contains_key(u));
    }
    assert(m.counts_are_exact(held)) by {
        assert forall|k: u128| #[trigger] m.table.contains_key(k) implies {
            &&& m.table[k].ref_count == sharers(m.mapping, k).len() + held.count(k)
            &&& m.table[k].ref_count >= 1
        } by {
            assert(l.table.contains_key(k));
            lemma_sharers_removed(l.mapping, v, k);
        }
    }
}

/// Dropping a shared mapping leaves its reference held.
proof fn lemma_unmap_shared(l: Ledger, reserved: Set<u64>, held: Multiset<u128>, v: u64, k: u128)
    requires
        l.balanced(reserved, held),
        l.mapping.contains_key(v),
        l.mapping[v].shared_key() == Some(k),
    ensures
        l.table.contains_key(k),
        l.without(v).balanced(reserved, held.insert(k)),
{
    let m = l.without(v);
    let after = held.insert(k);
    assert(l.owns(Owner::Table(k), l.mapping[v].backend_slot));
    assert forall|o: Owner, t: u64| #[trigger] m.owns(o, t) implies m.allocated.contains(t)
        && !reserved.contains(t) by {
        assert(l.owns(o, t));
    }
    assert forall|o1: Owner, o2: Owner, t: u64| #[trigger]
        m.owns(o1, t) && #[trigger] m.owns(o2, t) implies o1 == o2 by {
        assert(l.owns(o1, t) && l.owns(o2, t));
    }
    assert forall|t: u64| #[trigger]
        m.allocated.contains(t) && !reserved.contains(t) implies exists|o: Owner| m.owns(o, t) by {
        assert(l.allocated.contains(t));
        let o = choose|o: Owner| l.owns(o, t);
        assert(m.owns(o, t));
    }
    assert forall|u: u64| #[trigger] m.mapping.contains_key(u) implies match m.mapping[u].shared_key() {
        Some(j) => m.owns(Owner::Table(j), m.mapping[u].backend_slot),
        None => true,
    } by {
        assert(l.mapping.contains_key(u));
    }
    assert(m.counts_are_exact(after)) by {
        assert forall|j: u128| #[trigger] m.table.contains_key(j) implies {
            &&& m.table[j].ref_count == sharers(m.mapping, j).len() + after.count(j)
            &&& m.table[j].ref_count >= 1
        } by {
            assert(l.table.contains_key(j));
            lemma_sharers_removed(l.mapping, v, j);
        }
    }
    assert forall|j: u128| #[trigger] after.count(j) > 0 implies m.table.contains_key(j) by {
        if j != k {
            assert(held.count(j) > 0);
        }
    }
}

/// Mapping an unmapped offset directly to a reserved slot.
proof fn lemma_map_direct(
    l: Ledger,
    reserved: Set<u64>,
    held: Multiset<u128>,
    v: u64,
    entry: TranslationEntry,
)
    requires
        l.balanced(reserved, held),
        !l.mapping.contains_key(v),
        entry.shared_key() is None,
        reserved.contains(entry.backend_slot),
    ensures
        l.with(v, entry).balanced(
            reserved.remove(entry.backend_slot),
            held,
        ),
{
    let m = l.with(v, entry);
    let s = entry.backend_slot;
    let after = reserved.remove(s);
    assert(m.owns(Owner::Mapping(v), s));
    assert forall|o: Owner, t: u64| #[trigger] m.owns(o, t) implies m.allocated.contains(t)
        && !after.contains(t) by {
        if o != Owner::Mapping(v) {
            assert(l.owns(o, t));
        }
    }
    assert forall|o1: Owner, o2: Owner, t: u64| #[trigger]
        m.owns(o1, t) && #[trigger] m.owns(o2, t) implies o1 == o2 by {
        if o1 != Owner::Mapping(v) {
            assert(l.owns(o1, t));
        }
        if o2 != Owner::Mapping(v) {
            assert(l.owns(o2, t));
        }
    }
    assert forall|t: u64| #[trigger]
        m.allocated.contains(t) && !after.contains(t) implies exists|o: Owner| m.owns(o, t) by {
        if t != s {
            assert(l.allocated.contains(t));
            let o = choose|o: Owner| l.owns(o, t);
            assert(m.owns(o, t));
        }
    }
    assert forall|u: u64| #[trigger] m.mapping.contains_key(u) implies match m.mapping[u].shared_key() {
        Some(k) => m.owns(Owner::Table(k), m.mapping[u].backend_slot),
        None => true,
    } by {
        if u != v {
            assert(l.mapping.contains_key(u));
        }
    }
    assert(m.counts_are_exact(held)) by {
        assert forall|k: u128| #[trigger] m.table.contains_key(k) implies {
            &&& m.table[k].ref_count == sharers(m.mapping, k).len() + held.count(k)
            &&& m.table[k].ref_count >= 1
        } by {
            assert(l.table.contains_key(k));
            lemma_sharers_added(l.mapping, v, entry, k);
        }
    }
}

/// Mapping an unmapped offset to a shared page uses up a held reference.
proof fn lemma_map_shared(
    l: Ledger,
    reserved: Set<u64>,
    held: Multiset<u128>,
    v: u64,
    entry: TranslationEntry,
    k: u128,
)
    requires
        l.balanced(reserved, held),
        !l.mapping.contains_key(v),
        entry.shared_key() == Some(k),
        l.table.contains_key(k),
        l.table[k].backend_offset == entry.backend_slot,
        held.count(k) > 0,
    ensures
        l.with(v, entry).balanced(reserved, held.remove(k)),
{
    let m = l.with(v, entry);
    let after = held.remove(k);
    assert forall|o: Owner, t: u64| #[trigger] m.owns(o, t) implies m.allocated.contains(t)
        && !reserved.contains(t) by {
        assert(l.owns(o, t));
    }
    assert forall|o1: Owner, o2: Owner, t: u64| #[trigger]
        m.owns(o1, t) && #[trigger] m.owns(o2, t) implies o1 == o2 by {
        assert(l.owns(o1, t) && l.owns(o2, t));
    }
    assert forall|t: u64| #[trigger]
        m.allocated.contains(t) && !reserved.contains(t) implies exists|o: Owner| m.owns(o, t) by {
        assert(l.allocated.contains(t));
        let o = choose|o: Owner| l.owns(o, t);
        assert(m.owns(o, t));
    }
    assert forall|u: u64| #[trigger] m.mapping.contains_key(u) implies match m.mapping[u].shared_key() {
        Some(j) => m.owns(Owner::Table(j), m.mapping[u].backend_slot),
        None => true,
    } by {
        if u != v {
            assert(l.mapping.contains_key(u));
        }
    }
    assert(m.counts_are_exact(after)) by {
        assert forall|j: u128| #[trigger] m.table.contains_key(j) implies {
            &&& m.table[j].ref_count == sharers(m.mapping, j).len() + after.count(j)
            &&& m.table[j].ref_count >= 1
        } by {
            assert(l.table.contains_key(j));
            lemma_sharers_added(l.mapping, v, entry, j);
        }
    }
    assert forall|j: u128| #[trigger] after.count(j) > 0 implies m.table.contains_key(j) by {
        assert(held.count(j) > 0);
    }
}

/// Giving up a held reference; the last one frees the slot of the page.
proof fn lemma_dereference(l: Ledger, reserved: Set<u64>, held: Multiset<u128>, k: u128)
    requires
        l.balanced(reserved, held),
        held.count(k) > 0,
    ensures
        l.table.contains_key(k),
        l.dereferenced(k).balanced(reserved, held.remove(k)),
{
    let m = l.dereferenced(k);
    let after = held.remove(k);
    assert(l.table.contains_key(k));
    let s = l.table[k].backend_offset;
    assert(l.owns(Owner::Table(k), s));
    let last = l.table[k].ref_count == 1;
    if last {
        assert(sharers(l.mapping, k).len() == 0);
        assert forall|u: u64| l.mapping.contains_key(u) implies l.mapping[u].shared_key() != Some(
            k,
        ) by {
            if l.mapping[u].shared_key() == Some(k) {
                assert(sharers(l.mapping, k).contains(u));
            }
        }
    }
    assert forall|o: Owner, t: u64| #[trigger] m.owns(o, t) implies m.allocated.contains(t)
        && !reserved.contains(t) by {
        assert(l.owns(o, t));
    }
    assert forall|o1: Owner, o2: Owner, t: u64| #[trigger]
        m.owns(o1, t) && #[trigger] m.owns(o2, t) implies o1 == o2 by {
        assert(l.owns(o1, t) && l.owns(o2, t));
    }
    assert forall|t: u64| #[trigger]
        m.allocated.contains(t) && !reserved.contains(t) implies exists|o: Owner| m.owns(o, t) by {
        assert(l.allocated.contains(t));
        let o = choose|o: Owner| l.owns(o, t);
        if o == Owner::Table(k) {
            assert(t == s);
        }
        assert(m.owns(o, t));
    }
    assert forall|u: u64| #[trigger] m.mapping.contains_key(u) implies match m.mapping[u].shared_key() {
        Some(j) => m.owns(Owner::Table(j), m.mapping[u].backend_slot),
        None => true,
    } by {
        assert(l.mapping.contains_key(u));
        match l.mapping[u].shared_key() {
            Some(j) => {
                assert(l.owns(Owner::Table(j), l.mapping[u].backend_slot));
            },
            None => {},
        }
    }
    assert(m.counts_are_exact(after)) by {
        assert forall|j: u128| #[trigger] m.table.contains_key(j) implies {
            &&& m.table[j].ref_count == sharers(m.mapping, j).len() + after.count(j)
            &&& m.table[j].ref_count >= 1
        } by {
            assert(l.table.contains_key(j));
        }
    }
    assert forall|t: u64| #[trigger] reserved.contains(t) implies m.allocated.contains(t) by {
        assert(l.allocated.contains(t));
    }
    assert forall|j: u128| #[trigger] after.count(j) > 0 implies m.table.contains_key(j) by {
        assert(held.count(j) > 0);
    }
}

/// A new page in the dedup table takes over a reserved slot; its one reference
/// is held.
pub proof fn lemma_track(
    l: Ledger,
    reserved: Set<u64>,
    held: Multiset<u128>,
    k: u128,
    entry: DedupEntry,
)
    requires
        l.balanced(reserved, held),
        !l.table.contains_key(k),
        reserved.contains(entry.backend_offset),
        entry.ref_count == 1,
    ensures
        l.tracking(k, entry).balanced(reserved.remove(entry.backend_offset), held.insert(k)),
{
    let m = l.tracking(k, entry);
    let s = entry.backend_offset;
    let after = held.insert(k);
    let rest = reserved.remove(s);
    assert(sharers(l.mapping, k).len() == 0) by {
        assert forall|u: u64| !sharers(l.mapping, k).contains(u) by {
            if sharers(l.mapping, k).contains(u) {
                assert(l.mapping.contains_key(u));
                assert(l.owns(Owner::Table(k), l.mapping[u].backend_slot));
            }
        }
        assert(sharers(l.mapping, k) =~= Set::empty());
    }
    assert(held.count(k) == 0);
    assert(m.owns(Owner::Table(k), s));
    assert forall|o: Owner, t: u64| #[trigger] m.owns(o, t) implies m.allocated.contains(t)
        && !rest.contains(t) by {
        if o != Owner::Table(k) {
            assert(l.owns(o, t));
        }
    }
    assert forall|o1: Owner, o2: Owner, t: u64| #[trigger]
        m.owns(o1, t) && #[trigger] m.owns(o2, t) implies o1 == o2 by {
        if o1 != Owner::Table(k) {
            assert(l.owns(o1, t));
        }
        if o2 != Owner::Table(k) {
            assert(l.owns(o2, t));
        }
    }
    assert forall|t: u64| #[trigger]
        m.allocated.contains(t) && !rest.contains(t) implies exists|o: Owner| m.owns(o, t) by {
        if t != s {
            assert(l.allocated.contains(t));
            let o = choose|o: Owner| l.owns(o, t);
            assert(m.owns(o, t));
        }
    }
    assert forall|u: u64| #[trigger] m.mapping.contains_key(u) implies match m.mapping[u].shared_key() {
        Some(j) => m.owns(Owner::Table(j), m.mapping[u].backend_slot),
        None => true,
    } by {
        assert(l.mapping.contains_key(u));
        match l.mapping[u].shared_key() {
            Some(j) => {
                assert(l.owns(Owner::Table(j), l.mapping[u].backend_slot));
            },
            None => {},
        }
    }
    assert(m.counts_are_exact(after)) by {
        assert forall|j: u128| #[trigger] m.table.contains_key(j) implies {
            &&& m.table[j].ref_count == sharers(m.mapping, j).len() + after.count(j)
            &&& m.table[j].ref_count >= 1
        } by {
            if j != k {
                assert(l.table.contains_key(j));
            }
        }
    }
    assert forall|j: u128| #[trigger] after.count(j) > 0 implies m.table.contains_key(j) by {
        if j != k {
            assert(held.count(j) > 0);
        }
    }
}

/// One more reference to a tracked page, held.
pub proof fn lemma_reference(l: Ledger, reserved: Set<u64>, held: Multiset<u128>, k: u128)
    requires
        l.balanced(reserved, held),
        l.table.contains_key(k),
        l.table[k].ref_count < u64::MAX,
    ensures
        l.referenced(k).balanced(reserved, held.insert(k)),
{
    let m = l.referenced(k);
    let after = held.insert(k);
    assert forall|o: Owner, t: u64| #[trigger] m.owns(o, t) == l.owns(o, t) by {}
    assert forall|o: Owner, t: u64| #[trigger] m.owns(o, t) implies m.allocated.contains(t)
        && !reserved.contains(t) by {
        assert(l.owns(o, t));
    }
    assert forall|o1: Owner, o2: Owner, t: u64| #[trigger]
        m.owns(o1, t) && #[trigger] m.owns(o2, t) implies o1 == o2 by {
        assert(l.owns(o1, t) && l.owns(o2, t));
    }
    assert forall|t: u64| #[trigger]
        m.allocated.contains(t) && !reserved.contains(t) implies exists|o: Owner| m.owns(o, t) by {
        assert(l.allocated.contains(t));
        let o = choose|o: Owner| l.owns(o, t);
        assert(m.owns(o, t));
    }
    assert forall|u: u64| #[trigger] m.mapping.contains_key(u) implies match m.mapping[u].shared_key() {
        Some(j) => m.owns(Owner::Table(j), m.mapping[u].backend_slot),
        None => true,
    } by {
        assert(l.mapping.contains_key(u));
        match l.mapping[u].shared_key() {
            Some(j) => {
                assert(l.owns(Owner::Table(j), l.mapping[u].backend_slot));
            },
            None => {},
        }
    }
    assert(m.counts_are_exact(after)) by {
        assert forall|j: u128| #[trigger] m.table.contains_key(j) implies {
            &&& m.table[j].ref_count == sharers(m.mapping, j).len() + after.count(j)
            &&& m.table[j].ref_count >= 1
        } by {
            assert(l.table.contains_key(j));
        }
    }
    assert forall|j: u128| #[trigger] after.count(j) > 0 implies m.table.contains_key(j) by {
        if j != k {
            assert(held.count(j) > 0);
        }
    }
}

/// A balanced ledger backs every mapping.
pub proof fn lemma_backs(l: Ledger, reserved: Set<u64>, held: Multiset<u128>, v: u64)
    requires
        l.balanced(reserved, held),
        l.mapping.contains_key(v),
    ensures
        l.backs(l.mapping[v]),
        l.allocated.contains(l.mapping[v].backend_slot),
{
    let s = l.mapping[v].backend_slot;
    match l.mapping[v].shared_key() {
        Some(k) => {
            assert(l.owns(Owner::Table(k), s));
        },
        None => {
            assert(l.owns(Owner::Mapping(v), s));
        },
    }
}

// ---------------------------------------------------------------------------
// Whole operations
// ---------------------------------------------------------------------------

/// Dropping the mapping of an offset and releasing what it claimed.
pub proof fn lemma_unmapped(l: Ledger, reserved: Set<u64>, held: Multiset<u128>, v: u64)
    requires
        l.balanced(reserved, held),
    ensures
        l.unmapped(v).balanced(reserved, held),
{
    if l.mapping.contains_key(v) {
        let old = l.mapping[v];
        let bare = l.without(v);
        match old.shared_key() {
            Some(k) => {
                lemma_unmap_shared(l, reserved, held, v, k);
                lemma_dereference(bare, reserved, held.insert(k), k);
                assert(held.insert(k).remove(k) =~= held);
            },
            None => {
                lemma_unmap_direct(l, reserved, held, v);
                lemma_free(bare, reserved.insert(old.backend_slot), held, old.backend_slot);
                assert(reserved.insert(old.backend_slot).remove(old.backend_slot) =~= reserved);
            },
        }
    }
}

/// Mapping an offset directly to a reserved slot, whatever it was mapped to
/// before.
pub proof fn lemma_remapped_direct(
    l: Ledger,
    reserved: Set<u64>,
    held: Multiset<u128>,
    v: u64,
    entry: TranslationEntry,
)
    requires
        l.balanced(reserved, held),
        entry.shared_key() is None,
        reserved.contains(entry.backend_slot),
    ensures
        l.remapped(v, entry).balanced(reserved.remove(entry.backend_slot), held),
{
    let rest = reserved.remove(entry.backend_slot);
    if l.mapping.contains_key(v) {
        let old = l.mapping[v];
        let bare = l.without(v);
        let mapped = l.with(v, entry);
        assert(bare.mapping.insert(v, entry) =~= mapped.mapping);
        match old.shared_key() {
            Some(k) => {
                lemma_unmap_shared(l, reserved, held, v, k);
                lemma_map_direct(bare, reserved, held.insert(k), v, entry);
                lemma_dereference(mapped, rest, held.insert(k), k);
                assert(held.insert(k).remove(k) =~= held);
            },
            None => {
                let both = reserved.insert(old.backend_slot);
                lemma_unmap_direct(l, reserved, held, v);
                lemma_map_direct(bare, both, held, v, entry);
                lemma_free(mapped, both.remove(entry.backend_slot), held, old.backend_slot);
                assert(both.remove(entry.backend_slot).remove(old.backend_slot) =~= rest);
            },
        }
    } else {
        lemma_map_direct(l, reserved, held, v, entry);
    }
}

/// Mapping an offset to a shared page with a held reference, whatever it was
/// mapped to before.
pub proof fn lemma_remapped_shared(
    l: Ledger,
    reserved: Set<u64>,
    held: Multiset<u128>,
    v: u64,
    entry: TranslationEntry,
    k: u128,
)
    requires
        l.balanced(reserved, held),
        entry.shared_key() == Some(k),
        held.count(k) > 0,
        l.table.contains_key(k),
        l.table[k].backend_offset == entry.backend_slot,
    ensures
        l.remapped(v, entry).balanced(reserved, held.remove(k)),
{
    if l.mapping.contains_key(v) {
        let old = l.mapping[v];
        let bare = l.without(v);
        let mapped = l.with(v, entry);
        assert(bare.mapping.insert(v, entry) =~= mapped.mapping);
        match old.shared_key() {
            Some(j) => {
                let both = held.insert(j);
                lemma_unmap_shared(l, reserved, held, v, j);
                lemma_map_shared(bare, reserved, both, v, entry, k);
                assert(both.remove(k).count(j) > 0);
                lemma_dereference(mapped, reserved, both.remove(k), j);
                assert(both.remove(k).remove(j) =~= held.remove(k));
            },
            None => {
                let more = reserved.insert(old.backend_slot);
                lemma_unmap_direct(l, reserved, held, v);
                lemma_map_shared(bare, more, held, v, entry, k);
                lemma_free(mapped, more, held.remove(k), old.backend_slot);
                assert(more.remove(old.backend_slot) =~= reserved);
            },
        }
    } else {
        lemma_map_shared(l, reserved, held, v, entry, k);
    }
}

// ---------------------------------------------------------------------------
// Laws
// ---------------------------------------------------------------------------

/// Writing to a reserved slot changes no page that can be read.
pub proof fn law_reserved_slots_are_never_read(
    l: Ledger,
    reserved: Set<u64>,
    held: Multiset<u128>,
    disk: Map<u64, Seq<u8>>,
    s: u64,
    page: Seq<u8>,
    v: u64,
)
    requires
        l.balanced(reserved, held),
        reserved.contains(s),
    ensures
        l.page_at(disk.insert(s, page), v) == l.page_at(disk, v),
{
    if l.mapping.contains_key(v) {
        let t = l.mapping[v].backend_slot;
        match l.mapping[v].shared_key() {
            Some(k) => {
                assert(l.owns(Owner::Table(k), t));
            },
            None => {
                assert(l.owns(Owner::Mapping(v), t));
            },
        }
    }
}

/// A direct mapping never shares its slot with any other mapping.
pub proof fn law_direct_slots_do_not_alias(
    l: Ledger,
    reserved: Set<u64>,
    held: Multiset<u128>,
    u: u64,
    v: u64,
)
    requires
        l.balanced(reserved, held),
        l.mapping.contains_key(u),
        l.mapping.contains_key(v),
        u != v,
        l.mapping[u].shared_key() is None,
    ensures
        l.mapping[u].backend_slot != l.mapping[v].backend_slot,
{
    let s = l.mapping[u].backend_slot;
    assert(l.owns(Owner::Mapping(u), s));
    match l.mapping[v].shared_key() {
        Some(k) => {
            assert(l.owns(Owner::Table(k), l.mapping[v].backend_slot));
        },
        None => {
            assert(l.owns(Owner::Mapping(v), l.mapping[v].backend_slot));
        },
    }
}

/// When nothing is mapped and nothing is on the way, no slot is in use.
pub proof fn law_no_slot_leaks(l: Ledger)
    requires
        l.balanced(Set::empty(), Multiset::empty()),
        l.mapping.dom() =~= Set::empty(),
    ensures
        l.allocated =~= Set::<u64>::empty(),
        l.table.dom() =~= Set::<u128>::empty(),
{
    assert forall|k: u128| !l.table.contains_key(k) by {
        if l.table.contains_key(k) {
            assert(sharers(l.mapping, k) =~= Set::empty());
        }
    }
    assert forall|s: u64| !l.allocated.contains(s) by {
        if l.allocated.contains(s) {
            assert(!Set::<u64>::empty().contains(s));
            let o = choose|o: Owner| l.owns(o, s);
            assert(l.owns(o, s));
        }
    }
}

/// Taking a reference and giving it back changes nothing, and neither does reserving a
/// slot and freeing it again.
pub proof fn law_references_and_slots_balance(ledger: Ledger, k: u128, s: u64)
    requires
        ledger.table.contains_key(k),
        1 <= ledger.table[k].ref_count < u64::MAX,
        !ledger.allocated.contains(s),
    ensures
        ledger.referenced(k).dereferenced(k) == ledger,
        ledger.reserving(s).freeing(s) == ledger,
{
    let back = ledger.referenced(k).dereferenced(k);
    assert(back.table =~= ledger.table);
    assert(ledger.reserving(s).freeing(s).allocated =~= ledger.allocated);
}

/// An offset reads from the slot that it is mapped to, and as 4096 zeroes if it is not.
pub proof fn law_offsets_read_from_their_slots(
    ledger: Ledger,
    disk: Map<u64, Seq<u8>>,
    v: u64,
    entry: TranslationEntry,
    u: u64,
    i: int,
)
    ensures
        ledger.with(v, entry).page_at(disk, v) == disk[entry.backend_slot],
        ledger.without(v).page_at(disk, v).len() == 4096,
        0 <= i < 4096 ==> ledger.without(v).page_at(disk, v)[i] == 0,
        u != v ==> ledger.with(v, entry).page_at(disk, u) == ledger.page_at(disk, u)
            && ledger.without(v).page_at(disk, u) == ledger.page_at(disk, u),
{
}

} // verus!
