use std::collections::HashSet;

use animaksm::backend::{
    PageStore, ProxyError, SlotAllocator, TranslationEntry, TranslationTable,
};
use animaksm::dedup::{BloomFilter, DedupTable, LookupResult, ReferenceRemoval};
use animaksm::fingerprint::{
    bloom_indices, fingerprint_key, fingerprint_of_hash, fingerprint_page, normalize_page,
    page_prefix, verify_page_prefix, PAGE_SIZE,
};
use animaksm::simulation::{action, synthetic_page, SimulationAction};

#[test]
fn test_fingerprint_deterministic() {
    let page = vec![0xABu8; PAGE_SIZE];
    let fp1 = fingerprint_page(&page);
    let fp2 = fingerprint_page(&page);
    assert_eq!(fp1, fp2);
}

#[test]
fn test_fingerprint_different_pages() {
    let page_a = vec![0x00u8; PAGE_SIZE];
    let page_b = vec![0xFFu8; PAGE_SIZE];
    let fp_a = fingerprint_page(&page_a);
    let fp_b = fingerprint_page(&page_b);
    assert_ne!(fp_a, fp_b);
}

#[test]
fn test_verify_page_prefix() {
    let page = vec![0xABu8; PAGE_SIZE];
    let prefix = page_prefix(&page);
    assert!(verify_page_prefix(&prefix, &page));

    let different = vec![0xCDu8; PAGE_SIZE];
    assert!(!verify_page_prefix(&prefix, &different));
}

#[test]
fn test_bloom_indices_within_range() {
    let page = vec![0x42u8; PAGE_SIZE];
    let fp = fingerprint_page(&page);
    let indices = bloom_indices(&fp, 1_000_000);
    for idx in indices {
        assert!(idx < 1_000_000);
    }
}

#[test]
fn test_no_collisions_in_small_set() {
    let mut fingerprints = HashSet::new();

    // Hash 10K unique pages
    for i in 0u64..10_000 {
        let mut page = vec![0u8; PAGE_SIZE];
        page[0..8].copy_from_slice(&i.to_le_bytes());
        let fp = fingerprint_page(&page);
        assert!(fingerprints.insert(fp), "Collision at page {i}");
    }
}

#[test]
fn fingerprints_are_the_little_endian_bytes_of_the_hash() {
    let page = vec![7u8; PAGE_SIZE];
    let hash = xxhash_rust::xxh3::xxh3_128(&page);
    assert_eq!(fingerprint_page(&page), hash.to_le_bytes());
    assert_eq!(fingerprint_of_hash(hash), hash.to_le_bytes());
    assert_eq!(fingerprint_key(&hash.to_le_bytes()), hash);
}

#[test]
fn the_empty_input_has_its_known_hash() {
    assert_eq!(
        fingerprint_key(&fingerprint_page(&[])),
        0x99aa06d3014798d86001c324468d497f
    );
}

#[test]
fn bloom_indices_mix_the_halves_of_the_fingerprint() {
    let fp = fingerprint_of_hash((3u128 << 64) | 10);
    assert_eq!(bloom_indices(&fp, 1000), [10, 3, 13]);
    assert_eq!(bloom_indices(&fp, 1), [0, 0, 0]);
}

#[test]
fn prefixes_are_compared_as_far_as_both_go() {
    assert!(verify_page_prefix(&[], &[1, 2]));
    assert!(verify_page_prefix(&[1], &[1, 2]));
    assert!(!verify_page_prefix(&[2], &[1, 2]));
    let mut a = vec![5u8; 80];
    let b = a.clone();
    a[70] = 6;
    assert!(verify_page_prefix(&a, &b));
    a[63] = 6;
    assert!(!verify_page_prefix(&a, &b));
    assert_eq!(page_prefix(&[1, 2])[..4], [1, 2, 0, 0]);
}

#[test]
fn pages_are_padded_and_cut() {
    let page = normalize_page(&[9; 3]);
    assert_eq!(page[..5], [9, 9, 9, 0, 0]);
    let long = vec![4u8; PAGE_SIZE + 10];
    assert_eq!(normalize_page(&long), [4u8; PAGE_SIZE]);
}

#[test]
fn the_filter_never_forgets() {
    let mut filter = BloomFilter::new(64);
    let fps: Vec<_> = (0..50u64)
        .map(|i| fingerprint_page(&i.to_le_bytes()))
        .collect();
    assert!(!filter.contains(&fps[0]));
    for fp in &fps {
        filter.insert(fp);
    }
    assert!(fps.iter().all(|fp| filter.contains(fp)));
}

#[test]
fn the_table_counts_references() {
    let mut table = DedupTable::new(2, 64);
    let page = [1u8; 100];
    let fp = fingerprint_page(&page);
    assert!(matches!(table.lookup(&fp, &page), LookupResult::Miss));
    assert!(table.insert(fp, &page, 40));
    assert!(matches!(
        table.lookup(&fp, &page),
        LookupResult::Duplicate { backend_offset: 40 }
    ));
    assert!(table.add_reference(&fp));
    assert!(matches!(
        table.remove_reference(&fp),
        ReferenceRemoval::StillReferenced
    ));
    assert!(matches!(
        table.remove_reference(&fp),
        ReferenceRemoval::Removed { backend_offset: 40 }
    ));
    assert!(matches!(
        table.remove_reference(&fp),
        ReferenceRemoval::NotTracked
    ));
    assert!(!table.add_reference(&fp));
    let stats = table.stats();
    assert_eq!(stats.table_entries, 0);
    assert_eq!(stats.unique_pages, 1);
    assert_eq!(stats.duplicate_hits, 1);
    assert_eq!(stats.evictions, 0);
}

#[test]
fn the_table_refuses_pages_when_it_is_full() {
    let mut table = DedupTable::new(1, 64);
    assert!(table.insert(fingerprint_page(&[1]), &[1], 0));
    assert!(!table.insert(fingerprint_page(&[2]), &[2], 1));
    assert_eq!(table.stats().table_entries, 1);
}

#[test]
fn another_prefix_is_a_miss() {
    let mut table = DedupTable::new(4, 64);
    let fp = fingerprint_page(&[1]);
    assert!(table.insert(fp, &[1], 0));
    assert!(matches!(table.lookup(&fp, &[2]), LookupResult::Miss));
}

#[test]
fn stores_know_their_slots() {
    let (mut store, length) = PageStore::create_file(3);
    assert_eq!(length, 3 * PAGE_SIZE as u64);
    let write = store.write_page(2, &[5]).unwrap();
    assert_eq!(write.offset, 2 * PAGE_SIZE as u64);
    assert_eq!(write.page[..2], [5, 0]);
    assert_eq!(store.read_page(1).unwrap(), PAGE_SIZE as u64);
    let err = store.read_page(3).unwrap_err();
    assert!(matches!(
        err,
        ProxyError::SlotOutOfRange {
            slot: 3,
            total_slots: 3
        }
    ));
    assert_eq!(err.message(), "Slot 3 out of range (max 3)");
    assert!(store.write_page(4, &[]).is_err());
    store.count_write();
    store.count_write();
    store.count_read();
    let stats = store.stats();
    assert_eq!((stats.pages_written, stats.pages_read), (2, 1));
    assert_eq!(stats.slots_allocated, 3);
    assert_eq!(PageStore::open(3).total_slots(), 3);
}

#[test]
fn slots_are_handed_out_once() {
    let mut slots = SlotAllocator::new(2);
    let a = slots.allocate().unwrap();
    let b = slots.allocate().unwrap();
    assert_ne!(a, b);
    assert_eq!(slots.allocate(), None);
    slots.free(a);
    assert_eq!(slots.allocate(), Some(a));
}

#[test]
fn translations_replace_each_other() {
    let mut table = TranslationTable::new();
    assert!(table.insert(0, TranslationEntry::direct(7)).is_none());
    let fp = fingerprint_page(&[1]);
    let replaced = table.insert(0, TranslationEntry::deduplicated(fp, 8)).unwrap();
    assert_eq!(replaced.backend_slot, 7);
    assert_eq!(table.lookup(0).unwrap().backend_slot, 8);
    assert!(table.lookup(4096).is_none());
    assert_eq!(table.len(), 1);
    assert_eq!(table.remove(0).unwrap().backend_slot, 8);
    assert_eq!(table.len(), 0);
}

#[test]
fn the_workload_has_its_phases() {
    assert_eq!(action(0), Some(SimulationAction::Write { offset: 0, page: 0 }));
    assert_eq!(
        action(601),
        Some(SimulationAction::Write {
            offset: 601 * 4096,
            page: 37
        })
    );
    assert_eq!(action(5000), Some(SimulationAction::EnableDedup));
    assert_eq!(
        action(5001),
        Some(SimulationAction::Write {
            offset: 5000 * 4096,
            page: 200
        })
    );
    assert_eq!(action(10_001), Some(SimulationAction::Read { offset: 0 }));
    assert_eq!(
        action(11_001),
        Some(SimulationAction::Discard {
            offset: 5000 * 4096
        })
    );
    let steps = (0..).take_while(|s| action(*s).is_some()).count();
    assert_eq!(steps, 5000 + 1 + 5000 + 1000 + 1000);
    assert_ne!(synthetic_page(1), synthetic_page(2));
    assert_eq!(synthetic_page(3)[..3], [21, 34, 47]);
}
