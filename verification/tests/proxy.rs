use std::collections::HashMap;

use animaksm::backend::ProxyError;
use animaksm::block::{
    completion_result, count_completion, device_bytes, ensure_available, execute_request,
    finish_store, frontend_result, queue_count, resume_fetch, start_task, BlockRequest, PageTask,
    RequestStep, TaskStep, UblkOp,
};
use animaksm::fingerprint::PAGE_SIZE;
use animaksm::proxy::{ProxyEngine, ProxyStats, ReadStep, WriteStep};
use animaksm::simulation::{action, synthetic_page, SimulationAction};

/// An engine with a page store in memory.
struct TestEngine {
    engine: ProxyEngine,
    disk: HashMap<u64, Vec<u8>>,
    /// What the next transfer fails with.
    fault: Option<String>,
}

impl TestEngine {
    fn new(size_gb: u64, max_entries: u64, bloom_capacity: usize) -> Self {
        let (engine, length) = ProxyEngine::new(false, size_gb, max_entries, bloom_capacity);
        assert_eq!(length, Some(size_gb << 30));
        TestEngine {
            engine,
            disk: HashMap::new(),
            fault: None,
        }
    }

    fn load(&mut self, offset: u64) -> Result<Vec<u8>, String> {
        assert_eq!(offset % PAGE_SIZE as u64, 0);
        match self.fault.take() {
            Some(e) => Err(e),
            None => Ok(self
                .disk
                .get(&offset)
                .cloned()
                .unwrap_or(vec![0; PAGE_SIZE])),
        }
    }

    fn save(&mut self, offset: u64, page: &[u8; PAGE_SIZE]) -> Result<(), String> {
        assert_eq!(offset % PAGE_SIZE as u64, 0);
        match self.fault.take() {
            Some(e) => Err(e),
            None => {
                self.disk.insert(offset, page.to_vec());
                Ok(())
            }
        }
    }

    fn handle_write(&mut self, virtual_offset: u64, data: &[u8]) -> Result<(), ProxyError> {
        let mut step = self.engine.handle_write(virtual_offset, data);
        loop {
            match step {
                WriteStep::Done(result) => return result,
                WriteStep::Fetch { offset, check } => {
                    let stored = self.load(offset);
                    step = self.engine.resume_check(check, stored);
                }
                WriteStep::Store { offset, pending } => {
                    let result = self.save(offset, &pending.page);
                    return self.engine.complete_store(pending, result);
                }
            }
        }
    }

    fn handle_read(&mut self, virtual_offset: u64) -> Result<Vec<u8>, ProxyError> {
        match self.engine.handle_read(virtual_offset) {
            ReadStep::Done(page) => Ok(page),
            ReadStep::Fetch { offset } => {
                let stored = self.load(offset);
                self.engine.finish_read(stored)
            }
        }
    }

    fn handle_discard(&mut self, virtual_offset: u64) {
        self.engine.handle_discard(virtual_offset);
    }

    fn run_task(&mut self, task: PageTask, buffer: &mut Vec<u8>) -> bool {
        let mut step = start_task(task, &mut self.engine, buffer);
        loop {
            match step {
                TaskStep::Done(ok) => return ok,
                TaskStep::Fetch { offset, waiting } => {
                    let stored = self.load(offset);
                    step = resume_fetch(waiting, &mut self.engine, buffer, stored);
                }
                TaskStep::Store { offset, pending } => {
                    let result = self.save(offset, &pending.page);
                    return finish_store(pending, &mut self.engine, result);
                }
            }
        }
    }

    fn execute(&mut self, request: BlockRequest, buffer: &mut Vec<u8>) -> Result<usize, i32> {
        let (run, mut step) = execute_request(request, buffer.len());
        let mut run = match run {
            Some(run) => run,
            None => match step {
                RequestStep::Finished(result) => return result,
                RequestStep::Page(_) => panic!("a page without a run"),
            },
        };
        loop {
            match step {
                RequestStep::Finished(result) => return result,
                RequestStep::Page(task) => {
                    let ok = self.run_task(task, buffer);
                    step = run.advance(ok);
                }
            }
        }
    }
}

#[test]
fn test_proxy_stats_new_zeroes() {
    let stats = ProxyStats::new();
    assert_eq!(stats.total_writes, 0);
    assert_eq!(stats.unique_writes, 0);
    assert_eq!(stats.duplicate_writes, 0);
    assert_eq!(stats.total_reads, 0);
    assert_eq!(stats.discards, 0);
}

#[test]
fn test_proxy_engine_new_creates_store_parent_directory() {
    let (engine, length) = ProxyEngine::new(false, 1, 128, 1024);

    assert_eq!(length, Some(1024 * 1024 * 1024));
    assert!(engine.passthrough);
    assert_eq!(
        engine.store.total_slots(),
        (1024 * 1024 * 1024) / PAGE_SIZE as u64
    );
}

#[test]
fn an_existing_store_keeps_its_length() {
    let (engine, length) = ProxyEngine::new(true, 2, 128, 1024);
    assert_eq!(length, None);
    assert_eq!(engine.store.total_slots(), 2 * 262_144);
}

#[test]
fn test_handle_write_passthrough_writes_direct_slot_and_counts_unique() {
    let mut engine = TestEngine::new(1, 128, 1024);
    let page = vec![0xAA; PAGE_SIZE];

    engine.handle_write(PAGE_SIZE as u64, &page).unwrap();
    let read = engine.handle_read(PAGE_SIZE as u64).unwrap();

    assert_eq!(read, page);
    assert_eq!(engine.engine.stats.total_writes, 1);
    assert_eq!(engine.engine.stats.unique_writes, 1);
    assert_eq!(engine.engine.stats.duplicate_writes, 0);
    assert_eq!(engine.engine.stats.total_reads, 1);
    assert_eq!(engine.engine.translation.len(), 1);
}

#[test]
fn test_handle_write_dedup_mode_records_duplicate_translation() {
    let mut engine = TestEngine::new(1, 128, 1024);
    engine.engine.passthrough = false;
    let page = vec![0xAB; PAGE_SIZE];

    engine.handle_write(0, &page).unwrap();
    engine.handle_write(PAGE_SIZE as u64, &page).unwrap();

    assert_eq!(engine.engine.stats.total_writes, 2);
    assert_eq!(engine.engine.stats.unique_writes, 1);
    assert_eq!(engine.engine.stats.duplicate_writes, 1);
    assert_eq!(engine.engine.translation.len(), 2);

    let read = engine.handle_read(PAGE_SIZE as u64).unwrap();
    assert_eq!(read, page);

    let dedup_stats = engine.engine.dedup_table.stats();
    assert_eq!(dedup_stats.table_entries, 1);
    assert_eq!(dedup_stats.duplicate_hits, 1);
}

#[test]
fn test_handle_write_replaces_old_translation_and_removes_reference() {
    let mut engine = TestEngine::new(1, 128, 1024);
    engine.engine.passthrough = false;
    let page_a = vec![0xAA; PAGE_SIZE];
    let page_b = vec![0xBB; PAGE_SIZE];

    engine.handle_write(0, &page_a).unwrap();
    engine.handle_write(0, &page_b).unwrap();

    let read = engine.handle_read(0).unwrap();
    assert_eq!(read, page_b);
    assert_eq!(engine.engine.translation.len(), 1);
    assert_eq!(engine.engine.dedup_table.stats().table_entries, 1);
}

#[test]
fn test_handle_discard_removes_translation_and_counts_discard() {
    let mut engine = TestEngine::new(1, 128, 1024);
    engine.engine.passthrough = false;
    let page = vec![0xCC; PAGE_SIZE];

    engine.handle_write(0, &page).unwrap();
    assert_eq!(engine.engine.translation.len(), 1);

    engine.handle_discard(0);

    assert_eq!(engine.engine.stats.discards, 1);
    assert_eq!(engine.engine.translation.len(), 0);
    assert_eq!(engine.engine.dedup_table.stats().table_entries, 0);
}

#[test]
fn test_passthrough_overwrite_clears_old_dedup_translation() {
    let mut engine = TestEngine::new(1, 128, 1024);
    let page_a = vec![0xAA; PAGE_SIZE];
    let page_b = vec![0xBB; PAGE_SIZE];

    engine.engine.passthrough = false;
    engine.handle_write(0, &page_a).unwrap();
    assert_eq!(engine.engine.dedup_table.stats().table_entries, 1);

    engine.engine.passthrough = true;
    engine.handle_write(0, &page_b).unwrap();

    assert_eq!(engine.handle_read(0).unwrap(), page_b);
    assert_eq!(engine.engine.dedup_table.stats().table_entries, 0);
    assert_eq!(engine.engine.translation.len(), 1);
}

#[test]
fn test_table_full_fallback_still_updates_translation() {
    let mut engine = TestEngine::new(1, 0, 1024);
    engine.engine.passthrough = false;
    let page = vec![0x44; PAGE_SIZE];

    engine.handle_write(0, &page).unwrap();

    assert_eq!(engine.handle_read(0).unwrap(), page);
    assert_eq!(engine.engine.dedup_table.stats().table_entries, 0);
    assert_eq!(engine.engine.translation.len(), 1);
}

#[test]
fn test_direct_and_dedup_slots_do_not_alias() {
    let mut engine = TestEngine::new(1, 128, 1024);
    let direct_page = vec![0x11; PAGE_SIZE];
    let dedup_page = vec![0x22; PAGE_SIZE];

    engine.handle_write(0, &direct_page).unwrap();
    engine.engine.passthrough = false;
    engine.handle_write(PAGE_SIZE as u64, &dedup_page).unwrap();

    assert_eq!(engine.handle_read(0).unwrap(), direct_page);
    assert_eq!(engine.handle_read(PAGE_SIZE as u64).unwrap(), dedup_page);
}

#[test]
fn test_discarded_page_reads_as_zeroes_without_stale_backend_data() {
    let mut engine = TestEngine::new(1, 128, 1024);
    let page = vec![0x77; PAGE_SIZE];

    engine.handle_write(0, &page).unwrap();
    engine.handle_discard(0);

    assert_eq!(engine.handle_read(0).unwrap(), vec![0; PAGE_SIZE]);
}

#[test]
fn test_short_writes_are_hashed_as_zero_padded_pages() {
    let mut engine = TestEngine::new(1, 128, 1024);
    engine.engine.passthrough = false;

    engine.handle_write(0, &[1, 2, 3]).unwrap();
    engine.handle_write(PAGE_SIZE as u64, &[1, 2, 3]).unwrap();

    assert_eq!(engine.engine.stats.duplicate_writes, 1);
    let read = engine.handle_read(PAGE_SIZE as u64).unwrap();
    assert_eq!(&read[..3], &[1, 2, 3]);
    assert!(read[3..].iter().all(|b| *b == 0));
}

#[test]
fn test_block_request_uses_sector_units() {
    let request = BlockRequest::new(UblkOp::Read, 8, 16);

    assert_eq!(request.offset, PAGE_SIZE as u64);
    assert_eq!(request.bytes, 8192);
}

#[test]
fn test_block_request_rejects_unaligned_ranges() {
    let request = BlockRequest::new(UblkOp::Read, 1, 1);

    assert_eq!(request.validate_page_aligned(), Err(-libc::EINVAL));
}

#[test]
fn test_execute_write_and_read_roundtrip() {
    let mut engine = TestEngine::new(1, 128, 1024);
    let page = vec![0xAB; PAGE_SIZE];
    let mut write_buf = page.clone();
    let request = BlockRequest::new(UblkOp::Write, 0, (PAGE_SIZE / 512) as u32);

    assert_eq!(
        engine.execute(request, &mut write_buf).unwrap(),
        PAGE_SIZE
    );

    let mut read_buf = vec![0; PAGE_SIZE];
    let request = BlockRequest::new(UblkOp::Read, 0, (PAGE_SIZE / 512) as u32);

    assert_eq!(
        engine.execute(request, &mut read_buf).unwrap(),
        PAGE_SIZE
    );
    assert_eq!(read_buf, page);
}

#[test]
fn test_execute_discard_removes_translation() {
    let mut engine = TestEngine::new(1, 128, 1024);
    let mut page = vec![0xCD; PAGE_SIZE];
    let sectors = (PAGE_SIZE / 512) as u32;

    engine.execute(
        BlockRequest::new(UblkOp::Write, 0, sectors),
        &mut page,
    )
    .unwrap();
    engine.execute(
        BlockRequest::new(UblkOp::Discard, 0, sectors),
        &mut vec![],
    )
    .unwrap();

    let mut read_buf = vec![0xFF; PAGE_SIZE];
    engine.execute(
        BlockRequest::new(UblkOp::Read, 0, sectors),
        &mut read_buf,
    )
    .unwrap();
    assert_eq!(read_buf, vec![0; PAGE_SIZE]);
}

#[test]
fn test_execute_write_zeroes() {
    let mut engine = TestEngine::new(1, 128, 1024);
    let sectors = (PAGE_SIZE / 512) as u32;
    let mut page = vec![0xEF; PAGE_SIZE];

    engine.execute(
        BlockRequest::new(UblkOp::Write, 0, sectors),
        &mut page,
    )
    .unwrap();
    engine.execute(
        BlockRequest::new(UblkOp::WriteZeroes, 0, sectors),
        &mut vec![],
    )
    .unwrap();

    let mut read_buf = vec![0xFF; PAGE_SIZE];
    engine.execute(
        BlockRequest::new(UblkOp::Read, 0, sectors),
        &mut read_buf,
    )
    .unwrap();
    assert_eq!(read_buf, vec![0; PAGE_SIZE]);
}

#[test]
fn test_execute_unsupported_op_returns_eopnotsupp() {
    let mut engine = TestEngine::new(1, 128, 1024);
    let mut buf = vec![];

    assert_eq!(
        engine.execute(
            BlockRequest::new(UblkOp::Unsupported(99), 0, 0),
            &mut buf
        ),
        Err(-libc::EOPNOTSUPP)
    );
}

#[test]
fn test_run_proxy_dry_run_simulation_completes() {
    let mut engine = TestEngine::new(1, 2048, 4096);
    let mut step = 0;
    while let Some(next) = action(step) {
        match next {
            SimulationAction::Write { offset, page } => {
                engine.handle_write(offset, &synthetic_page(page)).unwrap();
            }
            SimulationAction::EnableDedup => engine.engine.passthrough = false,
            SimulationAction::Read { offset } => {
                engine.handle_read(offset).unwrap();
            }
            SimulationAction::Discard { offset } => engine.handle_discard(offset),
        }
        step += 1;
    }
    let stats = engine.engine.stats;
    assert_eq!(stats.total_writes, 10_000);
    assert_eq!(stats.unique_writes, 5_000 + 256);
    assert_eq!(stats.duplicate_writes, 5_000 - 256);
    assert_eq!(stats.total_reads, 1_000);
    assert_eq!(stats.discards, 1_000);
}

#[test]
fn a_full_store_refuses_new_pages() {
    let mut engine = TestEngine::new(0, 128, 1024);
    let err = engine.handle_write(0, &[1]).unwrap_err();
    assert!(matches!(err, ProxyError::StoreFull));
    assert_eq!(engine.handle_read(0).unwrap(), vec![0; PAGE_SIZE]);
}

#[test]
fn a_failed_store_leaves_the_old_page() {
    let mut engine = TestEngine::new(1, 128, 1024);
    engine.engine.passthrough = false;
    let old = vec![0x31; PAGE_SIZE];
    engine.handle_write(0, &old).unwrap();

    engine.fault = Some("No space left on device".to_string());
    let err = engine.handle_write(0, &[0x32; PAGE_SIZE]).unwrap_err();
    assert_eq!(err.message(), "No space left on device");
    assert_eq!(engine.handle_read(0).unwrap(), old);
    assert_eq!(engine.engine.dedup_table.stats().table_entries, 1);
}

#[test]
fn a_failed_comparison_fails_the_write() {
    let mut engine = TestEngine::new(1, 128, 1024);
    engine.engine.passthrough = false;
    let page = vec![0x31; PAGE_SIZE];
    engine.handle_write(0, &page).unwrap();

    engine.fault = Some("Input/output error".to_string());
    let err = engine.handle_write(4096, &page).unwrap_err();
    assert!(matches!(err, ProxyError::Device(_)));
    assert_eq!(engine.engine.translation.len(), 1);
}

#[test]
fn a_damaged_page_is_not_taken_for_a_duplicate() {
    let mut engine = TestEngine::new(1, 128, 1024);
    engine.engine.passthrough = false;
    let page = vec![0x51; PAGE_SIZE];
    engine.handle_write(0, &page).unwrap();
    for stored in engine.disk.values_mut() {
        stored[4000] = 0;
    }

    engine.handle_write(4096, &page).unwrap();

    assert_eq!(engine.engine.stats.duplicate_writes, 0);
    assert_eq!(engine.handle_read(4096).unwrap(), page);
}

#[test]
fn a_failed_read_is_reported() {
    let mut engine = TestEngine::new(1, 128, 1024);
    engine.handle_write(0, &[1; PAGE_SIZE]).unwrap();
    engine.fault = Some("Input/output error".to_string());
    let err = engine.handle_read(0).unwrap_err();
    assert_eq!(err.message(), "Input/output error");
}

#[test]
fn slots_are_used_again_after_a_discard() {
    let mut engine = TestEngine::new(1, 128, 1024);
    for round in 0..5u8 {
        engine.handle_write(0, &[round; PAGE_SIZE]).unwrap();
        engine.handle_discard(0);
    }
    assert!(engine.disk.len() <= 2);
    engine.handle_write(0, &[9; PAGE_SIZE]).unwrap();
    assert_eq!(engine.handle_read(0).unwrap(), vec![9; PAGE_SIZE]);
}

#[test]
fn shared_pages_outlive_one_of_their_writers() {
    let mut engine = TestEngine::new(1, 128, 1024);
    engine.engine.passthrough = false;
    let page = vec![0x61; PAGE_SIZE];
    engine.handle_write(0, &page).unwrap();
    engine.handle_write(4096, &page).unwrap();
    engine.handle_discard(0);
    engine.handle_write(8192, &[0x62; PAGE_SIZE]).unwrap();

    assert_eq!(engine.handle_read(0).unwrap(), vec![0; PAGE_SIZE]);
    assert_eq!(engine.handle_read(4096).unwrap(), page);
    assert_eq!(engine.handle_read(8192).unwrap(), vec![0x62; PAGE_SIZE]);
    assert_eq!(engine.engine.dedup_table.stats().table_entries, 2);
}

#[test]
fn long_requests_cover_every_page() {
    let mut engine = TestEngine::new(1, 128, 1024);
    let mut data: Vec<u8> = (0..3 * PAGE_SIZE).map(|i| (i / 100) as u8).collect();
    let written = data.clone();
    assert_eq!(
        engine.execute(BlockRequest::new(UblkOp::Write, 16, 24), &mut data),
        Ok(3 * PAGE_SIZE)
    );
    let mut back = vec![0xFF; 3 * PAGE_SIZE];
    assert_eq!(
        engine.execute(BlockRequest::new(UblkOp::Read, 16, 24), &mut back),
        Ok(3 * PAGE_SIZE)
    );
    assert_eq!(back, written);
    assert_eq!(engine.engine.stats.total_writes, 3);
    assert_eq!(engine.engine.stats.total_reads, 3);
    assert_eq!(
        engine.execute(BlockRequest::new(UblkOp::Discard, 16, 8), &mut vec![]),
        Ok(PAGE_SIZE)
    );
    assert_eq!(
        engine.execute(BlockRequest::new(UblkOp::Read, 16, 24), &mut back),
        Ok(3 * PAGE_SIZE)
    );
    assert_eq!(&back[..PAGE_SIZE], &vec![0; PAGE_SIZE][..]);
    assert_eq!(&back[PAGE_SIZE..], &written[PAGE_SIZE..]);
}

#[test]
fn requests_stop_at_the_first_failure() {
    let mut engine = TestEngine::new(1, 128, 1024);
    engine.fault = Some("Input/output error".to_string());
    let mut data = vec![1; 2 * PAGE_SIZE];
    assert_eq!(
        engine.execute(BlockRequest::new(UblkOp::Write, 0, 16), &mut data),
        Err(-libc::EIO)
    );
    assert_eq!(engine.engine.stats.total_writes, 1);
}

#[test]
fn requests_with_a_short_buffer_are_refused() {
    let mut engine = TestEngine::new(1, 128, 1024);
    let mut short = vec![0; 100];
    for op in [UblkOp::Read, UblkOp::Write] {
        assert_eq!(
            engine.execute(BlockRequest::new(op, 0, 8), &mut short),
            Err(-libc::EINVAL)
        );
    }
    assert_eq!(
        engine.execute(BlockRequest::new(UblkOp::Flush, 0, 0), &mut vec![]),
        Ok(0)
    );
}

#[test]
fn operations_have_the_numbers_of_the_driver() {
    assert_eq!(UblkOp::from_raw(0), UblkOp::Read);
    assert_eq!(UblkOp::from_raw(1), UblkOp::Write);
    assert_eq!(UblkOp::from_raw(2), UblkOp::Flush);
    assert_eq!(UblkOp::from_raw(3), UblkOp::Discard);
    assert_eq!(UblkOp::from_raw(5), UblkOp::WriteZeroes);
    assert_eq!(UblkOp::from_raw(4), UblkOp::Unsupported(4));
}

#[test]
fn device_parameters_follow_the_machine() {
    assert_eq!(device_bytes(8), Some(8 << 30));
    assert_eq!(device_bytes(1 << 34), None);
    assert_eq!(queue_count(None), 1);
    assert_eq!(queue_count(Some(2)), 2);
    assert_eq!(queue_count(Some(64)), 4);
    assert_eq!(completion_result(Ok(4096)), 4096);
    assert_eq!(completion_result(Err(-5)), -5);
    assert_eq!(count_completion(3, true), (0, false));
    assert_eq!(count_completion(8, false), (9, false));
    assert_eq!(count_completion(9, false), (10, true));
    assert_eq!(frontend_result(&vec![]), Ok(()));
    assert_eq!(
        frontend_result(&vec!["a".to_string(), "b".to_string()]),
        Err("queue initialization failed: a".to_string())
    );
    assert_eq!(ensure_available(true), Ok(()));
    assert!(ensure_available(false).unwrap_err().contains("/dev/ublk-control"));
}

#[test]
fn requests_that_are_answered_at_once_may_end_past_the_last_offset() {
    let far = BlockRequest {
        op: UblkOp::Flush,
        offset: u64::MAX - 4095,
        bytes: 8192,
    };
    assert!(far.can_start(0));
    let (run, step) = execute_request(far, 0);
    assert!(run.is_none());
    assert_eq!(step, RequestStep::Finished(Ok(0)));

    let unknown = BlockRequest {
        op: UblkOp::Unsupported(9),
        ..far
    };
    assert!(unknown.can_start(0));
    assert_eq!(
        execute_request(unknown, 0).1,
        RequestStep::Finished(Err(-95))
    );

    let short = BlockRequest {
        op: UblkOp::Write,
        ..far
    };
    assert!(short.can_start(4096));
    assert_eq!(
        execute_request(short, 4096).1,
        RequestStep::Finished(Err(-22))
    );

    assert!(!short.can_start(8192));
    let discard = BlockRequest {
        op: UblkOp::Discard,
        ..far
    };
    assert!(!discard.can_start(0));
    let last = BlockRequest {
        bytes: 4096,
        ..discard
    };
    assert!(last.can_start(0));
    let empty = BlockRequest { bytes: 0, ..far };
    assert!(empty.can_start(0));
}

#[test]
fn a_long_sequence_of_operations_reads_back() {
    let mut engine = TestEngine::new(1, 3, 100);
    let mut model: HashMap<u64, Vec<u8>> = HashMap::new();
    let mut seed: u64 = 12345;
    for step in 0..600u64 {
        seed = seed.wrapping_mul(6364136223846793005).wrapping_add(1442695040888963407);
        let offset = (seed >> 33) % 8 * PAGE_SIZE as u64;
        match (seed >> 40) % 8 {
            0 => {
                engine.handle_discard(offset);
                model.remove(&offset);
            }
            1 => engine.engine.passthrough = step % 2 == 0,
            2 => {
                engine.fault = Some("broken".into());
                let page = vec![(seed >> 50) as u8 % 5; PAGE_SIZE];
                assert!(engine.handle_write(offset, &page).is_err());
                engine.fault = None;
            }
            _ => {
                let page = vec![(seed >> 50) as u8 % 5; PAGE_SIZE];
                engine.handle_write(offset, &page).unwrap();
                model.insert(offset, page);
            }
        }
        for slot in 0..8u64 {
            let at = slot * PAGE_SIZE as u64;
            let expected = model.get(&at).cloned().unwrap_or(vec![0; PAGE_SIZE]);
            assert_eq!(engine.handle_read(at).unwrap(), expected);
        }
    }
}

#[test]
fn whole_requests_read_back() {
    let mut engine = TestEngine::new(1, 100, 100);
    engine.engine.passthrough = false;
    let bytes = 3 * PAGE_SIZE;
    let mut data: Vec<u8> = (0..bytes).map(|i| (i / 7 % 251) as u8).collect();
    let written = data.clone();
    let request = BlockRequest {
        op: UblkOp::Write,
        offset: 5 * PAGE_SIZE as u64,
        bytes,
    };
    let reading = BlockRequest {
        op: UblkOp::Read,
        ..request
    };
    assert_eq!(engine.execute(request, &mut data), Ok(bytes));
    let mut back = vec![1u8; bytes];
    assert_eq!(engine.execute(reading, &mut back), Ok(bytes));
    assert_eq!(back, written);
    for op in [UblkOp::WriteZeroes, UblkOp::Discard] {
        assert_eq!(engine.execute(request, &mut data), Ok(bytes));
        let clearing = BlockRequest { op, ..request };
        assert_eq!(engine.execute(clearing, &mut vec![]), Ok(bytes));
        assert_eq!(engine.execute(reading, &mut back), Ok(bytes));
        assert_eq!(back, vec![0u8; bytes]);
    }
}

#[test]
fn a_request_reads_back_after_work_elsewhere() {
    let mut engine = TestEngine::new(1, 2, 100);
    engine.engine.passthrough = false;
    let page = PAGE_SIZE as u64;
    let bytes = 2 * PAGE_SIZE;
    let request = BlockRequest {
        op: UblkOp::Write,
        offset: 4 * page,
        bytes,
    };
    let mut data: Vec<u8> = (0..bytes).map(|i| (i % 241) as u8).collect();
    let written = data.clone();
    assert_eq!(engine.execute(request, &mut data), Ok(bytes));
    engine.handle_write(0, &written[..PAGE_SIZE]).unwrap();
    engine.handle_write(6 * page, &[7; PAGE_SIZE]).unwrap();
    engine.handle_discard(0);
    engine.engine.passthrough = true;
    engine.handle_write(6 * page, &[8; PAGE_SIZE]).unwrap();
    engine.fault = Some("broken".into());
    assert!(engine.handle_write(5 * page, &[9; PAGE_SIZE]).is_err());

    let mut back = vec![1u8; bytes + 10];
    let reading = BlockRequest {
        op: UblkOp::Read,
        ..request
    };
    assert_eq!(engine.execute(reading, &mut back), Ok(bytes));
    assert_eq!(back[..bytes], written);
    assert_eq!(back[bytes..], [1u8; 10]);
}
