use std::cell::{Cell, RefCell};
use std::collections::HashMap;

use animaksm::madvise::{
    self, build_batch, eligible, MadviseResult, MADV_COLLAPSE, MADV_MERGEABLE,
};
use animaksm::process_madvise::{
    self, errno_message, errno_to_str, process_madvise_batch, process_madvise_single,
    SyscallReturn, MERGEABLE_UNSUPPORTED,
};
use animaksm::procfs::MapsEntry;

const MY_PID: u32 = 4242;

/// Marks the regions of a process with calls that keep no account of the world.
fn apply_mergeable(
    pid: u32,
    regions: &[MapsEntry],
    max_bytes: u64,
    dry_run: bool,
    find_syscall: &impl Fn(u32) -> Result<u64, String>,
    inject: &impl Fn(u32, u64, usize, u64) -> Result<(), String>,
) -> MadviseResult {
    madvise::apply_mergeable(
        pid,
        regions,
        max_bytes,
        dry_run,
        (),
        &|_: (), pid: u32| (find_syscall(pid), ()),
        &|_: (), pid: u32, addr: u64, len: usize, at: u64| (inject(pid, addr, len, at), ()),
    )
    .0
}

fn batch_apply_mergeable(
    targets: &Vec<(u32, Vec<MapsEntry>)>,
    max_bytes: u64,
    dry_run: bool,
    find_syscall: &impl Fn(u32) -> Result<u64, String>,
    inject: &impl Fn(u32, u64, usize, u64) -> Result<(), String>,
) -> HashMap<u32, MadviseResult> {
    madvise::batch_apply_mergeable(
        targets,
        max_bytes,
        dry_run,
        (),
        &|_: (), pid: u32| (find_syscall(pid), ()),
        &|_: (), pid: u32, addr: u64, len: usize, at: u64| (inject(pid, addr, len, at), ()),
    )
    .0
}

fn apply_madvise_batches(
    result: &mut MadviseResult,
    batch: &[(u64, usize)],
    batch_call: impl Fn(&[(u64, usize)]) -> Result<u64, String>,
    single_call: impl Fn(u64, usize) -> Result<(), String>,
) {
    process_madvise::apply_madvise_batches(
        result,
        batch,
        (),
        |_: (), chunk: &[(u64, usize)]| (batch_call(chunk), ()),
        |_: (), addr: u64, len: usize| (single_call(addr, len), ()),
    )
}

fn collapse_regions(
    pid: u32,
    regions: &[MapsEntry],
    open: &impl Fn(u32) -> Result<i32, String>,
    collapse: &impl Fn(i32, u64, usize) -> Result<(), String>,
    close: &impl Fn(i32),
) -> usize {
    process_madvise::collapse_regions(
        pid,
        regions,
        (),
        &|_: (), pid: u32| (open(pid), ()),
        &|_: (), fd: i32, addr: u64, len: usize| (collapse(fd, addr, len), ()),
        &|_: (), fd: i32| close(fd),
    )
    .0
}

fn no_lookup(_: u32) -> Result<u64, String> {
    panic!("no syscall instruction should be looked up")
}

fn no_injection(_: u32, _: u64, _: usize, _: u64) -> Result<(), String> {
    panic!("nothing should be injected")
}

fn anon(start: u64, end: u64) -> MapsEntry {
    MapsEntry {
        start,
        end,
        perms: "rw-p".into(),
        offset: 0,
        dev: "00:00".into(),
        inode: 0,
        pathname: String::new(),
    }
}

#[test]
fn test_build_batch_empty_eligible() {
    let eligible: Vec<&MapsEntry> = vec![];
    let batch = build_batch(&eligible, 4096);
    assert!(batch.is_empty());
}

#[test]
fn test_build_batch_collects_regions() {
    let regions = vec![
        MapsEntry {
            start: 0x10000,
            end: 0x11000,
            perms: "rw-p".into(),
            offset: 0,
            dev: "00:00".into(),
            inode: 0,
            pathname: String::new(),
        },
        MapsEntry {
            start: 0x20000,
            end: 0x22000,
            perms: "rw-p".into(),
            offset: 0,
            dev: "00:00".into(),
            inode: 0,
            pathname: String::new(),
        },
    ];
    let refs: Vec<&MapsEntry> = regions.iter().collect();
    let batch = build_batch(&refs, 10 * 4096);
    assert_eq!(batch.len(), 2);
    assert_eq!(batch[0], (0x10000, 0x1000usize));
    assert_eq!(batch[1], (0x20000, 0x2000usize));
}

#[test]
fn test_build_batch_respects_max_bytes() {
    let regions = vec![
        MapsEntry {
            start: 0x10000,
            end: 0x11000,
            perms: "rw-p".into(),
            offset: 0,
            dev: "00:00".into(),
            inode: 0,
            pathname: String::new(),
        }, // 4KB
        MapsEntry {
            start: 0x20000,
            end: 0x24000,
            perms: "rw-p".into(),
            offset: 0,
            dev: "00:00".into(),
            inode: 0,
            pathname: String::new(),
        }, // 16KB
        MapsEntry {
            start: 0x30000,
            end: 0x31000,
            perms: "rw-p".into(),
            offset: 0,
            dev: "00:00".into(),
            inode: 0,
            pathname: String::new(),
        }, // 4KB
    ];
    let refs: Vec<&MapsEntry> = regions.iter().collect();
    // max_bytes = 12KB → only first two regions fit (4KB + 16KB = 20KB > 12KB,
    // so it stops after the first one)
    let batch = build_batch(&refs, 12 * 1024);
    assert_eq!(batch.len(), 1, "only first region should fit in 12KB cap");
}

#[test]
fn test_build_batch_exact_capacity() {
    let regions = vec![
        MapsEntry {
            start: 0x10000,
            end: 0x12000,
            perms: "rw-p".into(),
            offset: 0,
            dev: "00:00".into(),
            inode: 0,
            pathname: String::new(),
        }, // 8KB
        MapsEntry {
            start: 0x20000,
            end: 0x22000,
            perms: "rw-p".into(),
            offset: 0,
            dev: "00:00".into(),
            inode: 0,
            pathname: String::new(),
        }, // 8KB
    ];
    let refs: Vec<&MapsEntry> = regions.iter().collect();
    // max_bytes = 16KB → exactly both
    let batch = build_batch(&refs, 16 * 1024);
    assert_eq!(batch.len(), 2);
}

#[test]
fn test_build_batch_zero_max_bytes() {
    let regions = vec![MapsEntry {
        start: 0x10000,
        end: 0x11000,
        perms: "rw-p".into(),
        offset: 0,
        dev: "00:00".into(),
        inode: 0,
        pathname: String::new(),
    }];
    let refs: Vec<&MapsEntry> = regions.iter().collect();
    let batch = build_batch(&refs, 0);
    assert!(batch.is_empty(), "zero cap should yield empty batch");
}

#[test]
fn test_apply_mergeable_dry_run_eligible_regions() {
    let my_pid = MY_PID;
    let regions = vec![
        MapsEntry {
            start: 0x10000,
            end: 0x11000,
            perms: "rw-p".into(),
            offset: 0,
            dev: "00:00".into(),
            inode: 0,
            pathname: String::new(),
        },
        MapsEntry {
            start: 0x20000,
            end: 0x24000,
            perms: "rw-p".into(),
            offset: 0,
            dev: "00:00".into(),
            inode: 0,
            pathname: String::new(),
        },
    ];
    let result = apply_mergeable(my_pid, &regions, 1024 * 1024, true, &no_lookup, &no_injection);
    // Both regions should be eligible (anon RW, no exec, not special)
    // First region = 4KB, second = 16KB → total = 20KB
    assert_eq!(result.regions_attempted, 2);
    assert_eq!(result.regions_merged, 2);
    assert_eq!(result.total_bytes_marked, (4 + 16) * 1024);
    assert!(result.errors.is_empty());
}

#[test]
fn test_apply_mergeable_dry_run_filters_non_eligible() {
    let my_pid = MY_PID;
    // One eligible, one file-backed (not anon), one executable
    let regions = vec![
        MapsEntry {
            start: 0x10000,
            end: 0x11000,
            perms: "rw-p".into(),
            offset: 0,
            dev: "00:00".into(),
            inode: 0,
            pathname: String::new(),
        }, // eligible
        MapsEntry {
            start: 0x20000,
            end: 0x21000,
            perms: "rw-p".into(),
            offset: 1,
            dev: "00:00".into(),
            inode: 12345,
            pathname: "/some/file".into(),
        }, // file-backed, not eligible
        MapsEntry {
            start: 0x30000,
            end: 0x31000,
            perms: "r-xp".into(),
            offset: 0,
            dev: "00:00".into(),
            inode: 0,
            pathname: String::new(),
        }, // executable, not eligible
    ];
    let result = apply_mergeable(my_pid, &regions, 1024 * 1024, true, &no_lookup, &no_injection);
    // Only the first region should pass the eligibility filter
    assert_eq!(result.regions_attempted, 1);
    assert_eq!(result.regions_merged, 1);
}

#[test]
fn test_apply_mergeable_dry_run_respects_max_bytes() {
    let my_pid = MY_PID;
    let regions = vec![
        MapsEntry {
            start: 0x10000,
            end: 0x12000,
            perms: "rw-p".into(),
            offset: 0,
            dev: "00:00".into(),
            inode: 0,
            pathname: String::new(),
        }, // 8KB
        MapsEntry {
            start: 0x20000,
            end: 0x24000,
            perms: "rw-p".into(),
            offset: 0,
            dev: "00:00".into(),
            inode: 0,
            pathname: String::new(),
        }, // 16KB
    ];
    // max_bytes = 8KB → only 1 region fits
    let result = apply_mergeable(my_pid, &regions, 8 * 1024, true, &no_lookup, &no_injection);
    assert_eq!(result.regions_attempted, 1);
    assert_eq!(result.regions_merged, 1);
    assert_eq!(result.total_bytes_marked, 8 * 1024);
}

#[test]
fn test_apply_mergeable_dry_run_invalid_pid() {
    // PID 0xFFFFFF is almost certainly non-existent
    let regions = vec![MapsEntry {
        start: 0x10000,
        end: 0x11000,
        perms: "rw-p".into(),
        offset: 0,
        dev: "00:00".into(),
        inode: 0,
        pathname: String::new(),
    }];
    let result = apply_mergeable(0xFFFFFF, &regions, 4096, true, &no_lookup, &no_injection);
    // In dry_run mode, we build a batch and simulate success without
    // actually checking PID validity (ptrace happens at runtime, not batch-build time)
    assert_eq!(result.regions_attempted, 1);
    assert_eq!(result.regions_merged, 1);
    assert_eq!(result.total_bytes_marked, 4096);
    assert!(
        result.errors.is_empty(),
        "dry run should have no errors: {:?}",
        result.errors
    );
}

#[test]
fn test_apply_mergeable_returns_zero_when_no_regions_are_eligible() {
    let result = apply_mergeable(
        MY_PID,
        &[MapsEntry {
            start: 0x10000,
            end: 0x11000,
            perms: "r-xp".into(),
            offset: 0,
            dev: "00:00".into(),
            inode: 0,
            pathname: String::new(),
        }],
        4096,
        true,
        &no_lookup,
        &no_injection,
    );

    assert_eq!(result.regions_attempted, 0);
    assert_eq!(result.regions_merged, 0);
    assert!(result.errors.is_empty());
}

#[test]
fn test_apply_mergeable_non_dry_run_reports_fallback_errors() {
    let result = apply_mergeable(
        MY_PID,
        &[MapsEntry {
            start: 0x10000,
            end: 0x11000,
            perms: "rw-p".into(),
            offset: 0,
            dev: "00:00".into(),
            inode: 0,
            pathname: String::new(),
        }],
        4096,
        false,
        &|_: u32| Ok(0x7fff_0000),
        &|_: u32, _: u64, _: usize, _: u64| Err("ptrace attach failed: EPERM".to_string()),
    );

    assert_eq!(result.regions_attempted, 1);
    assert_eq!(result.regions_merged, 0);
    assert_eq!(result.total_bytes_marked, 0);
    assert!(!result.errors.is_empty());
    // Now uses ptrace injection, not process_madvise
    assert!(result.errors[0].1.contains("ptrace madvise failed"));
}

#[test]
fn test_collapse_regions_returns_zero_without_large_eligible_regions() {
    let collapsed = collapse_regions(
        MY_PID,
        &[MapsEntry {
            start: 0x10000,
            end: 0x11000,
            perms: "rw-p".into(),
            offset: 0,
            dev: "00:00".into(),
            inode: 0,
            pathname: String::new(),
        }],
        &|_: u32| panic!("no handle should be opened"),
        &|_: i32, _: u64, _: usize| panic!("nothing should be collapsed"),
        &|_: i32| panic!("no handle should be closed"),
    );

    assert_eq!(collapsed, 0);
}

#[test]
fn test_collapse_regions_attempts_large_aligned_region_without_panicking() {
    let collapsed = collapse_regions(
        MY_PID,
        &[MapsEntry {
            start: 0x200000,
            end: 0x400000,
            perms: "rw-p".into(),
            offset: 0,
            dev: "00:00".into(),
            inode: 0,
            pathname: String::new(),
        }],
        &|_: u32| Ok(3),
        &|_: i32, _: u64, _: usize| Err("ENOMEM: Out of memory".to_string()),
        &|_: i32| (),
    );

    assert_eq!(collapsed, 0);
}

#[test]
fn test_batch_apply_mergeable_multiple_targets() {
    let my_pid = MY_PID;
    let regions = vec![MapsEntry {
        start: 0x10000,
        end: 0x11000,
        perms: "rw-p".into(),
        offset: 0,
        dev: "00:00".into(),
        inode: 0,
        pathname: String::new(),
    }];

    // Two different PIDs — batch_apply_mergeable returns one per PID
    let other_pid = my_pid.checked_add(1).unwrap_or(2);
    let targets = vec![(my_pid, regions.clone()), (other_pid, regions)];
    let results = batch_apply_mergeable(&targets, 4096, true, &no_lookup, &no_injection);

    assert_eq!(results.len(), 2, "should have entries for both PIDs");
    // First PID exists → dry-run succeeds with 1 region merged
    assert_eq!(results[&my_pid].regions_merged, 1);
    // In dry_run mode, non-existent PID still simulates success
    // (ptrace only runs at runtime, not during dry-run batch building)
    assert_eq!(results[&other_pid].regions_merged, 1);
}

#[test]
fn test_madvise_result_default_zeroes() {
    let result = MadviseResult {
        pid: 42,
        regions_attempted: 0,
        regions_merged: 0,
        total_bytes_marked: 0,
        errors: vec![],
    };
    assert_eq!(result.pid, 42);
    assert_eq!(result.regions_merged, 0);
    assert!(result.errors.is_empty());
}

#[test]
fn test_madvise_result_with_errors() {
    let result = MadviseResult {
        pid: 99,
        regions_attempted: 2,
        regions_merged: 1,
        total_bytes_marked: 4096,
        errors: vec![(0x10000, "EPERM: Operation not permitted".into())],
    };
    assert_eq!(result.errors.len(), 1);
    assert_eq!(result.regions_merged, 1);
}

#[test]
fn test_apply_madvise_batches_counts_full_batch_success() {
    let mut result = MadviseResult {
        pid: 123,
        regions_attempted: 2,
        regions_merged: 0,
        total_bytes_marked: 0,
        errors: vec![],
    };
    let batch = vec![(0x1000, 4096), (0x2000, 8192)];

    apply_madvise_batches(
        &mut result,
        &batch,
        |_: &[(u64, usize)]| Ok(12_288),
        |_: u64, _: usize| panic!("single fallback should not run"),
    );

    assert_eq!(result.regions_merged, 2);
    assert_eq!(result.total_bytes_marked, 12_288);
    assert!(result.errors.is_empty());
}

#[test]
fn test_apply_madvise_batches_counts_partial_batch_success() {
    let mut result = MadviseResult {
        pid: 123,
        regions_attempted: 2,
        regions_merged: 0,
        total_bytes_marked: 0,
        errors: vec![],
    };
    let batch = vec![(0x1000, 4096), (0x2000, 8192)];

    apply_madvise_batches(
        &mut result,
        &batch,
        |_: &[(u64, usize)]| Ok(4096),
        |_: u64, _: usize| panic!("single fallback should not run"),
    );

    assert_eq!(result.regions_merged, 2);
    assert_eq!(result.total_bytes_marked, 4096);
    assert!(result.errors.is_empty());
}

#[test]
fn test_apply_madvise_batches_falls_back_per_region_after_batch_failure() {
    let mut result = MadviseResult {
        pid: 123,
        regions_attempted: 3,
        regions_merged: 0,
        total_bytes_marked: 0,
        errors: vec![],
    };
    let batch = vec![(0x1000, 4096), (0x2000, 8192), (0x3000, 4096)];

    apply_madvise_batches(
        &mut result,
        &batch,
        |_: &[(u64, usize)]| Err("forced batch failure".into()),
        |addr: u64, _len: usize| {
            if addr == 0x2000 {
                Err("forced single failure".into())
            } else {
                Ok(())
            }
        },
    );

    assert_eq!(result.regions_merged, 2);
    assert_eq!(result.total_bytes_marked, 8192);
    assert_eq!(result.errors.len(), 1);
    assert_eq!(result.errors[0].0, 0x2000);
    assert!(result.errors[0].1.contains("forced single failure"));
}

#[test]
fn test_errno_to_str_known_and_unknown() {
    assert!(errno_to_str(libc::EPERM).contains("EPERM"));
    assert_eq!(errno_to_str(999_999), "unknown");
}

#[test]
fn test_process_madvise_helpers_report_bad_fd() {
    let bad_fd = || SyscallReturn {
        value: -1,
        errno: libc::EBADF,
    };

    let batch_err = process_madvise_batch(MADV_MERGEABLE, bad_fd).unwrap_err();
    let single_err = process_madvise_single(MADV_MERGEABLE, bad_fd).unwrap_err();

    // These helpers validate advice and reject MADV_MERGEABLE
    assert!(batch_err.contains("MADV_MERGEABLE not supported by process_madvise"));
    assert!(single_err.contains("MADV_MERGEABLE not supported by process_madvise"));
}

#[test]
fn special_and_executable_regions_are_not_eligible() {
    assert!(eligible(&anon(0x1000, 0x2000)));
    for name in ["[vdso]", "[vvar]", "[vsyscall]", "[stack]"] {
        let mut region = anon(0x1000, 0x2000);
        region.pathname = name.into();
        assert!(!eligible(&region), "{name}");
    }
    let mut region = anon(0x1000, 0x2000);
    region.perms = "rwxp".into();
    assert!(!eligible(&region));
}

#[test]
fn batch_ends_at_the_first_region_that_does_not_fit() {
    let regions = [
        anon(0x10000, 0x12000),
        anon(0x20000, 0x24000),
        anon(0x30000, 0x31000),
        anon(0x40000, 0x41000),
    ];
    let batch = build_batch(&regions.iter().collect(), 0x3000);
    assert_eq!(batch, vec![(0x10000, 0x2000)]);
    let batch = build_batch(&regions.iter().collect(), 0x7000);
    assert_eq!(
        batch,
        vec![(0x10000, 0x2000), (0x20000, 0x4000), (0x30000, 0x1000)]
    );
}

#[test]
fn batch_has_room_for_a_limited_number_of_regions() {
    let regions: Vec<MapsEntry> = (0..300u64)
        .map(|i| anon(i * 0x2000, i * 0x2000 + 0x1000))
        .collect();
    let batch = build_batch(&regions.iter().collect(), u64::MAX);
    assert_eq!(batch.len(), 256);
    assert_eq!(batch[255], (255 * 0x2000, 0x1000));
}

#[test]
fn every_region_of_the_batch_is_injected_once() {
    let calls = RefCell::new(Vec::new());
    let result = apply_mergeable(
        7,
        &[anon(0x10000, 0x11000), anon(0x20000, 0x22000), anon(0x30000, 0x31000)],
        1 << 20,
        false,
        &|pid: u32| {
            assert_eq!(pid, 7);
            Ok(0x7fff_1234)
        },
        &|pid: u32, addr: u64, len: usize, at: u64| {
            calls.borrow_mut().push((pid, addr, len, at));
            if addr == 0x20000 {
                Err("madvise returned EINVAL".to_string())
            } else {
                Ok(())
            }
        },
    );
    assert_eq!(
        calls.into_inner(),
        vec![
            (7, 0x10000, 0x1000, 0x7fff_1234),
            (7, 0x20000, 0x2000, 0x7fff_1234),
            (7, 0x30000, 0x1000, 0x7fff_1234)
        ]
    );
    assert_eq!(result.pid, 7);
    assert_eq!(result.regions_attempted, 3);
    assert_eq!(result.regions_merged, 2);
    assert_eq!(result.total_bytes_marked, 0x2000);
    assert_eq!(
        result.errors,
        vec![(
            0x20000,
            "ptrace madvise failed: madvise returned EINVAL".to_string()
        )]
    );
}

#[test]
fn nothing_is_injected_without_a_syscall_instruction() {
    let result = apply_mergeable(
        7,
        &[anon(0x10000, 0x11000)],
        1 << 20,
        false,
        &|_: u32| Err("no vdso".to_string()),
        &no_injection,
    );
    assert_eq!(result.regions_attempted, 1);
    assert_eq!(result.regions_merged, 0);
    assert_eq!(
        result.errors,
        vec![(
            0x10000,
            "cannot find syscall instruction: no vdso".to_string()
        )]
    );
}

#[test]
fn a_later_target_replaces_an_earlier_one_of_the_same_process() {
    let targets = vec![
        (5, vec![anon(0x10000, 0x11000)]),
        (5, vec![anon(0x10000, 0x11000), anon(0x20000, 0x21000)]),
    ];
    let results = batch_apply_mergeable(&targets, 1 << 20, true, &no_lookup, &no_injection);
    assert_eq!(results.len(), 1);
    assert_eq!(results[&5].regions_merged, 2);
}

#[test]
fn long_batches_go_out_in_chunks() {
    let batch: Vec<(u64, usize)> = (0..300).map(|i| (i * 0x1000, 0x1000)).collect();
    let sizes = RefCell::new(Vec::new());
    let mut result = MadviseResult {
        pid: 1,
        regions_attempted: 300,
        regions_merged: 0,
        total_bytes_marked: 0,
        errors: vec![],
    };
    apply_madvise_batches(
        &mut result,
        &batch,
        |chunk: &[(u64, usize)]| {
            sizes.borrow_mut().push((chunk[0].0, chunk.len()));
            Ok(chunk.len() as u64 * 0x1000)
        },
        |_: u64, _: usize| panic!("single fallback should not run"),
    );
    assert_eq!(sizes.into_inner(), vec![(0, 256), (256 * 0x1000, 44)]);
    assert_eq!(result.regions_merged, 300);
    assert_eq!(result.total_bytes_marked, 300 * 0x1000);
}

#[test]
fn collapsing_covers_the_aligned_part_of_large_regions() {
    let calls = RefCell::new(Vec::new());
    let closed = Cell::new(0);
    let collapsed = collapse_regions(
        9,
        &[
            anon(0x1ff000, 0x801000),
            anon(0x900000, 0x901000),
            anon(0xa01000, 0xc02000),
            anon(0x1000000, 0x1200000),
        ],
        &|pid: u32| {
            assert_eq!(pid, 9);
            Ok(11)
        },
        &|fd: i32, addr: u64, len: usize| {
            calls.borrow_mut().push((fd, addr, len));
            Ok(())
        },
        &|fd: i32| {
            assert_eq!(fd, 11);
            closed.set(closed.get() + 1);
        },
    );
    assert_eq!(
        calls.into_inner(),
        vec![(11, 0x200000, 0x600000), (11, 0x1000000, 0x200000)]
    );
    assert_eq!(collapsed, 2);
    assert_eq!(closed.get(), 1);
}

#[test]
fn errors_of_the_system_have_names() {
    assert_eq!(errno_to_str(libc::EPERM), "EPERM: Operation not permitted");
    for errno in [
        libc::EPERM,
        libc::EINVAL,
        libc::ENOMEM,
        libc::ESRCH,
        libc::ENOSYS,
        libc::EBADF,
    ] {
        assert_ne!(errno_to_str(errno), "unknown");
        assert!(errno_message(errno).contains(errno_to_str(errno)));
    }
}

#[test]
fn helpers_make_the_call_for_other_advice() {
    let count = Cell::new(0);
    let good = || {
        count.set(count.get() + 1);
        SyscallReturn {
            value: 4096,
            errno: 0,
        }
    };
    assert_eq!(process_madvise_batch(MADV_COLLAPSE, good), Ok(4096));
    assert_eq!(process_madvise_single(MADV_COLLAPSE, good), Ok(()));
    assert_eq!(count.get(), 2);
    assert_eq!(
        process_madvise_batch(MADV_MERGEABLE, good),
        Err(MERGEABLE_UNSUPPORTED.to_string())
    );
    assert_eq!(count.get(), 2);
    let bad = || SyscallReturn {
        value: -1,
        errno: libc::EINVAL,
    };
    let err = process_madvise_batch(MADV_COLLAPSE, bad).unwrap_err();
    assert!(err.contains("EINVAL"));
}

#[test]
fn a_chunk_may_report_more_bytes_than_it_has() {
    let mut result = MadviseResult {
        pid: 123,
        regions_attempted: 1,
        regions_merged: 0,
        total_bytes_marked: 5,
        errors: vec![],
    };
    apply_madvise_batches(
        &mut result,
        &[(0x1000, 4096)],
        |_: &[(u64, usize)]| Ok(1 << 40),
        |_: u64, _: usize| panic!("single fallback should not run"),
    );
    assert_eq!(result.regions_merged, 1);
    assert_eq!(result.total_bytes_marked, (1 << 40) + 5);
}

#[test]
fn regions_that_are_not_eligible_may_be_turned_around() {
    let mut odd = anon(0x9000, 0x1000);
    odd.perms = "r--p".into();
    let regions = vec![odd, anon(0x10000, 0x11000)];
    let injected = RefCell::new(Vec::new());
    let result = apply_mergeable(
        MY_PID,
        &regions,
        1 << 20,
        false,
        &|_: u32| Ok(0x700),
        &|pid: u32, addr: u64, len: usize, at: u64| {
            injected.borrow_mut().push((pid, addr, len, at));
            Ok(())
        },
    );
    assert_eq!(result.regions_merged, 1);
    assert_eq!(
        injected.into_inner(),
        vec![(MY_PID, 0x10000, 0x1000, 0x700)]
    );
    assert_eq!(
        collapse_regions(
            MY_PID,
            &regions,
            &|_: u32| panic!("no region is large enough"),
            &|_: i32, _: u64, _: usize| panic!("nothing should be collapsed"),
            &|_: i32| panic!("nothing should be closed"),
        ),
        0
    );
}

/// A world that is a list of what was called.
type Log = Vec<String>;

fn noted(mut log: Log, what: String) -> Log {
    log.push(what);
    log
}

#[test]
fn a_process_is_looked_up_once_and_each_region_tried_once() {
    let (result, log) = madvise::apply_mergeable(
        7,
        &[anon(0x10000, 0x11000), anon(0x20000, 0x21000)],
        1 << 20,
        false,
        Log::new(),
        &|log: Log, pid: u32| (Ok(0x99), noted(log, format!("find {pid}"))),
        &|log: Log, pid: u32, addr: u64, len: usize, at: u64| {
            (
                Ok(()),
                noted(log, format!("inject {pid} {addr:x} {len:x} {at:x}")),
            )
        },
    );
    assert_eq!(result.regions_merged, 2);
    assert_eq!(
        log,
        vec![
            "find 7",
            "inject 7 10000 1000 99",
            "inject 7 20000 1000 99"
        ]
    );
}

#[test]
fn every_target_is_marked_though_a_process_is_listed_twice() {
    let targets = vec![
        (5, vec![anon(0x10000, 0x11000)]),
        (5, vec![anon(0x20000, 0x21000)]),
    ];
    let (results, log) = madvise::batch_apply_mergeable(
        &targets,
        1 << 20,
        false,
        Log::new(),
        &|log: Log, pid: u32| (Ok(1), noted(log, format!("find {pid}"))),
        &|log: Log, pid: u32, addr: u64, _: usize, _: u64| {
            (Ok(()), noted(log, format!("inject {pid} {addr:x}")))
        },
    );
    assert_eq!(results.len(), 1);
    assert_eq!(
        log,
        vec!["find 5", "inject 5 10000", "find 5", "inject 5 20000"]
    );
}

#[test]
fn chunks_are_sent_once_and_failed_ones_region_by_region() {
    let batch: Vec<(u64, usize)> = (0..258).map(|i| (i, 1)).collect();
    let mut result = MadviseResult {
        pid: 1,
        regions_attempted: 258,
        regions_merged: 0,
        total_bytes_marked: 0,
        errors: vec![],
    };
    let log = process_madvise::apply_madvise_batches(
        &mut result,
        &batch,
        Log::new(),
        |log: Log, chunk: &[(u64, usize)]| {
            let reply = if chunk[0].0 == 0 {
                Ok(256)
            } else {
                Err("EPERM".to_string())
            };
            (reply, noted(log, format!("batch {}", chunk.len())))
        },
        |log: Log, addr: u64, _: usize| (Ok(()), noted(log, format!("single {addr}"))),
    );
    assert_eq!(
        log,
        vec!["batch 256", "batch 2", "single 256", "single 257"]
    );
    assert_eq!(result.regions_merged, 258);
    assert_eq!(result.total_bytes_marked, 258);
}

#[test]
fn a_handle_is_closed_after_the_last_range() {
    let regions = [anon(0x200000, 0x400000), anon(0x800000, 0xa00000)];
    let collapse = |answer: &'static str| {
        process_madvise::collapse_regions(
            9,
            &regions,
            Log::new(),
            &|log: Log, pid: u32| (Ok(4), noted(log, format!("open {pid}"))),
            &|log: Log, fd: i32, addr: u64, _: usize| {
                (
                    Err(answer.to_string()),
                    noted(log, format!("collapse {fd} {addr:x}")),
                )
            },
            &|log: Log, fd: i32| noted(log, format!("close {fd}")),
        )
    };
    let (count, log) = collapse("EINVAL");
    assert_eq!(count, 0);
    assert_eq!(
        log,
        vec!["open 9", "collapse 4 200000", "collapse 4 800000", "close 4"]
    );
    let (_, log) = collapse("ENOSYS");
    assert_eq!(log, vec!["open 9", "collapse 4 200000", "close 4"]);
}
