use std::cell::{Cell, RefCell};

use animaksm::config::ScannerConfig;
use animaksm::ksm::KsmStats;
use animaksm::procfs::{KsmProcStat, MapsEntry, ProcessStatus};
use animaksm::scanner::{
    self, eligible_anon_rw_summary, is_sane, l1_candidate_from_status,
    passes_l25_profit_filter, passes_l2_already_merged_filter, Candidate, CycleOutcome, ScanCalls,
    ScanReads, Scanner, ScannerStats,
};
use animaksm::state::GovernorState;

/// Selects with reads that keep no account of the world.
fn collect_scan_targets(
    config: &ScannerConfig,
    pids: Vec<u32>,
    stats: &mut ScannerStats,
    read_status: &impl Fn(u32) -> Option<ProcessStatus>,
    read_ksm_stat: &impl Fn(u32) -> Option<KsmProcStat>,
    read_maps: &impl Fn(u32) -> Option<Vec<MapsEntry>>,
) -> Vec<(u32, Vec<MapsEntry>)> {
    scanner::collect_scan_targets(
        config,
        pids,
        stats,
        (),
        &|_: (), pid: u32| (read_status(pid), ()),
        &|_: (), pid: u32| (read_ksm_stat(pid), ()),
        &|_: (), pid: u32| (read_maps(pid), ()),
    )
    .0
}

/// Runs a cycle with calls that keep no account of the world.
fn run_cycle<
    ListFn: Fn() -> Option<Vec<u32>>,
    StatusFn: Fn(u32) -> Option<ProcessStatus>,
    KsmFn: Fn(u32) -> Option<KsmProcStat>,
    MapsFn: Fn(u32) -> Option<Vec<MapsEntry>>,
    StatsFn: Fn() -> Option<KsmStats>,
    FindFn: Fn(u32) -> Result<u64, String>,
    InjectFn: Fn(u32, u64, usize, u64) -> Result<(), String>,
    OpenFn: Fn(u32) -> Result<i32, String>,
    CollapseFn: Fn(i32, u64, usize) -> Result<(), String>,
    CloseFn: Fn(i32),
>(
    scanner: &mut Scanner,
    now: u64,
    state: &GovernorState,
    reads: &ScanReads<ListFn, StatusFn, KsmFn, MapsFn, StatsFn>,
    calls: &ScanCalls<FindFn, InjectFn, OpenFn, CollapseFn, CloseFn>,
) -> CycleOutcome {
    scanner
        .scan_cycle(
            now,
            state,
            (),
            &ScanReads {
                list: |_: ()| ((reads.list)(), ()),
                status: |_: (), pid: u32| ((reads.status)(pid), ()),
                ksm_stat: |_: (), pid: u32| ((reads.ksm_stat)(pid), ()),
                maps: |_: (), pid: u32| ((reads.maps)(pid), ()),
                ksm: |_: ()| ((reads.ksm)(), ()),
            },
            &ScanCalls {
                find_syscall: |_: (), pid: u32| ((calls.find_syscall)(pid), ()),
                inject: |_: (), pid: u32, addr: u64, len: usize, at: u64| {
                    ((calls.inject)(pid, addr, len, at), ())
                },
                open: |_: (), pid: u32| ((calls.open)(pid), ()),
                collapse: |_: (), fd: i32, addr: u64, len: usize| {
                    ((calls.collapse)(fd, addr, len), ())
                },
                close: |_: (), fd: i32| (calls.close)(fd),
            },
        )
        .0
}

fn map(start: u64, end: u64, perms: &str, inode: u64, pathname: &str) -> MapsEntry {
    MapsEntry {
        start,
        end,
        perms: perms.into(),
        offset: 0,
        dev: "00:00".into(),
        inode,
        pathname: pathname.into(),
    }
}

#[test]
fn test_scanner_new_initial_state() {
    let scanner = Scanner::new(ScannerConfig::default(), false, 30);
    assert_eq!(scanner.config.interval_secs, 30);
    assert_eq!(scanner.dry_run, false);
    assert_eq!(scanner.stabilization_secs, 30);
    assert_eq!(scanner.stats.scan_cycles, 0);
    assert_eq!(scanner.stats.skipped_stabilization, 0);
}

#[test]
fn test_scanner_stats_default() {
    let stats = ScannerStats::default();
    assert_eq!(stats.scan_cycles, 0);
    assert_eq!(stats.processes_filtered_l1, 0);
    assert_eq!(stats.processes_filtered_l2, 0);
    assert_eq!(stats.processes_filtered_l25_profit, 0);
    assert_eq!(stats.processes_targeted, 0);
    assert_eq!(stats.madvise_calls, 0);
    assert_eq!(stats.total_bytes_marked, 0);
    assert_eq!(stats.skipped_stabilization, 0);
    assert_eq!(stats.thp_collapsed, 0);
}

#[test]
fn test_scanner_new_respects_dry_run() {
    let scanner = Scanner::new(ScannerConfig::default(), true, 60);
    assert!(scanner.dry_run);
    assert_eq!(scanner.stabilization_secs, 60);
}

#[test]
fn test_scanner_stats_getter() {
    let scanner = Scanner::new(ScannerConfig::default(), false, 30);
    let stats = scanner.stats();
    assert_eq!(stats.scan_cycles, 0);
}

#[test]
fn test_scanner_new_with_nondefault_config() {
    let mut config = ScannerConfig::default();
    config.interval_secs = 120;
    config.min_anon_rss_mb = 200;
    config.max_candidates_per_cycle = 10;

    let scanner = Scanner::new(config, false, 30);
    assert_eq!(scanner.config.interval_secs, 120);
    assert_eq!(scanner.config.min_anon_rss_mb, 200);
    assert_eq!(scanner.config.max_candidates_per_cycle, 10);
}

#[test]
fn test_l1_candidate_filters_kernel_small_and_blocklisted_processes() {
    let config = ScannerConfig {
        min_anon_rss_mb: 100,
        blocklist: vec!["zramdedup".into()],
        ..ScannerConfig::default()
    };

    assert!(l1_candidate_from_status(
        ProcessStatus {
            pid: 2,
            name: "kthreadd".into(),
            vm_anon_kb: 1024 * 1024,
            ..Default::default()
        },
        &config
    )
    .is_none());

    assert!(l1_candidate_from_status(
        ProcessStatus {
            pid: 100,
            name: "tiny".into(),
            vm_anon_kb: 99 * 1024,
            ..Default::default()
        },
        &config
    )
    .is_none());

    assert!(l1_candidate_from_status(
        ProcessStatus {
            pid: 101,
            name: "zramdedup-daemon".into(),
            vm_anon_kb: 500 * 1024,
            ..Default::default()
        },
        &config
    )
    .is_none());
}

#[test]
fn test_l1_candidate_keeps_large_unblocked_process() {
    let config = ScannerConfig {
        min_anon_rss_mb: 100,
        blocklist: vec!["blocked".into()],
        ..ScannerConfig::default()
    };

    let candidate = l1_candidate_from_status(
        ProcessStatus {
            pid: 200,
            name: "browser".into(),
            vm_anon_kb: 256 * 1024,
            ..Default::default()
        },
        &config,
    )
    .unwrap();

    assert_eq!(candidate.pid, 200);
    assert_eq!(candidate.name, "browser");
    assert_eq!(candidate.anon_rss_mb, 256);
}

#[test]
fn test_l2_filter_skips_already_mergeable_processes() {
    assert!(passes_l2_already_merged_filter(None));
    assert!(passes_l2_already_merged_filter(Some(&KsmProcStat {
        merge_any: false,
        ..Default::default()
    })));
    assert!(!passes_l2_already_merged_filter(Some(&KsmProcStat {
        merge_any: true,
        ..Default::default()
    })));
}

#[test]
fn test_l25_filter_skips_negative_profit_only_when_known() {
    assert!(passes_l25_profit_filter(None));
    assert!(passes_l25_profit_filter(Some(&KsmProcStat {
        process_profit: 0,
        ..Default::default()
    })));
    assert!(passes_l25_profit_filter(Some(&KsmProcStat {
        process_profit: 42,
        ..Default::default()
    })));
    assert!(!passes_l25_profit_filter(Some(&KsmProcStat {
        process_profit: -1,
        ..Default::default()
    })));
}

#[test]
fn test_eligible_anon_rw_summary_counts_only_l3_candidates() {
    let maps = vec![
        map(0x1000, 0x5000, "rw-p", 0, ""),
        map(0x5000, 0x9000, "rwxp", 0, ""),
        map(0x9000, 0xD000, "rw-s", 0, ""),
        map(0xD000, 0x11000, "rw-p", 12, "/tmp/file"),
        map(0x11000, 0x15000, "rw-p", 0, "[heap]"),
        map(0x15000, 0x1D000, "rw-p", 0, ""),
    ];

    let (count, bytes) = eligible_anon_rw_summary(&maps);
    assert_eq!(count, 2);
    assert_eq!(bytes, 0x4000 + 0x8000);
}

#[test]
fn test_collect_scan_targets_returns_empty_when_l1_has_no_candidates() {
    let config = ScannerConfig {
        min_anon_rss_mb: 128,
        ..ScannerConfig::default()
    };
    let mut stats = ScannerStats::default();

    let targets = collect_scan_targets(
        &config,
        vec![1, 2, 10],
        &mut stats,
        &|pid: u32| {
            Some(ProcessStatus {
                pid,
                name: "tiny".into(),
                vm_anon_kb: 64 * 1024,
                ..Default::default()
            })
        },
        &|_: u32| None,
        &|_: u32| None,
    );

    assert!(targets.is_empty());
    assert_eq!(stats.processes_filtered_l1, 0);
    assert_eq!(stats.processes_filtered_l2, 0);
}

#[test]
fn test_collect_scan_targets_filters_already_merged_processes() {
    let config = ScannerConfig {
        min_anon_rss_mb: 128,
        ..ScannerConfig::default()
    };
    let mut stats = ScannerStats::default();

    let targets = collect_scan_targets(
        &config,
        vec![10, 11],
        &mut stats,
        &|pid: u32| {
            Some(ProcessStatus {
                pid,
                name: format!("proc-{pid}"),
                vm_anon_kb: 256 * 1024,
                ..Default::default()
            })
        },
        &|_: u32| {
            Some(KsmProcStat {
                merge_any: true,
                ..Default::default()
            })
        },
        &|_: u32| Some(vec![map(0x1000, 0x5000, "rw-p", 0, "")]),
    );

    assert!(targets.is_empty());
    assert_eq!(stats.processes_filtered_l1, 2);
    assert_eq!(stats.processes_filtered_l2, 0);
}

#[test]
fn test_collect_scan_targets_filters_negative_profit_and_missing_maps() {
    let config = ScannerConfig {
        min_anon_rss_mb: 128,
        max_candidates_per_cycle: 3,
        ..ScannerConfig::default()
    };
    let mut stats = ScannerStats::default();

    let targets = collect_scan_targets(
        &config,
        vec![10, 11, 12],
        &mut stats,
        &|pid: u32| {
            Some(ProcessStatus {
                pid,
                name: format!("proc-{pid}"),
                vm_anon_kb: 256 * 1024,
                ..Default::default()
            })
        },
        &|pid: u32| match pid {
            10 => Some(KsmProcStat {
                process_profit: -1,
                ..Default::default()
            }),
            _ => None,
        },
        &|pid: u32| match pid {
            11 => None,
            12 => Some(vec![map(0x1000, 0x5000, "rw-p", 0, "")]),
            _ => unreachable!(),
        },
    );

    assert_eq!(targets.len(), 1);
    assert_eq!(targets[0].0, 12);
    assert_eq!(stats.processes_filtered_l1, 3);
    assert_eq!(stats.processes_filtered_l2, 3);
    assert_eq!(stats.processes_filtered_l25_profit, 1);
}

#[test]
fn test_collect_scan_targets_sorts_by_rss_and_truncates_top_candidates() {
    let config = ScannerConfig {
        min_anon_rss_mb: 1,
        max_candidates_per_cycle: 2,
        ..ScannerConfig::default()
    };
    let mut stats = ScannerStats::default();

    let targets = collect_scan_targets(
        &config,
        vec![10, 11, 12],
        &mut stats,
        &|pid: u32| {
            let anon_mb = match pid {
                10 => 64,
                11 => 512,
                12 => 256,
                _ => 0,
            };
            Some(ProcessStatus {
                pid,
                name: format!("proc-{pid}"),
                vm_anon_kb: anon_mb * 1024,
                ..Default::default()
            })
        },
        &|_: u32| None,
        &|pid: u32| {
            Some(vec![map(
                pid as u64 * 0x10000,
                pid as u64 * 0x10000 + 0x4000,
                "rw-p",
                0,
                "",
            )])
        },
    );

    assert_eq!(
        targets.iter().map(|(pid, _)| *pid).collect::<Vec<_>>(),
        vec![11, 12]
    );
    assert_eq!(stats.processes_filtered_l1, 3);
    assert_eq!(stats.processes_filtered_l2, 3);
}

#[test]
fn test_pipeline_helpers_model_l1_l2_l25_l3_flow() {
    let config = ScannerConfig {
        min_anon_rss_mb: 128,
        max_candidates_per_cycle: 1,
        blocklist: vec!["blocked".into()],
        ..ScannerConfig::default()
    };

    let statuses = vec![
        ProcessStatus {
            pid: 10,
            name: "small".into(),
            vm_anon_kb: 64 * 1024,
            ..Default::default()
        },
        ProcessStatus {
            pid: 11,
            name: "merged".into(),
            vm_anon_kb: 256 * 1024,
            ..Default::default()
        },
        ProcessStatus {
            pid: 12,
            name: "negative".into(),
            vm_anon_kb: 512 * 1024,
            ..Default::default()
        },
        ProcessStatus {
            pid: 13,
            name: "winner".into(),
            vm_anon_kb: 1024 * 1024,
            ..Default::default()
        },
    ];

    let l1: Vec<Candidate> = statuses
        .into_iter()
        .filter_map(|status| l1_candidate_from_status(status, &config))
        .collect();
    assert_eq!(
        l1.iter().map(|c| c.pid).collect::<Vec<_>>(),
        vec![11, 12, 13]
    );

    let l2: Vec<Candidate> = l1
        .into_iter()
        .filter(|candidate| {
            let stat = match candidate.pid {
                11 => Some(KsmProcStat {
                    merge_any: true,
                    ..Default::default()
                }),
                _ => None,
            };
            passes_l2_already_merged_filter(stat.as_ref())
        })
        .collect();
    assert_eq!(l2.iter().map(|c| c.pid).collect::<Vec<_>>(), vec![12, 13]);

    let mut l25: Vec<Candidate> = l2
        .into_iter()
        .filter(|candidate| {
            let stat = match candidate.pid {
                12 => Some(KsmProcStat {
                    process_profit: -100,
                    ..Default::default()
                }),
                _ => None,
            };
            passes_l25_profit_filter(stat.as_ref())
        })
        .collect();
    l25.sort_by(|a, b| b.anon_rss_mb.cmp(&a.anon_rss_mb));
    l25.truncate(config.max_candidates_per_cycle);

    assert_eq!(l25.len(), 1);
    assert_eq!(l25[0].pid, 13);

    let maps = vec![map(0x1000, 0x5000, "rw-p", 0, "")];
    assert_eq!(eligible_anon_rw_summary(&maps), (1, 0x4000));
}

fn no_status(_: u32) -> Option<ProcessStatus> {
    None
}

fn no_ksm_stat(_: u32) -> Option<KsmProcStat> {
    None
}

fn no_maps(_: u32) -> Option<Vec<MapsEntry>> {
    None
}

fn no_ksm() -> Option<KsmStats> {
    None
}

fn no_lookup(_: u32) -> Result<u64, String> {
    panic!("no syscall instruction should be looked up")
}

fn no_injection(_: u32, _: u64, _: usize, _: u64) -> Result<(), String> {
    panic!("nothing should be injected")
}

fn no_open(_: u32) -> Result<i32, String> {
    panic!("no handle should be opened")
}

fn no_collapse(_: i32, _: u64, _: usize) -> Result<(), String> {
    panic!("nothing should be collapsed")
}

fn no_close(_: i32) {
    panic!("no handle should be closed")
}

/// Runs a cycle in which nothing can be read and nothing may be changed.
fn quiet_cycle(scanner: &mut Scanner, now: u64, state: &GovernorState) -> CycleOutcome {
    run_cycle(
        scanner,
        now,
        state,
        &ScanReads {
            list: || Some(vec![10, 11]),
            status: no_status,
            ksm_stat: no_ksm_stat,
            maps: no_maps,
            ksm: no_ksm,
        },
        &ScanCalls {
            find_syscall: no_lookup,
            inject: no_injection,
            open: no_open,
            collapse: no_collapse,
            close: no_close,
        },
    )
}

#[test]
fn scanner_stabilization_is_not_blocked_by_governor_action() {
    let mut scanner = Scanner::new(
        ScannerConfig {
            min_anon_rss_mb: u64::MAX,
            ..ScannerConfig::default()
        },
        true,
        30,
    );
    let now = 1_000_000;
    let mut state = GovernorState::new(now);
    state.last_governor_action = now;
    state.last_global_action = now;
    state.last_scanner_action = now - 31_000;

    quiet_cycle(&mut scanner, now, &state);

    assert_eq!(
        scanner.stats.skipped_stabilization, 0,
        "a fresh governor action must not defer the scanner"
    );
}

#[test]
fn scanner_defer_when_scanner_stabilization_window_is_active() {
    let mut scanner = Scanner::new(ScannerConfig::default(), true, 30);
    let now = 1_000_000;
    let mut state = GovernorState::new(now);
    state.last_scanner_action = now;

    let outcome = quiet_cycle(&mut scanner, now, &state);

    assert!(matches!(outcome, CycleOutcome::Deferred));
    assert_eq!(scanner.stats.skipped_stabilization, 1);
    assert_eq!(scanner.stats.processes_filtered_l1, 0);
}

#[test]
fn a_deferred_cycle_reads_nothing() {
    let mut scanner = Scanner::new(ScannerConfig::default(), false, 30);
    let now = 1_000_000;
    let state = GovernorState::new(now);
    let outcome = run_cycle(
        &mut scanner,
        now + 29_999,
        &state,
        &ScanReads {
            list: || panic!("processes should not be listed"),
            status: |_: u32| panic!("no status should be read"),
            ksm_stat: |_: u32| panic!("no KSM statistics should be read"),
            maps: |_: u32| panic!("no memory map should be read"),
            ksm: || panic!("KSM should not be asked"),
        },
        &ScanCalls {
            find_syscall: no_lookup,
            inject: no_injection,
            open: no_open,
            collapse: no_collapse,
            close: no_close,
        },
    );
    assert!(matches!(outcome, CycleOutcome::Deferred));
}

#[test]
fn a_dry_run_touches_no_process() {
    let mut scanner = Scanner::new(
        ScannerConfig {
            min_anon_rss_mb: 1,
            ..ScannerConfig::default()
        },
        true,
        30,
    );
    let mut state = GovernorState::new(0);
    let outcome = run_cycle(
        &mut scanner,
        1_000_000,
        &state,
        &ScanReads {
            list: || Some(vec![10]),
            status: |pid: u32| {
                Some(ProcessStatus {
                    pid,
                    name: "worker".into(),
                    vm_anon_kb: 4096,
                    ..Default::default()
                })
            },
            ksm_stat: no_ksm_stat,
            maps: |_: u32| Some(vec![map(0x200000, 0x400000, "rw-p", 0, "")]),
            ksm: || {
                Some(KsmStats {
                    pages_volatile: 5000,
                    ..Default::default()
                })
            },
        },
        &ScanCalls {
            find_syscall: no_lookup,
            inject: no_injection,
            open: no_open,
            collapse: no_collapse,
            close: no_close,
        },
    );
    match &outcome {
        CycleOutcome::Ran {
            targets, results, ..
        } => {
            assert_eq!(targets.len(), 1);
            assert_eq!(results.len(), 1);
        }
        _ => panic!("the cycle should run"),
    }
    assert_eq!(scanner.stats.thp_collapsed, 0);
    Scanner::finish_cycle(1_000_400, &CycleOutcome::Deferred, &mut state);
    assert_eq!(state.last_scanner_action, 0);
}

#[test]
fn memory_maps_are_read_of_the_top_candidates_only() {
    let config = ScannerConfig {
        min_anon_rss_mb: 1,
        max_candidates_per_cycle: 2,
        ..ScannerConfig::default()
    };
    let mut stats = ScannerStats::default();
    let read = RefCell::new(Vec::new());
    let asked = RefCell::new(Vec::new());
    let targets = collect_scan_targets(
        &config,
        vec![10, 20, 30, 40, 50],
        &mut stats,
        &|pid: u32| {
            Some(ProcessStatus {
                pid,
                name: "worker".into(),
                vm_anon_kb: if pid == 50 { 100 } else { pid as u64 * 1024 },
                ..Default::default()
            })
        },
        &|pid: u32| {
            asked.borrow_mut().push(pid);
            Some(KsmProcStat {
                process_profit: if pid == 40 { -1 } else { 1 },
                ..Default::default()
            })
        },
        &|pid: u32| {
            read.borrow_mut().push(pid);
            Some(vec![map(0x1000, 0x5000, "rw-p", 0, "")])
        },
    );
    assert_eq!(asked.into_inner(), vec![10, 20, 30, 40]);
    assert_eq!(read.into_inner(), vec![30, 20]);
    assert_eq!(targets.len(), 2);
}

#[test]
fn a_cycle_without_processes_is_reported() {
    let mut scanner = Scanner::new(ScannerConfig::default(), true, 0);
    let state = GovernorState::new(0);
    let outcome = run_cycle(
        &mut scanner,
        50_000,
        &state,
        &ScanReads {
            list: || None,
            status: no_status,
            ksm_stat: no_ksm_stat,
            maps: no_maps,
            ksm: no_ksm,
        },
        &ScanCalls {
            find_syscall: no_lookup,
            inject: no_injection,
            open: no_open,
            collapse: no_collapse,
            close: no_close,
        },
    );
    assert!(matches!(outcome, CycleOutcome::Unlistable));
    assert_eq!(scanner.stats.processes_targeted, 0);
}

#[test]
fn a_cycle_marks_and_collapses_its_targets() {
    let mut scanner = Scanner::new(
        ScannerConfig {
            min_anon_rss_mb: 1,
            max_candidates_per_cycle: 2,
            ..ScannerConfig::default()
        },
        false,
        30,
    );
    let now = 1_000_000;
    let mut state = GovernorState::new(0);
    let injected = RefCell::new(Vec::new());
    let collapsed = Cell::new(0u32);
    let outcome = run_cycle(
        &mut scanner,
        now,
        &state,
        &ScanReads {
            list: || Some(vec![10, 11, 12]),
            status: |pid: u32| {
                Some(ProcessStatus {
                    pid,
                    name: "worker".into(),
                    vm_anon_kb: pid as u64 * 1024,
                    ..Default::default()
                })
            },
            ksm_stat: no_ksm_stat,
            maps: |_: u32| Some(vec![map(0x200000, 0x400000, "rw-p", 0, "")]),
            ksm: || {
                Some(KsmStats {
                    pages_volatile: 1001,
                    ..Default::default()
                })
            },
        },
        &ScanCalls {
            find_syscall: |_: u32| Ok(0x1000),
            inject: |pid: u32, addr: u64, len: usize, _: u64| {
                injected.borrow_mut().push((pid, addr, len));
                Ok(())
            },
            open: |_: u32| Ok(3),
            collapse: |_: i32, _: u64, _: usize| {
                collapsed.set(collapsed.get() + 1);
                Ok(())
            },
            close: |_: i32| (),
        },
    );
    Scanner::finish_cycle(now + 700, &outcome, &mut state);
    match outcome {
        CycleOutcome::Ran {
            targets,
            results,
            acted,
        } => {
            assert!(acted);
            assert_eq!(
                targets.iter().map(|t| t.0).collect::<Vec<_>>(),
                vec![12, 11]
            );
            assert_eq!(results.len(), 2);
            assert_eq!(results[&12].regions_merged, 1);
        }
        _ => panic!("the cycle should run"),
    }
    assert_eq!(
        injected.into_inner(),
        vec![(12, 0x200000, 0x200000), (11, 0x200000, 0x200000)]
    );
    assert_eq!(collapsed.get(), 2);
    assert_eq!(scanner.stats.processes_targeted, 2);
    assert_eq!(scanner.stats.total_bytes_marked, 0x400000);
    assert_eq!(scanner.stats.thp_collapsed, 2);
    assert_eq!(state.last_scanner_action, now + 700);
    assert_eq!(state.last_global_action, now + 700);
}

#[test]
fn equal_candidates_keep_their_order() {
    let config = ScannerConfig {
        min_anon_rss_mb: 1,
        max_candidates_per_cycle: 3,
        ..ScannerConfig::default()
    };
    let mut stats = ScannerStats::default();
    let targets = collect_scan_targets(
        &config,
        vec![30, 10, 20],
        &mut stats,
        &|pid: u32| {
            Some(ProcessStatus {
                pid,
                name: "same".into(),
                vm_anon_kb: 4096,
                ..Default::default()
            })
        },
        &no_ksm_stat,
        &|_: u32| Some(vec![map(0x1000, 0x5000, "rw-p", 0, "")]),
    );
    assert_eq!(
        targets.iter().map(|t| t.0).collect::<Vec<_>>(),
        vec![30, 10, 20]
    );
}

#[test]
fn cycles_are_counted_past_the_largest_number() {
    let mut scanner = Scanner::new(ScannerConfig::default(), true, 0);
    scanner.count_cycle();
    assert_eq!(scanner.stats().scan_cycles, 1);
    scanner.stats.scan_cycles = u64::MAX;
    scanner.count_cycle();
    assert_eq!(scanner.stats().scan_cycles, 0);
}

#[test]
fn sane_maps_have_ordered_regions_that_fit_in_memory() {
    assert!(is_sane(&[map(0, 5, "rw-p", 0, ""), map(5, 5, "rw-p", 0, "")]));
    assert!(!is_sane(&[map(6, 5, "rw-p", 0, "")]));
    assert!(is_sane(&[map(6, 5, "r--p", 0, "")]), "never eligible");
    assert!(!is_sane(&[
        map(0, u64::MAX, "rw-p", 0, ""),
        map(0, 1, "rw-p", 0, "")
    ]));
}

/// A world that is a list of what was called.
type Log = Vec<String>;

fn noted(mut log: Log, what: String) -> Log {
    log.push(what);
    log
}

#[test]
fn a_cycle_makes_every_call_once_and_in_order() {
    let mut scanner = Scanner::new(
        ScannerConfig {
            min_anon_rss_mb: 1,
            max_candidates_per_cycle: 1,
            ..ScannerConfig::default()
        },
        false,
        30,
    );
    let (outcome, log) = scanner.scan_cycle(
        1_000_000,
        &GovernorState::new(0),
        Log::new(),
        &ScanReads {
            list: |log: Log| (Some(vec![10, 11, 12]), noted(log, "list".into())),
            status: |log: Log, pid: u32| {
                let status = ProcessStatus {
                    pid,
                    name: "worker".into(),
                    vm_anon_kb: if pid == 10 { 1 } else { pid as u64 * 1024 },
                    ..Default::default()
                };
                (Some(status), noted(log, format!("status {pid}")))
            },
            ksm_stat: |log: Log, pid: u32| (None, noted(log, format!("stat {pid}"))),
            maps: |log: Log, pid: u32| {
                (
                    Some(vec![map(0x200000, 0x400000, "rw-p", 0, "")]),
                    noted(log, format!("maps {pid}")),
                )
            },
            ksm: |log: Log| {
                let stats = KsmStats {
                    pages_volatile: 1001,
                    ..Default::default()
                };
                (Some(stats), noted(log, "ksm".into()))
            },
        },
        &ScanCalls {
            find_syscall: |log: Log, pid: u32| (Ok(1), noted(log, format!("find {pid}"))),
            inject: |log: Log, pid: u32, _: u64, _: usize, _: u64| {
                (Ok(()), noted(log, format!("inject {pid}")))
            },
            open: |log: Log, pid: u32| (Ok(3), noted(log, format!("open {pid}"))),
            collapse: |log: Log, fd: i32, _: u64, _: usize| {
                (Ok(()), noted(log, format!("collapse {fd}")))
            },
            close: |log: Log, fd: i32| noted(log, format!("close {fd}")),
        },
    );
    assert!(matches!(outcome, CycleOutcome::Ran { acted: true, .. }));
    assert_eq!(
        log,
        vec![
            "list",
            "status 10",
            "status 11",
            "status 12",
            "stat 11",
            "stat 12",
            "maps 12",
            "find 12",
            "inject 12",
            "ksm",
            "open 12",
            "collapse 3",
            "close 3",
        ]
    );
}
