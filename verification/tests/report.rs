use animaksm::config::{SwapProxyConfig, ZramdedupConfig};
use animaksm::dedup::DedupStats;
use animaksm::ksm::{KsmConfig, KsmController, KsmStats, SysfsFile};
use animaksm::lifecycle::{run_daemon, run_daemon_with_shutdown, DaemonAction};
use animaksm::proxy::ProxyStats;
use animaksm::psi::{PsiLine, PsiStats};
use animaksm::report::{
    build_status_output, format_status, has_ratios, join_lines, print_stats, read_self_rss_kb,
    show_stats, StatsNumbers, StatusNumbers,
};
use animaksm::service::{
    cleanup_after_crash, cleanup_messages_from_swapon_stdout, enumeration_failure,
    swapoff_message, ubd_devices_in_swapon_output, RunConfig,
};

fn seed_ksm_dir() -> Vec<SysfsFile> {
    [
        ("run", "1"),
        ("pages_to_scan", "500"),
        ("sleep_millisecs", "20"),
        ("max_page_sharing", "256"),
        ("smart_scan", "1"),
        ("advisor_mode", "none"),
        ("advisor_target_scan_time", "200"),
        ("advisor_max_cpu", "70"),
        ("advisor_min_pages_to_scan", "500"),
        ("advisor_max_pages_to_scan", "30000"),
        ("pages_shared", "10"),
        ("pages_sharing", "512"),
        ("pages_unshared", "3"),
        ("pages_volatile", "0"),
        ("pages_scanned", "1000"),
        ("pages_skipped", "2"),
        ("full_scans", "7"),
        ("general_profit", "12345"),
    ]
    .iter()
    .map(|(name, value)| SysfsFile {
        name: name.to_string(),
        content: Ok(value.to_string()),
    })
    .collect()
}

/// The numbers of the status, as the program formats them.
fn numbers(stats: &KsmStats, psi: &PsiStats) -> StatusNumbers {
    let percent = |text: &str| format!("{:.2}", text.parse::<f32>().unwrap_or(0.0));
    StatusNumbers {
        sharing_savings_mb: format!(
            "{:.1}",
            stats.pages_sharing as f64 * 4096.0 / (1024.0 * 1024.0)
        ),
        some_avg10: percent(&psi.some.avg10),
        some_avg60: percent(&psi.some.avg60),
        full_avg10: percent(&psi.full.avg10),
        full_avg60: percent(&psi.full.avg60),
    }
}

fn line(avg10: &str, avg60: &str) -> PsiLine {
    PsiLine {
        avg10: avg10.to_string(),
        avg60: avg60.to_string(),
        ..PsiLine::default()
    }
}

#[test]
fn test_format_status_contains_config_stats_and_psi() {
    let cfg = KsmConfig {
        run: 1,
        pages_to_scan: 2000,
        sleep_millisecs: 50,
        max_page_sharing: 384,
        smart_scan: 1,
        advisor_mode: "scan-time".into(),
        ..Default::default()
    };
    let stats = KsmStats {
        pages_shared: 10,
        pages_sharing: 512,
        pages_unshared: 3,
        general_profit: 12345,
        full_scans: 7,
        ..Default::default()
    };
    let psi = PsiStats {
        some: line("1.25", "2.5"),
        full: line("0.5", "0.75"),
    };

    let output = format_status(&cfg, &stats, &numbers(&stats, &psi));
    assert!(output.contains("advisor_mode:           scan-time"));
    assert!(output.contains("pages_sharing:          512"));
    assert!(output.contains("sharing_savings_mb:     2.0"));
    assert!(output.contains("some avg10:             1.25%"));
    assert!(output.contains("full avg60:             0.75%"));
}

#[test]
fn test_build_status_output_reads_configured_ksm_and_psi_paths() {
    let ksm = KsmController::new("/ksm", true, 60_000).unwrap();
    let psi = "some avg10=1.25 avg60=2.50 avg300=3.00 total=10\n\
               full avg10=0.50 avg60=0.75 avg300=1.00 total=5\n";
    let inputs = build_status_output(
        &ksm,
        &seed_ksm_dir(),
        "/run/memory.pressure",
        Ok(psi.to_string()),
    )
    .unwrap();

    let output = format_status(
        &inputs.config,
        &inputs.stats,
        &numbers(&inputs.stats, &inputs.psi),
    );
    assert!(output.contains("pages_to_scan:          500"));
    assert!(output.contains("pages_sharing:          512"));
    assert!(output.contains("some avg60:             2.50%"));
    assert!(output.contains("full avg10:             0.50%"));
}

#[test]
fn the_status_reports_the_first_failure() {
    let ksm = KsmController::new("/ksm", true, 60_000).unwrap();
    let gone = || Err("gone".to_string());
    let err = build_status_output(&ksm, &vec![], "/psi", gone()).unwrap_err();
    assert!(err.message().contains("/ksm/pages_shared"));
    let mut files = seed_ksm_dir();
    files.remove(0);
    let err = build_status_output(&ksm, &files, "/psi", gone()).unwrap_err();
    assert!(err.message().contains("/ksm/run"));
    let err = build_status_output(&ksm, &seed_ksm_dir(), "/psi", gone()).unwrap_err();
    assert_eq!(err.message(), "sysfs I/O error on /psi: gone");
}

#[test]
fn every_line_ends_with_a_newline() {
    assert_eq!(join_lines(&vec![]), "");
    assert_eq!(join_lines(&vec!["a".to_string(), "b".to_string()]), "a\nb\n");
}

#[test]
fn detailed_statistics_show_zero_without_sharing() {
    let numbers = StatsNumbers {
        sharing_shared_ratio: "51.2000".to_string(),
        unshared_sharing_ratio: "0.0059".to_string(),
        sharing_mib: "2.0".to_string(),
        shared_mib: "0.0".to_string(),
        unshared_mib: "0.0".to_string(),
        profit_mib: "-0.5".to_string(),
    };
    let some = KsmStats {
        pages_shared: 10,
        pages_sharing: 512,
        ..Default::default()
    };
    let mut files = seed_ksm_dir();
    files.push(SysfsFile {
        name: "use_zero_pages".to_string(),
        content: Ok("1\n".to_string()),
    });
    assert!(has_ratios(&some));
    let lines = show_stats(&files, &some, &numbers);
    assert_eq!(lines[1], "AnimaKSMD with KSM statistics support");
    assert_eq!(lines[3], "Full scans:                 7");
    assert_eq!(lines[4], "Interval:                   20 ms");
    assert_eq!(lines[7], "Pages over ratio:           0");
    assert_eq!(lines[9], "Use zero pages:             1");
    assert_eq!(lines[11], "Sharing/shared ratio:       51.2000");
    assert_eq!(lines[18], "General profit:             -0.5 MiB");

    let none = KsmStats::default();
    assert!(!has_ratios(&none));
    let lines = show_stats(&files, &none, &numbers);
    assert_eq!(lines[11], "Sharing/shared ratio:       0");
    assert_eq!(lines[12], "Unshared/sharing ratio:     0");
}

#[test]
fn proxy_statistics_show_every_counter() {
    let stats = ProxyStats {
        total_writes: 10,
        unique_writes: 6,
        duplicate_writes: 4,
        total_reads: 3,
        discards: 2,
    };
    let table = DedupStats {
        table_entries: 5,
        unique_pages: 6,
        duplicate_hits: 7,
        evictions: 8,
        bloom_false_positives: 9,
    };
    let text = join_lines(&print_stats(&stats, &table, "40.0"));
    assert!(text.contains("Total writes:         10"));
    assert!(text.contains("Duplicate (deduped):  4"));
    assert!(text.contains("Dedup ratio:          40.0%"));
    assert!(text.contains("Total reads:          3"));
    assert!(text.contains("Discards:               2"));
    assert!(text.contains("Duplicate hits:       7"));
    assert!(text.contains("Bloom false positives: 9"));
}

const SELF_STATUS: &str = "Name:\tanimaksm\nVmPeak:\t  9000 kB\nVmRSS:\t    5120 kB\nVmRSS:\t 1 kB\n";

#[test]
fn test_read_self_rss_kb() {
    let rss = read_self_rss_kb(Some(SELF_STATUS.to_string()));
    assert!(rss > 0, "expected nonzero RSS for the test process");
    assert_eq!(rss, 5120);
}

#[test]
fn test_read_self_rss_kb_returns_u64() {
    let rss = read_self_rss_kb(Some(SELF_STATUS.to_string()));
    assert!(rss < 1_000_000_000, "RSS unreasonably large: {rss}");
    assert_eq!(read_self_rss_kb(None), 0);
    assert_eq!(read_self_rss_kb(Some("Name:\tx\n".to_string())), 0);
}

#[test]
fn the_default_configuration_logs_at_info_and_waits_thirty_seconds() {
    let config = ZramdedupConfig::default();
    assert_eq!(config.governor.stabilization_secs, 30);
    assert_eq!(config.general.log_level, "info");
}

/// The actions of a run in which only the given action fails, and its outcome.
fn run(
    governor: bool,
    scanner: bool,
    dry_run: bool,
    failing: Option<DaemonAction>,
) -> (Vec<DaemonAction>, Result<(), String>) {
    let mut config = ZramdedupConfig::default();
    config.governor.enabled = governor;
    config.scanner.enabled = scanner;
    let mut run = run_daemon_with_shutdown(run_daemon(&config, dry_run));
    let mut actions = Vec::new();
    while let Some(action) = run.next() {
        actions.push(action);
        run.report(if failing == Some(action) {
            Err("failed".to_string())
        } else {
            Ok(())
        });
    }
    (actions, run.outcome())
}

#[test]
fn test_run_daemon_with_injected_shutdown_dry_run_skips_snapshot() {
    let (actions, outcome) = run(false, false, true, None);
    assert_eq!(outcome, Ok(()));
    assert!(!actions.contains(&DaemonAction::Snapshot));
    assert_eq!(
        actions,
        vec![
            DaemonAction::OpenKsm,
            DaemonAction::StartMetrics,
            DaemonAction::AwaitSignal,
            DaemonAction::AnnounceShutdown,
            DaemonAction::AwaitTasks,
        ]
    );
}

#[test]
fn test_run_daemon_with_injected_shutdown_snapshots_and_restores() {
    let (actions, outcome) = run(false, false, false, None);
    assert_eq!(outcome, Ok(()));
    assert!(actions.contains(&DaemonAction::Snapshot));
    assert_eq!(actions.last(), Some(&DaemonAction::Restore));
}

#[test]
fn test_run_daemon_with_governor_and_scanner_enabled_dry_run() {
    let (actions, outcome) = run(true, true, true, None);
    assert_eq!(outcome, Ok(()));
    assert!(!actions.contains(&DaemonAction::Snapshot));
    assert!(actions.contains(&DaemonAction::StartGovernor));
    assert!(actions.contains(&DaemonAction::StartScanner));
}

#[test]
fn test_run_daemon_with_governor_and_scanner_enabled_snapshots() {
    let (actions, outcome) = run(true, true, false, None);
    assert_eq!(outcome, Ok(()));
    assert_eq!(
        actions,
        vec![
            DaemonAction::OpenKsm,
            DaemonAction::Snapshot,
            DaemonAction::OpenGovernorKsm,
            DaemonAction::StartGovernor,
            DaemonAction::StartScanner,
            DaemonAction::StartMetrics,
            DaemonAction::AwaitSignal,
            DaemonAction::AnnounceShutdown,
            DaemonAction::AwaitTasks,
            DaemonAction::ReopenKsm,
            DaemonAction::Restore,
        ]
    );
}

#[test]
fn a_failed_snapshot_starts_no_task() {
    let (actions, outcome) = run(true, true, false, Some(DaemonAction::Snapshot));
    assert_eq!(outcome, Err("failed".to_string()));
    assert_eq!(actions, vec![DaemonAction::OpenKsm, DaemonAction::Snapshot]);
}

#[test]
fn slow_tasks_and_a_failed_restore_do_not_fail_the_run() {
    let (actions, outcome) = run(true, true, false, Some(DaemonAction::AwaitTasks));
    assert_eq!(outcome, Ok(()));
    assert_eq!(actions.last(), Some(&DaemonAction::Restore));
    let (_, outcome) = run(true, true, false, Some(DaemonAction::Restore));
    assert_eq!(outcome, Ok(()));
}

#[test]
fn cleaning_up_switches_every_device_off() {
    let listed = "/dev/ubd0 partition 8G 0B 100\n/dev/zram0 partition 4G 0B 5\n/dev/ubd1 partition 8G 0B 100\n";
    let (lines, log) = cleanup_after_crash(
        Ok(listed.to_string()),
        Vec::new(),
        &|mut log: Vec<String>, device: &str| {
            log.push(device.to_string());
            (device == "/dev/ubd1", log)
        },
        &|mut log: Vec<String>| {
            log.push("show".to_string());
            ("NAME TYPE SIZE USED PRIO\n".to_string(), log)
        },
    );
    assert_eq!(log, vec!["/dev/ubd0", "/dev/ubd1", "show"]);
    assert_eq!(
        lines,
        vec![
            "swapoff /dev/ubd0 FAILED",
            "swapoff /dev/ubd1 ok",
            "WARNING: zram0 is not active as swap!",
            "Run: swapon /dev/zram0",
        ]
    );
    let (lines, _) = cleanup_after_crash(
        Err("not found".to_string()),
        (),
        &|_: (), _: &str| panic!("no device is known"),
        &|_: ()| ("/dev/zram0 partition\n".to_string(), ()),
    );
    assert_eq!(
        lines,
        vec![
            "Could not enumerate swap devices (swapon --show): not found",
            "zram0 is still active as swap. No cleanup needed.",
        ]
    );
}

#[test]
fn test_cleanup_messages_detect_zram0_active() {
    let messages = cleanup_messages_from_swapon_stdout(
        "NAME TYPE SIZE USED PRIO\n/dev/zram0 partition 4G 0B 100\n",
    );
    assert_eq!(
        messages,
        vec!["zram0 is still active as swap. No cleanup needed."]
    );
}

#[test]
fn test_cleanup_messages_warn_when_zram0_missing() {
    let messages = cleanup_messages_from_swapon_stdout("NAME TYPE SIZE USED PRIO\n");
    assert_eq!(
        messages,
        vec![
            "WARNING: zram0 is not active as swap!",
            "Run: swapon /dev/zram0"
        ]
    );
}

#[test]
fn test_cleanup_detects_ubd_device_in_swapon_output() {
    let stdout = "NAME       TYPE SIZE USED PRIO\n/dev/ubd0  partition 8G 0B 100\n";
    let devices = ubd_devices_in_swapon_output(stdout);
    assert_eq!(devices, vec![String::from("/dev/ubd0")]);
}

#[test]
fn test_cleanup_ignores_zram_only_swapon_output() {
    let stdout = "NAME       TYPE SIZE USED PRIO\n/dev/zram0 partition 4G 0B 100\n";
    let devices = ubd_devices_in_swapon_output(stdout);
    assert!(devices.is_empty());
}

#[test]
fn test_cleanup_handles_empty_swapon_output() {
    let devices = ubd_devices_in_swapon_output("NAME TYPE SIZE USED PRIO\n");
    assert!(devices.is_empty());
}

#[test]
fn cleanup_reports_each_device() {
    assert_eq!(ubd_devices_in_swapon_output(""), Vec::<String>::new());
    assert!(swapoff_message("/dev/ubd0", true).contains("/dev/ubd0"));
    assert_ne!(
        swapoff_message("/dev/ubd0", true),
        swapoff_message("/dev/ubd0", false)
    );
    assert!(enumeration_failure("no such command").contains("no such command"));
}

#[test]
fn command_line_values_win_over_the_configuration() {
    let config = SwapProxyConfig::default();
    let run = RunConfig::resolve(&config, None, None, None, None, false);
    assert_eq!(run.page_store_path, "/var/lib/zramdedup/pagestore.dat");
    assert_eq!((run.size_gb, run.max_entries), (8, 1_000_000));
    assert_eq!(run.bloom_capacity, 1_000_000);
    assert!(run.bootstrap);
    let run = RunConfig::resolve(
        &config,
        Some("/tmp/store.dat".to_string()),
        Some(2),
        Some(42),
        Some(7),
        true,
    );
    assert_eq!(run.page_store_path, "/tmp/store.dat");
    assert_eq!((run.size_gb, run.max_entries), (2, 42));
    assert_eq!(run.bloom_capacity, 7);
    assert!(!run.bootstrap);
}
