use animaksm::config::{
    ConfigError, GovernorConfig, ScannerConfig, SwapProxyConfig, ZramdedupConfig,
};
use animaksm::error::ZramdedupError;
use animaksm::float_bits;
use animaksm::float_bits::{Float32, Float64};

fn f(x: f32) -> Float32 {
    Float32 { bits: x.to_bits() }
}

#[test]
fn test_default_config_validates() {
    let cfg = ZramdedupConfig::default();
    assert!(cfg.validate().is_ok());
}

#[test]
fn test_validate_rejects_invalid_governor_thresholds() {
    let mut cfg = ZramdedupConfig::default();
    cfg.governor.psi_some_threshold = f(-0.1);
    assert!(cfg
        .validate()
        .unwrap_err()
        .message()
        .contains("psi_some_threshold"));

    cfg = ZramdedupConfig::default();
    cfg.governor.psi_full_threshold = f(101.0);
    assert!(cfg
        .validate()
        .unwrap_err()
        .message()
        .contains("psi_full_threshold"));
}

#[test]
fn test_validate_rejects_invalid_governor_ranges() {
    let mut cfg = ZramdedupConfig::default();
    cfg.governor.advisor_scan_time_range = (10, 10);
    assert!(cfg
        .validate()
        .unwrap_err()
        .message()
        .contains("advisor_scan_time_range"));

    cfg = ZramdedupConfig::default();
    cfg.governor.max_page_sharing_range = (1024, 256);
    assert!(cfg
        .validate()
        .unwrap_err()
        .message()
        .contains("max_page_sharing_range"));
}

#[test]
fn test_validate_rejects_invalid_scanner_values() {
    let mut cfg = ZramdedupConfig::default();
    cfg.scanner.min_anon_rss_mb = 0;
    assert!(cfg
        .validate()
        .unwrap_err()
        .message()
        .contains("min_anon_rss_mb"));

    cfg = ZramdedupConfig::default();
    cfg.scanner.duplicate_ratio_threshold = f(0.0);
    assert!(cfg
        .validate()
        .unwrap_err()
        .message()
        .contains("duplicate_ratio_threshold"));
}

#[test]
fn test_validate_rejects_invalid_swap_proxy_values() {
    let mut cfg = ZramdedupConfig::default();
    cfg.swap_proxy.device_size_gb = 0;
    assert!(cfg
        .validate()
        .unwrap_err()
        .message()
        .contains("device_size_gb"));

    cfg = ZramdedupConfig::default();
    cfg.swap_proxy.dedup_table_max_entries = 0;
    assert!(cfg
        .validate()
        .unwrap_err()
        .message()
        .contains("dedup_table_max_entries"));
}

#[test]
fn bounds_of_the_ranges_are_accepted() {
    let mut cfg = ZramdedupConfig::default();
    cfg.governor.psi_some_threshold = f(0.0);
    cfg.governor.psi_full_threshold = f(100.0);
    cfg.scanner.duplicate_ratio_threshold = f(1.0);
    assert!(cfg.validate().is_ok());
    cfg.governor.psi_some_threshold = f(-0.0);
    assert!(cfg.validate().is_ok());
    cfg.scanner.duplicate_ratio_threshold = f(1.0000001);
    assert_eq!(
        cfg.validate(),
        Err(ConfigError::DuplicateRatioThreshold)
    );
}

#[test]
fn what_is_not_a_number_fails_no_comparison() {
    let mut cfg = ZramdedupConfig::default();
    cfg.governor.psi_some_threshold = f(f32::NAN);
    cfg.scanner.duplicate_ratio_threshold = f(f32::NAN);
    assert!(cfg.validate().is_ok());
}

#[test]
fn the_first_problem_is_reported() {
    let mut cfg = ZramdedupConfig::default();
    cfg.swap_proxy.device_size_gb = 0;
    cfg.scanner.min_anon_rss_mb = 0;
    cfg.governor.psi_full_threshold = f(-1.0);
    assert_eq!(cfg.validate(), Err(ConfigError::PsiFullThreshold));
    cfg.governor.psi_full_threshold = f(1.0);
    assert_eq!(cfg.validate(), Err(ConfigError::MinAnonRss));
    cfg.scanner.min_anon_rss_mb = 1;
    assert_eq!(cfg.validate(), Err(ConfigError::DeviceSize));
}

#[test]
fn messages_name_the_setting() {
    assert_eq!(
        ConfigError::PsiSomeThreshold.message(),
        "governor.psi_some_threshold must be between 0 and 100"
    );
    assert_eq!(
        ConfigError::DuplicateRatioThreshold.message(),
        "scanner.duplicate_ratio_threshold must be in (0, 1]"
    );
    assert_eq!(
        ConfigError::DedupTableMaxEntries.message(),
        "swap_proxy.dedup_table_max_entries must be > 0"
    );
}

#[test]
fn defaults_have_the_documented_values() {
    let cfg = ZramdedupConfig::default();
    assert_eq!(cfg.general.log_level, "info");
    assert_eq!(cfg.general.poll_interval_ms, 2000);
    assert_eq!(cfg.general.state_dir, "/var/lib/zramdedup");
    let governor = GovernorConfig::default();
    assert!(governor.enabled && governor.use_advisor);
    assert_eq!(governor.psi_some_threshold, f(5.0));
    assert_eq!(governor.psi_full_threshold, f(2.0));
    assert_eq!(governor.advisor_scan_time_range, (30, 600));
    assert_eq!(governor.max_page_sharing_range, (256, 1024));
    assert_eq!(governor.hysteresis_readings, 4);
    assert_eq!(governor.min_level_duration_secs, 30);
    assert_eq!(governor.stabilization_secs, 30);
    assert_eq!(governor.ksm_path, "/sys/kernel/mm/ksm");
    let scanner = ScannerConfig::default();
    assert_eq!(scanner.interval_secs, 30);
    assert_eq!(scanner.min_anon_rss_mb, 100);
    assert_eq!(scanner.duplicate_ratio_threshold, f(0.15));
    assert_eq!(scanner.max_mergeable_per_process_mb, 512);
    assert_eq!(scanner.blocklist, vec!["zramdedup", "ksmd", "systemd", "sshd"]);
    assert!(scanner.target_cgroups.is_empty());
    assert_eq!(scanner.max_candidates_per_cycle, 5);
    let proxy = SwapProxyConfig::default();
    assert!(!proxy.enabled);
    assert_eq!(proxy.device_size_gb, 8);
    assert_eq!(proxy.fingerprint, "xxh3-128");
    assert_eq!(proxy.dedup_table_max_entries, 1_000_000);
    assert_eq!(proxy.zram_backend, "/dev/zram0");
    assert_eq!(proxy.bloom_capacity, 1_000_000);
    assert_eq!(
        proxy.bloom_false_positive_rate,
        Float64 {
            bits: 0.01f64.to_bits()
        }
    );
    assert_eq!(proxy.page_store_path, "/var/lib/zramdedup/pagestore.dat");
}

#[test]
fn named_numbers_have_the_right_bits() {
    assert_eq!(float_bits::ZERO, 0.0f32.to_bits());
    assert_eq!(float_bits::FIFTEEN_HUNDREDTHS, 0.15f32.to_bits());
    assert_eq!(float_bits::HALF, 0.5f32.to_bits());
    assert_eq!(float_bits::ONE, 1.0f32.to_bits());
    assert_eq!(float_bits::TWO, 2.0f32.to_bits());
    assert_eq!(float_bits::FIVE, 5.0f32.to_bits());
    assert_eq!(float_bits::TEN, 10.0f32.to_bits());
    assert_eq!(float_bits::TWENTY, 20.0f32.to_bits());
    assert_eq!(float_bits::HUNDRED, 100.0f32.to_bits());
    assert_eq!(float_bits::ONE_HUNDREDTH, 0.01f64.to_bits());
}

#[test]
fn bit_patterns_order_as_numbers_do() {
    let numbers = [
        f32::NEG_INFINITY,
        f32::MIN,
        -1.5,
        -f32::MIN_POSITIVE,
        -1.0e-45,
        -0.0,
        0.0,
        1.0e-45,
        f32::MIN_POSITIVE,
        0.5,
        0.50000006,
        99.99,
        100.0,
        f32::MAX,
        f32::INFINITY,
        f32::NAN,
    ];
    for a in numbers {
        for b in numbers {
            assert_eq!(f(a).less(f(b)), a < b, "{a} < {b}");
            assert_eq!(f(a).at_least(f(b)), a >= b, "{a} >= {b}");
        }
    }
}

#[test]
fn error_messages_carry_their_details() {
    let cases = vec![
        (
            ZramdedupError::Sysfs {
                path: "/p".into(),
                source: "s".into(),
            },
            "sysfs I/O error on /p: s",
        ),
        (
            ZramdedupError::Procfs {
                pid: 12,
                detail: "d".into(),
            },
            "procfs parse error for PID 12: d",
        ),
        (ZramdedupError::Config("c".into()), "configuration error: c"),
        (
            ZramdedupError::Ptrace {
                pid: 7,
                source: "s".into(),
            },
            "ptrace error for PID 7: s",
        ),
        (
            ZramdedupError::Injection {
                pid: 4294967295,
                detail: "d".into(),
            },
            "syscall injection failed for PID 4294967295: d",
        ),
        (
            ZramdedupError::SwapProxy { detail: "d".into() },
            "swap proxy error: d",
        ),
        (ZramdedupError::Snapshot("j".into()), "KSM snapshot error: j"),
        (ZramdedupError::Capability("c".into()), "capability error: c"),
        (ZramdedupError::Io("i".into()), "I/O error: i"),
        (ZramdedupError::Nix("n".into()), "nix error: n"),
    ];
    for (error, text) in cases {
        assert_eq!(error.message(), text);
    }
}
