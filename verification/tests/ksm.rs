use animaksm::error::ZramdedupError;
use animaksm::ksm::{chrono_now, write_all, KsmController, ParamWrite, SysfsFile, WriteDecision};

/// A time at which no controller of these tests is rate limited.
const LATER: u64 = 60_000;

/// A KSM directory in memory.
struct TestDir {
    files: Vec<SysfsFile>,
    ctrl: KsmController,
}

fn seeded(seeds: &[(&str, &str)]) -> TestDir {
    let files = seeds
        .iter()
        .map(|(name, content)| SysfsFile {
            name: name.to_string(),
            content: Ok(content.to_string()),
        })
        .collect();
    TestDir {
        files,
        ctrl: controller(0, false),
    }
}

fn controller(last_update: u64, dry_run: bool) -> KsmController {
    KsmController {
        base_path: "/ksm".to_string(),
        last_update,
        dry_run,
    }
}

impl TestDir {
    fn read(&self, name: &str) -> String {
        for file in &self.files {
            if file.name == name {
                return file.content.clone().unwrap_or_default();
            }
        }
        String::new()
    }

    fn store(&mut self, name: &str, value: &str) {
        for file in &mut self.files {
            if file.name == name {
                file.content = Ok(value.to_string());
                return;
            }
        }
        self.files.push(SysfsFile {
            name: name.to_string(),
            content: Ok(value.to_string()),
        });
    }

    /// Carries a decision out.
    fn carry_out(&mut self, decision: WriteDecision) {
        if let WriteDecision::Write { path, value } = decision {
            let name = path.strip_prefix("/ksm/").unwrap().to_string();
            self.store(&name, &value);
        }
    }

    fn carry_out_all(&mut self, writes: Vec<ParamWrite>) {
        for write in writes {
            let decision = self.ctrl.write_param(LATER, &write.param, &write.value);
            self.carry_out(decision);
        }
    }
}

#[test]
fn test_clamp_value() {
    assert_eq!(KsmController::clamp_value("run", 5), 2);
    assert_eq!(KsmController::clamp_value("pages_to_scan", 50), 100);
    assert_eq!(KsmController::clamp_value("pages_to_scan", 50000), 30000);
    assert_eq!(KsmController::clamp_value("sleep_millisecs", 3), 5);
    assert_eq!(KsmController::clamp_value("unknown_param", 42), 42);
}

#[test]
fn clamp_value_knows_every_range() {
    for (param, min, max) in [
        ("run", 0, 2),
        ("pages_to_scan", 100, 30000),
        ("sleep_millisecs", 5, 10000),
        ("max_page_sharing", 16, 4096),
        ("advisor_target_scan_time", 10, 3600),
        ("advisor_max_cpu", 10, 100),
        ("advisor_min_pages_to_scan", 100, 5000),
        ("advisor_max_pages_to_scan", 1000, 100000),
    ] {
        assert_eq!(KsmController::clamp_value(param, 0), min);
        assert_eq!(KsmController::clamp_value(param, u64::MAX), max);
        assert_eq!(KsmController::clamp_value(param, max), max);
    }
}

#[test]
fn test_read_u64() {
    let t = seeded(&[("pages_shared", "12345")]);
    assert_eq!(t.ctrl.read_u64(&t.files, "pages_shared").unwrap(), 12345);
}

#[test]
fn test_read_u64_bracket_format() {
    let t = seeded(&[("run", "[1] 0")]);
    assert_eq!(t.ctrl.read_u64(&t.files, "run").unwrap(), 1);
}

#[test]
fn test_read_u64_not_found() {
    let t = seeded(&[]);
    assert!(t.ctrl.read_u64(&t.files, "nonexistent").is_err());
}

#[test]
fn read_u64_reports_what_cannot_be_parsed() {
    let t = seeded(&[("run", " lots \n")]);
    let err = t.ctrl.read_u64(&t.files, "run").unwrap_err();
    assert_eq!(
        err.message(),
        "sysfs I/O error on /ksm/run: cannot parse 'lots' as u64"
    );
}

#[test]
fn read_u64_reports_a_file_that_cannot_be_read() {
    let mut t = seeded(&[]);
    t.files.push(SysfsFile {
        name: "run".to_string(),
        content: Err("Is a directory (os error 21)".to_string()),
    });
    let err = t.ctrl.read_u64(&t.files, "run").unwrap_err();
    assert_eq!(
        err.message(),
        "sysfs I/O error on /ksm/run: Is a directory (os error 21)"
    );
}

#[test]
fn test_read_i64() {
    let t = seeded(&[("general_profit", "-42")]);
    assert_eq!(t.ctrl.read_i64(&t.files, "general_profit").unwrap(), -42);
}

#[test]
fn test_read_i64_invalid() {
    let t = seeded(&[("general_profit", "not_a_number")]);
    assert!(t.ctrl.read_i64(&t.files, "general_profit").is_err());
    let err = t.ctrl.read_i64(&t.files, "general_profit").unwrap_err();
    assert!(err.message().contains("cannot parse 'not_a_number' as i64"));
}

#[test]
fn test_read_string() {
    let t = seeded(&[("advisor_mode", "none")]);
    assert_eq!(t.ctrl.read_string(&t.files, "advisor_mode").unwrap(), "none");
}

#[test]
fn test_read_string_bracket_active() {
    let t = seeded(&[("advisor_mode", "none [scan-time]")]);
    assert_eq!(
        t.ctrl.read_string(&t.files, "advisor_mode").unwrap(),
        "scan-time"
    );
}

#[test]
fn test_read_string_bracket_options() {
    let t = seeded(&[("advisor_mode", "[none] scan-time")]);
    assert_eq!(t.ctrl.read_string(&t.files, "advisor_mode").unwrap(), "none");
    let t2 = seeded(&[("advisor_mode", "none [scan-time]")]);
    assert_eq!(
        t2.ctrl.read_string(&t2.files, "advisor_mode").unwrap(),
        "scan-time"
    );
}

#[test]
fn test_read_string_trim_whitespace() {
    let t = seeded(&[("advisor_mode", "  none  ")]);
    assert_eq!(t.ctrl.read_string(&t.files, "advisor_mode").unwrap(), "none");
}

#[test]
fn test_write_param_writes_value() {
    let mut t = seeded(&[("run", "0")]);
    let decision = t.ctrl.write_param(LATER, "run", "1");
    t.carry_out(decision);
    assert_eq!(t.read("run"), "1");
}

#[test]
fn test_write_param_dry_run_does_not_write() {
    let mut t = seeded(&[("run", "0")]);
    let decision = controller(0, true).write_param(LATER, "run", "2");
    assert!(matches!(decision, WriteDecision::DryRun));
    t.carry_out(decision);
    assert_eq!(t.read("run"), "0");
}

#[test]
fn test_write_param_rate_limited_skips_write() {
    let mut t = seeded(&[("run", "0")]);
    let decision = controller(LATER, false).write_param(LATER, "run", "1");
    assert!(matches!(decision, WriteDecision::RateLimited));
    t.carry_out(decision);
    assert_eq!(t.read("run"), "0");
}

#[test]
fn rate_limit_ends_after_half_a_second() {
    let ctrl = controller(1000, false);
    assert!(matches!(
        ctrl.write_param(1499, "run", "1"),
        WriteDecision::RateLimited
    ));
    assert!(matches!(
        ctrl.write_param(1500, "run", "1"),
        WriteDecision::Write { .. }
    ));
    assert!(matches!(
        ctrl.write_param(0, "run", "1"),
        WriteDecision::RateLimited
    ));
}

#[test]
fn test_write_param_directory_returns_error() {
    let t = seeded(&[]);
    let err = t
        .ctrl
        .write_outcome("directory", Err("Is a directory (os error 21)".to_string()))
        .unwrap_err();
    assert!(err.message().contains("directory"));
    assert!(t.ctrl.write_outcome("run", Ok(())).is_ok());
}

#[test]
fn write_verification_accepts_brackets() {
    assert!(KsmController::write_verified("scan-time", "none [scan-time]\n"));
    assert!(KsmController::write_verified("1", "1\n"));
    assert!(!KsmController::write_verified("2", "1\n"));
}

#[test]
fn test_write_validated_clamps_value() {
    let mut t = seeded(&[("run", "0")]);
    let decision = t.ctrl.write_validated(LATER, "run", 5);
    t.carry_out(decision);
    assert_eq!(t.read("run"), "2");
}

#[test]
fn test_write_validated_in_range() {
    let mut t = seeded(&[("sleep_millisecs", "100")]);
    let decision = t.ctrl.write_validated(LATER, "sleep_millisecs", 50);
    t.carry_out(decision);
    assert_eq!(t.read("sleep_millisecs"), "50");
}

#[test]
fn test_read_stats_all_fields() {
    let t = seeded(&[
        ("pages_shared", "100"),
        ("pages_sharing", "200"),
        ("pages_unshared", "50"),
        ("pages_volatile", "10"),
        ("pages_scanned", "9999"),
        ("pages_skipped", "5"),
        ("full_scans", "42"),
        ("general_profit", "123456"),
        ("ksm_zero_pages", "7"),
        ("stable_node_chains", "3"),
        ("stable_node_dups", "1"),
    ]);
    let stats = t.ctrl.read_stats(&t.files).unwrap();
    assert_eq!(stats.pages_shared, 100);
    assert_eq!(stats.pages_sharing, 200);
    assert_eq!(stats.pages_unshared, 50);
    assert_eq!(stats.pages_volatile, 10);
    assert_eq!(stats.pages_scanned, 9999);
    assert_eq!(stats.pages_skipped, 5);
    assert_eq!(stats.full_scans, 42);
    assert_eq!(stats.general_profit, 123456);
    assert_eq!(stats.ksm_zero_pages, 7);
    assert_eq!(stats.stable_node_chains, 3);
    assert_eq!(stats.stable_node_dups, 1);
}

#[test]
fn test_read_stats_optional_fields_default_zero() {
    let t = seeded(&[
        ("pages_shared", "10"),
        ("pages_sharing", "20"),
        ("pages_unshared", "5"),
        ("pages_volatile", "2"),
        ("pages_scanned", "100"),
        ("pages_skipped", "1"),
        ("full_scans", "7"),
        ("general_profit", "500"),
    ]);
    let stats = t.ctrl.read_stats(&t.files).unwrap();
    assert_eq!(stats.ksm_zero_pages, 0);
    assert_eq!(stats.stable_node_chains, 0);
    assert_eq!(stats.stable_node_dups, 0);
}

#[test]
fn read_stats_reports_the_first_missing_file() {
    let t = seeded(&[("pages_shared", "10"), ("pages_unshared", "5")]);
    let err = t.ctrl.read_stats(&t.files).unwrap_err();
    assert_eq!(
        err.message(),
        "sysfs I/O error on /ksm/pages_sharing: No such file or directory (os error 2)"
    );
}

#[test]
fn read_stats_reports_a_missing_profit() {
    let t = seeded(&[
        ("pages_shared", "10"),
        ("pages_sharing", "20"),
        ("pages_unshared", "5"),
        ("pages_volatile", "2"),
        ("pages_scanned", "100"),
        ("pages_skipped", "1"),
        ("full_scans", "7"),
    ]);
    let err = t.ctrl.read_stats(&t.files).unwrap_err();
    assert!(err.message().contains("/ksm/general_profit"));
}

#[test]
fn test_read_config_all_fields() {
    let t = seeded(&[
        ("run", "1"),
        ("pages_to_scan", "500"),
        ("sleep_millisecs", "20"),
        ("max_page_sharing", "256"),
        ("smart_scan", "1"),
        ("advisor_mode", "scan-time"),
        ("advisor_target_scan_time", "200"),
        ("advisor_max_cpu", "70"),
        ("advisor_min_pages_to_scan", "500"),
        ("advisor_max_pages_to_scan", "30000"),
    ]);
    let cfg = t.ctrl.read_config(&t.files).unwrap();
    assert_eq!(cfg.run, 1);
    assert_eq!(cfg.pages_to_scan, 500);
    assert_eq!(cfg.sleep_millisecs, 20);
    assert_eq!(cfg.max_page_sharing, 256);
    assert_eq!(cfg.smart_scan, 1);
    assert_eq!(cfg.advisor_mode, "scan-time");
    assert_eq!(cfg.advisor_target_scan_time, 200);
    assert_eq!(cfg.advisor_max_cpu, 70);
    assert_eq!(cfg.advisor_min_pages_to_scan, 500);
    assert_eq!(cfg.advisor_max_pages_to_scan, 30000);
}

#[test]
fn test_read_config_missing_optionals_default() {
    let t = seeded(&[
        ("run", "0"),
        ("pages_to_scan", "100"),
        ("sleep_millisecs", "100"),
        ("max_page_sharing", "256"),
    ]);
    let cfg = t.ctrl.read_config(&t.files).unwrap();
    assert_eq!(cfg.smart_scan, 1);
    assert_eq!(cfg.advisor_mode, "");
    assert_eq!(cfg.advisor_target_scan_time, 200);
    assert_eq!(cfg.advisor_max_cpu, 70);
    assert_eq!(cfg.advisor_min_pages_to_scan, 500);
    assert_eq!(cfg.advisor_max_pages_to_scan, 30000);
}

#[test]
fn test_set_run_writes_clamped() {
    let mut t = seeded(&[("run", "0")]);
    let decision = t.ctrl.set_run(LATER, 1);
    t.carry_out(decision);
    assert_eq!(t.read("run"), "1");
}

#[test]
fn test_set_pages_to_scan() {
    let mut t = seeded(&[("pages_to_scan", "100")]);
    let decision = t.ctrl.set_pages_to_scan(LATER, 1000);
    t.carry_out(decision);
    assert_eq!(t.read("pages_to_scan"), "1000");
}

#[test]
fn test_set_advisor_mode_writes_string() {
    let mut t = seeded(&[("advisor_mode", "none")]);
    let decision = t.ctrl.set_advisor_mode(LATER, "scan-time");
    t.carry_out(decision);
    assert_eq!(t.read("advisor_mode"), "scan-time");
}

#[test]
fn setters_write_their_own_parameter() {
    let mut t = seeded(&[]);
    for decision in [
        t.ctrl.set_sleep_millisecs(LATER, 1),
        t.ctrl.set_max_page_sharing(LATER, 512),
        t.ctrl.set_advisor_target_scan_time(LATER, 5000),
        t.ctrl.set_advisor_max_cpu(LATER, 50),
    ] {
        t.carry_out(decision);
    }
    assert_eq!(t.read("sleep_millisecs"), "5");
    assert_eq!(t.read("max_page_sharing"), "512");
    assert_eq!(t.read("advisor_target_scan_time"), "3600");
    assert_eq!(t.read("advisor_max_cpu"), "50");
}

#[test]
fn paths_get_one_slash() {
    let ctrl = KsmController {
        base_path: "/ksm/".to_string(),
        last_update: 0,
        dry_run: false,
    };
    match ctrl.set_run(LATER, 1) {
        WriteDecision::Write { path, value } => {
            assert_eq!(path, "/ksm/run");
            assert_eq!(value, "1");
        }
        _ => panic!("expected a write"),
    }
}

fn full_dir(mode: &str) -> TestDir {
    seeded(&[
        ("run", "1"),
        ("pages_to_scan", "500"),
        ("sleep_millisecs", "20"),
        ("max_page_sharing", "256"),
        ("smart_scan", "1"),
        ("advisor_mode", mode),
        ("advisor_target_scan_time", "200"),
        ("advisor_max_cpu", "70"),
        ("advisor_min_pages_to_scan", "500"),
        ("advisor_max_pages_to_scan", "30000"),
    ])
}

#[test]
fn test_snapshot_and_restore_roundtrip() {
    let mut t = full_dir("none");
    let snapshot = t.ctrl.snapshot(&t.files, 1_700_000_000).unwrap();
    assert_eq!(snapshot.timestamp, "1700000000");

    t.store("run", "0");
    t.store("pages_to_scan", "100");

    let writes = t.ctrl.restore(&snapshot);
    t.carry_out_all(writes);

    assert_eq!(t.ctrl.read_u64(&t.files, "run").unwrap(), 1);
    assert_eq!(t.ctrl.read_u64(&t.files, "pages_to_scan").unwrap(), 500);
}

#[test]
fn restore_switches_the_advisor_off_before_the_scan_rate() {
    let t = full_dir("none [scan-time]");
    let snapshot = t.ctrl.snapshot(&t.files, 0).unwrap();
    let writes = t.ctrl.restore(&snapshot);
    let pairs: Vec<(&str, &str, bool)> = writes
        .iter()
        .map(|w| (w.param.as_str(), w.value.as_str(), w.required))
        .collect();
    assert_eq!(
        pairs,
        vec![
            ("advisor_mode", "none", false),
            ("run", "1", true),
            ("pages_to_scan", "500", true),
            ("sleep_millisecs", "20", true),
            ("max_page_sharing", "256", true),
            ("smart_scan", "1", false),
            ("advisor_min_pages_to_scan", "500", false),
            ("advisor_max_pages_to_scan", "30000", false),
            ("advisor_mode", "scan-time", false),
            ("advisor_target_scan_time", "200", false),
            ("advisor_max_cpu", "70", false),
        ]
    );
}

#[test]
fn restore_brings_every_parameter_back() {
    let mut t = full_dir("none [scan-time]");
    let snapshot = t.ctrl.snapshot(&t.files, 0).unwrap();
    for (name, value) in [
        ("run", "0"),
        ("pages_to_scan", "100"),
        ("sleep_millisecs", "5"),
        ("max_page_sharing", "16"),
        ("smart_scan", "0"),
        ("advisor_mode", "none"),
        ("advisor_target_scan_time", "10"),
        ("advisor_max_cpu", "1"),
        ("advisor_min_pages_to_scan", "100"),
        ("advisor_max_pages_to_scan", "200"),
    ] {
        t.store(name, value);
    }
    let writes = t.ctrl.restore(&snapshot);
    t.carry_out_all(writes);
    let back = t.ctrl.snapshot(&t.files, 0).unwrap().config;
    let config = snapshot.config;
    assert_eq!(back.run, config.run);
    assert_eq!(back.pages_to_scan, config.pages_to_scan);
    assert_eq!(back.sleep_millisecs, config.sleep_millisecs);
    assert_eq!(back.max_page_sharing, config.max_page_sharing);
    assert_eq!(back.smart_scan, config.smart_scan);
    assert_eq!(back.advisor_mode, config.advisor_mode);
    assert_eq!(
        back.advisor_target_scan_time,
        config.advisor_target_scan_time
    );
    assert_eq!(back.advisor_max_cpu, config.advisor_max_cpu);
    assert_eq!(
        back.advisor_min_pages_to_scan,
        config.advisor_min_pages_to_scan
    );
    assert_eq!(
        back.advisor_max_pages_to_scan,
        config.advisor_max_pages_to_scan
    );
}

fn plain_write(param: &str, required: bool) -> ParamWrite {
    ParamWrite {
        param: param.into(),
        value: "1".into(),
        required,
    }
}

#[test]
fn a_failed_required_write_ends_the_rest() {
    let writes = vec![
        plain_write("a", false),
        plain_write("b", true),
        plain_write("c", true),
        plain_write("d", false),
    ];
    let run = |name: &'static str| {
        write_all(
            &writes,
            Vec::new(),
            &|mut made: Vec<String>, w: &ParamWrite| {
                made.push(w.param.clone());
                let outcome = if w.param == name {
                    Err(ZramdedupError::Io(name.into()))
                } else {
                    Ok(())
                };
                (outcome, made)
            },
        )
    };
    let (outcome, made) = run("b");
    assert!(matches!(outcome, Err(ZramdedupError::Io(name)) if name == "b"));
    assert_eq!(made, vec!["a", "b"]);

    let (outcome, made) = run("a");
    assert!(outcome.is_ok());
    assert_eq!(made, vec!["a", "b", "c", "d"]);

    let (outcome, made) = run("d");
    assert!(outcome.is_ok());
    assert_eq!(made, vec!["a", "b", "c", "d"]);
}

#[test]
fn restore_moves_unsafe_numbers_into_their_ranges() {
    let mut t = full_dir("none");
    t.store("pages_to_scan", "7");
    let snapshot = t.ctrl.snapshot(&t.files, 0).unwrap();
    let writes = t.ctrl.restore(&snapshot);
    assert_eq!(writes[2].value, "100");
}

#[test]
fn snapshot_fails_without_the_configuration() {
    let t = seeded(&[("run", "1")]);
    let err = t.ctrl.snapshot(&t.files, 0).unwrap_err();
    assert!(err.message().contains("/ksm/pages_to_scan"));
}

#[test]
fn test_read_all_raw() {
    let t = seeded(&[("run", "1"), ("pages_to_scan", "100\n")]);
    let raw = t.ctrl.read_all_raw(&t.files);
    assert_eq!(
        raw,
        vec![
            ("run".to_string(), "1".to_string()),
            ("pages_to_scan".to_string(), "100".to_string())
        ]
    );
}

#[test]
fn test_read_all_raw_empty_dir() {
    let t = seeded(&[]);
    assert!(t.ctrl.read_all_raw(&t.files).is_empty());
}

#[test]
fn test_read_all_raw_skips_unreadable_directory_entries() {
    let mut t = seeded(&[("run", "1")]);
    t.files.push(SysfsFile {
        name: "nested".to_string(),
        content: Err("Is a directory (os error 21)".to_string()),
    });
    let raw = t.ctrl.read_all_raw(&t.files);
    assert_eq!(raw, vec![("run".to_string(), "1".to_string())]);
}

#[test]
fn test_new_returns_error_for_nonexistent_path() {
    let result = KsmController::new("/nonexistent/ksm/path", false, LATER);
    assert!(result.is_err());
}

#[test]
fn test_restore_ksm_from_config_errors_for_missing_ksm_path() {
    let err = KsmController::new("/nonexistent/ksm/path", false, LATER).unwrap_err();
    assert!(err.message().contains("KSM path not found"));
    match err {
        ZramdedupError::Sysfs { path, .. } => assert_eq!(path, "/nonexistent/ksm/path"),
        _ => panic!("expected a sysfs error"),
    }
}

#[test]
fn test_new_succeeds_for_existing_path() {
    let ctrl = KsmController::new("/sys/kernel/mm/ksm", true, LATER).unwrap();
    assert!(!ctrl.dry_run);
    assert!(matches!(
        ctrl.set_run(LATER, 1),
        WriteDecision::Write { .. }
    ));
}

#[test]
fn test_set_dry_run_toggle() {
    let mut ctrl = controller(0, false);
    assert!(!ctrl.dry_run);
    ctrl.set_dry_run(true);
    assert!(ctrl.dry_run);
    ctrl.set_dry_run(false);
    assert!(!ctrl.dry_run);
}

#[test]
fn test_chrono_now_format() {
    let result = chrono_now(1_700_000_000);
    assert!(!result.is_empty());
    assert!(result.chars().all(|c| c.is_ascii_digit()));
    assert_eq!(result, "1700000000");
}

#[test]
fn restoring_ends_with_what_the_list_says_last() {
    let t = full_dir("none [scan-time]");
    let snapshot = t.ctrl.snapshot(&t.files, 0).unwrap();
    let writes = t.ctrl.restore(&snapshot);
    let (outcome, dir) = write_all(
        &writes,
        full_dir("[none] scan-time"),
        &|mut dir: TestDir, w: &ParamWrite| {
            dir.store(&w.param, &w.value);
            (Ok(()), dir)
        },
    );
    assert!(outcome.is_ok());
    assert_eq!(dir.read("advisor_mode"), "scan-time");
    assert_eq!(dir.read("pages_to_scan"), "500");
}
