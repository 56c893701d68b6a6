use animaksm::float_bits::Float32;
use animaksm::psi::{PressureLevel, PsiLine, PsiStats, PsiTrigger, PsiTriggerKind};

/// The number that a text stands for.
fn value(text: &str) -> f32 {
    text.parse().unwrap_or(0.0)
}

fn f(x: f32) -> Float32 {
    Float32 { bits: x.to_bits() }
}

/// The level for the ten-second averages, as the daemon computes it.
fn classify(some_avg10: f32, full_avg10: f32, some_threshold: f32, full_threshold: f32) -> PressureLevel {
    let score = 0.7 * full_avg10 + 0.3 * some_avg10;
    PsiStats::classify(
        f(score),
        f(some_avg10),
        f(full_avg10),
        f(some_threshold),
        f(full_threshold * 2.0),
    )
}

#[test]
fn test_parse_psi_content() {
    let content = "some avg10=1.07 avg60=0.46 avg300=0.49 total=351068534\n\
                    full avg10=0.50 avg60=0.25 avg300=0.30 total=200000000\n";

    let stats = PsiStats::parse(content).unwrap();
    assert!((value(&stats.some.avg10) - 1.07).abs() < 0.001);
    assert!((value(&stats.full.avg10) - 0.50).abs() < 0.001);
    assert_eq!(stats.some.total, 351068534);
    assert_eq!(stats.full.total, 200000000);
}

#[test]
fn averages_keep_the_text_of_the_kernel() {
    let stats = PsiStats::parse("some avg10=1.07 avg60=0.46 avg300=x total=-1\n").unwrap();
    assert_eq!(stats.some.avg10, "1.07");
    assert_eq!(stats.some.avg60, "0.46");
    assert_eq!(stats.some.avg300, "x");
    assert_eq!(stats.some.total, 0);
    assert_eq!(stats.full.avg10, "0.0");
}

#[test]
fn test_classify_idle() {
    assert_eq!(classify(0.1, 0.0, 5.0, 2.0), PressureLevel::Idle);
}

#[test]
fn test_classify_high() {
    let level = classify(12.0, 8.0, 5.0, 2.0);
    assert!(level >= PressureLevel::High);
}

#[test]
fn test_display_idle() {
    assert_eq!(PressureLevel::Idle.to_string(), "idle");
    assert_eq!(PressureLevel::Low.to_string(), "low");
    assert_eq!(PressureLevel::Medium.to_string(), "medium");
    assert_eq!(PressureLevel::High.to_string(), "high");
    assert_eq!(PressureLevel::Critical.to_string(), "critical");
}

#[test]
fn test_parse_empty_content() {
    let stats = PsiStats::parse("").unwrap();
    assert!((value(&stats.some.avg10) - 0.0).abs() < 0.001);
    assert!((value(&stats.full.avg10) - 0.0).abs() < 0.001);
}

#[test]
fn test_parse_blank_lines() {
    let content = "\n\nsome avg10=0.50 avg60=0.25 avg300=0.10 total=1000\n\nfull avg10=0.10 avg60=0.05 avg300=0.02 total=500\n\n";
    let stats = PsiStats::parse(content).unwrap();
    assert!((value(&stats.some.avg10) - 0.50).abs() < 0.001);
    assert!((value(&stats.full.avg10) - 0.10).abs() < 0.001);
}

#[test]
fn test_parse_malformed_token_skipped() {
    let content = "some garbage avg10=1.0 avg60=0.5 avg300=0.1 total=100";
    let stats = PsiStats::parse(content).unwrap();
    assert!((value(&stats.some.avg10) - 1.0).abs() < 0.001);
}

#[test]
fn test_parse_unknown_key_skipped() {
    let content = "some avg10=1.0 avg60=0.5 avg300=0.1 unknown=42 total=100";
    let stats = PsiStats::parse(content).unwrap();
    assert!((value(&stats.some.avg10) - 1.0).abs() < 0.001);
    assert_eq!(stats.some.total, 100);
}

#[test]
fn lines_with_another_name_are_skipped() {
    let stats = PsiStats::parse("none avg10=3.0 total=9\nsomething avg10=4.0 total=8\n").unwrap();
    assert_eq!(stats.some.avg10, "4.0");
    assert_eq!(stats.some.total, 8);
    assert_eq!(stats.full.total, 0);
}

#[test]
fn test_classify_low() {
    assert_eq!(classify(2.0, 0.0, 5.0, 2.0), PressureLevel::Low);
}

#[test]
fn test_classify_medium() {
    assert_eq!(classify(5.0, 0.0, 5.0, 2.0), PressureLevel::Medium);
}

#[test]
fn test_classify_critical() {
    assert_eq!(classify(30.0, 25.0, 5.0, 2.0), PressureLevel::Critical);
}

#[test]
fn test_classify_high_via_full_threshold() {
    assert_eq!(classify(0.5, 4.0, 5.0, 2.0), PressureLevel::High);
}

#[test]
fn classification_steps_at_its_limits() {
    let level = |score: f32| {
        PsiStats::classify(f(score), f(0.0), f(0.0), f(100.0), f(200.0))
    };
    assert_eq!(level(0.49999997), PressureLevel::Idle);
    assert_eq!(level(0.5), PressureLevel::Low);
    assert_eq!(level(4.9999995), PressureLevel::Low);
    assert_eq!(level(5.0), PressureLevel::Medium);
    assert_eq!(level(9.999999), PressureLevel::Medium);
    assert_eq!(level(10.0), PressureLevel::High);
    assert_eq!(level(19.999998), PressureLevel::High);
    assert_eq!(level(20.0), PressureLevel::Critical);
    assert_eq!(level(f32::NAN), PressureLevel::Idle);
    assert_eq!(level(-1.0), PressureLevel::Idle);
}

#[test]
fn test_psi_stats_default_zeroes() {
    let stats = PsiStats::default();
    assert!((value(&stats.some.avg10) - 0.0).abs() < 0.001);
    assert_eq!(stats.some.total, 0);
    assert!((value(&stats.full.avg10) - 0.0).abs() < 0.001);
    assert_eq!(stats.full.total, 0);
    let line = PsiLine::default();
    assert_eq!(line.avg300, "0.0");
}

#[test]
fn test_pressure_level_ordering() {
    assert!(PressureLevel::Idle < PressureLevel::Low);
    assert!(PressureLevel::Low < PressureLevel::Medium);
    assert!(PressureLevel::Medium < PressureLevel::High);
    assert!(PressureLevel::High < PressureLevel::Critical);
}

#[test]
fn a_file_that_cannot_be_read_is_reported_with_its_path() {
    let err = PsiStats::read_memory(Err("denied".into())).unwrap_err();
    assert_eq!(
        err.message(),
        "sysfs I/O error on /proc/pressure/memory: denied"
    );
    let err = PsiStats::read_from("/cgroup/memory.pressure", Err("gone".into())).unwrap_err();
    assert_eq!(
        err.message(),
        "sysfs I/O error on /cgroup/memory.pressure: gone"
    );
    let stats = PsiStats::read_memory(Ok("full avg10=0.25 total=3".into())).unwrap();
    assert_eq!(stats.full.avg10, "0.25");
    assert_eq!(stats.full.total, 3);
}

#[test]
fn trigger_text_names_kind_threshold_and_window() {
    let trigger = PsiTrigger::new(PsiTriggerKind::SomeTasks, 150_000, 1_000_000);
    assert_eq!(trigger.rearm(), "some 150000 1000000");
    let trigger = PsiTrigger::new(PsiTriggerKind::Full, 0, 500_000);
    assert_eq!(trigger.rearm(), "full 0 500000");
    assert_eq!(trigger.window_us, 500_000);
}

#[test]
fn more_pressure_never_gives_a_lower_level() {
    let mut last = PressureLevel::Idle;
    for step in 0..200 {
        let level = classify(step as f32 * 0.25, step as f32 * 0.15, 5.0, 2.0);
        assert!(level >= last);
        last = level;
    }
    assert_eq!(last, PressureLevel::Critical);
}
