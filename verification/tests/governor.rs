use animaksm::config::GovernorConfig;
use animaksm::float_bits::Float32;
use animaksm::governor::{profile, Governor, PsiReading, TickOutcome};
use animaksm::ksm::{KsmController, ParamWrite, SysfsFile};
use animaksm::psi::PressureLevel;
use animaksm::state::GovernorState;

const START: u64 = 1_000_000;

fn governor(config: GovernorConfig) -> Governor {
    let ksm = KsmController::new("/ksm", true, START).unwrap();
    Governor::new(config, ksm, START)
}

fn files(profit: &str, full_scans: &str) -> Vec<SysfsFile> {
    [
        ("pages_shared", "10"),
        ("pages_sharing", "20"),
        ("pages_unshared", "5"),
        ("pages_volatile", "1"),
        ("pages_scanned", "100"),
        ("pages_skipped", "2"),
        ("full_scans", full_scans),
        ("general_profit", profit),
    ]
    .iter()
    .map(|(name, value)| SysfsFile {
        name: name.to_string(),
        content: Ok(value.to_string()),
    })
    .collect()
}

fn f(x: f32) -> Float32 {
    Float32 { bits: x.to_bits() }
}

/// A reading as the daemon computes it.
fn reading(some: f32, full: f32, last: Option<(f32, f32)>) -> PsiReading {
    let (last_some, last_full) = last.unwrap_or((some, full));
    PsiReading {
        some_avg10: f(some),
        full_avg10: f(full),
        score: f(0.7 * full + 0.3 * some),
        full_limit: f(2.0 * 2.0),
        some_diff: f((some - last_some).abs()),
        full_diff: f((full - last_full).abs()),
    }
}

fn texts(writes: &[ParamWrite]) -> Vec<(&str, &str)> {
    writes
        .iter()
        .map(|w| (w.param.as_str(), w.value.as_str()))
        .collect()
}

fn writes_of(outcome: TickOutcome) -> Vec<ParamWrite> {
    match outcome {
        TickOutcome::Done { writes, .. } => writes,
        _ => panic!("the tick should be done"),
    }
}

#[test]
fn levels_follow_the_pressure() {
    assert_eq!(Governor::pressure_to_level(PressureLevel::Idle), 0);
    assert_eq!(Governor::pressure_to_level(PressureLevel::Low), 1);
    assert_eq!(Governor::pressure_to_level(PressureLevel::Medium), 3);
    assert_eq!(Governor::pressure_to_level(PressureLevel::High), 4);
    assert_eq!(Governor::pressure_to_level(PressureLevel::Critical), 5);
}

#[test]
fn profiles_have_their_numbers() {
    let rows: Vec<_> = (0..6u8)
        .map(|level| {
            let p = profile(level);
            assert_eq!(p.level, level);
            (p.run, p.max_page_sharing, p.sleep_millisecs, p.pages_to_scan)
        })
        .collect();
    assert_eq!(
        rows,
        vec![
            (0, 256, 500, 100),
            (1, 256, 100, 500),
            (1, 384, 50, 2000),
            (1, 512, 20, 5000),
            (1, 768, 10, 15000),
            (1, 1024, 5, 30000),
        ]
    );
}

#[test]
fn startup_switches_the_advisor_on() {
    let g = governor(GovernorConfig::default());
    assert_eq!(
        texts(&g.startup_writes()),
        vec![("advisor_mode", "scan-time"), ("run", "1")]
    );
    let g = governor(GovernorConfig {
        use_advisor: false,
        ..GovernorConfig::default()
    });
    assert_eq!(texts(&g.startup_writes()), vec![("run", "1")]);
}

#[test]
fn pressure_raises_the_level_at_once() {
    let mut g = governor(GovernorConfig::default());
    let mut state = GovernorState::new(0);
    let now = START + 60_000;
    let outcome = g.tick(
        now,
        Some(reading(30.0, 25.0, None)),
        &files("4096", "3"),
        &mut state,
    );
    assert!(matches!(
        outcome,
        TickOutcome::Done {
            pressure: PressureLevel::Critical,
            ..
        }
    ));
    let writes = writes_of(outcome);
    assert!(!texts(&writes).iter().any(|w| w.0 == "pages_to_scan"));
    assert!(texts(&writes).contains(&("max_page_sharing", "1024")));
    assert_eq!(g.core.current_level, 5);
    assert_eq!(state.ksm_level, 5);
    assert_eq!(state.pages_sharing, 20);
    assert_eq!(state.general_profit, 4096);
    assert_eq!(state.last_adjustment, now);
    assert_eq!(state.last_governor_action, now);
    assert_eq!(state.last_global_action, now);
}

#[test]
fn the_scan_rate_is_written_without_the_advisor() {
    let mut g = governor(GovernorConfig {
        use_advisor: false,
        ..GovernorConfig::default()
    });
    let mut state = GovernorState::new(0);
    let outcome = g.tick(
        START + 60_000,
        Some(reading(2.0, 0.0, None)),
        &files("0", "0"),
        &mut state,
    );
    let writes = writes_of(outcome);
    assert!(texts(&writes).contains(&("pages_to_scan", "500")));
}

#[test]
fn the_stabilization_window_defers_a_change() {
    let mut g = governor(GovernorConfig::default());
    let now = START + 60_000;
    let mut state = GovernorState::new(now - 29_999);
    let quiet = g.tick(
        now,
        Some(reading(30.0, 25.0, None)),
        &files("0", "0"),
        &mut state,
    );
    assert!(writes_of(quiet).is_empty());
    assert_eq!(g.core.current_level, 0);
    let moved = g.tick(
        now + 1,
        Some(reading(30.0, 25.0, Some((30.0, 25.0)))),
        &files("0", "0"),
        &mut state,
    );
    assert!(!writes_of(moved).is_empty());
    assert_eq!(g.core.current_level, 5);
}

#[test]
fn the_level_falls_step_by_step() {
    let mut g = governor(GovernorConfig::default());
    g.core.current_level = 4;
    g.core.level_entered_at = 0;
    let late = START + 60_000;
    assert_eq!(g.compute_transition(late, 0), 4);
    assert_eq!(g.compute_transition(late, 0), 4);
    assert_eq!(g.compute_transition(late, 0), 4);
    assert_eq!(g.compute_transition(late, 0), 3);
    assert_eq!(g.compute_transition(late, 5), 5);
}

#[test]
fn the_level_is_held_for_its_minimum_time() {
    let mut g = governor(GovernorConfig::default());
    g.core.current_level = 4;
    g.core.level_entered_at = START;
    for _ in 0..10 {
        assert_eq!(g.compute_transition(START + 29_999, 0), 4);
    }
}

#[test]
fn a_loss_lowers_the_level() {
    let mut g = governor(GovernorConfig::default());
    g.core.current_level = 4;
    let mut state = GovernorState::new(START);
    let outcome = g.tick(
        START + 1000,
        Some(reading(12.0, 9.0, None)),
        &files("-1", "11"),
        &mut state,
    );
    assert!(
        writes_of(outcome).is_empty(),
        "nothing is written inside the stabilization window"
    );
    assert_eq!(g.core.current_level, 4);
    assert_eq!(state.last_global_action, START);
    let outcome = g.tick(
        START + 30_000,
        Some(reading(12.0, 9.0, Some((12.0, 9.0)))),
        &files("-1", "11"),
        &mut state,
    );
    assert!(!writes_of(outcome).is_empty());
    assert_eq!(g.core.current_level, 3);
    let outcome = g.tick(
        START + 31_000,
        Some(reading(12.0, 9.0, Some((12.0, 9.0)))),
        &files("-1", "10"),
        &mut state,
    );
    assert!(writes_of(outcome).is_empty());
    assert_eq!(g.core.current_level, 3);
}

#[test]
fn a_tick_is_recorded_when_its_writes_are_done() {
    let mut g = governor(GovernorConfig::default());
    g.core.current_level = 4;
    let mut state = GovernorState::new(START);
    let outcome = g.tick(
        START + 40_000,
        Some(reading(12.0, 9.0, None)),
        &files("-1", "11"),
        &mut state,
    );
    Governor::finish_tick(START + 40_250, &outcome, &mut state);
    assert!(!writes_of(outcome).is_empty());
    assert_eq!(state.last_adjustment, START + 40_250);
    assert_eq!(state.last_global_action, START + 40_250);
    assert_eq!(state.last_governor_action, START + 40_250);

    let outcome = g.tick(
        START + 42_000,
        Some(reading(12.0, 9.0, Some((12.0, 9.0)))),
        &files("0", "11"),
        &mut state,
    );
    Governor::finish_tick(START + 42_100, &outcome, &mut state);
    assert!(writes_of(outcome).is_empty());
    assert_eq!(state.last_adjustment, START + 42_100);
    assert_eq!(state.last_global_action, START + 40_250);

    let before = state;
    Governor::finish_tick(START + 50_000, &TickOutcome::PsiUnreadable, &mut state);
    assert_eq!(state.last_adjustment, before.last_adjustment);
}

#[test]
fn unreadable_sources_end_the_tick() {
    let mut g = governor(GovernorConfig::default());
    let mut state = GovernorState::new(0);
    let outcome = g.tick(START + 60_000, None, &files("0", "0"), &mut state);
    assert!(matches!(outcome, TickOutcome::PsiUnreadable));
    assert!(g.core.last_psi.is_none());
    let outcome = g.tick(
        START + 60_000,
        Some(reading(30.0, 25.0, None)),
        &vec![],
        &mut state,
    );
    match outcome {
        TickOutcome::KsmUnreadable(e) => assert!(e.message().contains("/ksm/pages_shared")),
        _ => panic!("KSM cannot be read"),
    }
    assert!(g.core.last_psi.is_some());
    assert_eq!(g.core.current_level, 0);
}

#[test]
fn stable_readings_are_counted() {
    let mut g = governor(GovernorConfig::default());
    let mut state = GovernorState::new(START);
    let mut last = None;
    for some in [1.0, 1.2, 1.4] {
        g.tick(START, Some(reading(some, 0.0, last)), &files("0", "0"), &mut state);
        last = Some((some, 0.0));
    }
    assert_eq!(g.core.stable_psi_ticks, 2);
    g.tick(START, Some(reading(2.0, 0.0, last)), &files("0", "0"), &mut state);
    assert_eq!(g.core.stable_psi_ticks, 0);
}

#[test]
fn lower_readings_count_whenever_they_come_and_whatever_they_ask_for() {
    let config = GovernorConfig::default();
    let needed = config.hysteresis_readings as u64;
    let mut g = governor(config);
    g.core.current_level = 4;
    g.core.level_entered_at = START;
    for i in 1..=needed {
        let level = g.compute_transition(START + 30_000 + i * i * 777, (i % 4) as u8);
        assert_eq!(level, if i < needed { 4 } else { 3 });
    }
}
