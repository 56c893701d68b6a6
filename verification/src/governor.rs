//! Tier 1: PSI-aware KSM governor.
//!
//! Watches memory pressure and adjusts how aggressively KSM scans, trading CPU
//! cycles for effective RAM.
//!
//! When the kernel advisor is used it is the primary controller of
//! `pages_to_scan`. The governor is then a bias layer only: it adjusts
//! `max_page_sharing` and `sleep_millisecs`, so that two controllers never fight
//! over one parameter.
//!
//! A stabilization window keeps governor, scanner and swap proxy from driving
//! each other: within it no level change is made, whatever asks for one.

use vstd::prelude::*;

use crate::config::GovernorConfig;
use crate::error::ZramdedupError;
use crate::float_bits;
use crate::float_bits::Float32;
use crate::ksm;
use crate::ksm::{KsmController, KsmStats, ParamWrite, ParamWriteView, SysfsFile};
use crate::psi::{PressureLevel, PsiStats};
use crate::state;
use crate::state::GovernorState;
use crate::text;

verus! {

/// Time between two ticks.
pub const POLL_INTERVAL_MS: u64 = 2000;

/// The most aggressive level.
pub const MAX_LEVEL: u8 = 5;

/// KSM profile for each aggressiveness level.
#[derive(Debug, Clone, Copy, PartialEq, Eq, Structural)]
pub struct KsmProfile {
    pub level: u8,
    pub run: u64,
    pub max_page_sharing: u32,
    pub sleep_millisecs: u64,
    /// Only used when the advisor is off.
    pub pages_to_scan: u64,
}

/// The profile of a level.
pub open spec fn profile_of(level: u8) -> KsmProfile {
    if level == 0 {
        // Idle: KSM stopped, no scanning
        KsmProfile {
            level: 0,
            run: 0,
            max_page_sharing: 256,
            sleep_millisecs: 500,
            pages_to_scan: 100,
        }
    } else if level == 1 {
        // Light: minimal scanning
        KsmProfile {
            level: 1,
            run: 1,
            max_page_sharing: 256,
            sleep_millisecs: 100,
            pages_to_scan: 500,
        }
    } else if level == 2 {
        // Moderate
        KsmProfile {
            level: 2,
            run: 1,
            max_page_sharing: 384,
            sleep_millisecs: 50,
            pages_to_scan: 2000,
        }
    } else if level == 3 {
        // Active
        KsmProfile {
            level: 3,
            run: 1,
            max_page_sharing: 512,
            sleep_millisecs: 20,
            pages_to_scan: 5000,
        }
    } else if level == 4 {
        // Aggressive
        KsmProfile {
            level: 4,
            run: 1,
            max_page_sharing: 768,
            sleep_millisecs: 10,
            pages_to_scan: 15000,
        }
    } else {
        // Emergency: maximum scanning
        KsmProfile {
            level: 5,
            run: 1,
            max_page_sharing: 1024,
            sleep_millisecs: 5,
            pages_to_scan: 30000,
        }
    }
}

/// The profile of a level.
pub fn profile(level: u8) -> (r: KsmProfile)
    requires
        level <= MAX_LEVEL,
    ensures
        r == profile_of(level),
{
    match level {
        0 => KsmProfile {
            level: 0,
            run: 0,
            max_page_sharing: 256,
            sleep_millisecs: 500,
            pages_to_scan: 100,
        },
        1 => KsmProfile {
            level: 1,
            run: 1,
            max_page_sharing: 256,
            sleep_millisecs: 100,
            pages_to_scan: 500,
        },
        2 => KsmProfile {
            level: 2,
            run: 1,
            max_page_sharing: 384,
            sleep_millisecs: 50,
            pages_to_scan: 2000,
        },
        3 => KsmProfile {
            level: 3,
            run: 1,
            max_page_sharing: 512,
            sleep_millisecs: 20,
            pages_to_scan: 5000,
        },
        4 => KsmProfile {
            level: 4,
            run: 1,
            max_page_sharing: 768,
            sleep_millisecs: 10,
            pages_to_scan: 15000,
        },
        _ => KsmProfile {
            level: 5,
            run: 1,
            max_page_sharing: 1024,
            sleep_millisecs: 5,
            pages_to_scan: 30000,
        },
    }
}

/// One PSI reading, with the numbers that are derived from it.
#[derive(Debug, Clone, Copy, PartialEq, Eq, Structural)]
pub struct PsiReading {
    pub some_avg10: Float32,
    pub full_avg10: Float32,
    /// 0.7 of the full average plus 0.3 of the some average.
    pub score: Float32,
    /// Twice the full threshold.
    pub full_limit: Float32,
    /// Distance of the some average from the one of the last reading.
    pub some_diff: Float32,
    /// Distance of the full average from the one of the last reading.
    pub full_diff: Float32,
}

/// The averages of the last reading.
#[derive(Debug, Clone, Copy, PartialEq, Eq, Structural)]
pub struct PsiSample {
    pub some_avg10: Float32,
    pub full_avg10: Float32,
}

/// The moving part of the governor.
#[derive(Debug, Clone, Copy)]
pub struct GovernorCore {
    pub current_level: u8,
    pub hysteresis_count: u32,
    pub level_entered_at: u64,
    pub full_scans_at_level: u64,
    /// Last PSI reading (for the stability check).
    pub last_psi: Option<PsiSample>,
    /// Consecutive ticks with stable PSI (for drift detection).
    pub stable_psi_ticks: u32,
}

/// The settings that the moving part depends on.
pub struct GovernorRules {
    pub use_advisor: bool,
    pub some_threshold: Float32,
    pub hysteresis_readings: u32,
    pub min_level_duration_secs: u64,
    pub stabilization_secs: u64,
}

/// What one tick does.
#[verifier::ext_equal]
pub struct TickEffect {
    pub core: GovernorCore,
    pub state: GovernorState,
    pub writes: Seq<ParamWriteView>,
}

impl GovernorCore {
    pub open spec fn wf(self, readings: u32) -> bool {
        &&& self.current_level <= MAX_LEVEL
        &&& self.hysteresis_count == 0 || self.hysteresis_count < readings
        &&& self.full_scans_at_level == 0
    }

    /// The core after a reading was taken: ticks are stable while both averages
    /// move by less than one half.
    pub open spec fn observed(self, psi: PsiReading) -> GovernorCore {
        let half = Float32 { bits: float_bits::HALF };
        GovernorCore {
            stable_psi_ticks: match self.last_psi {
                None => self.stable_psi_ticks,
                Some(_) => if psi.some_diff.below(half) && psi.full_diff.below(half) {
                    (self.stable_psi_ticks + 1) as u32
                } else {
                    0
                },
            },
            last_psi: Some(
                PsiSample { some_avg10: psi.some_avg10, full_avg10: psi.full_avg10 },
            ),
            ..self
        }
    }

    /// The core after a target level was compared, and the level to go to. Up at
    /// once; down by one level, after enough readings and not before the level
    /// has lasted its time.
    pub open spec fn transition(self, rules: GovernorRules, now: u64, target: u8) -> (
        GovernorCore,
        u8,
    ) {
        let entered = GovernorCore {
            hysteresis_count: 0,
            level_entered_at: now,
            full_scans_at_level: 0,
            ..self
        };
        if target > self.current_level {
            (entered, target)
        } else if target < self.current_level {
            if !state::spec_passed(self.level_entered_at, now, rules.min_level_duration_secs) {
                (self, self.current_level)
            } else if self.hysteresis_count + 1 >= rules.hysteresis_readings {
                (entered, (self.current_level - 1) as u8)
            } else {
                (
                    GovernorCore {
                        hysteresis_count: (self.hysteresis_count + 1) as u32,
                        ..self
                    },
                    self.current_level,
                )
            }
        } else {
            (GovernorCore { hysteresis_count: 0, ..self }, self.current_level)
        }
    }
}

/// The KSM level that a pressure level asks for.
pub open spec fn level_for(pressure: PressureLevel) -> u8 {
    match pressure {
        PressureLevel::Idle => 0,
        PressureLevel::Low => 1,
        PressureLevel::Medium => 3,
        PressureLevel::High => 4,
        PressureLevel::Critical => 5,
    }
}

/// The writes that apply a profile. Scanning is stopped before the parameters
/// change and started after they did; the scan rate is left to the advisor where
/// it is used.
pub open spec fn profile_writes(level: u8, use_advisor: bool) -> Seq<ParamWriteView> {
    let p = profile_of(level);
    let stop = if p.run == 0 {
        seq![ksm::number_write("run"@, 0, false)]
    } else {
        Seq::empty()
    };
    let bias = seq![
        ksm::number_write("sleep_millisecs"@, p.sleep_millisecs, false),
        ksm::number_write("max_page_sharing"@, p.max_page_sharing as u64, false),
    ];
    let rate = if use_advisor {
        Seq::empty()
    } else {
        seq![ksm::number_write("pages_to_scan"@, p.pages_to_scan, false)]
    };
    let start = if p.run != 0 {
        seq![ksm::number_write("run"@, 1, false)]
    } else {
        Seq::empty()
    };
    stop + bias + rate + start
}

impl TickEffect {
    /// The effect of applying a profile on top.
    pub open spec fn applying(self, level: u8, use_advisor: bool, now: u64) -> TickEffect {
        TickEffect {
            core: GovernorCore { current_level: level, ..self.core },
            state: GovernorState {
                last_global_action: now,
                last_governor_action: now,
                ..self.state
            },
            writes: self.writes + profile_writes(level, use_advisor),
        }
    }

    /// The effect of going to a new level, unless the last action of any tier is
    /// too recent.
    pub open spec fn moving(self, rules: GovernorRules, now: u64, level: u8) -> TickEffect {
        if level != self.core.current_level && state::spec_passed(
            self.state.last_global_action,
            now,
            rules.stabilization_secs,
        ) {
            self.applying(level, rules.use_advisor, now)
        } else {
            self
        }
    }

    /// The effect of the profit check: scanning that keeps losing memory is
    /// turned down by one level, but not stopped, unless the last action of any
    /// tier is too recent.
    pub open spec fn checking_profit(self, rules: GovernorRules, now: u64, stats: KsmStats) -> TickEffect {
        if self.core.current_level > 1 && stats.general_profit < 0 && stats.full_scans
            > self.core.full_scans_at_level + 10 && state::spec_passed(
            self.state.last_global_action,
            now,
            rules.stabilization_secs,
        ) {
            self.applying((self.core.current_level - 1) as u8, rules.use_advisor, now)
        } else {
            self
        }
    }

    /// The effect of publishing the readings.
    pub open spec fn publishing(self, now: u64, pressure: PressureLevel, stats: KsmStats) -> TickEffect {
        TickEffect {
            state: GovernorState {
                current_pressure: pressure,
                ksm_level: self.core.current_level,
                pages_sharing: stats.pages_sharing,
                general_profit: stats.general_profit,
                last_adjustment: now,
                ..self.state
            },
            ..self
        }
    }
}

/// The pressure level of a reading.
pub open spec fn pressure_of(rules: GovernorRules, psi: PsiReading) -> PressureLevel {
    PsiStats::level_of(
        psi.score,
        psi.some_avg10,
        psi.full_avg10,
        rules.some_threshold,
        psi.full_limit,
    )
}

/// The effect of a whole tick for which all readings could be taken.
pub open spec fn tick_effect(
    rules: GovernorRules,
    core: GovernorCore,
    state: GovernorState,
    now: u64,
    psi: PsiReading,
    stats: KsmStats,
) -> TickEffect {
    let pressure = pressure_of(rules, psi);
    let (moved, level) = core.observed(psi).transition(rules, now, level_for(pressure));
    TickEffect { core: moved, state, writes: Seq::empty() }.moving(
        rules,
        now,
        level,
    ).checking_profit(rules, now, stats).publishing(now, pressure, stats)
}

/// How a tick ended.
#[derive(Debug)]
pub enum TickOutcome {
    /// PSI could not be read; nothing was done.
    PsiUnreadable,
    /// KSM could not be read; only the reading was recorded.
    KsmUnreadable(ZramdedupError),
    /// The tick is over; these writes have to be made, in order. A write that
    /// fails does not matter.
    Done { pressure: PressureLevel, writes: Vec<ParamWrite> },
}

/// The governor state machine.
#[derive(Debug)]
pub struct Governor {
    pub config: GovernorConfig,
    pub ksm: KsmController,
    pub core: GovernorCore,
}

impl Governor {
    pub open spec fn rules(&self) -> GovernorRules {
        GovernorRules {
            use_advisor: self.config.use_advisor,
            some_threshold: self.config.psi_some_threshold,
            hysteresis_readings: self.config.hysteresis_readings,
            min_level_duration_secs: self.config.min_level_duration_secs,
            stabilization_secs: self.config.stabilization_secs,
        }
    }

    pub open spec fn wf(&self) -> bool {
        self.core.wf(self.config.hysteresis_readings)
    }

    pub fn new(config: GovernorConfig, ksm: KsmController, now: u64) -> (r: Self)
        ensures
            r.wf(),
            r.config == config,
            r.ksm == ksm,
            r.core == (GovernorCore {
                current_level: 0,
                hysteresis_count: 0,
                level_entered_at: now,
                full_scans_at_level: 0,
                last_psi: None,
                stable_psi_ticks: 0,
            }),
    {
        Governor {
            config,
            ksm,
            core: GovernorCore {
                current_level: 0,
                hysteresis_count: 0,
                level_entered_at: now,
                full_scans_at_level: 0,
                last_psi: None,
                stable_psi_ticks: 0,
            },
        }
    }

    /// The writes on startup: the advisor is switched on where it is used, and
    /// KSM is started.
    pub fn startup_writes(&self) -> (r: Vec<ParamWrite>)
        ensures
            ksm::write_views(r@) == (if self.config.use_advisor {
                seq![
                    ksm::text_write("advisor_mode"@, "scan-time"@, false),
                    ksm::number_write("run"@, 1, false),
                ]
            } else {
                seq![ksm::number_write("run"@, 1, false)]
            }),
    {
        let mut writes: Vec<ParamWrite> = Vec::new();
        if self.config.use_advisor {
            writes.push(ParamWrite::text("advisor_mode", "scan-time", false));
        }
        writes.push(ParamWrite::number("run", 1, false));
        assert(ksm::write_views(writes@) =~= (if self.config.use_advisor {
            seq![
                ksm::text_write("advisor_mode"@, "scan-time"@, false),
                ksm::number_write("run"@, 1, false),
            ]
        } else {
            seq![ksm::number_write("run"@, 1, false)]
        }));
        writes
    }

    /// Single tick of the governor: takes the PSI reading, where there is one,
    /// and the files of the KSM directory, and decides what to write.
    pub fn tick(
        &mut self,
        now: u64,
        psi: Option<PsiReading>,
        files: &Vec<SysfsFile>,
        state: &mut GovernorState,
    ) -> (r: TickOutcome)
        requires
            old(self).wf(),
            old(self).core.stable_psi_ticks < u32::MAX,
        ensures
            final(self).wf(),
            final(self).config == old(self).config,
            final(self).ksm == old(self).ksm,
            match psi {
                None => {
                    &&& r is PsiUnreadable
                    &&& final(self).core == old(self).core
                    &&& *final(state) == *old(state)
                },
                Some(psi) => match r {
                    TickOutcome::PsiUnreadable => false,
                    TickOutcome::KsmUnreadable(e) => {
                        &&& old(self).ksm.stats_error(files@, e)
                        &&& final(self).core == old(self).core.observed(psi)
                        &&& *final(state) == *old(state)
                    },
                    TickOutcome::Done { pressure, writes } => {
                        &&& ksm::stats_readable(files@)
                        &&& pressure == pressure_of(old(self).rules(), psi)
                        &&& (TickEffect {
                            core: final(self).core,
                            state: *final(state),
                            writes: ksm::write_views(writes@),
                        }) == tick_effect(
                            old(self).rules(),
                            old(self).core,
                            *old(state),
                            now,
                            psi,
                            ksm::stats_in(files@),
                        )
                    },
                },
            },
    {
        let psi = match psi {
            None => {
                return TickOutcome::PsiUnreadable;
            },
            Some(psi) => psi,
        };
        let half = Float32 { bits: float_bits::HALF };
        if self.core.last_psi.is_some() {
            if psi.some_diff.less(half) && psi.full_diff.less(half) {
                self.core.stable_psi_ticks = self.core.stable_psi_ticks + 1;
            } else {
                self.core.stable_psi_ticks = 0;
            }
        }
        self.core.last_psi =
        Some(PsiSample { some_avg10: psi.some_avg10, full_avg10: psi.full_avg10 });
        assert(self.core == old(self).core.observed(psi));

        let stats = match self.ksm.read_stats(files) {
            Ok(stats) => stats,
            Err(e) => {
                return TickOutcome::KsmUnreadable(e);
            },
        };
        let pressure = PsiStats::classify(
            psi.score,
            psi.some_avg10,
            psi.full_avg10,
            self.config.psi_some_threshold,
            psi.full_limit,
        );
        let target: u8 = Self::pressure_to_level(pressure);
        let new_level: u8 = self.compute_transition(now, target);
        let mut writes: Vec<ParamWrite> = Vec::new();
        assert(ksm::write_views(writes@) =~= Seq::<ParamWriteView>::empty());
        let ghost start = TickEffect {
            core: self.core,
            state: *state,
            writes: ksm::write_views(writes@),
        };
        if new_level != self.core.current_level {
            if state::passed(state.last_global_action, now, self.config.stabilization_secs) {
                self.apply_profile(new_level, now, state, &mut writes);
            }
        }
        let ghost moved = TickEffect {
            core: self.core,
            state: *state,
            writes: ksm::write_views(writes@),
        };
        assert(moved == start.moving(self.rules(), now, new_level));
        if self.core.current_level > 1 && stats.general_profit < 0 && stats.full_scans
            > self.core.full_scans_at_level + 10 && state::passed(
            state.last_global_action,
            now,
            self.config.stabilization_secs,
        ) {
            self.apply_profile(self.core.current_level - 1, now, state, &mut writes);
        }
        assert((TickEffect {
            core: self.core,
            state: *state,
            writes: ksm::write_views(writes@),
        }) == moved.checking_profit(self.rules(), now, stats));
        state.current_pressure = pressure;
        state.ksm_level = self.core.current_level;
        state.pages_sharing = stats.pages_sharing;
        state.general_profit = stats.general_profit;
        state.last_adjustment = now;
        TickOutcome::Done { pressure, writes }
    }

    /// Ends a tick once its writes were made, at time `now`: that is when the
    /// action counts as done.
    pub fn finish_tick(now: u64, outcome: &TickOutcome, state: &mut GovernorState)
        ensures
            *final(state) == (match *outcome {
                TickOutcome::Done { writes, .. } => if writes@.len() > 0 {
                    GovernorState {
                        last_adjustment: now,
                        last_global_action: now,
                        last_governor_action: now,
                        ..*old(state)
                    }
                } else {
                    GovernorState { last_adjustment: now, ..*old(state) }
                },
                _ => *old(state),
            }),
    {
        if let TickOutcome::Done { writes, .. } = outcome {
            state.last_adjustment = now;
            if writes.len() > 0 {
                state.last_global_action = now;
                state.last_governor_action = now;
            }
        }
    }

    /// Map pressure level to KSM aggressiveness level (0-5).
    pub fn pressure_to_level(pressure: PressureLevel) -> (r: u8)
        ensures
            r == level_for(pressure),
            r <= MAX_LEVEL,
    {
        match pressure {
            PressureLevel::Idle => 0,
            PressureLevel::Low => 1,
            PressureLevel::Medium => 3,
            PressureLevel::High => 4,
            PressureLevel::Critical => 5,
        }
    }

    /// Compute the actual transition with hysteresis and cooldown.
    pub fn compute_transition(&mut self, now: u64, target_level: u8) -> (r: u8)
        requires
            old(self).wf(),
            target_level <= MAX_LEVEL,
        ensures
            final(self).wf(),
            final(self).config == old(self).config,
            final(self).ksm == old(self).ksm,
            (final(self).core, r) == old(self).core.transition(
                old(self).rules(),
                now,
                target_level,
            ),
            r <= MAX_LEVEL,
    {
        if target_level > self.core.current_level {
            self.core.hysteresis_count = 0;
            self.core.level_entered_at = now;
            self.core.full_scans_at_level = 0;
            target_level
        } else if target_level < self.core.current_level {
            if !state::passed(
                self.core.level_entered_at,
                now,
                self.config.min_level_duration_secs,
            ) {
                return self.core.current_level;
            }
            self.core.hysteresis_count = self.core.hysteresis_count + 1;
            if self.core.hysteresis_count >= self.config.hysteresis_readings {
                self.core.hysteresis_count = 0;
                self.core.level_entered_at = now;
                self.core.full_scans_at_level = 0;
                self.core.current_level - 1
            } else {
                self.core.current_level
            }
        } else {
            self.core.hysteresis_count = 0;
            self.core.current_level
        }
    }

    /// Apply a KSM profile: adds its writes and records the action.
    pub fn apply_profile(
        &mut self,
        level: u8,
        now: u64,
        state: &mut GovernorState,
        writes: &mut Vec<ParamWrite>,
    )
        requires
            level <= MAX_LEVEL,
        ensures
            final(self).config == old(self).config,
            final(self).ksm == old(self).ksm,
            (TickEffect {
                core: final(self).core,
                state: *final(state),
                writes: ksm::write_views(final(writes)@),
            }) == (TickEffect {
                core: old(self).core,
                state: *old(state),
                writes: ksm::write_views(old(writes)@),
            }).applying(level, old(self).config.use_advisor, now),
    {
        let p = profile(level);
        if p.run == 0 {
            writes.push(ParamWrite::number("run", 0, false));
        }
        writes.push(ParamWrite::number("sleep_millisecs", p.sleep_millisecs, false));
        writes.push(ParamWrite::number("max_page_sharing", p.max_page_sharing as u64, false));
        if !self.config.use_advisor {
            writes.push(ParamWrite::number("pages_to_scan", p.pages_to_scan, false));
        }
        if p.run != 0 {
            writes.push(ParamWrite::number("run", 1, false));
        }
        assert(ksm::write_views(writes@) =~= ksm::write_views(old(writes)@) + profile_writes(
            level,
            self.config.use_advisor,
        ));
        self.core.current_level = level;
        state.last_global_action = now;
        state.last_governor_action = now;
    }
}

// ---------------------------------------------------------------------------
// Laws
// ---------------------------------------------------------------------------

/// Higher pressure never asks for a lower level.
pub proof fn law_levels_follow_pressure(a: PressureLevel, b: PressureLevel)
    requires
        a.rank() <= b.rank(),
    ensures
        level_for(a) <= level_for(b) <= MAX_LEVEL,
{
}

/// A higher target is reached at once.
pub proof fn law_ramp_up_is_immediate(core: GovernorCore, rules: GovernorRules, now: u64, target: u8)
    requires
        target > core.current_level,
    ensures
        core.transition(rules, now, target).1 == target,
{
}

/// A lower target is approached by at most one level, and never overshot.
pub proof fn law_ramp_down_is_gradual(core: GovernorCore, rules: GovernorRules, now: u64, target: u8)
    requires
        target < core.current_level,
    ensures
        core.current_level - 1 <= core.transition(rules, now, target).1 <= core.current_level,
        target <= core.transition(rules, now, target).1,
{
}

/// No level is left downwards before it has lasted its time.
pub proof fn law_cooldown_holds_the_level(
    core: GovernorCore,
    rules: GovernorRules,
    now: u64,
    target: u8,
)
    requires
        target < core.current_level,
        state::spec_elapsed(core.level_entered_at, now) < rules.min_level_duration_secs * 1000,
    ensures
        core.transition(rules, now, target) == (core, core.current_level),
{
}

/// A reading, as a level change sees it: when it is taken, and the level that it asks
/// for.
pub struct Demand {
    pub at: u64,
    pub target: u8,
}

/// The core after these readings in a row, and the level that the last of them gave.
pub open spec fn after_readings(
    core: GovernorCore,
    rules: GovernorRules,
    readings: Seq<Demand>,
) -> (GovernorCore, u8)
    decreases readings.len(),
{
    if readings.len() == 0 {
        (core, core.current_level)
    } else {
        after_readings(core, rules, readings.drop_last()).0.transition(
            rules,
            readings.last().at,
            readings.last().target,
        )
    }
}

/// Going down takes exactly as many readings in a row as are configured, whenever
/// they are taken once the level has lasted its time, and whichever lower levels they
/// ask for: fewer keep the level, and the last one lowers it by one.
pub proof fn law_ramp_down_needs_all_readings(
    core: GovernorCore,
    rules: GovernorRules,
    readings: Seq<Demand>,
)
    requires
        forall|i: int|
            0 <= i < readings.len() ==> (#[trigger] readings[i]).target < core.current_level
                && state::spec_passed(
                core.level_entered_at,
                readings[i].at,
                rules.min_level_duration_secs,
            ),
        core.hysteresis_count == 0,
        1 <= readings.len() <= rules.hysteresis_readings,
    ensures
        after_readings(core, rules, readings).1 == (if readings.len() < rules.hysteresis_readings {
            core.current_level as int
        } else {
            core.current_level - 1
        }),
        readings.len() < rules.hysteresis_readings ==> after_readings(core, rules, readings).0 == (
        GovernorCore { hysteresis_count: readings.len() as u32, ..core }),
    decreases readings.len(),
{
    let front = readings.drop_last();
    let last = readings[readings.len() - 1];
    assert(last.target < core.current_level);
    if front.len() > 0 {
        assert forall|i: int| 0 <= i < front.len() implies (#[trigger] front[i]).target
            < core.current_level && state::spec_passed(
            core.level_entered_at,
            front[i].at,
            rules.min_level_duration_secs,
        ) by {
            assert(front[i] == readings[i]);
        }
        law_ramp_down_needs_all_readings(core, rules, front);
    }
}

/// With the advisor in use, a profile never writes the scan rate.
pub proof fn law_advisor_keeps_the_scan_rate(level: u8, i: int)
    requires
        0 <= i < profile_writes(level, true).len(),
    ensures
        profile_writes(level, true)[i].param != "pages_to_scan"@,
{
    reveal_strlit("run");
    reveal_strlit("sleep_millisecs");
    reveal_strlit("max_page_sharing");
    reveal_strlit("pages_to_scan");
    assert("run"@.len() == 3);
    assert("sleep_millisecs"@.len() == 15);
    assert("max_page_sharing"@.len() == 16);
    assert("pages_to_scan"@.len() == 13);
}

/// KSM is stopped before any other parameter changes, and started only after all
/// others have changed.
pub proof fn law_run_is_written_first_or_last(level: u8, use_advisor: bool)
    ensures
        ({
            let writes = profile_writes(level, use_advisor);
            if profile_of(level).run == 0 {
                writes[0] == ksm::number_write("run"@, 0, false)
            } else {
                writes.last() == ksm::number_write("run"@, 1, false)
            }
        }),
{
}

/// Every number of every profile is inside its safe range.
pub proof fn law_profiles_are_safe(level: u8)
    ensures
        ksm::is_safe("run"@, profile_of(level).run),
        ksm::is_safe("sleep_millisecs"@, profile_of(level).sleep_millisecs),
        ksm::is_safe("max_page_sharing"@, profile_of(level).max_page_sharing as u64),
        ksm::is_safe("pages_to_scan"@, profile_of(level).pages_to_scan),
{
    ksm::lemma_distinct_names();
}

/// More aggressive levels scan more pages, sleep less and share more.
pub proof fn law_profiles_grow_with_the_level(a: u8, b: u8)
    requires
        a <= b <= MAX_LEVEL,
    ensures
        profile_of(a).run <= profile_of(b).run,
        profile_of(a).pages_to_scan <= profile_of(b).pages_to_scan,
        profile_of(a).sleep_millisecs >= profile_of(b).sleep_millisecs,
        profile_of(a).max_page_sharing <= profile_of(b).max_page_sharing,
{
}

/// Within the stabilization window no level changes and nothing is written.
pub proof fn law_window_defers_level_changes(
    rules: GovernorRules,
    core: GovernorCore,
    st: GovernorState,
    now: u64,
    psi: PsiReading,
    stats: KsmStats,
)
    requires
        core.current_level <= MAX_LEVEL,
        !state::spec_passed(st.last_global_action, now, rules.stabilization_secs),
    ensures
        tick_effect(rules, core, st, now, psi, stats).core.current_level == core.current_level,
        tick_effect(rules, core, st, now, psi, stats).state.ksm_level == core.current_level,
        tick_effect(rules, core, st, now, psi, stats).writes.len() == 0,
{
}

/// A tick that changes no level writes nothing and stamps no action.
pub proof fn law_quiet_tick_writes_nothing(
    rules: GovernorRules,
    core: GovernorCore,
    st: GovernorState,
    now: u64,
    psi: PsiReading,
    stats: KsmStats,
)
    requires
        stats.general_profit >= 0,
        tick_effect(rules, core, st, now, psi, stats).core.current_level == core.current_level,
    ensures
        tick_effect(rules, core, st, now, psi, stats).writes.len() == 0,
        tick_effect(rules, core, st, now, psi, stats).state.last_global_action
            == st.last_global_action,
{
}

/// The level that each pressure asks for.
pub proof fn law_pressures_have_their_levels()
    ensures
        level_for(PressureLevel::Idle) == 0,
        level_for(PressureLevel::Low) == 1,
        level_for(PressureLevel::Medium) == 3,
        level_for(PressureLevel::High) == 4,
        level_for(PressureLevel::Critical) == 5,
{
}

/// The numbers of every profile, from the idle one to the most aggressive.
pub proof fn law_profiles_have_their_numbers(level: u8)
    requires
        level <= 5,
    ensures
        profile_of(level).level == level,
        profile_of(level).run == (if level == 0 {
            0u64
        } else {
            1u64
        }),
        profile_of(level).sleep_millisecs == seq![500u64, 100, 50, 20, 10, 5][level as int],
        profile_of(level).max_page_sharing == seq![256u32, 256, 384, 512, 768, 1024][level as int],
        profile_of(level).pages_to_scan == seq![100u64, 500, 2000, 5000, 15000, 30000][level as int],
{
}

/// A reading at the current level starts the count of lower ones over: the level only
/// goes down after as many further readings in a row as are configured, and by one.
pub proof fn law_reading_at_the_level_starts_over(
    core: GovernorCore,
    rules: GovernorRules,
    at: u64,
    readings: Seq<Demand>,
)
    requires
        forall|i: int|
            0 <= i < readings.len() ==> (#[trigger] readings[i]).target < core.current_level
                && state::spec_passed(
                core.level_entered_at,
                readings[i].at,
                rules.min_level_duration_secs,
            ),
        readings.len() <= rules.hysteresis_readings,
    ensures
        ({
            let (steady, level) = core.transition(rules, at, core.current_level);
            &&& level == core.current_level
            &&& steady.hysteresis_count == 0
            &&& steady.current_level == core.current_level
            &&& steady.level_entered_at == core.level_entered_at
            &&& 0 < readings.len() < rules.hysteresis_readings ==> after_readings(
                steady,
                rules,
                readings,
            ).1 == core.current_level
            &&& 0 < readings.len() == rules.hysteresis_readings ==> after_readings(
                steady,
                rules,
                readings,
            ).1 == core.current_level - 1
        }),
{
    let steady = core.transition(rules, at, core.current_level).0;
    if readings.len() > 0 {
        law_ramp_down_needs_all_readings(steady, rules, readings);
    }
}

/// A level that is left, in either direction, starts its time and its count anew; one
/// that is kept goes on with its time.
pub proof fn law_new_level_starts_its_time(
    core: GovernorCore,
    rules: GovernorRules,
    now: u64,
    target: u8,
)
    requires
        core.wf(rules.hysteresis_readings),
    ensures
        ({
            let (next, level) = core.transition(rules, now, target);
            &&& level != core.current_level ==> next.level_entered_at == now
                && next.hysteresis_count == 0 && next.full_scans_at_level == 0
            &&& level == core.current_level ==> next.level_entered_at == core.level_entered_at
            &&& next.last_psi == core.last_psi
            &&& next.stable_psi_ticks == core.stable_psi_ticks
        }),
{
}

/// What applying a profile leaves in the directory: sleep time, sharing limit and run
/// state are those of the profile, and so is the scan rate, unless the advisor is in
/// charge of it; then it stays as it was. No other file changes.
pub proof fn law_profile_reaches_the_directory(
    effect: TickEffect,
    level: u8,
    use_advisor: bool,
    now: u64,
    dir: Map<Seq<char>, Seq<char>>,
    name: Seq<char>,
)
    requires
        level <= 5,
    ensures
        ({
            let before = ksm::after_writes(dir, effect.writes);
            let after = ksm::after_writes(dir, effect.applying(level, use_advisor, now).writes);
            let p = profile_of(level);
            &&& after.contains_pair("sleep_millisecs"@, text::decimal(p.sleep_millisecs as nat))
            &&& after.contains_pair("max_page_sharing"@, text::decimal(p.max_page_sharing as nat))
            &&& after.contains_pair("run"@, text::decimal(p.run as nat))
            &&& !use_advisor ==> after.contains_pair(
                "pages_to_scan"@,
                text::decimal(p.pages_to_scan as nat),
            )
            &&& ((use_advisor && name == "pages_to_scan"@) || (name != "sleep_millisecs"@ && name
                != "max_page_sharing"@ && name != "run"@ && name != "pages_to_scan"@)) ==> (
            before.contains_key(name) <==> after.contains_key(name)) && before[name] == after[name]
        }),
{
    let writes = profile_writes(level, use_advisor);
    let before = ksm::after_writes(dir, effect.writes);
    ksm::lemma_distinct_names();
    law_profiles_are_safe(level);
    ksm::lemma_writes_in_turn(dir, effect.writes, writes);
    let n = writes.len() as int;
    assert(writes.take(n) =~= writes);
    assert(writes.take(0) =~= Seq::<ParamWriteView>::empty());
    ksm::lemma_next_write(before, writes, 0);
    ksm::lemma_next_write(before, writes, 1);
    ksm::lemma_next_write(before, writes, 2);
    if n > 3 {
        ksm::lemma_next_write(before, writes, 3);
    }
}

/// Whether the files of a directory hold the numbers of a profile; with the advisor the
/// scan rate may be any.
pub open spec fn shows_profile(
    dir: Map<Seq<char>, Seq<char>>,
    p: KsmProfile,
    use_advisor: bool,
) -> bool {
    &&& dir.contains_pair("sleep_millisecs"@, text::decimal(p.sleep_millisecs as nat))
    &&& dir.contains_pair("max_page_sharing"@, text::decimal(p.max_page_sharing as nat))
    &&& dir.contains_pair("run"@, text::decimal(p.run as nat))
    &&& !use_advisor ==> dir.contains_pair(
        "pages_to_scan"@,
        text::decimal(p.pages_to_scan as nat),
    )
}

proof fn lemma_applied(
    effect: TickEffect,
    level: u8,
    use_advisor: bool,
    now: u64,
    dir: Map<Seq<char>, Seq<char>>,
)
    requires
        level <= 5,
    ensures
        ({
            let after = effect.applying(level, use_advisor, now);
            &&& after.writes.len() > 0
            &&& after.core.current_level == level
            &&& after.state.last_global_action == now
            &&& after.state.last_governor_action == now
            &&& shows_profile(
                ksm::after_writes(dir, after.writes),
                profile_of(level),
                use_advisor,
            )
        }),
{
    law_profile_reaches_the_directory(effect, level, use_advisor, now, dir, ""@);
}

proof fn lemma_levels_stay_in_range(
    core: GovernorCore,
    rules: GovernorRules,
    now: u64,
    psi: PsiReading,
)
    requires
        core.wf(rules.hysteresis_readings),
    ensures
        ({
            let (moved, level) = core.observed(psi).transition(
                rules,
                now,
                level_for(pressure_of(rules, psi)),
            );
            &&& level <= 5
            &&& moved.current_level == core.current_level
            &&& core.current_level <= 5
        }),
{
}

/// Writes and level go together: a tick that writes leaves the directory with the
/// profile of the level that it ends at, and a tick that writes nothing keeps its level.
pub proof fn law_directory_follows_the_level(
    rules: GovernorRules,
    core: GovernorCore,
    st: GovernorState,
    now: u64,
    psi: PsiReading,
    stats: KsmStats,
    dir: Map<Seq<char>, Seq<char>>,
)
    requires
        core.wf(rules.hysteresis_readings),
    ensures
        ({
            let effect = tick_effect(rules, core, st, now, psi, stats);
            &&& effect.core.current_level <= 5
            &&& effect.state.ksm_level == effect.core.current_level
            &&& effect.writes.len() == 0 ==> effect.core.current_level == core.current_level
            &&& effect.writes.len() > 0 ==> {
                &&& shows_profile(
                    ksm::after_writes(dir, effect.writes),
                    profile_of(effect.core.current_level),
                    rules.use_advisor,
                )
                &&& effect.state.last_global_action == now
                &&& effect.state.last_governor_action == now
            }
        }),
{
    let pressure = pressure_of(rules, psi);
    let (moved, level) = core.observed(psi).transition(rules, now, level_for(pressure));
    lemma_levels_stay_in_range(core, rules, now, psi);
    let start = TickEffect { core: moved, state: st, writes: Seq::empty() };
    let middle = start.moving(rules, now, level);
    lemma_applied(start, level, rules.use_advisor, now, dir);
    let last = middle.checking_profit(rules, now, stats);
    if middle.core.current_level > 1 {
        lemma_applied(
            middle,
            (middle.core.current_level - 1) as u8,
            rules.use_advisor,
            now,
            dir,
        );
    }
    let effect = tick_effect(rules, core, st, now, psi, stats);
    assert(effect == last.publishing(now, pressure, stats));
    assert(effect.writes == last.writes);
}

/// Scanning that loses memory after more than ten full scans is turned down by one level
/// once the window has passed, but the lowest running level is kept.
pub proof fn law_losses_lower_the_level(
    rules: GovernorRules,
    core: GovernorCore,
    st: GovernorState,
    now: u64,
    psi: PsiReading,
    stats: KsmStats,
)
    requires
        core.wf(rules.hysteresis_readings),
        core.current_level >= 1,
        level_for(pressure_of(rules, psi)) == core.current_level,
    ensures
        ({
            let effect = tick_effect(rules, core, st, now, psi, stats);
            let lowered = core.current_level >= 2 && stats.general_profit < 0 && stats.full_scans
                > 10 && state::spec_passed(st.last_global_action, now, rules.stabilization_secs);
            effect.core.current_level == core.current_level - (if lowered {
                1int
            } else {
                0int
            })
        }),
{
}

/// Outside the window a rise in pressure takes effect in the same tick, unless losses
/// lower the new level again.
pub proof fn law_pressure_raises_the_level_at_once(
    rules: GovernorRules,
    core: GovernorCore,
    st: GovernorState,
    now: u64,
    psi: PsiReading,
    stats: KsmStats,
)
    requires
        core.wf(rules.hysteresis_readings),
        level_for(pressure_of(rules, psi)) > core.current_level,
        state::spec_passed(st.last_global_action, now, rules.stabilization_secs),
        stats.general_profit >= 0,
    ensures
        tick_effect(rules, core, st, now, psi, stats).core.current_level == level_for(
            pressure_of(rules, psi),
        ),
        tick_effect(rules, core, st, now, psi, stats).writes.len() > 0,
{
}

/// What a tick publishes is what was read.
pub proof fn law_readings_are_published(
    rules: GovernorRules,
    core: GovernorCore,
    st: GovernorState,
    now: u64,
    psi: PsiReading,
    stats: KsmStats,
)
    ensures
        ({
            let effect = tick_effect(rules, core, st, now, psi, stats);
            &&& effect.state.current_pressure == PsiStats::level_of(
                psi.score,
                psi.some_avg10,
                psi.full_avg10,
                rules.some_threshold,
                psi.full_limit,
            )
            &&& effect.state.pages_sharing == stats.pages_sharing
            &&& effect.state.general_profit == stats.general_profit
            &&& effect.state.last_adjustment == now
            &&& effect.state.last_scanner_action == st.last_scanner_action
            &&& effect.state.scanner_enabled == st.scanner_enabled
            &&& effect.core.last_psi == Some(
                PsiSample { some_avg10: psi.some_avg10, full_avg10: psi.full_avg10 },
            )
        }),
{
}

/// Stable ticks are counted: one that moves both averages by less than one half adds to
/// the count, and any other starts it over, except for the first reading.
pub proof fn law_stable_ticks_are_counted(core: GovernorCore, psi: PsiReading)
    requires
        core.stable_psi_ticks < u32::MAX,
    ensures
        ({
            let half = Float32 { bits: 0x3f00_0000 };
            let steady = psi.some_diff.below(half) && psi.full_diff.below(half);
            core.observed(psi).stable_psi_ticks == (if core.last_psi is None {
                core.stable_psi_ticks as int
            } else if steady {
                core.stable_psi_ticks + 1
            } else {
                0
            })
        }),
{
}

/// The rules of a governor are the settings of its configuration.
pub proof fn law_rules_are_the_settings(g: Governor)
    ensures
        g.rules().use_advisor == g.config.use_advisor,
        g.rules().some_threshold == g.config.psi_some_threshold,
        g.rules().hysteresis_readings == g.config.hysteresis_readings,
        g.rules().min_level_duration_secs == g.config.min_level_duration_secs,
        g.rules().stabilization_secs == g.config.stabilization_secs,
{
}

/// A profile is applied in a safe order: scanning that is to end ends before any other
/// file changes, and scanning that is to run begins after every other file has changed.
/// A write that fails does not stop the others.
pub proof fn law_profile_is_applied_in_order(level: u8, use_advisor: bool, i: int)
    requires
        level <= 5,
        0 <= i < profile_writes(level, use_advisor).len(),
    ensures
        !profile_writes(level, use_advisor)[i].required,
        profile_writes(level, use_advisor)[i].param == "run"@ <==> i == (if level == 0 {
            0
        } else {
            profile_writes(level, use_advisor).len() - 1
        }),
{
    ksm::lemma_distinct_names();
}

} // verus!
