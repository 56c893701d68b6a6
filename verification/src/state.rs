//! State shared between the governor, the scanner and the metrics task.
//!
//! Points in time are milliseconds of a clock that never runs backwards.

use vstd::prelude::*;

use crate::psi::PressureLevel;

verus! {

/// Shared state between governor and scanner tasks.
#[derive(Debug, Clone, Copy)]
pub struct GovernorState {
    pub current_pressure: PressureLevel,
    pub ksm_level: u8,
    pub pages_sharing: u64,
    pub general_profit: i64,
    pub last_adjustment: u64,
    /// Time of the last actuation by any tier (KSM parameter write or madvise
    /// burst).
    pub last_global_action: u64,
    /// Time of the last KSM profile change.
    pub last_governor_action: u64,
    /// Time of the last madvise burst.
    pub last_scanner_action: u64,
    pub scanner_enabled: bool,
}

impl GovernorState {
    pub open spec fn spec_new(now: u64) -> GovernorState {
        GovernorState {
            current_pressure: PressureLevel::Idle,
            ksm_level: 0,
            pages_sharing: 0,
            general_profit: 0,
            last_adjustment: now,
            last_global_action: now,
            last_governor_action: now,
            last_scanner_action: now,
            scanner_enabled: false,
        }
    }

    /// The state at the start, with all timestamps set to `now`.
    pub fn new(now: u64) -> (r: Self)
        ensures
            r == Self::spec_new(now),
    {
        GovernorState {
            current_pressure: PressureLevel::Idle,
            ksm_level: 0,
            pages_sharing: 0,
            general_profit: 0,
            last_adjustment: now,
            last_global_action: now,
            last_governor_action: now,
            last_scanner_action: now,
            scanner_enabled: false,
        }
    }
}

/// How many milliseconds passed from `then` to `now`; zero if `then` is later.
pub open spec fn spec_elapsed(then: u64, now: u64) -> u64 {
    if now >= then {
        (now - then) as u64
    } else {
        0
    }
}

pub fn elapsed(then: u64, now: u64) -> (r: u64)
    ensures
        r == spec_elapsed(then, now),
{
    if now >= then {
        now - then
    } else {
        0
    }
}

/// Whether at least `secs` seconds passed from `then` to `now`.
pub open spec fn spec_passed(then: u64, now: u64, secs: u64) -> bool {
    spec_elapsed(then, now) >= secs * 1000
}

pub fn passed(then: u64, now: u64, secs: u64) -> (r: bool)
    ensures
        r == spec_passed(then, now, secs),
{
    elapsed(then, now) as u128 >= secs as u128 * 1000
}

/// Time is counted in milliseconds and windows in seconds: a window of `secs` seconds has
/// passed exactly if the clock is at least that many thousand milliseconds ahead.
pub proof fn law_windows_are_in_seconds(then: u64, now: u64, secs: u64)
    ensures
        spec_passed(then, now, secs) <==> secs == 0 || then + 1000 * secs <= now,
{
}

/// Once a window has passed it stays so, and a longer one passes no sooner.
pub proof fn law_windows_pass_for_good(then: u64, now: u64, later: u64, secs: u64, more: u64)
    requires
        now <= later,
        secs <= more,
        spec_passed(then, now, more),
    ensures
        spec_passed(then, later, secs),
{
}

/// A new state is idle, at level zero and without the scanner, and every window begins
/// at its time.
pub proof fn law_new_state_is_idle(now: u64, secs: u64)
    ensures
        ({
            let s = GovernorState::spec_new(now);
            &&& s.current_pressure is Idle
            &&& s.ksm_level == 0
            &&& s.pages_sharing == 0
            &&& s.general_profit == 0
            &&& !s.scanner_enabled
            &&& s.last_adjustment == now
            &&& s.last_global_action == now
            &&& s.last_governor_action == now
            &&& s.last_scanner_action == now
            &&& secs > 0 ==> !spec_passed(s.last_global_action, now, secs)
        }),
{
}

/// Between two times lies their difference, and none where the clock went back.
pub proof fn law_elapsed_time(then: u64, now: u64, ms: u64)
    ensures
        then + ms == now ==> spec_elapsed(then, now) == ms,
        now <= then ==> spec_elapsed(then, now) == 0,
{
}

} // verus!
