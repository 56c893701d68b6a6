//! The life of the daemon, from its start to its end.
//!
//! The caller performs one action after the other and reports how each went.

use vstd::prelude::*;

use crate::config::ZramdedupConfig;

verus! {

/// How often metrics are reported.
pub const METRICS_INTERVAL_SECS: u64 = 60;

/// How long tasks may take to end.
pub const SHUTDOWN_TIMEOUT_SECS: u64 = 5;

/// What a run of the daemon does.
#[derive(Debug, Clone, Copy, PartialEq, Eq, Structural)]
pub struct DaemonPlan {
    /// Whether KSM writes are only logged.
    pub dry_run: bool,
    /// Whether the state of KSM is saved before the tasks start.
    pub snapshot: bool,
    pub governor: bool,
    pub scanner: bool,
    /// Whether the state of KSM is brought back after the tasks ended.
    pub restore: bool,
}

/// The plan of a run: a dry run neither saves nor restores KSM, and tasks run
/// where they are enabled.
pub open spec fn plan_for(governor: bool, scanner: bool, dry_run: bool) -> DaemonPlan {
    DaemonPlan { dry_run, snapshot: !dry_run, governor, scanner, restore: !dry_run }
}

/// What a run of the daemon does.
pub fn run_daemon(config: &ZramdedupConfig, dry_run: bool) -> (r: DaemonPlan)
    ensures
        r == plan_for(config.governor.enabled, config.scanner.enabled, dry_run),
{
    DaemonPlan {
        dry_run,
        snapshot: !dry_run,
        governor: config.governor.enabled,
        scanner: config.scanner.enabled,
        restore: !dry_run,
    }
}

/// One action of a run.
#[derive(Debug, Clone, Copy, PartialEq, Eq, Structural)]
pub enum DaemonAction {
    /// Open the KSM controller.
    OpenKsm,
    /// Save the state of KSM.
    Snapshot,
    /// Open the controller of the governor.
    OpenGovernorKsm,
    StartGovernor,
    StartScanner,
    StartMetrics,
    /// Wait for a signal that asks the daemon to end.
    AwaitSignal,
    /// Tell the tasks to end.
    AnnounceShutdown,
    /// Wait for the tasks to end, up to the time that they have for it.
    AwaitTasks,
    /// Open the KSM controller anew.
    ReopenKsm,
    /// Bring the state of KSM back.
    Restore,
}

impl DaemonAction {
    /// Whether a run ends where the action fails. Tasks that take too long are
    /// left alone, and a state that cannot be brought back is only reported.
    pub open spec fn spec_is_fatal(self) -> bool {
        match self {
            DaemonAction::OpenKsm
            | DaemonAction::Snapshot
            | DaemonAction::OpenGovernorKsm
            | DaemonAction::AwaitSignal
            | DaemonAction::ReopenKsm => true,
            _ => false,
        }
    }

    /// Whether a run ends where the action fails.
    pub fn is_fatal(self) -> (r: bool)
        ensures
            r == self.spec_is_fatal(),
    {
        match self {
            DaemonAction::OpenKsm
            | DaemonAction::Snapshot
            | DaemonAction::OpenGovernorKsm
            | DaemonAction::AwaitSignal
            | DaemonAction::ReopenKsm => true,
            _ => false,
        }
    }

    /// Whether the action starts a task.
    pub open spec fn is_start(self) -> bool {
        self is StartGovernor || self is StartScanner || self is StartMetrics
    }
}

/// The actions before the tasks start.
pub open spec fn opening(plan: DaemonPlan) -> Seq<DaemonAction> {
    if plan.snapshot {
        seq![DaemonAction::OpenKsm, DaemonAction::Snapshot]
    } else {
        seq![DaemonAction::OpenKsm]
    }
}

/// The actions that start the tasks.
pub open spec fn starting(plan: DaemonPlan) -> Seq<DaemonAction> {
    (if plan.governor {
        seq![DaemonAction::OpenGovernorKsm, DaemonAction::StartGovernor]
    } else {
        Seq::empty()
    }) + (if plan.scanner {
        seq![DaemonAction::StartScanner]
    } else {
        Seq::empty()
    }) + seq![DaemonAction::StartMetrics]
}

/// The actions from the signal to the end.
pub open spec fn closing(plan: DaemonPlan) -> Seq<DaemonAction> {
    seq![DaemonAction::AwaitSignal, DaemonAction::AnnounceShutdown, DaemonAction::AwaitTasks] + (
    if plan.restore {
        seq![DaemonAction::ReopenKsm, DaemonAction::Restore]
    } else {
        Seq::empty()
    })
}

/// All actions of a run, in order.
pub open spec fn actions_of(plan: DaemonPlan) -> Seq<DaemonAction> {
    opening(plan) + starting(plan) + closing(plan)
}

/// All actions of a run, in order.
fn daemon_actions(plan: &DaemonPlan) -> (r: Vec<DaemonAction>)
    ensures
        r@ == actions_of(*plan),
{
    let mut actions: Vec<DaemonAction> = vec![DaemonAction::OpenKsm];
    if plan.snapshot {
        actions.push(DaemonAction::Snapshot);
    }
    if plan.governor {
        actions.push(DaemonAction::OpenGovernorKsm);
        actions.push(DaemonAction::StartGovernor);
    }
    if plan.scanner {
        actions.push(DaemonAction::StartScanner);
    }
    actions.push(DaemonAction::StartMetrics);
    actions.push(DaemonAction::AwaitSignal);
    actions.push(DaemonAction::AnnounceShutdown);
    actions.push(DaemonAction::AwaitTasks);
    if plan.restore {
        actions.push(DaemonAction::ReopenKsm);
        actions.push(DaemonAction::Restore);
    }
    assert(actions@ =~= actions_of(*plan));
    actions
}

/// A run of the daemon.
#[derive(Debug)]
pub struct DaemonRun {
    pub plan: DaemonPlan,
    pub actions: Vec<DaemonAction>,
    /// How many actions were performed.
    pub step: usize,
    /// What ended the run early.
    pub failure: Option<String>,
}

/// Starts a run of the daemon.
pub fn run_daemon_with_shutdown(plan: DaemonPlan) -> (r: DaemonRun)
    ensures
        r.wf(),
        r.plan == plan,
        r.step == 0,
        r.failure is None,
{
    let actions = daemon_actions(&plan);
    DaemonRun { plan, actions, step: 0, failure: None }
}

impl DaemonRun {
    pub open spec fn wf(&self) -> bool {
        &&& self.actions@ == actions_of(self.plan)
        &&& self.step <= self.actions@.len()
        &&& self.failure is Some ==> self.step < self.actions@.len()
    }

    /// The action to perform next; none once the run is over.
    pub open spec fn spec_next(&self) -> Option<DaemonAction> {
        if self.failure is Some || self.step >= actions_of(self.plan).len() {
            None
        } else {
            Some(actions_of(self.plan)[self.step as int])
        }
    }

    /// The action to perform next; none once the run is over.
    pub fn next(&self) -> (r: Option<DaemonAction>)
        requires
            self.wf(),
        ensures
            r == self.spec_next(),
    {
        if self.failure.is_some() || self.step >= self.actions.len() {
            None
        } else {
            Some(self.actions[self.step])
        }
    }

    /// Goes on with how the action went.
    pub fn report(&mut self, result: Result<(), String>)
        requires
            old(self).wf(),
            old(self).spec_next() is Some,
        ensures
            final(self).wf(),
            final(self).plan == old(self).plan,
            match result {
                Err(e) if old(self).spec_next()->0.spec_is_fatal() => {
                    &&& final(self).failure == Some(e)
                    &&& final(self).step == old(self).step
                },
                _ => {
                    &&& final(self).failure is None
                    &&& final(self).step == old(self).step + 1
                },
            },
    {
        let fatal: bool = self.actions[self.step].is_fatal();
        match result {
            Err(e) => if fatal {
                self.failure = Some(e);
            } else {
                self.step = self.step + 1;
            },
            Ok(_) => {
                self.step = self.step + 1;
            },
        }
    }

    /// How the run ended.
    pub fn outcome(self) -> (r: Result<(), String>)
        ensures
            match self.failure {
                Some(e) => r == Err::<(), String>(e),
                None => r == Ok::<(), String>(()),
            },
    {
        match self.failure {
            Some(e) => Err(e),
            None => Ok(()),
        }
    }
}

// ---------------------------------------------------------------------------
// Laws
// ---------------------------------------------------------------------------

/// A dry run neither saves nor restores the state of KSM.
pub proof fn law_dry_run_leaves_the_state_alone(governor: bool, scanner: bool, i: int)
    requires
        0 <= i < actions_of(plan_for(governor, scanner, true)).len(),
    ensures
        actions_of(plan_for(governor, scanner, true))[i] != DaemonAction::Snapshot,
        actions_of(plan_for(governor, scanner, true))[i] != DaemonAction::Restore,
{
}

/// The state of KSM is saved before any task starts.
pub proof fn law_state_is_saved_before_any_task(plan: DaemonPlan, i: int, j: int)
    requires
        0 <= i < actions_of(plan).len(),
        0 <= j < actions_of(plan).len(),
        actions_of(plan)[i] == DaemonAction::Snapshot,
        actions_of(plan)[j].is_start(),
    ensures
        i < j,
{
}

/// Outside a dry run, what was saved is restored, and that is the last action.
pub proof fn law_saved_state_is_restored_last(governor: bool, scanner: bool)
    ensures
        actions_of(plan_for(governor, scanner, false)).contains(DaemonAction::Snapshot),
        actions_of(plan_for(governor, scanner, false)).last() == DaemonAction::Restore,
{
    let plan = plan_for(governor, scanner, false);
    assert(actions_of(plan)[1] == DaemonAction::Snapshot);
}

/// The tasks are told to end before the state is restored, and after they all
/// were started.
pub proof fn law_tasks_end_before_the_state_is_restored(plan: DaemonPlan, i: int, j: int)
    requires
        0 <= i < actions_of(plan).len(),
        0 <= j < actions_of(plan).len(),
        actions_of(plan)[i] == DaemonAction::AnnounceShutdown,
    ensures
        actions_of(plan)[j] == DaemonAction::Restore ==> i < j,
        actions_of(plan)[j].is_start() ==> j < i,
{
}

/// No action happens twice.
pub proof fn law_every_action_happens_once(plan: DaemonPlan)
    ensures
        actions_of(plan).no_duplicates(),
{
}

/// A run does what its plan says: each task is started exactly if the plan has it, the
/// metrics always are, and the state is saved and restored exactly if the plan says so.
pub proof fn law_plan_is_carried_out(plan: DaemonPlan)
    ensures
        actions_of(plan)[0] == DaemonAction::OpenKsm,
        actions_of(plan).contains(DaemonAction::Snapshot) <==> plan.snapshot,
        actions_of(plan).contains(DaemonAction::OpenGovernorKsm) <==> plan.governor,
        actions_of(plan).contains(DaemonAction::StartGovernor) <==> plan.governor,
        actions_of(plan).contains(DaemonAction::StartScanner) <==> plan.scanner,
        actions_of(plan).contains(DaemonAction::StartMetrics),
        actions_of(plan).contains(DaemonAction::AwaitSignal),
        actions_of(plan).contains(DaemonAction::AnnounceShutdown),
        actions_of(plan).contains(DaemonAction::AwaitTasks),
        actions_of(plan).contains(DaemonAction::ReopenKsm) <==> plan.restore,
        actions_of(plan).contains(DaemonAction::Restore) <==> plan.restore,
{
    let all = actions_of(plan);
    let n = opening(plan).len() as int;
    let g: int = if plan.governor {
        2
    } else {
        0
    };
    let s: int = if plan.scanner {
        1
    } else {
        0
    };
    if plan.snapshot {
        assert(all[1] == DaemonAction::Snapshot);
    }
    if plan.governor {
        assert(all[n] == DaemonAction::OpenGovernorKsm);
        assert(all[n + 1] == DaemonAction::StartGovernor);
    }
    if plan.scanner {
        assert(all[n + g] == DaemonAction::StartScanner);
    }
    assert(all[n + g + s] == DaemonAction::StartMetrics);
    assert(all[n + g + s + 1] == DaemonAction::AwaitSignal);
    assert(all[n + g + s + 2] == DaemonAction::AnnounceShutdown);
    assert(all[n + g + s + 3] == DaemonAction::AwaitTasks);
    if plan.restore {
        assert(all[n + g + s + 4] == DaemonAction::ReopenKsm);
        assert(all[n + g + s + 5] == DaemonAction::Restore);
    }
}

/// The order of the actions of a full run.
pub proof fn law_full_run_has_its_order()
    ensures
        actions_of(plan_for(true, true, false)) == seq![
            DaemonAction::OpenKsm,
            DaemonAction::Snapshot,
            DaemonAction::OpenGovernorKsm,
            DaemonAction::StartGovernor,
            DaemonAction::StartScanner,
            DaemonAction::StartMetrics,
            DaemonAction::AwaitSignal,
            DaemonAction::AnnounceShutdown,
            DaemonAction::AwaitTasks,
            DaemonAction::ReopenKsm,
            DaemonAction::Restore,
        ],
{
    assert(actions_of(plan_for(true, true, false)) =~= seq![
        DaemonAction::OpenKsm,
        DaemonAction::Snapshot,
        DaemonAction::OpenGovernorKsm,
        DaemonAction::StartGovernor,
        DaemonAction::StartScanner,
        DaemonAction::StartMetrics,
        DaemonAction::AwaitSignal,
        DaemonAction::AnnounceShutdown,
        DaemonAction::AwaitTasks,
        DaemonAction::ReopenKsm,
        DaemonAction::Restore,
    ]);
}

/// A plan follows the settings: the tasks are those that are enabled, and the state is
/// saved and restored unless it is a dry run.
pub proof fn law_plan_follows_the_settings(governor: bool, scanner: bool, dry_run: bool)
    ensures
        plan_for(governor, scanner, dry_run).governor == governor,
        plan_for(governor, scanner, dry_run).scanner == scanner,
        plan_for(governor, scanner, dry_run).dry_run == dry_run,
        plan_for(governor, scanner, dry_run).snapshot <==> !dry_run,
        plan_for(governor, scanner, dry_run).restore <==> !dry_run,
{
}

/// Which failures end a run: those of opening KSM, of saving its state and of waiting for
/// the signal. That a task cannot be started, told to end, awaited, or that the state
/// cannot be restored, does not.
pub proof fn law_fatal_failures(action: DaemonAction)
    ensures
        action is OpenKsm || action is OpenGovernorKsm || action is ReopenKsm || action is Snapshot
            || action is AwaitSignal ==> action.spec_is_fatal(),
        action.is_start() || action is AnnounceShutdown || action is AwaitTasks || action is Restore
            ==> !action.spec_is_fatal(),
{
}

} // verus!
