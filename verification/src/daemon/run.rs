//! The loop of the daemon, step by step.

use crate::clock::Moment;
use crate::config::types::AppConfig;
use crate::daemon::watch::{config_signature, signature_of};
use crate::state::cycles::fits;
use crate::state::targets::{
    advanced_by_schedules, advancing_stopped, prepared, preparing_stopped, sources_ensured,
};
use crate::state::tasks::{aborting, running};
use crate::state::types::{Cycle, State, StateError, StateModel};
use crate::seqs::changed_where;
use crate::text::{same, views};
use vstd::prelude::*;

verus! {

/// How long the loop rests when nothing wakes it, in milliseconds.
pub const HEARTBEAT_MS: u64 = 5000;

/// How long the loop waits for the watcher to report that it is running, in milliseconds.
pub const ARM_LIMIT_MS: u64 = 900000;

/// What is to be done next.
#[derive(Debug, Clone, Copy, PartialEq, Eq, Structural)]
pub enum Step {
    /// The watcher is started, and the loop waits until it runs.
    StartWatcher,
    /// Notices are raised for the time before the start.
    RaiseNotices,
    /// The configuration is read again.
    Reload,
    /// The watcher is stopped and started with the new configuration.
    RestartWatcher,
    /// It is recorded that events may be missing.
    RecordGaps,
    /// Destinations that are due get their targets.
    Advance,
    /// What is pending is synchronised.
    Sync,
    /// Pools are woken and parked.
    TendPools,
    /// The state of destinations is logged.
    Log,
    /// The loop rests.
    Rest,
    /// The watcher is stopped, and the loop ends.
    Stop,
}

/// The loop of the daemon.
#[derive(Debug)]
pub struct Scheduler {
    pub cfg: AppConfig,
    /// What the running watcher was started for.
    pub signature: String,
    /// When the state of destinations was logged last, in milliseconds; never at first.
    pub logged_at: Option<u64>,
    pub step: Step,
}

/// Whether the state of destinations is to be logged again.
pub open spec fn log_is_due(logged_at: Option<u64>, now: u64, interval_secs: u64) -> bool {
    match logged_at {
        Some(at) => now - at >= interval_secs * 1000,
        None => true,
    }
}

/// The step after one that needs no answer.
pub open spec fn next_step(step: Step, has_pools: bool, log_due: bool, shutdown: bool) -> Step {
    match step {
        Step::StartWatcher => Step::RaiseNotices,
        Step::RaiseNotices => if shutdown {
            Step::Stop
        } else {
            Step::Reload
        },
        Step::Reload => Step::Advance,
        Step::RestartWatcher => Step::RecordGaps,
        Step::RecordGaps => Step::Advance,
        Step::Advance => Step::Sync,
        Step::Sync => if has_pools {
            Step::TendPools
        } else if log_due {
            Step::Log
        } else {
            Step::Rest
        },
        Step::TendPools => if log_due {
            Step::Log
        } else {
            Step::Rest
        },
        Step::Log => Step::Rest,
        Step::Rest => if shutdown {
            Step::Stop
        } else {
            Step::Reload
        },
        Step::Stop => Step::Stop,
    }
}

impl Scheduler {
    /// Begins the loop: every destination has a row and every source an open cycle, and tasks that
    /// the last run left behind are given up. Gives the loop and the number of these tasks.
    pub fn start(cfg: AppConfig, state: &mut State, at: Moment, now: &str) -> (r: Result<
        (Scheduler, usize),
        StateError,
    >)
        ensures
            r is Ok == fits(prepared(old(state)@, cfg@, at, now@)),
            r is Err ==> preparing_stopped(old(state)@, cfg@, at, now@, final(state)@),
            r is Ok ==> r->Ok_0.0.cfg == cfg && r->Ok_0.0.signature@ == signature_of(cfg@)
                && r->Ok_0.0.logged_at is None && r->Ok_0.0.step == Step::StartWatcher,
            r is Ok ==> ({
                let ready = prepared(old(state)@, cfg@, at, now@);
                &&& r->Ok_0.1 == ready.tasks.filter(running()).len()
                &&& final(state)@ == (StateModel {
                    tasks: changed_where(ready.tasks, running(), aborting(now@)),
                    ..ready
                })
            }),
    {
        state.ensure_config(&cfg, now);
        match state.ensure_open_cycles(&cfg, at) {
            Ok(_) => {},
            Err(e) => {
                return Err(e);
            },
        }
        let aborted: usize = state.abort_stale_running_tasks(now);
        let signature = config_signature(&cfg);
        Ok((Scheduler { cfg, signature, logged_at: None, step: Step::StartWatcher }, aborted))
    }

    /// Takes the configuration that was read again, or nothing where it could not be read: the
    /// previous one is kept then. The watcher is restarted if what it depends on has changed.
    pub fn on_reload(&mut self, read: Option<AppConfig>)
        ensures
            final(self).logged_at == old(self).logged_at,
            match read {
                Some(cfg) => final(self).cfg == cfg && (if signature_of(cfg@) == old(
                    self,
                ).signature@ {
                    final(self).step == Step::Advance && final(self).signature == old(
                        self,
                    ).signature
                } else {
                    final(self).step == Step::RestartWatcher && final(self).signature@
                        == signature_of(cfg@)
                }),
                None => final(self).cfg == old(self).cfg && final(self).signature == old(
                    self,
                ).signature && final(self).step == Step::Advance,
            },
    {
        match read {
            Some(cfg) => {
                let signature = config_signature(&cfg);
                if same(signature.as_str(), self.signature.as_str()) {
                    self.step = Step::Advance;
                } else {
                    self.signature = signature;
                    self.step = Step::RestartWatcher;
                }
                self.cfg = cfg;
            },
            None => {
                self.step = Step::Advance;
            },
        }
    }

    /// Takes that a step is done.
    pub fn on_done(&mut self, now: u64, shutdown: bool)
        ensures
            final(self).cfg == old(self).cfg,
            final(self).signature == old(self).signature,
            final(self).step == next_step(
                old(self).step,
                old(self).cfg@.standby_pools.len() > 0,
                log_is_due(old(self).logged_at, now, old(self).cfg@.app.status_log_interval_secs),
                shutdown,
            ),
            final(self).logged_at == (if old(self).step == Step::Log {
                Some(now)
            } else {
                old(self).logged_at
            }),
    {
        let has_pools = self.cfg.standby_pools.len() > 0;
        let log_due = match self.logged_at {
            Some(at) => (now as i128) - (at as i128) >= (
            self.cfg.app.status_log_interval_secs as i128) * 1000,
            None => true,
        };
        if self.step == Step::Log {
            self.logged_at = Some(now);
        }
        self.step = match self.step {
            Step::StartWatcher => Step::RaiseNotices,
            Step::RaiseNotices => {
                if shutdown {
                    Step::Stop
                } else {
                    Step::Reload
                }
            },
            Step::Reload => Step::Advance,
            Step::RestartWatcher => Step::RecordGaps,
            Step::RecordGaps => Step::Advance,
            Step::Advance => Step::Sync,
            Step::Sync => {
                if has_pools {
                    Step::TendPools
                } else if log_due {
                    Step::Log
                } else {
                    Step::Rest
                }
            },
            Step::TendPools => {
                if log_due {
                    Step::Log
                } else {
                    Step::Rest
                }
            },
            Step::Log => Step::Rest,
            Step::Rest => {
                if shutdown {
                    Step::Stop
                } else {
                    Step::Reload
                }
            },
            Step::Stop => Step::Stop,
        };
    }

    /// Brings the state in line with the configuration and gives destinations that are due their
    /// targets; gives the cycles that were closed.
    pub fn advance(&self, state: &mut State, at: Moment, now: &str) -> (r: Result<
        Vec<Cycle>,
        StateError,
    >)
        ensures
            ({
                let ensured = sources_ensured(old(state)@, self.cfg@.source_groups, now@);
                let ready = prepared(ensured, self.cfg@, at, now@);
                &&& r is Ok ==> fits(ready)
                &&& r is Err ==> preparing_stopped(ensured, self.cfg@, at, now@, final(state)@) || (
                fits(ready) && advancing_stopped(
                    ready,
                    self.cfg@.source_groups,
                    at,
                    now@,
                    final(state)@,
                ))
                &&& r is Ok ==> advanced_by_schedules(
                    ready,
                    self.cfg@.source_groups,
                    at,
                    now@,
                    final(state)@,
                    views(r->Ok_0@),
                )
            }),
    {
        state.ensure_config(&self.cfg, now);
        state.advance_due_destination_targets(&self.cfg, at, now)
    }
}

/// What comes of waiting for the watcher to run.
#[derive(Debug, Clone, Copy, PartialEq, Eq, Structural)]
pub enum ArmVerdict {
    /// It is waited for again.
    Wait,
    /// It runs, or the daemon is to stop.
    GoOn,
    /// It took too long; the loop goes on without knowing.
    GiveUp,
}

/// What comes of waiting for the watcher to run, after so many milliseconds.
pub fn wait_for_watcher_armed(waited_ms: u64, armed: bool, shutdown: bool) -> (r: ArmVerdict)
    ensures
        r == (if shutdown || armed {
            ArmVerdict::GoOn
        } else if waited_ms >= ARM_LIMIT_MS {
            ArmVerdict::GiveUp
        } else {
            ArmVerdict::Wait
        }),
{
    if shutdown || armed {
        ArmVerdict::GoOn
    } else if waited_ms >= ARM_LIMIT_MS {
        ArmVerdict::GiveUp
    } else {
        ArmVerdict::Wait
    }
}

/// Once the daemon is to stop, the loop ends after the step that it is in and those that follow in
/// the same round: so many steps at most, and no configuration is read again.
pub proof fn shutdown_ends_the_loop(step: Step, has_pools: bool, log_due: bool)
    ensures
        ({
            let a = next_step(step, has_pools, log_due, true);
            let b = next_step(a, has_pools, log_due, true);
            let c = next_step(b, has_pools, log_due, true);
            let d = next_step(c, has_pools, log_due, true);
            let e = next_step(d, has_pools, log_due, true);
            let f = next_step(e, has_pools, log_due, true);
            let g = next_step(f, has_pools, log_due, true);
            let h = next_step(g, has_pools, log_due, true);
            &&& h == Step::Stop
            &&& a != Step::Reload && b != Step::Reload && c != Step::Reload && d != Step::Reload
            &&& e != Step::Reload && f != Step::Reload && g != Step::Reload
        }),
{
}

/// Every round gives destinations their targets before anything is synchronised, tends the pools
/// behind that where there are any, and logs where so many seconds have passed since the last time.
/// A watcher is never restarted without a record of what it may have missed.
pub proof fn every_round_goes_through_its_steps(
    pools: bool,
    logged_at: Option<u64>,
    now: u64,
    interval_secs: u64,
    shutdown: bool,
)
    ensures
        ({
            let due = log_is_due(logged_at, now, interval_secs);
            let first = next_step(Step::Reload, pools, due, shutdown);
            let second = next_step(first, pools, due, shutdown);
            let third = next_step(second, pools, due, shutdown);
            let fourth = next_step(third, pools, due, shutdown);
            let last = if due {
                Step::Log
            } else {
                Step::Rest
            };
            &&& first == Step::Advance
            &&& second == Step::Sync
            &&& pools ==> third == Step::TendPools && fourth == last
            &&& !pools ==> third == last
            &&& next_step(Step::Log, pools, due, shutdown) == Step::Rest
            &&& next_step(Step::RestartWatcher, pools, due, shutdown) == Step::RecordGaps
            &&& next_step(Step::RecordGaps, pools, due, shutdown) == Step::Advance
            &&& next_step(Step::StartWatcher, pools, due, shutdown) == Step::RaiseNotices
            &&& next_step(Step::Rest, pools, due, false) == Step::Reload
            &&& logged_at is None ==> due
            &&& logged_at is Some && logged_at->0 + 1000 * interval_secs <= now ==> due
            &&& logged_at is Some && now < logged_at->0 + 1000 * interval_secs ==> !due
        }),
{
}

} // verus!
