//! What is recorded of the pulling of a host.

use crate::collector::pull::{
    accounted, classified, connected, finished_run, phase_action, pull_ended, started,
    with_issues, CollectorRunStateModel, PullActionModel, PullPhase, PullStep, RemotePathKind,
};
use crate::config::types::CollectorHostModel;
use crate::text::trimmed;
use vstd::prelude::*;

verus! {

/// The path that is asked for next, where one is to be pulled.
pub open spec fn asked_for(action: PullActionModel) -> Option<Seq<char>> {
    match action {
        PullActionModel::PullTar(p) => Some(p),
        PullActionModel::PullFile(p) => Some(p),
        _ => None,
    }
}

/// When a path that was asked for has arrived, it is the next of the pulled ones and counts as a
/// success; when it has not, it counts as a failure, and the record says on which host and why. No
/// other path is touched.
pub proof fn results_are_recorded_for_their_path(
    s: PullStep,
    failure: Option<Seq<char>>,
    now: Seq<char>,
)
    requires
        accounted(s.pull),
        asked_for(phase_action(s.pull)) is Some,
        s.pull.targets.len() < usize::MAX,
        s.pull.symlinks.len() <= usize::MAX,
        s.pull.dirs.len() <= usize::MAX,
        s.pull.files.len() <= usize::MAX,
        s.run.succeeded_files < usize::MAX,
        s.run.failed_files < usize::MAX,
    ensures
        ({
            let path = asked_for(phase_action(s.pull))->0;
            let r = pull_ended(s, failure, now);
            &&& r.pull.targets == s.pull.targets
            &&& r.pull.files == s.pull.files
            &&& r.pull.dirs == s.pull.dirs
            &&& r.pull.symlinks == s.pull.symlinks
            &&& r.pull.phase != s.pull.phase
            &&& failure is None ==> {
                &&& r.pull.pulled == s.pull.pulled.push(path)
                &&& r.pull.failures == s.pull.failures
                &&& r.run.succeeded_files == s.run.succeeded_files + 1
                &&& r.run.failed_files == s.run.failed_files
                &&& r.run.errors == s.run.errors
            }
            &&& failure is Some ==> {
                &&& r.pull.pulled == s.pull.pulled
                &&& r.pull.failures == s.pull.failures + 1
                &&& r.run.succeeded_files == s.run.succeeded_files
                &&& r.run.failed_files == s.run.failed_files + 1
                &&& r.run.errors.len() == s.run.errors.len() + 1
                &&& r.run.errors.drop_last() == s.run.errors
                &&& r.run.errors.last().host == s.pull.label
                &&& r.run.errors.last().path == path
                &&& failure->0.is_suffix_of(r.run.errors.last().message)
            }
        }),
{
    let r = pull_ended(s, failure, now);
    if failure is Some {
        let err = failure->0;
        let message = r.run.errors.last().message;
        assert(r.run.errors.drop_last() =~= s.run.errors);
        assert(message.subrange(message.len() - err.len(), message.len() as int) =~= err);
    }
}

/// A path that was classified is from then on among those of its kind, and among those only; a path
/// that could not be is a failure.
pub proof fn classified_paths_are_of_their_kind(
    s: PullStep,
    i: usize,
    kind: Result<RemotePathKind, Seq<char>>,
    now: Seq<char>,
)
    requires
        accounted(s.pull),
        s.pull.phase == PullPhase::Classifying(i),
        s.pull.targets.len() < usize::MAX,
        s.run.failed_files < usize::MAX,
    ensures
        ({
            let path = s.pull.targets[i as int];
            let r = classified(s, i as int, kind, now);
            &&& phase_action(s.pull) == PullActionModel::Classify(path)
            &&& r.pull.targets == s.pull.targets
            &&& r.pull.pulled == s.pull.pulled
            &&& r.pull.files == (if kind == Ok::<RemotePathKind, Seq<char>>(RemotePathKind::File) {
                s.pull.files.push(path)
            } else {
                s.pull.files
            })
            &&& r.pull.dirs == (if kind == Ok::<RemotePathKind, Seq<char>>(RemotePathKind::Dir) {
                s.pull.dirs.push(path)
            } else {
                s.pull.dirs
            })
            &&& r.pull.symlinks == (if kind == Ok::<RemotePathKind, Seq<char>>(
                RemotePathKind::SymlinkFile,
            ) {
                s.pull.symlinks.push(path)
            } else {
                s.pull.symlinks
            })
            &&& kind is Err ==> {
                &&& r.pull.failures == s.pull.failures + 1
                &&& r.run.failed_files == s.run.failed_files + 1
                &&& r.run.errors.last().host == s.pull.label
                &&& r.run.errors.last().path == path
                &&& r.run.errors.last().message == kind->Err_0
            }
            &&& kind is Ok ==> {
                &&& r.pull.failures == s.pull.failures
                &&& r.run.errors == s.run.errors
            }
        }),
{
}

proof fn lemma_issue_of_each(
    run: CollectorRunStateModel,
    kind: Seq<char>,
    host: Seq<char>,
    paths: Seq<Seq<char>>,
    message: Seq<char>,
)
    ensures
        ({
            let r = with_issues(run, kind, host, paths, message);
            let n = run.errors.len();
            &&& r.errors.len() == n + paths.len()
            &&& r.failed_files == run.failed_files
            &&& r.succeeded_files == run.succeeded_files
            &&& forall|k: int| 0 <= k < n ==> #[trigger] r.errors[k] == run.errors[k]
            &&& forall|k: int|
                n <= k < n + paths.len() ==> (#[trigger] r.errors[k]).host == host
                    && r.errors[k].path == paths[k - n] && r.errors[k].message == message
        }),
    decreases paths.len(),
{
    if paths.len() > 0 {
        lemma_issue_of_each(run, kind, host, paths.drop_last(), message);
    }
}

/// A host that cannot be reached is finished at once: each of its paths is a failure, with a record
/// of its own that says why.
pub proof fn hosts_that_cannot_be_reached_fail_every_path(
    s: PullStep,
    err: Seq<char>,
    now: Seq<char>,
)
    requires
        accounted(s.pull),
        s.pull.phase == PullPhase::Connecting,
        s.pull.targets.len() + s.run.failed_files <= usize::MAX,
    ensures
        ({
            let r = connected(s, Some(err), now);
            let n = s.run.errors.len();
            let count = s.pull.targets.len();
            &&& r.pull.phase == PullPhase::Finished
            &&& r.pull.failures == count
            &&& r.pull.pulled.len() == 0
            &&& r.run.failed_files == s.run.failed_files + count
            &&& r.run.succeeded_files == s.run.succeeded_files
            &&& r.run.errors.len() == n + count
            &&& forall|k: int|
                0 <= k < count ==> (#[trigger] r.run.errors[n + k]).host == s.pull.label
                    && r.run.errors[n + k].path == s.pull.targets[k] && err.is_suffix_of(
                    r.run.errors[n + k].message,
                )
        }),
{
    let r = connected(s, Some(err), now);
    let message = "host connection failed: "@ + err;
    assert(message.subrange(message.len() - err.len(), message.len() as int) =~= err);
    let noted = crate::collector::pull::logged(
        s.run,
        now,
        crate::collector::pull::host_line(s.pull.label, message),
    );
    lemma_issue_of_each(noted, "host_failed"@, s.pull.label, s.pull.targets, message);
}

/// A host without an address or without a local root is finished before anything is asked of it;
/// any other is connected to.
pub proof fn hosts_are_set_up_before_they_are_reached(
    h: CollectorHostModel,
    run: CollectorRunStateModel,
    now: Seq<char>,
)
    ensures
        ({
            let r = started(h, run, now);
            &&& (r.pull.phase == PullPhase::Finished) == (trimmed(h.hostname).len() == 0
                || h.root.len() == 0)
            &&& r.pull.phase == PullPhase::Finished || phase_action(r.pull) is Connect
            &&& r.pull.pulled.len() == 0
            &&& trimmed(h.name).len() > 0 ==> r.pull.label == h.name
            &&& trimmed(h.name).len() == 0 ==> r.pull.label == h.hostname
        }),
{
}

/// A run that has ended is not running, says how it ended and when, and how long it took where that
/// is known; its counts stay.
pub proof fn ended_runs_say_how_they_ended(
    s: CollectorRunStateModel,
    ok: bool,
    now_text: Seq<char>,
    now_ms: i64,
)
    ensures
        ({
            let r = finished_run(s, ok, now_text, now_ms);
            &&& !r.running
            &&& r.ok == Some(ok)
            &&& r.finished_at == Some(now_text)
            &&& r.current_file is None
            &&& r.total_files == s.total_files
            &&& r.succeeded_files == s.succeeded_files
            &&& r.failed_files == s.failed_files
            &&& r.errors == s.errors
            &&& s.started_epoch_ms is None ==> r.duration_ms is None
            &&& s.started_epoch_ms is Some && s.started_epoch_ms->0 <= now_ms && now_ms
                - s.started_epoch_ms->0 <= i64::MAX ==> r.duration_ms is Some
                && r.duration_ms->0 == now_ms - s.started_epoch_ms->0
        }),
{
}

} // verus!
