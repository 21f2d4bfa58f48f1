//! Running a collection: what is pulled from a host, in which order, and what is recorded of it.
//!
//! The commands that reach the host are run elsewhere. The run of one host is a state machine: it
//! hands out the next action and is told how the action ended.

use crate::collector::remote::{
    conn_of, dest_of, excluded, filled, is_excluded, normalize_excludes, tidy_exclude,
    tidy_excludes, within, SshConn,
};
use crate::config::types::{
    clone_opt_string, clone_strings, CollectorConfig, CollectorConfigModel, CollectorHost,
    CollectorHostModel,
};
use crate::text::{
    decimal, decimal_text, is_blank, opt_view, same, trim, trim_end_matches, trimmed, views,
    without_trailing,
};
use vstd::prelude::*;

verus! {

/// One failure of a run.
#[derive(Debug)]
pub struct CollectorRunIssue {
    /// What kind of thing failed.
    pub kind: String,
    pub host: String,
    pub path: String,
    pub message: String,
}

/// The model of a `CollectorRunIssue`.
pub struct CollectorRunIssueModel {
    pub kind: Seq<char>,
    pub host: Seq<char>,
    pub path: Seq<char>,
    pub message: Seq<char>,
}

impl View for CollectorRunIssue {
    type V = CollectorRunIssueModel;

    open spec fn view(&self) -> CollectorRunIssueModel {
        CollectorRunIssueModel {
            kind: self.kind@,
            host: self.host@,
            path: self.path@,
            message: self.message@,
        }
    }
}

impl Clone for CollectorRunIssue {
    fn clone(&self) -> (r: CollectorRunIssue)
        ensures
            r@ == self@,
    {
        CollectorRunIssue {
            kind: self.kind.clone(),
            host: self.host.clone(),
            path: self.path.clone(),
            message: self.message.clone(),
        }
    }
}

/// A run as it stands.
#[derive(Debug)]
pub struct CollectorRunState {
    pub running: bool,
    pub started_at: Option<String>,
    pub started_epoch_ms: Option<i64>,
    pub finished_at: Option<String>,
    pub duration_ms: Option<u64>,
    /// None while the run goes on.
    pub ok: Option<bool>,
    pub current_file: Option<String>,
    pub total_files: usize,
    pub succeeded_files: usize,
    pub failed_files: usize,
    pub errors: Vec<CollectorRunIssue>,
    pub log: Vec<String>,
}

/// The model of a `CollectorRunState`.
pub struct CollectorRunStateModel {
    pub running: bool,
    pub started_at: Option<Seq<char>>,
    pub started_epoch_ms: Option<i64>,
    pub finished_at: Option<Seq<char>>,
    pub duration_ms: Option<u64>,
    pub ok: Option<bool>,
    pub current_file: Option<Seq<char>>,
    pub total_files: usize,
    pub succeeded_files: usize,
    pub failed_files: usize,
    pub errors: Seq<CollectorRunIssueModel>,
    pub log: Seq<Seq<char>>,
}

impl View for CollectorRunState {
    type V = CollectorRunStateModel;

    open spec fn view(&self) -> CollectorRunStateModel {
        CollectorRunStateModel {
            running: self.running,
            started_at: opt_view(self.started_at),
            started_epoch_ms: self.started_epoch_ms,
            finished_at: opt_view(self.finished_at),
            duration_ms: self.duration_ms,
            ok: self.ok,
            current_file: opt_view(self.current_file),
            total_files: self.total_files,
            succeeded_files: self.succeeded_files,
            failed_files: self.failed_files,
            errors: views(self.errors@),
            log: views(self.log@),
        }
    }
}

impl Clone for CollectorRunState {
    fn clone(&self) -> (r: CollectorRunState)
        ensures
            r@ == self@,
    {
        CollectorRunState {
            running: self.running,
            started_at: clone_opt_string(&self.started_at),
            started_epoch_ms: self.started_epoch_ms,
            finished_at: clone_opt_string(&self.finished_at),
            duration_ms: self.duration_ms,
            ok: self.ok,
            current_file: clone_opt_string(&self.current_file),
            total_files: self.total_files,
            succeeded_files: self.succeeded_files,
            failed_files: self.failed_files,
            errors: clone_collector_run_issues(&self.errors),
            log: clone_strings(&self.log),
        }
    }
}

/// A copy of a list.
pub fn clone_collector_run_issues(v: &Vec<CollectorRunIssue>) -> (r: Vec<CollectorRunIssue>)
    ensures
        views(r@) == views(v@),
{
    let mut r: Vec<CollectorRunIssue> = Vec::new();
    for i in 0..v.len()
        invariant
            r.len() == i,
            forall|j: int| 0 <= j < i ==> (#[trigger] r@[j])@ == v@[j]@,
    {
        let item = v[i].clone();
        r.push(item);
    }
    proof {
        assert(views(r@) =~= views(v@));
    }
    r
}


/// A run state with nothing recorded.
pub open spec fn idle_run() -> CollectorRunStateModel {
    CollectorRunStateModel {
        running: false,
        started_at: None,
        started_epoch_ms: None,
        finished_at: None,
        duration_ms: None,
        ok: None,
        current_file: None,
        total_files: 0,
        succeeded_files: 0,
        failed_files: 0,
        errors: Seq::empty(),
        log: Seq::empty(),
    }
}

impl Default for CollectorRunState {
    fn default() -> (r: CollectorRunState)
        ensures
            r@ == idle_run(),
    {
        let r = CollectorRunState {
            running: false,
            started_at: None,
            started_epoch_ms: None,
            finished_at: None,
            duration_ms: None,
            ok: None,
            current_file: None,
            total_files: 0,
            succeeded_files: 0,
            failed_files: 0,
            errors: Vec::new(),
            log: Vec::new(),
        };
        proof {
            assert(views(r.errors@) =~= Seq::<CollectorRunIssueModel>::empty());
            assert(views(r.log@) =~= Seq::<Seq<char>>::empty());
        }
        r
    }
}

/// The sum, or the largest number where it would be larger.
pub open spec fn capped_sum(a: usize, b: usize) -> usize {
    if a + b > usize::MAX {
        usize::MAX
    } else {
        (a + b) as usize
    }
}

/// The sum, or the largest number where it would be larger.
fn add_capped(a: usize, b: usize) -> (r: usize)
    ensures
        r == capped_sum(a, b),
{
    if b > usize::MAX - a {
        usize::MAX
    } else {
        a + b
    }
}

/// The run after a line was logged at the time `now`.
pub open spec fn logged(s: CollectorRunStateModel, now: Seq<char>, msg: Seq<char>) ->
    CollectorRunStateModel {
    CollectorRunStateModel { log: s.log.push(now + " "@ + msg), ..s }
}

/// The run after another file became the current one.
pub open spec fn at_file(s: CollectorRunStateModel, path: Option<Seq<char>>) ->
    CollectorRunStateModel {
    CollectorRunStateModel { current_file: path, ..s }
}

/// The run after `count` files failed.
pub open spec fn with_failed(s: CollectorRunStateModel, count: usize) -> CollectorRunStateModel {
    CollectorRunStateModel { failed_files: capped_sum(s.failed_files, count), ..s }
}

/// The run after one file succeeded.
pub open spec fn with_ok(s: CollectorRunStateModel) -> CollectorRunStateModel {
    CollectorRunStateModel { succeeded_files: capped_sum(s.succeeded_files, 1), ..s }
}

/// The run after a failure was recorded.
pub open spec fn with_issue(
    s: CollectorRunStateModel,
    kind: Seq<char>,
    host: Seq<char>,
    path: Seq<char>,
    message: Seq<char>,
) -> CollectorRunStateModel {
    CollectorRunStateModel {
        errors: s.errors.push(CollectorRunIssueModel { kind, host, path, message }),
        ..s
    }
}

/// The run after the same failure was recorded for each path.
pub open spec fn with_issues(
    s: CollectorRunStateModel,
    kind: Seq<char>,
    host: Seq<char>,
    paths: Seq<Seq<char>>,
    message: Seq<char>,
) -> CollectorRunStateModel
    decreases paths.len(),
{
    if paths.len() == 0 {
        s
    } else {
        with_issue(
            with_issues(s, kind, host, paths.drop_last(), message),
            kind,
            host,
            paths.last(),
            message,
        )
    }
}

/// The run after its end at `now_ms`: how long it took is known where its start is.
pub open spec fn finished_run(
    s: CollectorRunStateModel,
    ok: bool,
    now_text: Seq<char>,
    now_ms: i64,
) -> CollectorRunStateModel {
    CollectorRunStateModel {
        running: false,
        ok: Some(ok),
        current_file: None,
        finished_at: Some(now_text),
        duration_ms: match s.started_epoch_ms {
            Some(started) => Some(
                if now_ms <= started {
                    0u64
                } else if now_ms - started > i64::MAX {
                    i64::MAX as u64
                } else {
                    (now_ms - started) as u64
                },
            ),
            None => None,
        },
        ..s
    }
}

impl CollectorRunState {
    /// Logs a line at the time `now`.
    pub fn log(&mut self, now: &str, msg: &str)
        ensures
            final(self)@ == logged(old(self)@, now@, msg@),
    {
        let mut line = now.to_string();
        line.append(" ");
        line.append(msg);
        let ghost lv = line@;
        self.log.push(line);
        proof {
            assert(views(self.log@) =~= old(self)@.log.push(lv));
        }
    }

    /// Sets how many files the run is about.
    pub fn set_total_files(&mut self, total: usize)
        ensures
            final(self)@ == (CollectorRunStateModel { total_files: total, ..old(self)@ }),
    {
        self.total_files = total;
    }

    /// Makes another file the current one.
    pub fn set_current_file(&mut self, path: Option<String>)
        ensures
            final(self)@ == at_file(old(self)@, opt_view(path)),
    {
        self.current_file = path;
    }

    /// Counts a success.
    pub fn record_file_ok(&mut self)
        ensures
            final(self)@ == with_ok(old(self)@),
    {
        self.succeeded_files = add_capped(self.succeeded_files, 1);
    }

    /// Counts failures.
    pub fn record_file_failed(&mut self, count: usize)
        ensures
            final(self)@ == with_failed(old(self)@, count),
    {
        self.failed_files = add_capped(self.failed_files, count);
    }

    /// Records a failure.
    pub fn record_run_issue(&mut self, kind: &str, host: &str, path: &str, message: &str)
        ensures
            final(self)@ == with_issue(old(self)@, kind@, host@, path@, message@),
    {
        let issue = CollectorRunIssue {
            kind: kind.to_string(),
            host: host.to_string(),
            path: path.to_string(),
            message: message.to_string(),
        };
        let ghost iv = issue@;
        self.errors.push(issue);
        proof {
            assert(views(self.errors@) =~= old(self)@.errors.push(iv));
        }
    }

    /// Records the same failure for each path.
    fn record_run_issues(&mut self, kind: &str, host: &str, paths: &Vec<String>, message: &str)
        ensures
            final(self)@ == with_issues(old(self)@, kind@, host@, views(paths@), message@),
    {
        let ghost ps = views(paths@);
        let ghost start = self@;
        for i in 0..paths.len()
            invariant
                ps == views(paths@),
                self@ == with_issues(start, kind@, host@, ps.take(i as int), message@),
        {
            proof {
                assert(ps.take(i + 1).drop_last() =~= ps.take(i as int));
                assert(ps.take(i + 1).last() == paths@[i as int]@);
            }
            self.record_run_issue(kind, host, paths[i].as_str(), message);
        }
        proof {
            assert(ps.take(ps.len() as int) =~= ps);
        }
    }

    /// Ends the run.
    pub fn finish(&mut self, ok: bool, now_text: &str, now_ms: i64)
        ensures
            final(self)@ == finished_run(old(self)@, ok, now_text@, now_ms),
    {
        self.running = false;
        self.ok = Some(ok);
        self.current_file = None;
        self.finished_at = Some(now_text.to_string());
        self.duration_ms = match self.started_epoch_ms {
            Some(started) => {
                if now_ms <= started {
                    Some(0)
                } else {
                    let wide: i128 = (now_ms as i128) - (started as i128);
                    if wide > 0x7fff_ffff_ffff_ffff {
                        Some(0x7fff_ffff_ffff_ffff)
                    } else {
                        Some(wide as u64)
                    }
                }
            },
            None => None,
        };
    }
}

/// A configured path without separators behind it and blanks around it.
pub open spec fn target_text() -> spec_fn(Seq<char>) -> Seq<char> {
    |p: Seq<char>| trimmed(without_trailing(p, '/'))
}

/// The test for paths that are pulled.
pub open spec fn is_target(excludes: Seq<Seq<char>>) -> spec_fn(Seq<char>) -> bool {
    |p: Seq<char>| p.len() > 0 && !excluded(p, excludes)
}

/// The paths that are pulled from a host.
pub open spec fn targets_of(h: CollectorHostModel) -> Seq<Seq<char>> {
    h.paths.map_values(target_text()).filter(is_target(tidy_excludes(h.exclude)))
}

/// The paths that are pulled from a host.
pub fn collect_targets(host: &CollectorHost) -> (out: Vec<String>)
    ensures
        views(out@) == targets_of(host@),
{
    let excludes = normalize_excludes(&host.exclude);
    let ghost keep = is_target(views(excludes@));
    let ghost all = host@.paths.map_values(target_text());
    let mut out: Vec<String> = Vec::new();
    proof {
        assert(views(out@) =~= all.take(0).filter(keep));
    }
    for i in 0..host.paths.len()
        invariant
            all == views(host.paths@).map_values(target_text()),
            keep == is_target(views(excludes@)),
            views(out@) == all.take(i as int).filter(keep),
    {
        let p = trim(trim_end_matches(host.paths[i].as_str(), '/').as_str());
        let ghost was = views(out@);
        let ghost pv = p@;
        proof {
            assert(all[i as int] == pv);
            assert(all.take(i + 1) =~= all.take(i as int).push(pv));
            all.take(i as int).lemma_filter_push(pv, keep);
        }
        if !is_blank(p.as_str()) && !is_excluded(p.as_str(), &excludes) {
            out.push(p);
            proof {
                assert(views(out@) =~= was.push(pv));
            }
        }
    }
    proof {
        assert(all.take(all.len() as int) =~= all);
    }
    out
}

/// What a remote path is.
#[derive(Debug, Clone, Copy, PartialEq, Eq, Structural)]
pub enum RemotePathKind {
    File,
    Dir,
    SymlinkFile,
}

/// What a remote path is, by the word that the probing command printed.
pub open spec fn kind_word(word: Seq<char>) -> Option<RemotePathKind> {
    if word == "dir"@ {
        Some(RemotePathKind::Dir)
    } else if word == "file"@ {
        Some(RemotePathKind::File)
    } else if word == "symlink_file"@ {
        Some(RemotePathKind::SymlinkFile)
    } else {
        None
    }
}

/// Reads the output of the probing command.
pub fn remote_path_kind(output: &str) -> (r: Result<RemotePathKind, String>)
    ensures
        r is Ok == kind_word(trimmed(output@)) is Some,
        r is Ok ==> Some(r->Ok_0) == kind_word(trimmed(output@)),
        r is Err ==> r->Err_0@ == "remote path is not a file or directory ("@ + trimmed(output@)
            + ")"@,
{
    let word = trim(output);
    if same(word.as_str(), "dir") {
        Ok(RemotePathKind::Dir)
    } else if same(word.as_str(), "file") {
        Ok(RemotePathKind::File)
    } else if same(word.as_str(), "symlink_file") {
        Ok(RemotePathKind::SymlinkFile)
    } else {
        let mut e = "remote path is not a file or directory (".to_string();
        e.append(word.as_str());
        e.append(")");
        Err(e)
    }
}

/// Where the pulling of a host stands. The index is that of the action that was handed out.
#[derive(Debug, Clone, Copy, PartialEq, Eq, Structural)]
pub enum PullPhase {
    /// The connection is being tried.
    Connecting,
    /// Paths are being classified.
    Classifying(usize),
    /// Links to files are being pulled.
    Symlinks(usize),
    /// Directories are being pulled.
    Dirs(usize),
    /// Files are being pulled.
    Files(usize),
    /// Modes are being recorded.
    Perms,
    Finished,
}

/// What is to be done next for a host.
#[derive(Debug)]
pub enum PullAction {
    /// Try the connection.
    Connect,
    /// Find out what a path is.
    Classify(String),
    /// Pull a path through an archive.
    PullTar(String),
    /// Pull a file.
    PullFile(String),
    /// Record the modes of what was pulled.
    RecordPerms,
    /// Nothing; so many paths failed.
    Finished(usize),
}

/// The model of a `PullAction`.
pub enum PullActionModel {
    Connect,
    Classify(Seq<char>),
    PullTar(Seq<char>),
    PullFile(Seq<char>),
    RecordPerms,
    Finished(usize),
}

impl View for PullAction {
    type V = PullActionModel;

    open spec fn view(&self) -> PullActionModel {
        match self {
            PullAction::Connect => PullActionModel::Connect,
            PullAction::Classify(p) => PullActionModel::Classify(p@),
            PullAction::PullTar(p) => PullActionModel::PullTar(p@),
            PullAction::PullFile(p) => PullActionModel::PullFile(p@),
            PullAction::RecordPerms => PullActionModel::RecordPerms,
            PullAction::Finished(n) => PullActionModel::Finished(*n),
        }
    }
}

/// The pulling of one host.
#[derive(Debug)]
pub struct PullHost {
    pub label: String,
    pub targets: Vec<String>,
    pub files: Vec<String>,
    pub symlinks: Vec<String>,
    pub dirs: Vec<String>,
    pub pulled: Vec<String>,
    pub failures: usize,
    pub phase: PullPhase,
}

/// The model of a `PullHost`.
pub struct PullModel {
    pub label: Seq<char>,
    pub targets: Seq<Seq<char>>,
    pub files: Seq<Seq<char>>,
    pub symlinks: Seq<Seq<char>>,
    pub dirs: Seq<Seq<char>>,
    pub pulled: Seq<Seq<char>>,
    pub failures: usize,
    pub phase: PullPhase,
}

impl View for PullHost {
    type V = PullModel;

    open spec fn view(&self) -> PullModel {
        PullModel {
            label: self.label@,
            targets: views(self.targets@),
            files: views(self.files@),
            symlinks: views(self.symlinks@),
            dirs: views(self.dirs@),
            pulled: views(self.pulled@),
            failures: self.failures,
            phase: self.phase,
        }
    }
}

/// Every path that was dealt with is accounted for exactly once: classified, pulled or failed.
pub open spec fn accounted(p: PullModel) -> bool {
    let sorted = p.files.len() + p.symlinks.len() + p.dirs.len();
    let dealt = p.pulled.len() + p.failures;
    match p.phase {
        PullPhase::Connecting => sorted == 0 && dealt == 0,
        PullPhase::Classifying(i) => i < p.targets.len() && p.pulled.len() == 0 && sorted
            + p.failures == i,
        PullPhase::Symlinks(i) => i < p.symlinks.len() && dealt + p.files.len() + p.dirs.len()
            + p.symlinks.len() == p.targets.len() + i,
        PullPhase::Dirs(i) => i < p.dirs.len() && dealt + p.files.len() + p.dirs.len()
            == p.targets.len() + i,
        PullPhase::Files(i) => i < p.files.len() && dealt + p.files.len() == p.targets.len() + i,
        PullPhase::Perms => dealt == p.targets.len(),
        PullPhase::Finished => dealt == p.targets.len(),
    }
}

/// The next piece of work from `phase` on, where `phase` may be past the end of its list.
pub open spec fn next_phase(p: PullModel, phase: PullPhase) -> PullPhase {
    let a = match phase {
        PullPhase::Classifying(i) => if i < p.targets.len() {
            phase
        } else {
            PullPhase::Symlinks(0)
        },
        _ => phase,
    };
    let b = match a {
        PullPhase::Symlinks(i) => if i < p.symlinks.len() {
            a
        } else {
            PullPhase::Dirs(0)
        },
        _ => a,
    };
    let c = match b {
        PullPhase::Dirs(i) => if i < p.dirs.len() {
            b
        } else {
            PullPhase::Files(0)
        },
        _ => b,
    };
    match c {
        PullPhase::Files(i) => if i < p.files.len() {
            c
        } else if p.pulled.len() > 0 {
            PullPhase::Perms
        } else {
            PullPhase::Finished
        },
        _ => c,
    }
}

/// The action of a phase.
pub open spec fn phase_action(p: PullModel) -> PullActionModel {
    match p.phase {
        PullPhase::Classifying(i) => PullActionModel::Classify(p.targets[i as int]),
        PullPhase::Symlinks(i) => PullActionModel::PullTar(p.symlinks[i as int]),
        PullPhase::Dirs(i) => PullActionModel::PullTar(p.dirs[i as int]),
        PullPhase::Files(i) => PullActionModel::PullFile(p.files[i as int]),
        PullPhase::Perms => PullActionModel::RecordPerms,
        PullPhase::Finished => PullActionModel::Finished(p.failures),
        _ => PullActionModel::Connect,
    }
}

/// The path of a phase that works on one.
pub open spec fn phase_path(p: PullModel) -> Option<Seq<char>> {
    match p.phase {
        PullPhase::Classifying(i) => Some(p.targets[i as int]),
        PullPhase::Symlinks(i) => Some(p.symlinks[i as int]),
        PullPhase::Dirs(i) => Some(p.dirs[i as int]),
        PullPhase::Files(i) => Some(p.files[i as int]),
        _ => None,
    }
}

/// The pulling of a host together with the run that it is recorded in.
pub struct PullStep {
    pub pull: PullModel,
    pub run: CollectorRunStateModel,
}

/// Moves on to the next piece of work; its path becomes the current one.
pub open spec fn moved_on(s: PullStep, phase: PullPhase) -> PullStep {
    let pull = PullModel { phase: next_phase(s.pull, phase), ..s.pull };
    PullStep {
        pull,
        run: if phase_path(pull) is Some {
            at_file(s.run, phase_path(pull))
        } else {
            s.run
        },
    }
}

/// The label of a host: its name, or its address where the name is blank.
pub open spec fn label_of(h: CollectorHostModel) -> Seq<char> {
    if trimmed(h.name).len() == 0 {
        h.hostname
    } else {
        h.name
    }
}

/// A host that cannot be pulled at all: every path fails, for the same reason.
pub open spec fn given_up(s: PullStep, message: Seq<char>) -> PullStep {
    PullStep {
        pull: PullModel {
            phase: PullPhase::Finished,
            failures: s.pull.targets.len() as usize,
            ..s.pull
        },
        run: with_failed(
            with_issues(s.run, "host_failed"@, s.pull.label, s.pull.targets, message),
            s.pull.targets.len() as usize,
        ),
    }
}

/// What is wrong with the setup of a host.
pub open spec fn setup_fault(h: CollectorHostModel) -> Option<Seq<char>> {
    if trimmed(h.hostname).len() == 0 {
        Some("no hostname, skipping"@)
    } else if h.root.len() == 0 {
        Some("no local root, skipping"@)
    } else {
        None
    }
}

/// A host line of the log.
pub open spec fn host_line(label: Seq<char>, message: Seq<char>) -> Seq<char> {
    "host '"@ + label + "': "@ + message
}

/// The pulling of a host at its start: a host without address or local root is given up, with a
/// record of its own where it has no paths.
pub open spec fn started(h: CollectorHostModel, run: CollectorRunStateModel, now: Seq<char>) ->
    PullStep {
    let label = label_of(h);
    let pull = PullModel {
        label,
        targets: targets_of(h),
        files: Seq::empty(),
        symlinks: Seq::empty(),
        dirs: Seq::empty(),
        pulled: Seq::empty(),
        failures: 0,
        phase: PullPhase::Connecting,
    };
    match setup_fault(h) {
        Some(message) => {
            let noted = logged(run, now, host_line(label, message));
            given_up(
                PullStep {
                    pull,
                    run: if pull.targets.len() == 0 {
                        with_issue(noted, "host_failed"@, label, Seq::empty(), message)
                    } else {
                        noted
                    },
                },
                message,
            )
        },
        None => PullStep {
            pull,
            run: logged(
                run,
                now,
                "=== host "@ + label + " ("@ + dest_of(conn_of(h)) + ") ==="@,
            ),
        },
    }
}

/// The pulling of a host after the connection was tried.
pub open spec fn connected(s: PullStep, failure: Option<Seq<char>>, now: Seq<char>) -> PullStep {
    match failure {
        Some(err) => {
            let message = "host connection failed: "@ + err;
            given_up(
                PullStep { run: logged(s.run, now, host_line(s.pull.label, message)), ..s },
                message,
            )
        },
        None => moved_on(s, PullPhase::Classifying(0)),
    }
}

/// The pulling of a host after a path failed.
pub open spec fn path_failed(
    s: PullStep,
    kind: Seq<char>,
    path: Seq<char>,
    message: Seq<char>,
    now: Seq<char>,
) -> PullStep {
    PullStep {
        pull: PullModel { failures: (s.pull.failures + 1) as usize, ..s.pull },
        run: logged(
            with_issue(with_failed(s.run, 1), kind, s.pull.label, path, message),
            now,
            "  FAILED "@ + path + ": "@ + message,
        ),
    }
}

/// The pulling of a host after a path was pulled.
pub open spec fn path_pulled(s: PullStep, path: Seq<char>, now: Seq<char>) -> PullStep {
    PullStep {
        pull: PullModel { pulled: s.pull.pulled.push(path), ..s.pull },
        run: logged(with_ok(s.run), now, "  ok "@ + path),
    }
}

/// The pulling of a host after a path was classified, or could not be.
pub open spec fn classified(
    s: PullStep,
    i: int,
    kind: Result<RemotePathKind, Seq<char>>,
    now: Seq<char>,
) -> PullStep {
    let path = s.pull.targets[i];
    let t = match kind {
        Ok(RemotePathKind::File) => PullStep {
            pull: PullModel { files: s.pull.files.push(path), ..s.pull },
            ..s
        },
        Ok(RemotePathKind::Dir) => PullStep {
            pull: PullModel { dirs: s.pull.dirs.push(path), ..s.pull },
            ..s
        },
        Ok(RemotePathKind::SymlinkFile) => PullStep {
            pull: PullModel { symlinks: s.pull.symlinks.push(path), ..s.pull },
            ..s
        },
        Err(err) => path_failed(s, "file_failed"@, path, err, now),
    };
    moved_on(t, PullPhase::Classifying((i + 1) as usize))
}

/// The pulling of a host after a pull of the current path ended.
pub open spec fn pull_ended(s: PullStep, failure: Option<Seq<char>>, now: Seq<char>) -> PullStep {
    match s.pull.phase {
        PullPhase::Symlinks(i) => moved_on(
            match failure {
                None => path_pulled(s, s.pull.symlinks[i as int], now),
                Some(err) => path_failed(
                    s,
                    "file_failed"@,
                    s.pull.symlinks[i as int],
                    "tar dereference failed: "@ + err,
                    now,
                ),
            },
            PullPhase::Symlinks((i + 1) as usize),
        ),
        PullPhase::Dirs(i) => moved_on(
            match failure {
                None => path_pulled(s, s.pull.dirs[i as int], now),
                Some(err) => path_failed(
                    s,
                    "dir_failed"@,
                    s.pull.dirs[i as int],
                    "tar failed: "@ + err,
                    now,
                ),
            },
            PullPhase::Dirs((i + 1) as usize),
        ),
        PullPhase::Files(i) => moved_on(
            match failure {
                None => path_pulled(s, s.pull.files[i as int], now),
                Some(err) => path_failed(s, "file_failed"@, s.pull.files[i as int], err, now),
            },
            PullPhase::Files((i + 1) as usize),
        ),
        _ => s,
    }
}

/// The pulling of a host after modes were recorded, or could not be.
pub open spec fn perms_ended(s: PullStep, failure: Option<Seq<char>>, now: Seq<char>) -> PullStep {
    PullStep {
        pull: PullModel { phase: PullPhase::Finished, ..s.pull },
        run: match failure {
            Some(err) => logged(s.run, now, "  perms: could not record: "@ + err),
            None => s.run,
        },
    }
}

/// A step as it stands.
pub open spec fn step_of(p: PullHost, run: CollectorRunState) -> PullStep {
    PullStep { pull: p@, run: run@ }
}

impl PullHost {
    /// Whether the pulling is in one of the states that it leads to.
    pub open spec fn wf(&self) -> bool {
        accounted(self@)
    }

    /// Starts the pulling of a host.
    pub fn start(host: &CollectorHost, run: &mut CollectorRunState, now: &str) -> (r: PullHost)
        ensures
            r.wf(),
            step_of(r, *final(run)) == started(host@, old(run)@, now@),
    {
        let label: String = if is_blank(trim(host.name.as_str()).as_str()) {
            host.hostname.clone()
        } else {
            host.name.clone()
        };
        let mut p = PullHost {
            label,
            targets: collect_targets(host),
            files: Vec::new(),
            symlinks: Vec::new(),
            dirs: Vec::new(),
            pulled: Vec::new(),
            failures: 0,
            phase: PullPhase::Connecting,
        };
        proof {
            assert(views(p.files@) =~= Seq::<Seq<char>>::empty());
            assert(views(p.symlinks@) =~= Seq::<Seq<char>>::empty());
            assert(views(p.dirs@) =~= Seq::<Seq<char>>::empty());
            assert(views(p.pulled@) =~= Seq::<Seq<char>>::empty());
        }
        if is_blank(trim(host.hostname.as_str()).as_str()) {
            p.refuse("no hostname, skipping", run, now);
        } else if is_blank(host.root.as_str()) {
            p.refuse("no local root, skipping", run, now);
        } else {
            let mut line = "=== host ".to_string();
            line.append(p.label.as_str());
            line.append(" (");
            line.append(SshConn::from_host(host).dest().as_str());
            line.append(") ===");
            run.log(now, line.as_str());
        }
        p
    }

    /// Gives the host up because of its setup.
    fn refuse(&mut self, message: &str, run: &mut CollectorRunState, now: &str)
        requires
            old(self).phase == PullPhase::Connecting,
            old(self).wf(),
        ensures
            final(self).wf(),
            step_of(*final(self), *final(run)) == ({
                let noted = logged(old(run)@, now@, host_line(old(self)@.label, message@));
                given_up(
                    PullStep {
                        pull: old(self)@,
                        run: if old(self)@.targets.len() == 0 {
                            with_issue(
                                noted,
                                "host_failed"@,
                                old(self)@.label,
                                Seq::empty(),
                                message@,
                            )
                        } else {
                            noted
                        },
                    },
                    message@,
                )
            }),
    {
        self.log_host(message, run, now);
        if self.targets.len() == 0 {
            proof {
                reveal_strlit("");
                assert(""@ =~= Seq::<char>::empty());
            }
            run.record_run_issue("host_failed", self.label.as_str(), "", message);
        }
        self.give_up(message, run);
    }

    /// Logs a line about the host.
    fn log_host(&self, message: &str, run: &mut CollectorRunState, now: &str)
        ensures
            final(run)@ == logged(old(run)@, now@, host_line(self@.label, message@)),
    {
        let mut line = "host '".to_string();
        line.append(self.label.as_str());
        line.append("': ");
        line.append(message);
        run.log(now, line.as_str());
    }

    /// Gives the host up: every path fails.
    fn give_up(&mut self, message: &str, run: &mut CollectorRunState)
        requires
            old(self).phase == PullPhase::Connecting,
            old(self).wf(),
        ensures
            final(self).wf(),
            step_of(*final(self), *final(run)) == given_up(
                step_of(*old(self), *old(run)),
                message@,
            ),
    {
        run.record_run_issues("host_failed", self.label.as_str(), &self.targets, message);
        let n: usize = self.targets.len();
        run.record_file_failed(n);
        self.failures = n;
        self.phase = PullPhase::Finished;
        proof {
            assert(self@.targets.len() == n);
        }
    }

    /// The path at an index of a list.
    fn path_at(list: &Vec<String>, i: usize) -> (r: String)
        requires
            i < list.len(),
        ensures
            r@ == views(list@)[i as int],
    {
        list[i].clone()
    }

    /// The path of the current phase, where it works on one.
    fn current_path(&self) -> (r: Option<String>)
        requires
            self.wf(),
        ensures
            opt_view(r) == phase_path(self@),
    {
        match self.phase {
            PullPhase::Classifying(i) => Some(PullHost::path_at(&self.targets, i)),
            PullPhase::Symlinks(i) => Some(PullHost::path_at(&self.symlinks, i)),
            PullPhase::Dirs(i) => Some(PullHost::path_at(&self.dirs, i)),
            PullPhase::Files(i) => Some(PullHost::path_at(&self.files, i)),
            _ => None,
        }
    }

    /// What is to be done now.
    pub fn action(&self) -> (r: PullAction)
        requires
            self.wf(),
        ensures
            r@ == phase_action(self@),
    {
        match self.phase {
            PullPhase::Classifying(i) => PullAction::Classify(PullHost::path_at(&self.targets, i)),
            PullPhase::Symlinks(i) => PullAction::PullTar(PullHost::path_at(&self.symlinks, i)),
            PullPhase::Dirs(i) => PullAction::PullTar(PullHost::path_at(&self.dirs, i)),
            PullPhase::Files(i) => PullAction::PullFile(PullHost::path_at(&self.files, i)),
            PullPhase::Perms => PullAction::RecordPerms,
            PullPhase::Finished => PullAction::Finished(self.failures),
            _ => PullAction::Connect,
        }
    }

    /// Moves on to the next piece of work.
    fn move_on(&mut self, phase: PullPhase, run: &mut CollectorRunState)
        requires
            ({
                let p = old(self)@;
                let dealt = p.pulled.len() + p.failures;
                match phase {
                    PullPhase::Classifying(i) => i <= p.targets.len() && p.pulled.len() == 0
                        && p.files.len() + p.symlinks.len() + p.dirs.len() + p.failures == i,
                    PullPhase::Symlinks(i) => i <= p.symlinks.len() && dealt + p.files.len()
                        + p.dirs.len() + p.symlinks.len() == p.targets.len() + i,
                    PullPhase::Dirs(i) => i <= p.dirs.len() && dealt + p.files.len()
                        + p.dirs.len() == p.targets.len() + i,
                    PullPhase::Files(i) => i <= p.files.len() && dealt + p.files.len()
                        == p.targets.len() + i,
                    _ => false,
                }
            }),
        ensures
            final(self).wf(),
            step_of(*final(self), *final(run)) == moved_on(
                step_of(*old(self), *old(run)),
                phase,
            ),
    {
        let mut next = phase;
        match next {
            PullPhase::Classifying(i) => {
                if i >= self.targets.len() {
                    next = PullPhase::Symlinks(0);
                }
            },
            _ => {},
        }
        match next {
            PullPhase::Symlinks(i) => {
                if i >= self.symlinks.len() {
                    next = PullPhase::Dirs(0);
                }
            },
            _ => {},
        }
        match next {
            PullPhase::Dirs(i) => {
                if i >= self.dirs.len() {
                    next = PullPhase::Files(0);
                }
            },
            _ => {},
        }
        match next {
            PullPhase::Files(i) => {
                if i >= self.files.len() {
                    next = if self.pulled.len() > 0 {
                        PullPhase::Perms
                    } else {
                        PullPhase::Finished
                    };
                }
            },
            _ => {},
        }
        self.phase = next;
        match self.current_path() {
            Some(path) => {
                run.set_current_file(Some(path));
            },
            None => {},
        }
    }

    /// Takes the result of trying the connection.
    pub fn on_connect(&mut self, failure: Option<String>, run: &mut CollectorRunState, now: &str)
        requires
            old(self).wf(),
            old(self).phase == PullPhase::Connecting,
        ensures
            final(self).wf(),
            step_of(*final(self), *final(run)) == connected(
                step_of(*old(self), *old(run)),
                opt_view(failure),
                now@,
            ),
    {
        match failure {
            Some(err) => {
                let mut message = "host connection failed: ".to_string();
                message.append(err.as_str());
                self.log_host(message.as_str(), run, now);
                self.give_up(message.as_str(), run);
            },
            None => {
                self.move_on(PullPhase::Classifying(0), run);
            },
        }
    }

    /// Records the failure of a path.
    fn fail(&mut self, kind: &str, path: &str, message: &str, run: &mut CollectorRunState, now: &str)
        requires
            old(self).failures < usize::MAX,
        ensures
            step_of(*final(self), *final(run)) == path_failed(
                step_of(*old(self), *old(run)),
                kind@,
                path@,
                message@,
                now@,
            ),
            final(self).phase == old(self).phase,
    {
        self.failures = self.failures + 1;
        run.record_file_failed(1);
        run.record_run_issue(kind, self.label.as_str(), path, message);
        let mut line = "  FAILED ".to_string();
        line.append(path);
        line.append(": ");
        line.append(message);
        run.log(now, line.as_str());
    }

    /// Records the success of a path.
    fn succeed(&mut self, path: String, run: &mut CollectorRunState, now: &str)
        ensures
            step_of(*final(self), *final(run)) == path_pulled(
                step_of(*old(self), *old(run)),
                path@,
                now@,
            ),
            final(self).phase == old(self).phase,
    {
        run.record_file_ok();
        let mut line = "  ok ".to_string();
        line.append(path.as_str());
        run.log(now, line.as_str());
        let ghost pv = path@;
        self.pulled.push(path);
        proof {
            assert(views(self.pulled@) =~= old(self)@.pulled.push(pv));
        }
    }

    /// Takes the kind of the path that was being classified.
    pub fn on_kind(
        &mut self,
        kind: Result<RemotePathKind, String>,
        run: &mut CollectorRunState,
        now: &str,
    )
        requires
            old(self).wf(),
            old(self).phase is Classifying,
        ensures
            final(self).wf(),
            step_of(*final(self), *final(run)) == classified(
                step_of(*old(self), *old(run)),
                old(self).phase->Classifying_0 as int,
                match kind {
                    Ok(k) => Ok::<RemotePathKind, Seq<char>>(k),
                    Err(e) => Err(e@),
                },
                now@,
            ),
    {
        let i: usize = match self.phase {
            PullPhase::Classifying(i) => i,
            _ => 0,
        };
        proof {
            assert(self.targets.len() == self@.targets.len());
        }
        let path = PullHost::path_at(&self.targets, i);
        let ghost pv = path@;
        match kind {
            Ok(RemotePathKind::File) => {
                self.files.push(path);
                proof {
                    assert(views(self.files@) =~= old(self)@.files.push(pv));
                }
            },
            Ok(RemotePathKind::Dir) => {
                self.dirs.push(path);
                proof {
                    assert(views(self.dirs@) =~= old(self)@.dirs.push(pv));
                }
            },
            Ok(RemotePathKind::SymlinkFile) => {
                self.symlinks.push(path);
                proof {
                    assert(views(self.symlinks@) =~= old(self)@.symlinks.push(pv));
                }
            },
            Err(err) => {
                self.fail("file_failed", path.as_str(), err.as_str(), run, now);
            },
        }
        self.move_on(PullPhase::Classifying(i + 1), run);
    }

    /// Takes the end of the pull that was under way.
    pub fn on_pull(&mut self, failure: Option<String>, run: &mut CollectorRunState, now: &str)
        requires
            old(self).wf(),
            old(self).phase is Symlinks || old(self).phase is Dirs || old(self).phase is Files,
        ensures
            final(self).wf(),
            step_of(*final(self), *final(run)) == pull_ended(
                step_of(*old(self), *old(run)),
                opt_view(failure),
                now@,
            ),
    {
        proof {
            assert(self.targets.len() == self@.targets.len());
            assert(self.symlinks.len() == self@.symlinks.len());
            assert(self.dirs.len() == self@.dirs.len());
            assert(self.files.len() == self@.files.len());
        }
        match self.phase {
            PullPhase::Symlinks(i) => {
                let path = PullHost::path_at(&self.symlinks, i);
                match failure {
                    None => {
                        self.succeed(path, run, now);
                    },
                    Some(err) => {
                        let mut message = "tar dereference failed: ".to_string();
                        message.append(err.as_str());
                        self.fail("file_failed", path.as_str(), message.as_str(), run, now);
                    },
                }
                self.move_on(PullPhase::Symlinks(i + 1), run);
            },
            PullPhase::Dirs(i) => {
                let path = PullHost::path_at(&self.dirs, i);
                match failure {
                    None => {
                        self.succeed(path, run, now);
                    },
                    Some(err) => {
                        let mut message = "tar failed: ".to_string();
                        message.append(err.as_str());
                        self.fail("dir_failed", path.as_str(), message.as_str(), run, now);
                    },
                }
                self.move_on(PullPhase::Dirs(i + 1), run);
            },
            PullPhase::Files(i) => {
                let path = PullHost::path_at(&self.files, i);
                match failure {
                    None => {
                        self.succeed(path, run, now);
                    },
                    Some(err) => {
                        self.fail("file_failed", path.as_str(), err.as_str(), run, now);
                    },
                }
                self.move_on(PullPhase::Files(i + 1), run);
            },
            _ => {},
        }
    }

    /// Takes the end of the recording of modes.
    pub fn on_perms(&mut self, failure: Option<String>, run: &mut CollectorRunState, now: &str)
        requires
            old(self).wf(),
            old(self).phase == PullPhase::Perms,
        ensures
            final(self).wf(),
            step_of(*final(self), *final(run)) == perms_ended(
                step_of(*old(self), *old(run)),
                opt_view(failure),
                now@,
            ),
    {
        match failure {
            Some(err) => {
                let mut line = "  perms: could not record: ".to_string();
                line.append(err.as_str());
                run.log(now, line.as_str());
            },
            None => {},
        }
        self.phase = PullPhase::Finished;
    }
}

/// When a host is finished, every path was either pulled or counted as failed.
pub proof fn finished_host_accounts_for_every_path(p: PullModel)
    requires
        accounted(p),
        p.phase == PullPhase::Finished,
    ensures
        p.pulled.len() + p.failures == p.targets.len(),
        phase_action(p) == PullActionModel::Finished(p.failures),
{
}

/// How much is left to do for a host; it shrinks with every result, so pulling comes to an end.
pub open spec fn work_left(p: PullModel) -> int {
    let n = p.targets.len() as int;
    match p.phase {
        PullPhase::Connecting => 3 * n + 2,
        PullPhase::Classifying(i) => (n - i) + n + 1 + n,
        PullPhase::Symlinks(i) => (p.symlinks.len() - i) + p.dirs.len() + p.files.len() + 1,
        PullPhase::Dirs(i) => (p.dirs.len() - i) + p.files.len() + 1,
        PullPhase::Files(i) => (p.files.len() - i) + 1,
        PullPhase::Perms => 1,
        PullPhase::Finished => 0,
    }
}

/// Every result of a pull leaves less to do.
pub proof fn pulling_makes_progress(s: PullStep, failure: Option<Seq<char>>, now: Seq<char>)
    requires
        accounted(s.pull),
        s.pull.phase is Symlinks || s.pull.phase is Dirs || s.pull.phase is Files,
        s.pull.failures < usize::MAX,
        s.pull.targets.len() <= usize::MAX,
        s.pull.symlinks.len() <= usize::MAX,
        s.pull.dirs.len() <= usize::MAX,
        s.pull.files.len() <= usize::MAX,
    ensures
        work_left(pull_ended(s, failure, now).pull) < work_left(s.pull),
{
}

/// How a run of several hosts ended, as it is logged, and whether it counts as a success.
pub open spec fn run_verdict(result: Result<usize, Seq<char>>) -> (Seq<char>, bool) {
    match result {
        Ok(n) => if n == 0 {
            ("Collector finished: all paths pulled."@, true)
        } else {
            (
                "Collector finished with "@ + decimal_text(n as nat) + " failed path(s)."@,
                false,
            )
        },
        Err(e) => ("ERROR: "@ + e, false),
    }
}

/// Records the end of a run: how it ended, and when.
pub fn finish_run(
    result: Result<usize, String>,
    state: &mut CollectorRunState,
    now: &str,
    now_text: &str,
    now_ms: i64,
)
    ensures
        ({
            let verdict = run_verdict(
                match result {
                    Ok(n) => Ok::<usize, Seq<char>>(n),
                    Err(e) => Err(e@),
                },
            );
            final(state)@ == finished_run(
                logged(old(state)@, now@, verdict.0),
                verdict.1,
                now_text@,
                now_ms,
            )
        }),
{
    let ok: bool = match result {
        Ok(n) => {
            if n == 0 {
                state.log(now, "Collector finished: all paths pulled.");
                true
            } else {
                let mut line = "Collector finished with ".to_string();
                line.append(decimal(n as u64).as_str());
                line.append(" failed path(s).");
                state.log(now, line.as_str());
                false
            }
        },
        Err(e) => {
            let mut line = "ERROR: ".to_string();
            line.append(e.as_str());
            state.log(now, line.as_str());
            false
        },
    };
    state.finish(ok, now_text, now_ms);
}

/// The indices of the hosts that take part, from index `i` on.
pub open spec fn enabled_from(hs: Seq<CollectorHostModel>, i: int) -> Seq<usize>
    decreases hs.len() - i,
{
    if i < 0 || i >= hs.len() {
        Seq::empty()
    } else if hs[i].enabled {
        seq![i as usize] + enabled_from(hs, i + 1)
    } else {
        enabled_from(hs, i + 1)
    }
}

/// Why a run cannot begin.
pub open spec fn begin_fault(cfg: CollectorConfigModel, only: Option<usize>) -> Option<Seq<char>> {
    match only {
        Some(i) => if i >= cfg.hosts.len() {
            Some("no host at index "@ + decimal_text(i as nat))
        } else if cfg.git_dir.len() == 0 {
            Some("git repository directory is not set"@)
        } else {
            None
        },
        None => if enabled_from(cfg.hosts, 0).len() == 0 {
            Some("no enabled hosts to pull from"@)
        } else if cfg.git_dir.len() == 0 {
            Some("git repository directory is not set"@)
        } else {
            None
        },
    }
}

/// The hosts of a run, by index: the one that was asked for, or all that take part.
pub open spec fn run_hosts(cfg: CollectorConfigModel, only: Option<usize>) -> Seq<usize> {
    match only {
        Some(i) => seq![i],
        None => enabled_from(cfg.hosts, 0),
    }
}

/// The indices of the hosts that take part.
fn enabled_hosts(cfg: &CollectorConfig) -> (out: Vec<usize>)
    ensures
        out@ == enabled_from(cfg@.hosts, 0),
{
    let mut out: Vec<usize> = Vec::new();
    let ghost hs = cfg@.hosts;
    proof {
        assert(out@ + enabled_from(hs, 0) =~= enabled_from(hs, 0));
    }
    for i in 0..cfg.hosts.len()
        invariant
            hs == views(cfg.hosts@),
            out@ + enabled_from(hs, i as int) == enabled_from(hs, 0),
    {
        let ghost was = out@;
        proof {
            assert(hs[i as int] == cfg.hosts@[i as int]@);
        }
        if cfg.hosts[i].enabled {
            out.push(i);
            proof {
                assert(out@ + enabled_from(hs, i + 1) =~= was + (seq![i] + enabled_from(
                    hs,
                    i + 1,
                )));
            }
        }
    }
    proof {
        assert(out@ + Seq::<usize>::empty() =~= out@);
    }
    out
}

/// Begins a run over all hosts that take part: gives their indices, unless the run cannot begin.
pub fn run(cfg: &CollectorConfig) -> (r: Result<Vec<usize>, String>)
    ensures
        r is Err == begin_fault(cfg@, None) is Some,
        r is Err ==> r->Err_0@ == begin_fault(cfg@, None)->0,
        r is Ok ==> r->Ok_0@ == run_hosts(cfg@, None),
{
    let hosts = enabled_hosts(cfg);
    if hosts.len() == 0 {
        return Err("no enabled hosts to pull from".to_string());
    }
    if is_blank(cfg.git_dir.as_str()) {
        return Err("git repository directory is not set".to_string());
    }
    Ok(hosts)
}

/// Begins a run over one host, whether or not it takes part otherwise.
pub fn run_host(cfg: &CollectorConfig, host_index: usize) -> (r: Result<Vec<usize>, String>)
    ensures
        r is Err == begin_fault(cfg@, Some(host_index)) is Some,
        r is Err ==> r->Err_0@ == begin_fault(cfg@, Some(host_index))->0,
        r is Ok ==> r->Ok_0@ == run_hosts(cfg@, Some(host_index)),
{
    if host_index >= cfg.hosts.len() {
        let mut e = "no host at index ".to_string();
        e.append(decimal(host_index as u64).as_str());
        return Err(e);
    }
    if is_blank(cfg.git_dir.as_str()) {
        return Err("git repository directory is not set".to_string());
    }
    let mut one: Vec<usize> = Vec::new();
    one.push(host_index);
    proof {
        assert(one@ =~= seq![host_index]);
    }
    Ok(one)
}

/// How many paths a run is about.
pub open spec fn total_targets(hs: Seq<CollectorHostModel>, hosts: Seq<usize>) -> nat
    decreases hosts.len(),
{
    if hosts.len() == 0 {
        0
    } else {
        total_targets(hs, hosts.drop_last()) + targets_of(hs[hosts.last() as int]).len()
    }
}

proof fn lemma_total_grows(hs: Seq<CollectorHostModel>, hosts: Seq<usize>, k: int)
    requires
        0 <= k <= hosts.len(),
    ensures
        total_targets(hs, hosts.take(k)) <= total_targets(hs, hosts),
    decreases hosts.len(),
{
    if k < hosts.len() {
        lemma_total_grows(hs, hosts.drop_last(), k);
        assert(hosts.drop_last().take(k) =~= hosts.take(k));
    } else {
        assert(hosts.take(k) =~= hosts);
    }
}

/// How many paths a run over the given hosts is about.
pub fn count_run_paths(cfg: &CollectorConfig, hosts: &Vec<usize>) -> (r: usize)
    requires
        forall|i: int| 0 <= i < hosts.len() ==> (#[trigger] hosts@[i]) < cfg.hosts.len(),
        total_targets(cfg@.hosts, hosts@) <= usize::MAX,
    ensures
        r == total_targets(cfg@.hosts, hosts@),
{
    let mut total: usize = 0;
    for i in 0..hosts.len()
        invariant
            forall|k: int| 0 <= k < hosts.len() ==> (#[trigger] hosts@[k]) < cfg.hosts.len(),
            total_targets(cfg@.hosts, hosts@) <= usize::MAX,
            total == total_targets(cfg@.hosts, hosts@.take(i as int)),
    {
        let targets = collect_targets(&cfg.hosts[hosts[i]]);
        proof {
            assert(hosts@.take(i + 1).drop_last() =~= hosts@.take(i as int));
            assert(cfg@.hosts[hosts@[i as int] as int] == cfg.hosts@[hosts@[i as int] as int]@);
            assert(views(targets@).len() == targets@.len());
            lemma_total_grows(cfg@.hosts, hosts@, i + 1);
        }
        total = total + targets.len();
    }
    proof {
        assert(hosts@.take(hosts@.len() as int) =~= hosts@);
    }
    total
}

/// What follows the pulling of a run: whether large files are looked for, and whether the result is
/// committed and pushed.
pub fn after_pulling(cfg: &CollectorConfig) -> (r: (bool, bool))
    ensures
        r == (cfg@.split_threshold_mb > 0, cfg@.auto_commit_push),
{
    (cfg.split_threshold_mb > 0, cfg.auto_commit_push)
}

/// The paths that are pulled from a host are its configured ones, without separators behind them and
/// white space around them: all that are not blank and neither excluded nor under an excluded path,
/// and no others.
pub proof fn pulled_paths_are_the_configured_ones_that_are_not_excluded(
    h: CollectorHostModel,
    path: Seq<char>,
)
    ensures
        targets_of(h).contains(path) == (path.len() > 0 && (exists|k: int|
            0 <= k < h.paths.len() && path == trimmed(without_trailing(#[trigger] h.paths[k], '/')))
            && (forall|e: int|
            0 <= e < h.exclude.len() ==> {
                let x = without_trailing(trimmed(#[trigger] h.exclude[e]), '/');
                let p = without_trailing(path, '/');
                x.len() > 0 ==> p != x && !(x + "/"@).is_prefix_of(p)
            })),
{
    let all = h.paths.map_values(target_text());
    let excludes = tidy_excludes(h.exclude);
    let test = is_target(excludes);
    let raw = h.exclude.map_values(tidy_exclude());
    let p = without_trailing(path, '/');
    if targets_of(h).contains(path) {
        let k = choose|k: int| 0 <= k < targets_of(h).len() && targets_of(h)[k] == path;
        all.lemma_filter_pred(test, k);
        all.lemma_filter_contains_rev(test, path);
        let m = choose|m: int| 0 <= m < all.len() && all[m] == path;
        assert(path == trimmed(without_trailing(h.paths[m], '/')));
        assert forall|e: int| 0 <= e < h.exclude.len() implies {
            let x = without_trailing(trimmed(#[trigger] h.exclude[e]), '/');
            x.len() > 0 ==> p != x && !(x + "/"@).is_prefix_of(p)
        } by {
            let x = without_trailing(trimmed(h.exclude[e]), '/');
            if x.len() > 0 {
                assert(raw[e] == x);
                raw.lemma_filter_contains(filled(), e);
                let l = choose|l: int| 0 <= l < excludes.len() && excludes[l] == x;
                if p == x || (x + "/"@).is_prefix_of(p) {
                    assert(within(p, excludes[l]));
                }
            }
        }
    }
    if path.len() > 0 && (exists|k: int|
        0 <= k < h.paths.len() && path == trimmed(without_trailing(#[trigger] h.paths[k], '/')))
        && (forall|e: int|
        0 <= e < h.exclude.len() ==> {
            let x = without_trailing(trimmed(#[trigger] h.exclude[e]), '/');
            x.len() > 0 ==> p != x && !(x + "/"@).is_prefix_of(p)
        }) {
        let k = choose|k: int|
            0 <= k < h.paths.len() && path == trimmed(without_trailing(#[trigger] h.paths[k], '/'));
        assert(all[k] == path);
        assert(!excluded(path, excludes)) by {
            if excluded(path, excludes) {
                let l = choose|l: int| 0 <= l < excludes.len() && within(p, #[trigger] excludes[l]);
                raw.lemma_filter_pred(filled(), l);
                raw.lemma_filter_contains_rev(filled(), excludes[l]);
                let e = choose|e: int| 0 <= e < raw.len() && raw[e] == excludes[l];
                assert(without_trailing(trimmed(h.exclude[e]), '/') == excludes[l]);
            }
        }
        all.lemma_filter_contains(test, k);
    }
}

} // verus!
