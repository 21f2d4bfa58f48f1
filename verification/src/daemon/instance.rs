//! One daemon at a time: how it takes over from another one.

use crate::config::host::{parent, parent_of};
use crate::paths::{join_path, joined_path};
use crate::text::{
    contains, decimal_is_read_back, decimal_text, eq_ignore_ascii_case, holds_text, is_blank,
    lemma_digits_monotone, line_parts, lines,
    lowered, opt_view, parse_number, parsed_number, same, same_ignoring_case, split, split_parts,
    to_ascii_lowercase, trim, trimmed, views,
};
use vstd::prelude::*;

verus! {

/// How often the lock is tried again after the other daemon was stopped.
pub const LOCK_TRIES: usize = 25;

/// How long to wait before each of these tries, in milliseconds.
pub const LOCK_WAIT_MS: u64 = 200;

/// The lock of an installation: a file beside its configuration.
pub fn lock_path(config_path: &str) -> (r: String)
    ensures
        r@ == (match parent(config_path@) {
            Some(dir) => joined_path(dir, ".auto_sync.lock"@),
            None => ".auto_sync.lock"@,
        }),
{
    match parent_of(config_path) {
        Some(dir) => join_path(dir.as_str(), ".auto_sync.lock"),
        None => ".auto_sync.lock".to_string(),
    }
}

/// The file beside the lock that names the process holding it, for systems on which a locked file
/// cannot be read.
pub fn lock_pid_sidecar(path: &str) -> (r: String)
    ensures
        r@ == path@ + ".pid"@,
{
    let mut r = path.to_string();
    r.append(".pid");
    r
}

/// The process that a text names.
pub open spec fn pid_in(text: Seq<char>) -> Option<u32> {
    match parsed_number(trimmed(text), 10, u32::MAX as int) {
        Some(n) => Some(n as u32),
        None => None,
    }
}

/// The process that a text names.
pub fn parse_pid(text: &str) -> (r: Option<u32>)
    ensures
        r == pid_in(text@),
{
    match parse_number(trim(text).as_str(), 10, 0xffff_ffff) {
        Some(n) => Some(n as u32),
        None => None,
    }
}

/// The process that a file which may be missing names.
pub open spec fn pid_in_file(text: Option<Seq<char>>) -> Option<u32> {
    match text {
        Some(t) => pid_in(t),
        None => None,
    }
}

/// The process that holds the lock, by the lock itself or else by the file beside it.
pub fn read_lock_pid(lock_text: &Option<String>, sidecar_text: &Option<String>) -> (r: Option<u32>)
    ensures
        r == (if pid_in_file(opt_view(*lock_text)) is Some {
            pid_in_file(opt_view(*lock_text))
        } else {
            pid_in_file(opt_view(*sidecar_text))
        }),
{
    let first = match lock_text {
        Some(t) => parse_pid(t.as_str()),
        None => None,
    };
    if first.is_some() {
        return first;
    }
    match sidecar_text {
        Some(t) => parse_pid(t.as_str()),
        None => None,
    }
}

/// Whether a process is a daemon, by the name that the system gives it.
pub fn process_is_auto_sync(comm: &Option<String>) -> (r: bool)
    ensures
        r == (comm is Some && trimmed(comm->0@) == "auto_sync"@),
{
    match comm {
        Some(name) => same(trim(name.as_str()).as_str(), "auto_sync"),
        None => false,
    }
}

/// Whether a process is a daemon, by the list of tasks on Windows.
pub fn task_list_names_auto_sync(output: &str) -> (r: bool)
    ensures
        r == holds_text(lowered(output@), "auto_sync.exe"@),
{
    contains(to_ascii_lowercase(output).as_str(), "auto_sync.exe")
}

/// What is done about the process that holds the lock.
#[derive(Debug, Clone, Copy, PartialEq, Eq, Structural)]
pub enum Takeover {
    /// It is this one.
    Leave,
    /// It is a daemon and is stopped.
    Stop(u32),
    /// It is not known, so every other daemon is stopped.
    StopOthers,
}

/// What is done about the process that holds the lock.
pub open spec fn takeover_of(pid: Option<u32>, own: u32, is_daemon: bool) -> Takeover {
    match pid {
        Some(p) => if p == own {
            Takeover::Leave
        } else if is_daemon {
            Takeover::Stop(p)
        } else {
            Takeover::StopOthers
        },
        None => Takeover::StopOthers,
    }
}

/// What is done about the process that holds the lock. A process that is no daemon is not stopped:
/// its number was handed out again.
pub fn takeover(pid: Option<u32>, own: u32, is_daemon: bool) -> (r: Takeover)
    ensures
        r == takeover_of(pid, own, is_daemon),
{
    match pid {
        Some(p) => {
            if p == own {
                Takeover::Leave
            } else if is_daemon {
                Takeover::Stop(p)
            } else {
                Takeover::StopOthers
            }
        },
        None => Takeover::StopOthers,
    }
}

/// A process: what its directory is called, and the name that the system gives it.
#[derive(Debug)]
pub struct ProcessFact {
    pub dir: String,
    pub comm: Option<String>,
}

impl View for ProcessFact {
    type V = (Seq<char>, Option<Seq<char>>);

    open spec fn view(&self) -> (Seq<char>, Option<Seq<char>>) {
        (self.dir@, opt_view(self.comm))
    }
}

/// A daemon that is not this process.
pub open spec fn other_daemon(own: u32) -> spec_fn((Seq<char>, Option<Seq<char>>)) -> Option<u32> {
    |p: (Seq<char>, Option<Seq<char>>)|
        match parsed_number(p.0, 10, u32::MAX as int) {
            Some(n) => if n != own && p.1 is Some && trimmed(p.1->0) == "auto_sync"@ {
                Some(n as u32)
            } else {
                None
            },
            None => None,
        }
}

/// The daemons that are not this process.
pub fn other_auto_sync_processes(processes: &Vec<ProcessFact>, own: u32) -> (out: Vec<u32>)
    ensures
        out@ == views(processes@).filter_map(other_daemon(own)),
{
    let ghost all = views(processes@);
    let ghost f = other_daemon(own);
    let mut out: Vec<u32> = Vec::new();
    proof {
        assert(all.take(0) =~= Seq::empty());
        assert(out@ =~= all.take(0).filter_map(f));
    }
    for i in 0..processes.len()
        invariant
            all == views(processes@),
            f == other_daemon(own),
            out@ == all.take(i as int).filter_map(f),
    {
        let p = &processes[i];
        let ghost was = out@;
        proof {
            assert(all[i as int] == p@);
            all.lemma_filter_map_take_succ(f, i as int);
        }
        let mut found: Option<u32> = None;
        match parse_number(p.dir.as_str(), 10, 0xffff_ffff) {
            Some(n) => {
                if n as u32 != own && process_is_auto_sync(&p.comm) {
                    found = Some(n as u32);
                }
            },
            None => {},
        }
        proof {
            assert(found == f(p@));
            assert(all.take(i + 1).filter_map(f) =~= (match found {
                Some(n) => was.push(n),
                None => was,
            }));
        }
        match found {
            Some(n) => {
                out.push(n);
            },
            None => {},
        }
    }
    proof {
        assert(all.take(all.len() as int) =~= all);
    }
    out
}

/// The test for fields of a line of the list of tasks: they stand between quotes.
pub open spec fn task_field() -> spec_fn(Seq<char>) -> bool {
    |p: Seq<char>| p.len() > 0 && p != ","@
}

/// The daemon that a line of the list of tasks on Windows names, unless it is this process: the
/// program is the first field, its number the second.
pub open spec fn listed_daemon(own: u32) -> spec_fn(Seq<char>) -> Option<u32> {
    |line: Seq<char>|
        {
            let fields = split_parts(line, '"').filter(task_field());
            if fields.len() >= 2 && same_ignoring_case(fields[0], "auto_sync.exe"@) {
                match parsed_number(fields[1], 10, u32::MAX as int) {
                    Some(n) => if n != own {
                        Some(n as u32)
                    } else {
                        None
                    },
                    None => None,
                }
            } else {
                None
            }
        }
}

/// The fields of a line of the list of tasks.
fn task_fields(line: &str) -> (out: Vec<String>)
    ensures
        views(out@) == split_parts(line@, '"').filter(task_field()),
{
    let parts = split(line, '"');
    let ghost all = views(parts@);
    let ghost test = task_field();
    let mut out: Vec<String> = Vec::new();
    proof {
        assert(views(out@) =~= all.take(0).filter(test));
    }
    for i in 0..parts.len()
        invariant
            all == views(parts@),
            test == task_field(),
            views(out@) == all.take(i as int).filter(test),
    {
        let p = &parts[i];
        let ghost was = views(out@);
        proof {
            assert(all[i as int] == p@);
            assert(all.take(i + 1) =~= all.take(i as int).push(p@));
            all.take(i as int).lemma_filter_push(p@, test);
        }
        if !is_blank(p.as_str()) && !same(p.as_str(), ",") {
            out.push(p.clone());
            proof {
                assert(views(out@) =~= was.push(p@));
            }
        }
    }
    proof {
        assert(all.take(all.len() as int) =~= all);
    }
    out
}

/// The daemons in the list of tasks on Windows that are not this process.
pub fn listed_auto_sync_processes(output: &str, own: u32) -> (out: Vec<u32>)
    ensures
        out@ == line_parts(output@).filter_map(listed_daemon(own)),
{
    let rows = lines(output);
    let ghost all = views(rows@);
    let ghost f = listed_daemon(own);
    let mut out: Vec<u32> = Vec::new();
    proof {
        assert(all.take(0) =~= Seq::empty());
        assert(out@ =~= all.take(0).filter_map(f));
    }
    for i in 0..rows.len()
        invariant
            all == views(rows@),
            f == listed_daemon(own),
            out@ == all.take(i as int).filter_map(f),
    {
        let ghost was = out@;
        let fields = task_fields(rows[i].as_str());
        let ghost fv = views(fields@);
        proof {
            assert(all[i as int] == rows@[i as int]@);
            all.lemma_filter_map_take_succ(f, i as int);
            assert(fv.len() == fields.len());
        }
        let mut found: Option<u32> = None;
        if fields.len() >= 2 {
            proof {
                assert(fv[0] == fields@[0]@ && fv[1] == fields@[1]@);
            }
            if eq_ignore_ascii_case(fields[0].as_str(), "auto_sync.exe") {
                match parse_number(fields[1].as_str(), 10, 0xffff_ffff) {
                    Some(n) => {
                        if n as u32 != own {
                            found = Some(n as u32);
                        }
                    },
                    None => {},
                }
            }
        }
        proof {
            assert(found == f(all[i as int]));
            assert(all.take(i + 1).filter_map(f) =~= (match found {
                Some(n) => was.push(n),
                None => was,
            }));
        }
        match found {
            Some(n) => {
                out.push(n);
            },
            None => {},
        }
    }
    proof {
        assert(all.take(all.len() as int) =~= all);
    }
    out
}

/// What comes after a try to take the lock.
#[derive(Debug, Clone, Copy, PartialEq, Eq, Structural)]
pub enum LockStep {
    /// The lock is held; the process is written down.
    Hold,
    /// The process that holds it is dealt with, and the lock is tried again.
    TakeOver,
    /// The lock is tried again after a while.
    Retry,
    /// The other process still holds the lock.
    Refuse,
}

/// What comes after a try to take the lock, where so many came before it.
pub open spec fn after_try(earlier: int, locked: bool) -> LockStep {
    if locked {
        LockStep::Hold
    } else if earlier == 0 {
        LockStep::TakeOver
    } else if earlier < LOCK_TRIES {
        LockStep::Retry
    } else {
        LockStep::Refuse
    }
}

/// What comes after a try to take the lock, where so many came before it.
pub fn acquire_single_instance_lock(earlier: usize, locked: bool) -> (r: LockStep)
    ensures
        r == after_try(earlier as int, locked),
{
    if locked {
        LockStep::Hold
    } else if earlier == 0 {
        LockStep::TakeOver
    } else if earlier < LOCK_TRIES {
        LockStep::Retry
    } else {
        LockStep::Refuse
    }
}

/// This process is never stopped when it takes over, and no process that is not a daemon is.
pub proof fn only_other_daemons_are_stopped(
    pid: Option<u32>,
    own: u32,
    is_daemon: bool,
    processes: Seq<(Seq<char>, Option<Seq<char>>)>,
)
    ensures
        takeover_of(pid, own, is_daemon) is Stop ==> is_daemon && pid is Some && pid->0 != own
            && takeover_of(pid, own, is_daemon) == Takeover::Stop(pid->0),
        forall|i: int|
            0 <= i < processes.filter_map(other_daemon(own)).len() ==> #[trigger] processes.filter_map(
                other_daemon(own),
            )[i] != own,
    decreases processes.len(),
{
    let f = other_daemon(own);
    if processes.len() > 0 {
        only_other_daemons_are_stopped(pid, own, is_daemon, processes.drop_last());
        processes.lemma_filter_map_take_succ(f, processes.len() - 1);
        assert(processes.take(processes.len() - 1) =~= processes.drop_last());
        assert(processes.take(processes.len() as int) =~= processes);
        lemma_parsed_fits(processes.last().0);
    } else {
        assert(processes.filter_map(f) =~= Seq::empty());
    }
}

proof fn lemma_parsed_fits(s: Seq<char>)
    ensures
        parsed_number(s, 10, u32::MAX as int) is Some ==> 0 <= parsed_number(
            s,
            10,
            u32::MAX as int,
        )->0 <= u32::MAX,
{
    let digits = if s.len() > 0 && s[0] == '+' {
        s.drop_first()
    } else {
        s
    };
    lemma_digits_monotone(digits, 0, 10);
}

/// Every daemon that runs as another process is among those that are stopped.
pub proof fn every_other_daemon_is_found(
    processes: Seq<(Seq<char>, Option<Seq<char>>)>,
    own: u32,
    pid: u32,
    i: int,
)
    requires
        0 <= i < processes.len(),
        processes[i].0 == decimal_text(pid as nat),
        processes[i].1 is Some,
        trimmed(processes[i].1->0) == "auto_sync"@,
        pid != own,
    ensures
        processes.filter_map(other_daemon(own)).contains(pid),
    decreases processes.len(),
{
    let f = other_daemon(own);
    let t = processes.drop_last();
    let before = t.filter_map(f);
    let now = processes.filter_map(f);
    if i < t.len() {
        every_other_daemon_is_found(t, own, pid, i);
        let k = choose|k: int| 0 <= k < before.len() && before[k] == pid;
        assert(now[k] == pid);
    } else {
        decimal_is_read_back(pid as nat, u32::MAX as int);
        assert(f(processes.last()) == Some(pid));
        assert(now[before.len() as int] == pid);
    }
}

/// Another daemon that holds the lock is stopped; the lock is taken whenever it is free, the first
/// try that fails stops the others, and it is given up after twenty-five more.
pub proof fn locks_are_taken_over(own: u32, pid: u32, earlier: int)
    requires
        pid != own,
        0 <= earlier,
    ensures
        takeover_of(Some(pid), own, true) == Takeover::Stop(pid),
        takeover_of(Some(own), own, true) is Leave,
        takeover_of(Some(pid), own, false) is StopOthers,
        takeover_of(None, own, true) is StopOthers,
        after_try(earlier, true) is Hold,
        after_try(0, false) is TakeOver,
        1 <= earlier < 25 ==> after_try(earlier, false) is Retry,
        25 <= earlier ==> after_try(earlier, false) is Refuse,
{
}

} // verus!
