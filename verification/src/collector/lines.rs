//! The lines that are logged while files are collected, and what is shown as being worked on.

use crate::collector::archive::SqliteSnapshot;
use crate::collector::pull::{PullHost, PullModel, PullPhase};
use crate::collector::remote::{quoted, shell_quote};
use crate::text::{decimal, decimal_text, opt_view};
use vstd::prelude::*;

verus! {

/// The line for a repository that is set up.
pub fn git_init_line(git_dir: &str) -> (r: String)
    ensures
        r@ == "git init "@ + git_dir@,
{
    let mut r = "git init ".to_string();
    r.append(git_dir);
    r
}

/// The line for paths that are taken as an archive.
pub fn tar_line(paths: usize, dest: &str, root: &str) -> (r: String)
    ensures
        r@ == "  tar "@ + decimal_text(paths as nat) + " path(s) from "@ + dest@ + " -> "@ + root@,
{
    let mut r = "  tar ".to_string();
    r.append(decimal(paths as u64).as_str());
    r.append(" path(s) from ");
    r.append(dest);
    r.append(" -> ");
    r.append(root);
    r
}

/// The line for names that could not be stored as they are; none where there are none.
pub fn manifest_line(encoded: usize) -> (r: Option<String>)
    ensures
        opt_view(r) == (if encoded == 0 {
            None
        } else {
            Some(
                "  name manifest: encoded "@ + decimal_text(encoded as nat)
                    + " Linux byte-name path(s)"@,
            )
        }),
{
    if encoded == 0 {
        return None;
    }
    let mut r = "  name manifest: encoded ".to_string();
    r.append(decimal(encoded as u64).as_str());
    r.append(" Linux byte-name path(s)");
    Some(r)
}

/// The line for a database of which a snapshot was taken.
pub fn snapshot_line(snapshot: &SqliteSnapshot) -> (r: String)
    ensures
        r@ == "  sqlite snapshot /"@ + snapshot.source_rel@ + " -> "@ + snapshot.remote_tmp@,
{
    let mut r = "  sqlite snapshot /".to_string();
    r.append(snapshot.source_rel.as_str());
    r.append(" -> ");
    r.append(snapshot.remote_tmp.as_str());
    r
}

/// The line for a snapshot that is copied.
pub fn snapshot_copy_line(dest: &str, snapshot: &SqliteSnapshot, local: &str) -> (r: String)
    ensures
        r@ == "  sqlite snapshot "@ + dest@ + ":"@ + snapshot.remote_tmp@ + " -> "@ + local@,
{
    let mut r = "  sqlite snapshot ".to_string();
    r.append(dest);
    r.append(":");
    r.append(snapshot.remote_tmp.as_str());
    r.append(" -> ");
    r.append(local);
    r
}

/// The line for the removal of snapshots, which may have failed.
pub fn cleanup_line(failure: Option<&str>) -> (r: String)
    ensures
        r@ == (match failure {
            None => "  sqlite snapshot cleanup: removed remote temp files"@,
            Some(e) => "  sqlite snapshot cleanup: could not remove remote temp files: "@ + e@,
        }),
{
    match failure {
        None => "  sqlite snapshot cleanup: removed remote temp files".to_string(),
        Some(e) => {
            let mut r =
                "  sqlite snapshot cleanup: could not remove remote temp files: ".to_string();
            r.append(e);
            r
        },
    }
}

/// The line for a path of which the modes could not be read.
pub fn perms_failed_line(path: &str, failure: &str) -> (r: String)
    ensures
        r@ == "  perms: "@ + path@ + ": "@ + failure@,
{
    let mut r = "  perms: ".to_string();
    r.append(path);
    r.append(": ");
    r.append(failure);
    r
}

/// The line for the modes that were recorded.
pub fn perms_recorded_line(count: usize) -> (r: String)
    ensures
        r@ == "  perms: recorded "@ + decimal_text(count as nat) + " entries"@,
{
    let mut r = "  perms: recorded ".to_string();
    r.append(decimal(count as u64).as_str());
    r.append(" entries");
    r
}

/// The line for a path that is copied as a whole.
pub fn scp_line(dest: &str, remote: &str, local: &str) -> (r: String)
    ensures
        r@ == "  scp "@ + dest@ + ":"@ + remote@ + " -> "@ + local@,
{
    let mut r = "  scp ".to_string();
    r.append(dest);
    r.append(":");
    r.append(remote);
    r.append(" -> ");
    r.append(local);
    r
}

/// The line for a path that is left out.
pub fn ignore_line(child: &str) -> (r: String)
    ensures
        r@ == "  ignore "@ + child@ + " (excluded)"@,
{
    let mut r = "  ignore ".to_string();
    r.append(child);
    r.append(" (excluded)");
    r
}

/// The line for a part of a split file that was removed.
pub fn part_line(path: &str) -> (r: String)
    ensures
        r@ == "  removed legacy split part "@ + path@,
{
    let mut r = "  removed legacy split part ".to_string();
    r.append(path);
    r
}

/// The line for a large file that is tracked, with its size in full mebibytes.
pub fn lfs_line(rel: &str, bytes: u64) -> (r: String)
    ensures
        r@ == "  lfs track "@ + rel@ + " ("@ + decimal_text((bytes / 1048576) as nat) + " MiB)"@,
{
    let mut r = "  lfs track ".to_string();
    r.append(rel);
    r.append(" (");
    r.append(decimal(bytes / 1048576).as_str());
    r.append(" MiB)");
    r
}

/// What stands before the lines that a git command prints.
pub fn git_prefix(command: &str) -> (r: String)
    ensures
        r@ == "  git "@ + command@ + " | "@,
{
    let mut r = "  git ".to_string();
    r.append(command);
    r.append(" | ");
    r
}

/// The command that lists the entries of a remote directory.
pub fn list_command(dir: &str) -> (r: String)
    ensures
        r@ == "cd -- "@ + quoted(dir@) + " 2>/dev/null && ls -A1 2>/dev/null"@,
{
    let mut r = "cd -- ".to_string();
    r.append(shell_quote(dir).as_str());
    r.append(" 2>/dev/null && ls -A1 2>/dev/null");
    r
}

/// What is shown as being worked on before the first piece of a kind of work on a host, where there
/// is a text for it.
pub open spec fn heading_of(p: PullModel) -> Option<Seq<char>> {
    match p.phase {
        PullPhase::Classifying(i) => if i == 0 {
            Some(decimal_text(p.targets.len()) + " path(s) from "@ + p.label)
        } else {
            None
        },
        PullPhase::Symlinks(i) => if i == 0 {
            Some(decimal_text(p.symlinks.len()) + " symlink file(s) from "@ + p.label)
        } else {
            None
        },
        PullPhase::Dirs(i) => if i == 0 {
            Some(decimal_text(p.dirs.len()) + " folder(s) from "@ + p.label)
        } else {
            None
        },
        _ => None,
    }
}

/// A number of things of a host.
fn counted_from(count: usize, what: &str, label: &str) -> (r: String)
    ensures
        r@ == decimal_text(count as nat) + what@ + label@,
{
    let mut r = decimal(count as u64);
    r.append(what);
    r.append(label);
    r
}

/// What is shown as being worked on before the first piece of a kind of work on a host, where there
/// is a text for it.
pub fn heading(pull: &PullHost) -> (r: Option<String>)
    ensures
        opt_view(r) == heading_of(pull@),
{
    let label = pull.label.as_str();
    match pull.phase {
        PullPhase::Classifying(0) => Some(
            counted_from(pull.targets.len(), " path(s) from ", label),
        ),
        PullPhase::Symlinks(0) => Some(
            counted_from(pull.symlinks.len(), " symlink file(s) from ", label),
        ),
        PullPhase::Dirs(0) => Some(counted_from(pull.dirs.len(), " folder(s) from ", label)),
        _ => None,
    }
}

} // verus!
