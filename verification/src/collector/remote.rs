//! Remote paths, what is left out of a collection, and the commands that reach a remote host.

use crate::config::types::{CollectorHost, CollectorHostModel};
use crate::paths::keeps_piece;
use crate::text::{
    chars_of, cut_last, decimal, decimal_text, is_blank, join, joined, opt_view, replace_char,
    replaced, rsplit_once, same, split, split_parts, starts_with, string_of_range, trim,
    trim_end_matches, trimmed, views, without_trailing,
};
use vstd::prelude::*;

verus! {

/// A value as one word of a shell command.
pub open spec fn quoted(value: Seq<char>) -> Seq<char> {
    "'"@ + replaced(value, '\'', "'\\''"@) + "'"@
}

/// The value as one word of a shell command.
pub fn shell_quote(value: &str) -> (r: String)
    ensures
        r@ == quoted(value@),
{
    let mut r = "'".to_string();
    r.append(replace_char(value, '\'', "'\\''").as_str());
    r.append("'");
    r
}

/// Where a shell stands in a word, with the value read so far.
pub struct ShellWord {
    /// Inside single quotes.
    pub inside: bool,
    /// After a backslash.
    pub escaped: bool,
    pub value: Seq<char>,
}

/// How a shell reads a word of single-quoted and backslash-escaped parts.
pub open spec fn shell_reads(s: Seq<char>) -> ShellWord
    decreases s.len(),
{
    if s.len() == 0 {
        ShellWord { inside: false, escaped: false, value: Seq::empty() }
    } else {
        let w = shell_reads(s.drop_last());
        let c = s.last();
        if w.escaped {
            ShellWord { escaped: false, value: w.value.push(c), ..w }
        } else if c == '\'' {
            ShellWord { inside: !w.inside, ..w }
        } else if c == '\\' && !w.inside {
            ShellWord { escaped: true, ..w }
        } else {
            ShellWord { value: w.value.push(c), ..w }
        }
    }
}

/// A shell reads a quoted value back as that value, whatever characters it holds.
pub proof fn shell_reads_back_quoted(value: Seq<char>)
    ensures
        shell_reads(quoted(value)) == (ShellWord { inside: false, escaped: false, value }),
{
    reveal_strlit("'");
    lemma_shell_inside(value);
    let open = "'"@ + replaced(value, '\'', "'\\''"@);
    assert(quoted(value).drop_last() =~= open);
    assert(quoted(value).last() == '\'');
}

proof fn lemma_shell_inside(value: Seq<char>)
    ensures
        shell_reads("'"@ + replaced(value, '\'', "'\\''"@)) == (ShellWord {
            inside: true,
            escaped: false,
            value,
        }),
    decreases value.len(),
{
    reveal_strlit("'");
    reveal_strlit("'\\''");
    let q = "'\\''"@;
    let out = "'"@ + replaced(value, '\'', q);
    if value.len() == 0 {
        assert(out =~= seq!['\'']);
        assert(out.drop_last() =~= Seq::<char>::empty());
        assert(shell_reads(out.drop_last()) == (ShellWord {
            inside: false,
            escaped: false,
            value: Seq::empty(),
        }));
        assert(value =~= Seq::<char>::empty());
    } else {
        let t = value.drop_last();
        lemma_shell_inside(t);
        let before = "'"@ + replaced(t, '\'', q);
        let c = value.last();
        assert(t.push(c) =~= value);
        if c == '\'' {
            assert(out =~= before.push('\'').push('\\').push('\'').push('\''));
            let s1 = before.push('\'');
            let s2 = s1.push('\\');
            let s3 = s2.push('\'');
            assert(s1.drop_last() =~= before);
            assert(s2.drop_last() =~= s1);
            assert(s3.drop_last() =~= s2);
            assert(out.drop_last() =~= s3);
            assert(shell_reads(s1) == (ShellWord { inside: false, escaped: false, value: t }));
            assert(shell_reads(s2) == (ShellWord { inside: false, escaped: true, value: t }));
            assert(shell_reads(s3) == (ShellWord { inside: false, escaped: false, value }));
        } else {
            assert(out =~= before.push(c));
            assert(out.drop_last() =~= before);
        }
    }
}

/// Why a remote path was refused.
#[derive(Debug, Clone, Copy, PartialEq, Eq, Structural)]
pub enum RemotePathError {
    /// It is the root of the remote file system.
    Root,
    /// It leads upwards.
    Upwards,
}

/// The components of a remote path that name something.
pub open spec fn remote_parts(remote: Seq<char>) -> Seq<Seq<char>> {
    split_parts(without_trailing(trimmed(remote), '/'), '/').filter(keeps_piece())
}

/// What is wrong with a remote path: it names nothing, or it leads upwards.
pub open spec fn remote_fault(remote: Seq<char>) -> Option<RemotePathError> {
    if remote_parts(remote).len() == 0 {
        Some(RemotePathError::Root)
    } else if remote_parts(remote).contains(".."@) {
        Some(RemotePathError::Upwards)
    } else {
        None
    }
}

impl RemotePathError {
    /// The error as shown to users, for a path that was to be pulled or to be archived.
    pub fn message(&self, archive: bool) -> (r: String)
        ensures
            r@ == (match (*self, archive) {
                (RemotePathError::Root, false) => "refusing to pull the remote root '/'"@,
                (RemotePathError::Root, true) => "refusing to archive the remote root '/'"@,
                (RemotePathError::Upwards, _) => "remote path must not contain '..'"@,
            }),
    {
        match (self, archive) {
            (RemotePathError::Root, false) => "refusing to pull the remote root '/'".to_string(),
            (RemotePathError::Root, true) => "refusing to archive the remote root '/'".to_string(),
            (RemotePathError::Upwards, _) => "remote path must not contain '..'".to_string(),
        }
    }
}

/// The components of a path that name something.
fn kept_pieces(p: &str) -> (out: Vec<String>)
    ensures
        views(out@) == split_parts(p@, '/').filter(keeps_piece()),
{
    let pieces = split(p, '/');
    let ghost all = views(pieces@);
    let mut out: Vec<String> = Vec::new();
    proof {
        assert(views(out@) =~= all.take(0).filter(keeps_piece()));
        reveal_strlit(".");
        assert("."@ =~= seq!['.']);
    }
    for i in 0..pieces.len()
        invariant
            all == views(pieces@),
            "."@ == seq!['.'],
            views(out@) == all.take(i as int).filter(keeps_piece()),
    {
        let piece = pieces[i].as_str();
        let ghost was = views(out@);
        proof {
            assert(all.take(i + 1) =~= all.take(i as int).push(all[i as int]));
            all.take(i as int).lemma_filter_push(all[i as int], keeps_piece());
            assert(all[i as int] == piece@);
        }
        if !is_blank(piece) && !same(piece, ".") {
            let item = pieces[i].clone();
            out.push(item);
            proof {
                assert(views(out@) =~= was.push(piece@));
            }
        }
    }
    proof {
        assert(all.take(all.len() as int) =~= all);
    }
    out
}

/// The components of a remote path that name something, unless the path is refused.
fn checked_parts(remote: &str) -> (r: Result<Vec<String>, RemotePathError>)
    ensures
        (match r {
            Ok(_) => None,
            Err(e) => Some(e),
        }) == remote_fault(remote@),
        r is Ok ==> views(r->Ok_0@) == remote_parts(remote@) && r->Ok_0@.len() > 0,
{
    let t = trim_end_matches(trim(remote).as_str(), '/');
    let parts = kept_pieces(t.as_str());
    if parts.len() == 0 {
        return Err(RemotePathError::Root);
    }
    if crate::config::clean::holds(&parts, "..") {
        return Err(RemotePathError::Upwards);
    }
    Ok(parts)
}

/// The directories above a remote path, none of which can lead out of the local root.
pub fn remote_parent_components(remote: &str) -> (r: Result<Vec<String>, RemotePathError>)
    ensures
        (match r {
            Ok(_) => None,
            Err(e) => Some(e),
        }) == remote_fault(remote@),
        r is Ok ==> views(r->Ok_0@) == remote_parts(remote@).drop_last(),
{
    match checked_parts(remote) {
        Ok(parts) => {
            let mut parts = parts;
            parts.pop();
            proof {
                assert(views(parts@) =~= remote_parts(remote@).drop_last());
            }
            Ok(parts)
        },
        Err(e) => Err(e),
    }
}

/// A remote path as it stands in an archive.
pub open spec fn archive_path(remote: Seq<char>) -> Seq<char> {
    joined(remote_parts(remote), "/"@)
}

/// The remote path as it stands in an archive.
pub fn remote_tar_path(remote: &str) -> (r: Result<String, RemotePathError>)
    ensures
        (match r {
            Ok(_) => None,
            Err(e) => Some(e),
        }) == remote_fault(remote@),
        r is Ok ==> r->Ok_0@ == archive_path(remote@),
{
    match checked_parts(remote) {
        Ok(parts) => Ok(join(&parts, "/")),
        Err(e) => Err(e),
    }
}

/// No component of an accepted remote path leads upwards or is empty, so the path stays under the
/// directory that it is reconstructed in.
pub proof fn accepted_remote_path_stays_inside(remote: Seq<char>)
    requires
        remote_fault(remote) is None,
    ensures
        remote_parts(remote).len() > 0,
        forall|i: int|
            0 <= i < remote_parts(remote).len() ==> {
                let p = #[trigger] remote_parts(remote)[i];
                p.len() > 0 && p != ".."@ && p != seq!['.'] && !p.contains('/')
            },
{
    let text = without_trailing(trimmed(remote), '/');
    let pieces = split_parts(text, '/');
    crate::text::split_pieces_are_free_of_separator(text, '/');
    assert forall|i: int| 0 <= i < remote_parts(remote).len() implies {
        let p = #[trigger] remote_parts(remote)[i];
        p.len() > 0 && p != ".."@ && p != seq!['.'] && !p.contains('/')
    } by {
        let p = remote_parts(remote)[i];
        pieces.lemma_filter_pred(keeps_piece(), i);
        pieces.lemma_filter_contains_rev(keeps_piece(), p);
        assert(remote_parts(remote).contains(p));
        let k = choose|k: int| 0 <= k < pieces.len() && pieces[k] == p;
        assert(!pieces[k].contains('/'));
    }
}

/// The test for texts that are not empty.
pub open spec fn filled() -> spec_fn(Seq<char>) -> bool {
    |p: Seq<char>| p.len() > 0
}

/// A path of an archive as a local relative path: without empty components.
pub open spec fn local_path(rel: Seq<char>) -> Seq<char> {
    joined(split_parts(rel, '/').filter(filled()), "/"@)
}

/// A path of an archive as a local relative path.
pub fn local_rel_path(rel: &str) -> (r: String)
    ensures
        r@ == local_path(rel@),
{
    let pieces = split(rel, '/');
    let ghost all = views(pieces@);
    let mut out: Vec<String> = Vec::new();
    proof {
        assert(views(out@) =~= all.take(0).filter(filled()));
    }
    for i in 0..pieces.len()
        invariant
            all == views(pieces@),
            views(out@) == all.take(i as int).filter(filled()),
    {
        let piece = pieces[i].as_str();
        let ghost was = views(out@);
        proof {
            assert(all.take(i + 1) =~= all.take(i as int).push(all[i as int]));
            all.take(i as int).lemma_filter_push(all[i as int], filled());
            assert(all[i as int] == piece@);
        }
        if !is_blank(piece) {
            let item = pieces[i].clone();
            out.push(item);
            proof {
                assert(views(out@) =~= was.push(piece@));
            }
        }
    }
    proof {
        assert(all.take(all.len() as int) =~= all);
    }
    join(&out, "/")
}

/// Whether a path is `root` or lies under it, by their texts.
pub open spec fn within(path: Seq<char>, root: Seq<char>) -> bool {
    path == root || (root + "/"@).is_prefix_of(path)
}

/// Whether a path is `root` or lies under it.
pub fn path_is_under_root(path: &str, root: &str) -> (r: bool)
    ensures
        r == within(path@, root@),
{
    if same(path, root) {
        return true;
    }
    let mut prefix = root.to_string();
    prefix.append("/");
    starts_with(path, prefix.as_str())
}

/// Whether a path is one of the roots or lies under one of them.
pub open spec fn within_any(path: Seq<char>, roots: Seq<Seq<char>>) -> bool {
    exists|i: int| 0 <= i < roots.len() && within(path, #[trigger] roots[i])
}

/// Whether a path is one of the roots or lies under one of them.
pub fn is_within_any(path: &str, roots: &Vec<String>) -> (r: bool)
    ensures
        r == within_any(path@, views(roots@)),
{
    for i in 0..roots.len()
        invariant
            forall|j: int| 0 <= j < i ==> !within(path@, #[trigger] views(roots@)[j]),
    {
        if path_is_under_root(path, roots[i].as_str()) {
            proof {
                assert(within(path@, views(roots@)[i as int]));
            }
            return true;
        }
    }
    false
}

/// An excluded path without blanks around it and separators behind it.
pub open spec fn tidy_exclude() -> spec_fn(Seq<char>) -> Seq<char> {
    |e: Seq<char>| without_trailing(trimmed(e), '/')
}

/// The excluded paths without blanks around them and separators behind them.
pub open spec fn tidy_excludes(raw: Seq<Seq<char>>) -> Seq<Seq<char>> {
    raw.map_values(tidy_exclude()).filter(filled())
}

/// The excluded paths without blanks around them and separators behind them.
pub fn normalize_excludes(raw: &Vec<String>) -> (out: Vec<String>)
    ensures
        views(out@) == tidy_excludes(views(raw@)),
{
    let ghost all = views(raw@).map_values(tidy_exclude());
    let mut out: Vec<String> = Vec::new();
    proof {
        assert(views(out@) =~= all.take(0).filter(filled()));
    }
    for i in 0..raw.len()
        invariant
            all == views(raw@).map_values(tidy_exclude()),
            views(out@) == all.take(i as int).filter(filled()),
    {
        let e = trim_end_matches(trim(raw[i].as_str()).as_str(), '/');
        let ghost was = views(out@);
        let ghost ev = e@;
        proof {
            assert(all[i as int] == ev);
            assert(all.take(i + 1) =~= all.take(i as int).push(ev));
            all.take(i as int).lemma_filter_push(ev, filled());
        }
        if !is_blank(e.as_str()) {
            out.push(e);
            proof {
                assert(views(out@) =~= was.push(ev));
            }
        }
    }
    proof {
        assert(all.take(all.len() as int) =~= all);
    }
    out
}

/// Whether a path is excluded or lies under an excluded one.
pub open spec fn excluded(path: Seq<char>, excludes: Seq<Seq<char>>) -> bool {
    within_any(without_trailing(path, '/'), excludes)
}

/// Whether a path is excluded or lies under an excluded one.
pub fn is_excluded(path: &str, excludes: &Vec<String>) -> (r: bool)
    ensures
        r == excluded(path@, views(excludes@)),
{
    is_within_any(trim_end_matches(path, '/').as_str(), excludes)
}

/// Whether something under a directory is excluded.
pub open spec fn excluded_under(dir: Seq<char>, excludes: Seq<Seq<char>>) -> bool {
    exists|i: int|
        0 <= i < excludes.len() && (without_trailing(dir, '/') + "/"@).is_prefix_of(
            #[trigger] excludes[i],
        )
}

/// Whether something under a directory is excluded, so that it has to be pulled piece by piece.
pub fn has_exclude_under(dir: &str, excludes: &Vec<String>) -> (r: bool)
    ensures
        r == excluded_under(dir@, views(excludes@)),
{
    let mut prefix = trim_end_matches(dir, '/');
    prefix.append("/");
    for i in 0..excludes.len()
        invariant
            prefix@ == without_trailing(dir@, '/') + "/"@,
            forall|j: int| 0 <= j < i ==> !prefix@.is_prefix_of(#[trigger] views(excludes@)[j]),
    {
        if starts_with(excludes[i].as_str(), prefix.as_str()) {
            proof {
                assert(prefix@.is_prefix_of(views(excludes@)[i as int]));
            }
            return true;
        }
    }
    false
}

/// What lies under an excluded path is excluded with it.
pub proof fn exclusion_reaches_down(path: Seq<char>, below: Seq<char>, excludes: Seq<Seq<char>>)
    requires
        within_any(path, excludes),
        within(below, path),
    ensures
        within_any(below, excludes),
{
    let i = choose|i: int| 0 <= i < excludes.len() && within(path, #[trigger] excludes[i]);
    let e = excludes[i];
    if below != path && path != e {
        let a = e + "/"@;
        let b = path + "/"@;
        assert(a == path.subrange(0, a.len() as int));
        assert(b == below.subrange(0, b.len() as int));
        assert(b.subrange(0, a.len() as int) =~= a);
        assert(below.subrange(0, a.len() as int) =~= a);
    }
    assert(within(below, excludes[i]));
}

/// The archive patterns for one excluded path: the path and what lies under it, where it lies
/// under a root that is archived.
pub open spec fn exclude_patterns(roots: Seq<Seq<char>>, exclude: Seq<char>) -> Seq<Seq<char>> {
    if remote_fault(exclude) is None && within_any(archive_path(exclude), roots) {
        seq![archive_path(exclude), archive_path(exclude) + "/*"@]
    } else {
        Seq::empty()
    }
}

/// The archive patterns for all excluded paths.
pub open spec fn all_exclude_patterns(roots: Seq<Seq<char>>, excludes: Seq<Seq<char>>) -> Seq<
    Seq<char>,
>
    decreases excludes.len(),
{
    if excludes.len() == 0 {
        Seq::empty()
    } else {
        all_exclude_patterns(roots, excludes.drop_last()) + exclude_patterns(
            roots,
            excludes.last(),
        )
    }
}

/// The archive patterns for the excluded paths that lie under an archived root.
pub fn tar_exclude_patterns(roots: &Vec<String>, excludes: &Vec<String>) -> (out: Vec<String>)
    ensures
        views(out@) == all_exclude_patterns(views(roots@), views(excludes@)),
{
    let ghost rs = views(roots@);
    let ghost all = views(excludes@);
    let mut out: Vec<String> = Vec::new();
    proof {
        assert(views(out@) =~= all_exclude_patterns(rs, all.take(0)));
    }
    for i in 0..excludes.len()
        invariant
            rs == views(roots@),
            all == views(excludes@),
            views(out@) == all_exclude_patterns(rs, all.take(i as int)),
    {
        let ghost was = views(out@);
        proof {
            assert(all.take(i + 1).drop_last() =~= all.take(i as int));
            assert(all.take(i + 1).last() == excludes@[i as int]@);
            assert(was + Seq::<Seq<char>>::empty() =~= was);
        }
        match remote_tar_path(excludes[i].as_str()) {
            Ok(rel) => {
                if is_within_any(rel.as_str(), roots) {
                    let mut below = rel.clone();
                    below.append("/*");
                    let ghost a = rel@;
                    let ghost b = below@;
                    out.push(rel);
                    out.push(below);
                    proof {
                        assert(views(out@) =~= was + seq![a, b]);
                    }
                }
            },
            Err(_) => {},
        }
    }
    proof {
        assert(all.take(all.len() as int) =~= all);
    }
    out
}

/// A name under a remote directory.
pub open spec fn remote_child(base: Seq<char>, name: Seq<char>) -> Seq<char> {
    if base == "/"@ {
        "/"@ + name
    } else {
        without_trailing(base, '/') + "/"@ + name
    }
}

/// A name under a remote directory.
pub fn join_remote(base: &str, name: &str) -> (r: String)
    ensures
        r@ == remote_child(base@, name@),
{
    let mut r: String = if same(base, "/") {
        String::new()
    } else {
        trim_end_matches(base, '/')
    };
    let ghost start = r@;
    r.append("/");
    r.append(name);
    proof {
        if base@ == "/"@ {
            assert(r@ =~= "/"@ + name@);
        }
    }
    r
}

/// The directory above a remote path; the root has none.
pub open spec fn remote_above(path: Seq<char>) -> Option<Seq<char>> {
    if path == "/"@ {
        None
    } else {
        match cut_last(without_trailing(path, '/'), '/') {
            Some(cut) => if cut.0.len() == 0 {
                Some("/"@)
            } else {
                Some(cut.0)
            },
            None => Some("/"@),
        }
    }
}

/// The directory above a remote path; the root has none.
pub fn remote_parent(path: &str) -> (r: Option<String>)
    ensures
        opt_view(r) == remote_above(path@),
{
    if same(path, "/") {
        return None;
    }
    match rsplit_once(trim_end_matches(path, '/').as_str(), '/') {
        Some(cut) => {
            if is_blank(cut.0.as_str()) {
                Some("/".to_string())
            } else {
                Some(cut.0)
            }
        },
        None => Some("/".to_string()),
    }
}

/// The tests that keep `find` out of one excluded path.
pub open spec fn prune_tests(root: Seq<char>, exclude: Seq<char>) -> Seq<Seq<char>> {
    let e = without_trailing(exclude, '/');
    if (root + "/"@).is_prefix_of(e) {
        seq!["-path "@ + quoted(e), "-path "@ + quoted(e + "/*"@)]
    } else {
        Seq::empty()
    }
}

/// The tests that keep `find` out of all excluded paths under `root`.
pub open spec fn all_prune_tests(root: Seq<char>, excludes: Seq<Seq<char>>) -> Seq<Seq<char>>
    decreases excludes.len(),
{
    if excludes.len() == 0 {
        Seq::empty()
    } else {
        all_prune_tests(root, excludes.drop_last()) + prune_tests(root, excludes.last())
    }
}

/// The part of a `find` command that keeps it out of the excluded paths.
pub open spec fn prune_clause(root: Seq<char>, excludes: Seq<Seq<char>>) -> Seq<char> {
    let tests = all_prune_tests(without_trailing(root, '/'), excludes);
    if tests.len() == 0 {
        Seq::empty()
    } else {
        "\\( "@ + joined(tests, " -o "@) + " \\) -prune -o "@
    }
}

/// The part of a `find` command that keeps it out of the excluded paths.
pub fn find_prune_clause(root: &str, excludes: &Vec<String>) -> (r: String)
    ensures
        r@ == prune_clause(root@, views(excludes@)),
{
    let base = trim_end_matches(root, '/');
    let mut prefix = base.clone();
    prefix.append("/");
    let ghost all = views(excludes@);
    let mut tests: Vec<String> = Vec::new();
    proof {
        assert(views(tests@) =~= all_prune_tests(base@, all.take(0)));
    }
    for i in 0..excludes.len()
        invariant
            all == views(excludes@),
            prefix@ == base@ + "/"@,
            views(tests@) == all_prune_tests(base@, all.take(i as int)),
    {
        let ghost was = views(tests@);
        proof {
            assert(all.take(i + 1).drop_last() =~= all.take(i as int));
            assert(all.take(i + 1).last() == excludes@[i as int]@);
            assert(was + Seq::<Seq<char>>::empty() =~= was);
        }
        let e = trim_end_matches(excludes[i].as_str(), '/');
        if starts_with(e.as_str(), prefix.as_str()) {
            let mut this = "-path ".to_string();
            this.append(shell_quote(e.as_str()).as_str());
            let mut below = e.clone();
            below.append("/*");
            let mut under = "-path ".to_string();
            under.append(shell_quote(below.as_str()).as_str());
            let ghost a = this@;
            let ghost b = under@;
            tests.push(this);
            tests.push(under);
            proof {
                assert(views(tests@) =~= was + seq![a, b]);
            }
        }
    }
    proof {
        assert(all.take(all.len() as int) =~= all);
    }
    if tests.len() == 0 {
        return String::new();
    }
    let mut r = "\\( ".to_string();
    r.append(join(&tests, " -o ").as_str());
    r.append(" \\) -prune -o ");
    r
}

/// How a remote host is reached.
#[derive(Debug)]
pub struct SshConn {
    pub hostname: String,
    pub user: String,
    pub port: u16,
    pub identity_file: String,
}

/// The model of an `SshConn`.
pub struct SshConnModel {
    pub hostname: Seq<char>,
    pub user: Seq<char>,
    pub port: u16,
    pub identity_file: Seq<char>,
}

impl View for SshConn {
    type V = SshConnModel;

    open spec fn view(&self) -> SshConnModel {
        SshConnModel {
            hostname: self.hostname@,
            user: self.user@,
            port: self.port,
            identity_file: self.identity_file@,
        }
    }
}

/// How a configured host is reached.
pub open spec fn conn_of(h: CollectorHostModel) -> SshConnModel {
    SshConnModel {
        hostname: trimmed(h.hostname),
        user: trimmed(h.user),
        port: h.port,
        identity_file: trimmed(h.identity_file),
    }
}

/// The destination argument of `ssh`: `user@host`, or the host where no user is set.
pub open spec fn dest_of(c: SshConnModel) -> Seq<char> {
    if c.user.len() == 0 {
        c.hostname
    } else {
        c.user + "@"@ + c.hostname
    }
}

/// A path with a leading `~` replaced by the home directory, where that is known.
pub open spec fn tilde_expanded(path: Seq<char>, home: Seq<char>) -> Seq<char> {
    let p = trimmed(path);
    if (p == "~"@ || "~/"@.is_prefix_of(p) || "~\\"@.is_prefix_of(p)) && home.len() > 0 {
        home + p.skip(1)
    } else {
        p
    }
}

/// A path with a leading `~` replaced by the home directory, where that is known.
pub fn expand_tilde(path: &str, home: &str) -> (r: String)
    ensures
        r@ == tilde_expanded(path@, home@),
{
    let p = trim(path);
    if (same(p.as_str(), "~") || starts_with(p.as_str(), "~/") || starts_with(p.as_str(), "~\\"))
        && !is_blank(home) {
        proof {
            reveal_strlit("~");
            reveal_strlit("~/");
            reveal_strlit("~\\");
        }
        let chars = chars_of(p.as_str());
        let mut r = home.to_string();
        let rest = string_of_range(&chars, 1, chars.len());
        proof {
            assert(rest@ =~= p@.skip(1));
        }
        r.append(rest.as_str());
        return r;
    }
    p
}

/// The options that keep `ssh` and `scp` from asking questions or waiting for a dead host.
pub open spec fn ssh_options() -> Seq<Seq<char>> {
    seq![
        "-o"@,
        "BatchMode=yes"@,
        "-o"@,
        "StrictHostKeyChecking=accept-new"@,
        "-o"@,
        "ConnectTimeout=15"@,
    ]
}

/// The arguments before the destination: port, key and options. `ssh` takes the port after `-p`,
/// `scp` after `-P`.
pub open spec fn connection_args(c: SshConnModel, port_flag: Seq<char>, home: Seq<char>) -> Seq<
    Seq<char>,
> {
    (if c.port != 0 {
        seq![port_flag, decimal_text(c.port as nat)]
    } else {
        Seq::empty()
    }) + (if c.identity_file.len() > 0 {
        seq!["-i"@, tilde_expanded(c.identity_file, home)]
    } else {
        Seq::empty()
    }) + ssh_options()
}

impl SshConn {
    /// How a configured host is reached.
    pub fn from_host(host: &CollectorHost) -> (r: SshConn)
        ensures
            r@ == conn_of(host@),
    {
        SshConn {
            hostname: trim(host.hostname.as_str()),
            user: trim(host.user.as_str()),
            port: host.port,
            identity_file: trim(host.identity_file.as_str()),
        }
    }

    /// The destination argument of `ssh`.
    pub fn dest(&self) -> (r: String)
        ensures
            r@ == dest_of(self@),
    {
        if is_blank(self.user.as_str()) {
            self.hostname.clone()
        } else {
            let mut r = self.user.clone();
            r.append("@");
            r.append(self.hostname.as_str());
            r
        }
    }

    /// The arguments before the destination. `port_flag` is `-p` for `ssh` and `-P` for `scp`.
    pub fn args(&self, port_flag: &str, home: &str) -> (out: Vec<String>)
        ensures
            views(out@) == connection_args(self@, port_flag@, home@),
    {
        let mut out: Vec<String> = Vec::new();
        proof {
            assert(views(out@) =~= Seq::<Seq<char>>::empty());
        }
        if self.port != 0 {
            out.push(port_flag.to_string());
            out.push(decimal(self.port as u64));
            proof {
                assert(views(out@) =~= seq![port_flag@, decimal_text(self.port as nat)]);
            }
        }
        let ghost first = views(out@);
        if !is_blank(self.identity_file.as_str()) {
            out.push("-i".to_string());
            out.push(expand_tilde(self.identity_file.as_str(), home));
            proof {
                assert(views(out@) =~= first + seq![
                    "-i"@,
                    tilde_expanded(self.identity_file@, home@),
                ]);
            }
        } else {
            proof {
                assert(views(out@) =~= first + Seq::<Seq<char>>::empty());
            }
        }
        let ghost second = views(out@);
        out.push("-o".to_string());
        out.push("BatchMode=yes".to_string());
        out.push("-o".to_string());
        out.push("StrictHostKeyChecking=accept-new".to_string());
        out.push("-o".to_string());
        out.push("ConnectTimeout=15".to_string());
        proof {
            assert(views(out@) =~= second + ssh_options());
        }
        out
    }
}

/// A search for what lies under a path is kept out of every excluded path under it, and of what lies
/// under that: both stand among its tests.
pub proof fn searches_are_kept_out_of_what_is_excluded(
    root: Seq<char>,
    excludes: Seq<Seq<char>>,
    i: int,
)
    requires
        0 <= i < excludes.len(),
        (root + "/"@).is_prefix_of(without_trailing(excludes[i], '/')),
    ensures
        all_prune_tests(root, excludes).contains(
            "-path "@ + quoted(without_trailing(excludes[i], '/')),
        ),
        all_prune_tests(root, excludes).contains(
            "-path "@ + quoted(without_trailing(excludes[i], '/') + "/*"@),
        ),
    decreases excludes.len(),
{
    let all = all_prune_tests(root, excludes);
    let fewer = excludes.drop_last();
    let before = all_prune_tests(root, fewer);
    let e = without_trailing(excludes[i], '/');
    if i == excludes.len() - 1 {
        let n = before.len() as int;
        assert(all[n] == "-path "@ + quoted(e));
        assert(all[n + 1] == "-path "@ + quoted(e + "/*"@));
    } else {
        assert(fewer[i] == excludes[i]);
        searches_are_kept_out_of_what_is_excluded(root, fewer, i);
        let a = choose|a: int| 0 <= a < before.len() && before[a] == "-path "@ + quoted(e);
        let b = choose|b: int| 0 <= b < before.len() && before[b] == "-path "@ + quoted(e + "/*"@);
        assert(all[a] == before[a]);
        assert(all[b] == before[b]);
    }
}

} // verus!
