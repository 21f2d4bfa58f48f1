//! Where pulled files go, and what is run to deploy.

use crate::collector::deploy::{env_host_suffix, env_suffix};
use crate::collector::names::{
    joined_storing, stored_rel_for_linux_path, storing_of, NameManifest, UpwardEntry,
};
use crate::collector::perms::PERMS_FILE;
use crate::collector::remote::{
    excluded, excluded_under, has_exclude_under, is_excluded, local_path, local_rel_path,
    quoted, remote_fault, remote_parent_components, remote_parts, shell_quote, RemotePathError,
};
use crate::config::types::CollectorHost;
use crate::paths::{
    absolute, are_names, components, join_path, joined_path, keeps_piece,
    written_paths_have_their_names_as_components,
};
use crate::text::{
    is_blank, joined, last_at, lemma_last_at, lowered, opt_view, rsplit_once, same, split_parts,
    to_ascii_lowercase, trim, trimmed, views, without_trailing,
};
use vstd::prelude::*;

verus! {

/// A path with components behind it.
pub open spec fn below(root: Seq<char>, parts: Seq<Seq<char>>) -> Seq<char>
    decreases parts.len(),
{
    if parts.len() == 0 {
        root
    } else {
        joined_path(below(root, parts.drop_last()), parts.last())
    }
}

/// A path with components behind it.
fn go_below(root: &str, parts: &Vec<String>) -> (r: String)
    ensures
        r@ == below(root@, views(parts@)),
{
    let ghost ps = views(parts@);
    let mut r = root.to_string();
    proof {
        assert(ps.take(0) =~= Seq::empty());
    }
    for i in 0..parts.len()
        invariant
            ps == views(parts@),
            r@ == below(root@, ps.take(i as int)),
    {
        proof {
            assert(ps[i as int] == parts@[i as int]@);
            assert(ps.take(i + 1).drop_last() =~= ps.take(i as int));
        }
        r = join_path(r.as_str(), parts[i].as_str());
    }
    proof {
        assert(ps.take(ps.len() as int) =~= ps);
    }
    r
}

/// What is behind the last separator of a path.
pub open spec fn leaf_of(path: Seq<char>) -> Seq<char> {
    match crate::text::cut_last(path, '/') {
        Some(cut) => cut.1,
        None => path,
    }
}

/// How a path is pulled.
#[derive(Debug)]
pub enum PullPlace {
    /// It is copied as a whole into a directory.
    Whole(String),
    /// Something under it is excluded: it is pulled piece by piece into a directory of its own.
    Pieces(String),
}

/// The model of a `PullPlace`.
pub enum PullPlaceModel {
    Whole(Seq<char>),
    Pieces(Seq<char>),
}

impl View for PullPlace {
    type V = PullPlaceModel;

    open spec fn view(&self) -> PullPlaceModel {
        match self {
            PullPlace::Whole(p) => PullPlaceModel::Whole(p@),
            PullPlace::Pieces(p) => PullPlaceModel::Pieces(p@),
        }
    }
}

/// Where a remote path is pulled to: its directories are built anew under the root of its host.
pub open spec fn pull_place(
    root: Seq<char>,
    remote: Seq<char>,
    excludes: Seq<Seq<char>>,
) -> Result<PullPlaceModel, RemotePathError> {
    let dir = below(root, remote_parts(remote).drop_last());
    if remote_fault(remote) is Some {
        Err(remote_fault(remote)->0)
    } else if excluded_under(remote, excludes) {
        Ok(PullPlaceModel::Pieces(joined_path(dir, leaf_of(remote))))
    } else {
        Ok(PullPlaceModel::Whole(dir))
    }
}

/// Where a remote path is pulled to.
pub fn pull_path(root: &str, remote: &str, excludes: &Vec<String>) -> (r: Result<
    PullPlace,
    RemotePathError,
>)
    ensures
        (match r {
            Ok(p) => Ok(p@),
            Err(e) => Err(e),
        }) == pull_place(root@, remote@, views(excludes@)),
{
    let parts = match remote_parent_components(remote) {
        Ok(p) => p,
        Err(e) => {
            return Err(e);
        },
    };
    let dir = go_below(root, &parts);
    if has_exclude_under(remote, excludes) {
        let leaf = match rsplit_once(remote, '/') {
            Some(cut) => cut.1,
            None => remote.to_string(),
        };
        return Ok(PullPlace::Pieces(join_path(dir.as_str(), leaf.as_str())));
    }
    Ok(PullPlace::Whole(dir))
}

/// Where a path of an archive is kept under the root of its host.
pub fn archived_place(root: &str, rel: &str) -> (r: String)
    ensures
        r@ == joined_path(root@, local_path(rel@)),
{
    join_path(root, local_rel_path(rel).as_str())
}

/// What an entry of an archive is.
#[derive(Debug, Clone, Copy, PartialEq, Eq, Structural)]
pub enum EntryKind {
    Directory,
    /// A link, in place of which an empty file is kept.
    Link,
    File,
    /// Anything else, of which nothing is kept.
    Other,
}

/// Where an entry of an archive is kept, if anything is kept of it: under a name that every system
/// can hold, with the original name in the manifest.
pub fn place_entry(root: &str, raw_path: &Vec<u8>, kind: EntryKind, manifest: &mut NameManifest) -> (r:
    Result<Option<String>, UpwardEntry>)
    ensures
        final(manifest).version == old(manifest).version,
        ({
            let s = storing_of(raw_path@, views(old(manifest).entries@));
            &&& views(final(manifest).entries@) == s.entries
            &&& r is Err == s.upwards
            &&& r is Ok ==> opt_view(r->Ok_0) == (if joined_storing(s) is None || kind
                == EntryKind::Other {
                None
            } else {
                Some(joined_path(root@, local_path(joined_storing(s)->0)))
            })
        }),
{
    match stored_rel_for_linux_path(raw_path, manifest) {
        Ok(Some(rel)) => {
            if kind == EntryKind::Other {
                return Ok(None);
            }
            Ok(Some(archived_place(root, rel.as_str())))
        },
        Ok(None) => Ok(None),
        Err(e) => Err(e),
    }
}

/// The command that says whether a path of an archive is a directory on the remote host.
pub fn dir_probe_command(rel: &str) -> (r: String)
    ensures
        r@ == "cd / && [ -d "@ + quoted(rel@) + " ] && echo yes || true"@,
{
    let mut r = "cd / && [ -d ".to_string();
    r.append(shell_quote(rel).as_str());
    r.append(" ] && echo yes || true");
    r
}

/// The command that says what a remote path is.
pub open spec fn kind_probe(remote: Seq<char>) -> Seq<char> {
    let q = quoted(remote);
    "if [ -L "@ + q + " ]; then if [ -d "@ + q + " ]; then echo dir; elif [ -f "@ + q
        + " ]; then echo symlink_file; else echo broken_symlink; fi; elif [ -d "@ + q
        + " ]; then echo dir; elif [ -f "@ + q + " ]; then echo file; else echo missing; fi"@
}

/// The command that says what a remote path is.
pub fn kind_command(remote: &str) -> (r: String)
    ensures
        r@ == kind_probe(remote@),
{
    let q = shell_quote(remote);
    let mut r = "if [ -L ".to_string();
    r.append(q.as_str());
    r.append(" ]; then if [ -d ");
    r.append(q.as_str());
    r.append(" ]; then echo dir; elif [ -f ");
    r.append(q.as_str());
    r.append(" ]; then echo symlink_file; else echo broken_symlink; fi; elif [ -d ");
    r.append(q.as_str());
    r.append(" ]; then echo dir; elif [ -f ");
    r.append(q.as_str());
    r.append(" ]; then echo file; else echo missing; fi");
    r
}

/// The paths that are directories, by what the remote host answered for each; no answer counts as
/// no.
pub open spec fn said_yes(
    rels: Seq<Seq<char>>,
    answers: Seq<Option<Seq<char>>>,
    n: int,
) -> Seq<Seq<char>>
    decreases n,
{
    if n <= 0 {
        Seq::empty()
    } else if n <= answers.len() && answers[n - 1] is Some && trimmed(answers[n - 1]->0)
        == "yes"@ {
        said_yes(rels, answers, n - 1).push(rels[n - 1])
    } else {
        said_yes(rels, answers, n - 1)
    }
}

/// The models of optional texts.
pub open spec fn opt_views(s: Seq<Option<String>>) -> Seq<Option<Seq<char>>> {
    Seq::new(s.len(), |i: int| opt_view(s[i]))
}

/// The paths that are directories on the remote host.
pub fn directories_among(rels: &Vec<String>, answers: &Vec<Option<String>>) -> (out: Vec<String>)
    ensures
        views(out@) == said_yes(views(rels@), opt_views(answers@), rels.len() as int),
{
    let ghost rs = views(rels@);
    let ghost ans = opt_views(answers@);
    let mut out: Vec<String> = Vec::new();
    proof {
        assert(views(out@) =~= said_yes(rs, ans, 0));
    }
    for i in 0..rels.len()
        invariant
            rs == views(rels@),
            ans == opt_views(answers@),
            views(out@) == said_yes(rs, ans, i as int),
    {
        let ghost was = views(out@);
        proof {
            assert(rs[i as int] == rels@[i as int]@);
        }
        let mut yes = false;
        if i < answers.len() {
            proof {
                assert(ans[i as int] == opt_view(answers@[i as int]));
            }
            match &answers[i] {
                Some(a) => {
                    yes = same(trim(a.as_str()).as_str(), "yes");
                },
                None => {},
            }
        }
        if yes {
            out.push(rels[i].clone());
            proof {
                assert(views(out@) =~= was.push(rs[i as int]));
            }
        }
    }
    out
}

/// The test for paths that are not excluded.
pub open spec fn not_excluded(excludes: Seq<Seq<char>>) -> spec_fn(Seq<char>) -> bool {
    |p: Seq<char>| !excluded(p, excludes)
}

/// The paths whose permissions are recorded.
pub fn record_host_perms(paths: &Vec<String>, excludes: &Vec<String>) -> (out: Vec<String>)
    ensures
        views(out@) == views(paths@).filter(not_excluded(views(excludes@))),
{
    let ghost all = views(paths@);
    let ghost test = not_excluded(views(excludes@));
    let mut out: Vec<String> = Vec::new();
    proof {
        assert(views(out@) =~= all.take(0).filter(test));
    }
    for i in 0..paths.len()
        invariant
            all == views(paths@),
            test == not_excluded(views(excludes@)),
            views(out@) == all.take(i as int).filter(test),
    {
        let p = &paths[i];
        let ghost was = views(out@);
        proof {
            assert(all[i as int] == p@);
            assert(all.take(i + 1) =~= all.take(i as int).push(p@));
            all.take(i as int).lemma_filter_push(p@, test);
        }
        if !is_excluded(p.as_str(), excludes) {
            out.push(p.clone());
            proof {
                assert(views(out@) =~= was.push(p@));
            }
        }
    }
    proof {
        assert(all.take(all.len() as int) =~= all);
    }
    out
}

/// Where the script of a host is: in a file that has to be there, or in one that is written.
#[derive(Debug)]
pub enum ScriptPlace {
    Existing(String),
    Written(String, String),
}

/// The model of a `ScriptPlace`.
pub enum ScriptPlaceModel {
    Existing(Seq<char>),
    Written(Seq<char>, Seq<char>),
}

impl View for ScriptPlace {
    type V = ScriptPlaceModel;

    open spec fn view(&self) -> ScriptPlaceModel {
        match self {
            ScriptPlace::Existing(p) => ScriptPlaceModel::Existing(p@),
            ScriptPlace::Written(p, text) => ScriptPlaceModel::Written(p@, text@),
        }
    }
}

/// The mark of a host in the names of its temporary files.
pub open spec fn file_tag(name: Seq<char>) -> Seq<char> {
    lowered(env_suffix(name))
}

/// Where the script of a host is.
pub open spec fn script_place_of(
    name: Seq<char>,
    script_path: Seq<char>,
    script: Seq<char>,
    temp_dir: Seq<char>,
) -> ScriptPlaceModel {
    if trimmed(script_path).len() == 0 {
        ScriptPlaceModel::Written(
            joined_path(temp_dir, "auto_sync_deploy_"@ + file_tag(name) + ".ps1"@),
            script,
        )
    } else {
        ScriptPlaceModel::Existing(trimmed(script_path))
    }
}

/// Where the script of a host is.
pub fn script_place(host: &CollectorHost, temp_dir: &str) -> (r: ScriptPlace)
    ensures
        r@ == script_place_of(
            host@.name,
            host@.deploy_script_path,
            host@.deploy_script,
            temp_dir@,
        ),
{
    let path = trim(host.deploy_script_path.as_str());
    if is_blank(path.as_str()) {
        let mut name = "auto_sync_deploy_".to_string();
        name.append(
            to_ascii_lowercase(env_host_suffix(host.name.as_str()).as_str()).as_str(),
        );
        name.append(".ps1");
        return ScriptPlace::Written(
            join_path(temp_dir, name.as_str()),
            host.deploy_script.clone(),
        );
    }
    ScriptPlace::Existing(path)
}

/// The program that runs a script, and its arguments.
pub fn script_command(windows: bool, script: &str) -> (r: (String, Vec<String>))
    ensures
        r.0@ == (if windows {
            "powershell"@
        } else {
            "pwsh"@
        }),
        views(r.1@) == (if windows {
            seq![
                "-NoProfile"@,
                "-NonInteractive"@,
                "-ExecutionPolicy"@,
                "Bypass"@,
                "-File"@,
                script@,
            ]
        } else {
            seq!["-NoProfile"@, "-NonInteractive"@, "-File"@, script@]
        }),
{
    let mut args: Vec<String> = Vec::new();
    args.push("-NoProfile".to_string());
    args.push("-NonInteractive".to_string());
    if windows {
        args.push("-ExecutionPolicy".to_string());
        args.push("Bypass".to_string());
    }
    args.push("-File".to_string());
    args.push(script.to_string());
    proof {
        assert(views(args@) =~= (if windows {
            seq![
                "-NoProfile"@,
                "-NonInteractive"@,
                "-ExecutionPolicy"@,
                "Bypass"@,
                "-File"@,
                script@,
            ]
        } else {
            seq!["-NoProfile"@, "-NonInteractive"@, "-File"@, script@]
        }));
    }
    if windows {
        ("powershell".to_string(), args)
    } else {
        ("pwsh".to_string(), args)
    }
}

/// The files that deploying a host looks at and writes: its recorded permissions, the client
/// configuration that was collected from it, and the adapted copy of that.
pub fn deploy_files(root: &str, name: &str, temp_dir: &str) -> (r: (String, String, String))
    ensures
        r.0@ == joined_path(root@, PERMS_FILE@),
        r.1@ == joined_path(root@, "usr/local/shadowsocks/conf/shadowsocks-client.json"@),
        r.2@ == joined_path(temp_dir@, "auto_sync_ss_client_"@ + file_tag(name@) + ".json"@),
{
    let mut copy = "auto_sync_ss_client_".to_string();
    copy.append(to_ascii_lowercase(env_host_suffix(name).as_str()).as_str());
    copy.append(".json");
    (
        join_path(root, PERMS_FILE),
        join_path(root, "usr/local/shadowsocks/conf/shadowsocks-client.json"),
        join_path(temp_dir, copy.as_str()),
    )
}

/// The first of the places that exists, from an index on.
pub open spec fn first_existing(
    places: Seq<Seq<char>>,
    exists_at: Seq<bool>,
    tool: Seq<char>,
    i: int,
) -> Seq<char>
    decreases places.len() - i,
{
    if i < 0 || i >= places.len() {
        tool
    } else if i < exists_at.len() && exists_at[i] {
        places[i]
    } else {
        first_existing(places, exists_at, tool, i + 1)
    }
}

/// The tool that is used: the first of the places that exists, else the tool of the system.
pub fn resolve_ssh_tool(places: &Vec<String>, exists_at: &Vec<bool>, tool: &str) -> (r: String)
    ensures
        r@ == first_existing(views(places@), exists_at@, tool@, 0),
{
    let ghost ps = views(places@);
    for i in 0..places.len()
        invariant
            ps == views(places@),
            first_existing(ps, exists_at@, tool@, 0) == first_existing(
                ps,
                exists_at@,
                tool@,
                i as int,
            ),
    {
        if i < exists_at.len() && exists_at[i] {
            return places[i].clone();
        }
    }
    tool.to_string()
}

/// A path that is written with a separator before each of its names.
pub open spec fn written(parts: Seq<Seq<char>>) -> Seq<char> {
    seq!['/'] + joined(parts, seq!['/'])
}

proof fn lemma_written_ends(parts: Seq<Seq<char>>)
    requires
        parts.len() > 0,
        are_names(parts),
    ensures
        written(parts).len() > 1,
        written(parts).last() == parts.last().last(),
        written(parts).last() != '/',
        parts.len() > 1 ==> written(parts) == written(parts.drop_last()).push('/') + parts.last(),
        parts.len() == 1 ==> written(parts) == seq!['/'] + parts[0],
{
    let last = parts.last();
    assert(parts[parts.len() - 1] == last);
    assert(last.len() > 0);
    assert(last.contains(last.last()));
    if parts.len() > 1 {
        let front = parts.drop_last();
        assert(joined(parts, seq!['/']) == joined(front, seq!['/']) + seq!['/'] + last);
        assert(written(parts) =~= written(front).push('/') + last);
    }
}

/// Going below a path adds the names.
proof fn lemma_below_written(root: Seq<Seq<char>>, parts: Seq<Seq<char>>)
    requires
        root.len() > 0,
        are_names(root),
        are_names(parts),
    ensures
        below(written(root), parts) == written(root + parts),
    decreases parts.len(),
{
    if parts.len() == 0 {
        assert(root + parts =~= root);
    } else {
        let front = parts.drop_last();
        let last = parts.last();
        assert(parts[parts.len() - 1] == last);
        lemma_below_written(root, front);
        let all = root + parts;
        assert(all.drop_last() =~= root + front);
        assert(all.last() == last);
        assert forall|i: int| 0 <= i < (root + front).len() implies (#[trigger] (root
            + front)[i]).len() > 0 && (root + front)[i] != seq!['.'] && !(root
            + front)[i].contains('/') by {
            if i < root.len() {
                assert((root + front)[i] == root[i]);
            } else {
                assert((root + front)[i] == parts[i - root.len()]);
            }
        }
        assert(are_names(all)) by {
            assert forall|i: int| 0 <= i < all.len() implies (#[trigger] all[i]).len() > 0
                && all[i] != seq!['.'] && !all[i].contains('/') by {
                if i < root.len() {
                    assert(all[i] == root[i]);
                } else {
                    assert(all[i] == parts[i - root.len()]);
                }
            }
        }
        lemma_written_ends(root + front);
        lemma_written_ends(all);
        if absolute(last) {
            assert(last.contains(last[0]));
        }
    }
}

proof fn lemma_written_parts(parts: Seq<Seq<char>>)
    requires
        parts.len() > 0,
        are_names(parts),
        trimmed(written(parts)) == written(parts),
    ensures
        remote_parts(written(parts)) == parts,
        leaf_of(written(parts)) == parts.last(),
{
    let text = written(parts);
    lemma_written_ends(parts);
    assert(without_trailing(text, '/') == text);
    written_paths_have_their_names_as_components(parts);
    let kept = split_parts(text, '/').filter(keeps_piece());
    assert(components(text) == seq![seq!['/']] + kept);
    assert((seq![seq!['/']] + kept).skip(1) =~= kept);
    assert((seq![seq!['/']] + parts).skip(1) =~= parts);
    let last = parts.last();
    assert(parts[parts.len() - 1] == last);
    let n = text.len() - last.len() - 1;
    assert(text[n] == '/');
    assert(text.skip(n + 1) =~= last);
    assert forall|j: int| n < j < text.len() implies text[j] != '/' by {
        assert(text[j] == last[j - n - 1]);
        assert(last.contains(last[j - n - 1]));
    }
    lemma_last_at(text, '/');
    assert(text.contains(text[n]));
    let k = last_at(text, '/');
    assert(k == n) by {
        if k < n {
            assert(text[n] != '/');
        } else if k > n {
            assert(text[k] == '/');
        }
    }
}

/// A path is pulled into the directory of the same names under the root of its host; where something
/// below it is excluded, it is pulled piece by piece into a directory of all of its names.
pub proof fn pulled_files_keep_their_directories(
    root: Seq<Seq<char>>,
    parts: Seq<Seq<char>>,
    excludes: Seq<Seq<char>>,
)
    requires
        root.len() > 0,
        are_names(root),
        parts.len() > 0,
        are_names(parts),
        !parts.contains(".."@),
        trimmed(written(parts)) == written(parts),
    ensures
        ({
            let below = exists|i: int|
                0 <= i < excludes.len() && written(parts).push('/').is_prefix_of(
                    #[trigger] excludes[i],
                );
            &&& below ==> pull_place(written(root), written(parts), excludes) == Ok::<
                PullPlaceModel,
                RemotePathError,
            >(PullPlaceModel::Pieces(written(root + parts)))
            &&& !below ==> pull_place(written(root), written(parts), excludes) == Ok::<
                PullPlaceModel,
                RemotePathError,
            >(PullPlaceModel::Whole(written(root + parts.drop_last())))
        }),
{
    let remote = written(parts);
    lemma_written_parts(parts);
    lemma_written_ends(parts);
    assert(without_trailing(remote, '/') == remote);
    reveal_strlit("/");
    assert(remote + "/"@ =~= remote.push('/'));
    let front = parts.drop_last();
    assert(are_names(front)) by {
        assert forall|i: int| 0 <= i < front.len() implies (#[trigger] front[i]).len() > 0
            && front[i] != seq!['.'] && !front[i].contains('/') by {
            assert(front[i] == parts[i]);
        }
    }
    lemma_below_written(root, front);
    lemma_below_written(root, parts);
    let below = exists|i: int|
        0 <= i < excludes.len() && remote.push('/').is_prefix_of(#[trigger] excludes[i]);
    assert(excluded_under(remote, excludes) == below);
}

} // verus!
