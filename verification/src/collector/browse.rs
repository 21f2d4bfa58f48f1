//! Browsing the directories of a remote host.

use crate::collector::remote::{
    join_remote, quoted, remote_above, remote_child, remote_parent, shell_quote, SshConn,
    SshConnModel,
};
use crate::text::{
    comes_before, ends_with, is_before, is_blank, line_parts, lines, opt_view, same, trim,
    trim_end_matches, trimmed, views, without_trailing,
};
use vstd::prelude::*;

verus! {

/// What is to be browsed, and how the host is reached.
#[derive(Debug)]
pub struct CollectorBrowseRequest {
    pub hostname: String,
    pub user: String,
    pub port: u16,
    pub identity_file: String,
    pub path: String,
}

/// An entry of a remote directory.
#[derive(Debug)]
pub struct CollectorBrowseEntry {
    pub name: String,
    pub path: String,
    pub is_dir: bool,
}

/// The model of a `CollectorBrowseEntry`.
pub struct BrowseEntryModel {
    pub name: Seq<char>,
    pub path: Seq<char>,
    pub is_dir: bool,
}

impl View for CollectorBrowseEntry {
    type V = BrowseEntryModel;

    open spec fn view(&self) -> BrowseEntryModel {
        BrowseEntryModel { name: self.name@, path: self.path@, is_dir: self.is_dir }
    }
}

/// The entries of a remote directory.
#[derive(Debug)]
pub struct CollectorBrowseResponse {
    pub path: String,
    pub parent: Option<String>,
    pub entries: Vec<CollectorBrowseEntry>,
}

impl CollectorBrowseRequest {
    /// How the host is reached.
    pub fn connection(&self) -> (r: SshConn)
        ensures
            r@ == (SshConnModel {
                hostname: trimmed(self.hostname@),
                user: trimmed(self.user@),
                port: self.port,
                identity_file: trimmed(self.identity_file@),
            }),
    {
        SshConn {
            hostname: trim(self.hostname.as_str()),
            user: trim(self.user.as_str()),
            port: self.port,
            identity_file: trim(self.identity_file.as_str()),
        }
    }
}

/// The directory that is browsed; the root where none is named.
pub open spec fn browsed_path(path: Seq<char>) -> Seq<char> {
    if trimmed(path).len() == 0 {
        "/"@
    } else {
        trimmed(path)
    }
}

/// The command that lists a directory, with a separator behind each directory.
pub open spec fn listing_command(path: Seq<char>) -> Seq<char> {
    "cd -- "@ + quoted(path)
        + " 2>/dev/null || exit 0; ls -A1 2>/dev/null | while IFS= read -r f; do [ -e \"$f\" ] || [ -L \"$f\" ] || continue; if [ -d \"$f\" ]; then printf '%s/\\n' \"$f\"; else printf '%s\\n' \"$f\"; fi; done"@
}

/// What is run to browse a directory: nothing without a host, else the directory and the command.
pub fn browse_command(req: &CollectorBrowseRequest) -> (r: Result<(String, String), String>)
    ensures
        r is Ok == (trimmed(req.hostname@).len() > 0),
        r is Err ==> r->Err_0@ == "no hostname to connect to"@,
        r is Ok ==> r->Ok_0.0@ == browsed_path(req.path@) && r->Ok_0.1@ == listing_command(
            browsed_path(req.path@),
        ),
{
    if is_blank(trim(req.hostname.as_str()).as_str()) {
        return Err("no hostname to connect to".to_string());
    }
    let mut path = trim(req.path.as_str());
    if is_blank(path.as_str()) {
        path = "/".to_string();
    }
    let mut cmd = "cd -- ".to_string();
    cmd.append(shell_quote(path.as_str()).as_str());
    cmd.append(
        " 2>/dev/null || exit 0; ls -A1 2>/dev/null | while IFS= read -r f; do [ -e \"$f\" ] || [ -L \"$f\" ] || continue; if [ -d \"$f\" ]; then printf '%s/\\n' \"$f\"; else printf '%s\\n' \"$f\"; fi; done",
    );
    Ok((path, cmd))
}

/// The entry that a line of the listing stands for; a separator at its end marks a directory.
pub open spec fn listed_entry(dir: Seq<char>, line: Seq<char>) -> Option<BrowseEntryModel> {
    let l = without_trailing(line, '\r');
    let name = without_trailing(l, '/');
    if name.len() == 0 || name == "."@ || name == ".."@ {
        None
    } else {
        Some(
            BrowseEntryModel {
                name,
                path: remote_child(dir, name),
                is_dir: "/"@.is_suffix_of(l),
            },
        )
    }
}

/// `listed_entry` as a function.
pub open spec fn to_entry(dir: Seq<char>) -> spec_fn(Seq<char>) -> Option<BrowseEntryModel> {
    |line: Seq<char>| listed_entry(dir, line)
}

/// Whether an entry is shown before another: directories first, then by name.
pub open spec fn shown_before(a: BrowseEntryModel, b: BrowseEntryModel) -> bool {
    (a.is_dir && !b.is_dir) || (a.is_dir == b.is_dir && comes_before(a.name, b.name))
}

/// A sorted list with one more entry in its place, behind those that are equal to it.
pub open spec fn placed(s: Seq<BrowseEntryModel>, x: BrowseEntryModel) -> Seq<BrowseEntryModel>
    decreases s.len(),
{
    if s.len() == 0 {
        seq![x]
    } else if shown_before(x, s.last()) {
        placed(s.drop_last(), x).push(s.last())
    } else {
        s.push(x)
    }
}

/// The entries in the order in which they are shown.
pub open spec fn in_order(s: Seq<BrowseEntryModel>) -> Seq<BrowseEntryModel>
    decreases s.len(),
{
    if s.len() == 0 {
        Seq::empty()
    } else {
        placed(in_order(s.drop_last()), s.last())
    }
}

/// The entries in the output of the listing command.
pub open spec fn listed_entries(dir: Seq<char>, output: Seq<char>) -> Seq<BrowseEntryModel> {
    in_order(line_parts(output).filter_map(to_entry(dir)))
}

/// Whether an entry is shown before another.
fn is_shown_before(a: &CollectorBrowseEntry, b: &CollectorBrowseEntry) -> (r: bool)
    ensures
        r == shown_before(a@, b@),
{
    (a.is_dir && !b.is_dir) || (a.is_dir == b.is_dir && is_before(a.name.as_str(), b.name.as_str()))
}

/// Puts an entry into its place in a sorted list.
pub fn place(list: &mut Vec<CollectorBrowseEntry>, x: CollectorBrowseEntry)
    ensures
        views(final(list)@) == placed(views(old(list)@), x@),
{
    let ghost s = views(list@);
    let mut i: usize = list.len();
    proof {
        assert(s.take(i as int) =~= s);
        assert(placed(s, x@) =~= placed(s.take(i as int), x@) + s.skip(i as int));
    }
    while i > 0 && is_shown_before(&x, &list[i - 1])
        invariant
            i <= list.len(),
            s == views(list@),
            placed(s, x@) == placed(s.take(i as int), x@) + s.skip(i as int),
        decreases i,
    {
        proof {
            assert(s.take(i as int).last() == list@[i - 1]@);
            assert(s.take(i as int).drop_last() =~= s.take(i - 1));
            assert(placed(s.take(i - 1), x@).push(s[i - 1]) + s.skip(i as int) =~= placed(
                s.take(i - 1),
                x@,
            ) + s.skip(i - 1));
        }
        i = i - 1;
    }
    let ghost xv = x@;
    proof {
        if i > 0 {
            assert(s.take(i as int).last() == list@[i - 1]@);
        } else {
            assert(s.take(0) =~= Seq::<BrowseEntryModel>::empty());
        }
    }
    list.insert(i, x);
    proof {
        if i > 0 {
            assert(placed(s.take(i as int), xv) == s.take(i as int).push(xv));
        } else {
            assert(placed(s.take(0), xv) =~= s.take(0).push(xv));
        }
        assert(views(list@) =~= s.take(i as int).push(xv) + s.skip(i as int));
    }
}

/// The entries in the output of the listing command, in the order in which they are shown.
fn read_entries(dir: &str, output: &str) -> (out: Vec<CollectorBrowseEntry>)
    ensures
        views(out@) == listed_entries(dir@, output@),
{
    let all = lines(output);
    let ghost ls = views(all@);
    let ghost f = to_entry(dir@);
    let mut out: Vec<CollectorBrowseEntry> = Vec::new();
    proof {
        assert(ls.take(0) =~= Seq::empty());
        assert(ls.take(0).filter_map(f) =~= Seq::empty());
        assert(views(out@) =~= in_order(ls.take(0).filter_map(f)));
    }
    for i in 0..all.len()
        invariant
            ls == views(all@),
            f == to_entry(dir@),
            views(out@) == in_order(ls.take(i as int).filter_map(f)),
    {
        proof {
            assert(ls[i as int] == all@[i as int]@);
            ls.lemma_filter_map_take_succ(f, i as int);
        }
        let ghost before = ls.take(i as int).filter_map(f);
        let line = trim_end_matches(all[i].as_str(), '\r');
        let is_dir = ends_with(line.as_str(), "/");
        let name = trim_end_matches(line.as_str(), '/');
        if is_blank(name.as_str()) || same(name.as_str(), ".") || same(name.as_str(), "..") {
            proof {
                assert(f(ls[i as int]) is None);
                assert(ls.take(i + 1).filter_map(f) =~= before);
            }
        } else {
            let path = join_remote(dir, name.as_str());
            let entry = CollectorBrowseEntry { name, path, is_dir };
            proof {
                assert(f(ls[i as int]) == Some(entry@));
                assert(ls.take(i + 1).filter_map(f) =~= before.push(entry@));
                assert(before.push(entry@).drop_last() =~= before);
            }
            place(&mut out, entry);
        }
    }
    proof {
        assert(ls.take(ls.len() as int) =~= ls);
    }
    out
}

/// The entries of a browsed directory, from the output of the listing command.
pub fn browse(path: &str, output: &str) -> (r: CollectorBrowseResponse)
    ensures
        r.path@ == path@,
        opt_view(r.parent) == remote_above(path@),
        views(r.entries@) == listed_entries(path@, output@),
{
    CollectorBrowseResponse {
        path: path.to_string(),
        parent: remote_parent(path),
        entries: read_entries(path, output),
    }
}

/// Whether no entry is shown before one that stands in front of it.
pub open spec fn well_ordered(s: Seq<BrowseEntryModel>) -> bool {
    forall|i: int, j: int| 0 <= i < j < s.len() ==> !shown_before(#[trigger] s[j], #[trigger] s[i])
}

/// The order in which entries are shown: directories first, then by name.
pub proof fn entries_are_in_order(s: Seq<BrowseEntryModel>)
    ensures
        well_ordered(in_order(s)),
        in_order(s).len() == s.len(),
    decreases s.len(),
{
    if s.len() > 0 {
        entries_are_in_order(s.drop_last());
        lemma_placed(in_order(s.drop_last()), s.last());
    }
}

proof fn lemma_placed(s: Seq<BrowseEntryModel>, x: BrowseEntryModel)
    requires
        well_ordered(s),
    ensures
        well_ordered(placed(s, x)),
        placed(s, x).len() == s.len() + 1,
        forall|i: int|
            0 <= i < placed(s, x).len() ==> (#[trigger] placed(s, x)[i]) == x || s.contains(
                placed(s, x)[i],
            ),
    decreases s.len(),
{
    let r = placed(s, x);
    if s.len() == 0 {
    } else if shown_before(x, s.last()) {
        let t = s.drop_last();
        assert forall|i: int, j: int| 0 <= i < j < t.len() implies !shown_before(
            #[trigger] t[j],
            #[trigger] t[i],
        ) by {
            assert(!shown_before(s[j], s[i]));
        }
        lemma_placed(t, x);
        let u = placed(t, x);
        assert forall|i: int, j: int| 0 <= i < j < r.len() implies !shown_before(
            #[trigger] r[j],
            #[trigger] r[i],
        ) by {
            if j == u.len() {
                if u[i] == x {
                    lemma_shown_asymmetric(x, s.last());
                } else {
                    let k = choose|k: int| 0 <= k < t.len() && t[k] == u[i];
                    assert(!shown_before(s[s.len() - 1], s[k]));
                }
            } else {
                assert(!shown_before(u[j], u[i]));
            }
        }
        assert forall|i: int| 0 <= i < r.len() implies (#[trigger] r[i]) == x || s.contains(
            r[i],
        ) by {
            if i < u.len() {
                assert(u[i] == x || t.contains(u[i]));
                if u[i] != x {
                    let k = choose|k: int| 0 <= k < t.len() && t[k] == u[i];
                    assert(s[k] == u[i]);
                }
            } else {
                assert(s[s.len() - 1] == r[i]);
            }
        }
    } else {
        assert forall|i: int, j: int| 0 <= i < j < r.len() implies !shown_before(
            #[trigger] r[j],
            #[trigger] r[i],
        ) by {
            if j == s.len() && i < s.len() - 1 {
                assert(!shown_before(s[s.len() - 1], s[i]));
                lemma_not_shown_transitive(x, s.last(), s[i]);
            }
        }
        assert forall|i: int| 0 <= i < r.len() implies (#[trigger] r[i]) == x || s.contains(
            r[i],
        ) by {
            if i < s.len() {
                assert(s[i] == r[i]);
            }
        }
    }
}

proof fn lemma_shown_asymmetric(a: BrowseEntryModel, b: BrowseEntryModel)
    requires
        shown_before(a, b),
    ensures
        !shown_before(b, a),
{
    crate::sorted::comes_before_is_total(a.name, b.name);
}

proof fn lemma_not_shown_transitive(
    a: BrowseEntryModel,
    b: BrowseEntryModel,
    c: BrowseEntryModel,
)
    requires
        !shown_before(a, b),
        !shown_before(b, c),
    ensures
        !shown_before(a, c),
{
    crate::sorted::comes_before_is_total(a.name, b.name);
    crate::sorted::comes_before_is_total(b.name, c.name);
    if shown_before(a, c) && a.is_dir == c.is_dir {
        if comes_before(b.name, a.name) {
            crate::sorted::comes_before_is_transitive(b.name, a.name, c.name);
        }
    }
}

/// Each entry is shown as often as it was listed; directories stand before files, and entries of one
/// kind by name.
pub proof fn every_entry_is_shown(s: Seq<BrowseEntryModel>)
    ensures
        in_order(s).to_multiset() == s.to_multiset(),
        forall|i: int, j: int|
            0 <= i < j < in_order(s).len() ==> {
                let a = #[trigger] in_order(s)[i];
                let b = #[trigger] in_order(s)[j];
                &&& b.is_dir ==> a.is_dir
                &&& a.is_dir == b.is_dir ==> !comes_before(b.name, a.name)
            },
    decreases s.len(),
{
    broadcast use vstd::seq_lib::group_to_multiset_ensures;

    entries_are_in_order(s);
    if s.len() > 0 {
        let t = s.drop_last();
        every_entry_is_shown(t);
        lemma_placed_holds(in_order(t), s.last());
        assert(t.push(s.last()) =~= s);
    }
}

proof fn lemma_placed_holds(s: Seq<BrowseEntryModel>, x: BrowseEntryModel)
    ensures
        placed(s, x).to_multiset() == s.to_multiset().insert(x),
    decreases s.len(),
{
    broadcast use vstd::seq_lib::group_to_multiset_ensures;

    if s.len() == 0 {
        assert(seq![x] =~= s.push(x));
    } else if shown_before(x, s.last()) {
        let t = s.drop_last();
        lemma_placed_holds(t, x);
        assert(t.push(s.last()) =~= s);
        assert(placed(s, x).to_multiset() =~= s.to_multiset().insert(x));
    }
}

/// A name that is listed is an entry of the directory, and one with a separator behind it is a
/// directory in it.
pub proof fn listed_names_are_entries(dir: Seq<char>, name: Seq<char>)
    requires
        name.len() > 0,
        name.last() != '/',
        name.last() != '\r',
        name != "."@,
        name != ".."@,
    ensures
        listed_entry(dir, name) == Some(
            BrowseEntryModel { name, path: remote_child(dir, name), is_dir: false },
        ),
        listed_entry(dir, name.push('/')) == Some(
            BrowseEntryModel { name, path: remote_child(dir, name), is_dir: true },
        ),
{
    let line = name.push('/');
    reveal_strlit("/");
    assert(line.drop_last() =~= name);
    assert(without_trailing(name, '/') == name);
    assert(without_trailing(name, '\r') == name);
    assert(without_trailing(line, '\r') == line);
    assert(without_trailing(line, '/') == without_trailing(name, '/'));
    assert("/"@.is_suffix_of(line)) by {
        assert(line.subrange(line.len() - 1, line.len() as int) =~= "/"@);
    }
    assert(!"/"@.is_suffix_of(name)) by {
        if "/"@.is_suffix_of(name) {
            assert(name.subrange(name.len() - 1, name.len() as int)[0] == "/"@[0]);
        }
    }
}

} // verus!
