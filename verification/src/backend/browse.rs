//! Browsing directories.

use crate::backend::delegation::machine_of;
use crate::backend::types::{
    BackendError, BackendErrorModel, BrowseEntry, BrowseEntryModel, BrowseResponse,
};
use crate::collector::browse::{in_order, place, CollectorBrowseEntry};
use crate::config::host::{parent, parent_of};
use crate::config::types::{
    AppConfig, AppConfigModel, LocalEnv, LocalEnvModel, MachineConfig, MachineConfigModel,
};
use crate::machines::lookup::{
    encode_query_component, find_machine, machine_id_from_path, named_machine, query_text,
};
use crate::text::{eq_ignore_ascii_case, is_blank, opt_view, same, same_ignoring_case, views};
use vstd::prelude::*;
use vstd::utf8::encode_utf8;

verus! {

/// Where browsing begins on a system.
pub open spec fn first_path(os: Seq<char>) -> Seq<char> {
    if same_ignoring_case(os, "windows"@) {
        "C:\\"@
    } else {
        "/"@
    }
}

/// Where browsing begins on a system.
pub fn default_path_for_os(os: &str) -> (r: String)
    ensures
        r@ == first_path(os@),
{
    if eq_ignore_ascii_case(os, "windows") {
        "C:\\".to_string()
    } else {
        "/".to_string()
    }
}

/// What is done to browse a path.
#[derive(Debug)]
pub enum BrowsePlan {
    /// The path is browsed on this machine.
    Here(String),
    /// A machine is asked, with the target of the request.
    Ask(MachineConfig, String),
}

/// The model of a `BrowsePlan`.
pub enum BrowsePlanModel {
    Here(Seq<char>),
    Ask(MachineConfigModel, Seq<char>),
}

impl View for BrowsePlan {
    type V = BrowsePlanModel;

    open spec fn view(&self) -> BrowsePlanModel {
        match self {
            BrowsePlan::Here(p) => BrowsePlanModel::Here(p@),
            BrowsePlan::Ask(m, target) => BrowsePlanModel::Ask(m@, target@),
        }
    }
}

/// What is done to browse a path: another machine is asked for its own paths.
pub open spec fn browse_plan(
    cfg: AppConfigModel,
    path: Option<Seq<char>>,
    machine_id: Option<Seq<char>>,
    env: LocalEnvModel,
) -> Result<BrowsePlanModel, BackendErrorModel> {
    let id = named_machine(machine_id);
    if id == "local"@ {
        Ok(
            BrowsePlanModel::Here(
                match path {
                    Some(p) => p,
                    None => "/"@,
                },
            ),
        )
    } else {
        match machine_of(cfg, id, env) {
            Some(m) => Ok(
                BrowsePlanModel::Ask(
                    m,
                    "/api/browse-paths?path="@ + query_text(
                        encode_utf8(
                            match path {
                                Some(p) => p,
                                None => first_path(m.os),
                            },
                        ),
                    ),
                ),
            ),
            None => Err(BackendErrorModel::UnknownMachine(id)),
        }
    }
}

/// The model of a plan that may have been refused.
pub open spec fn plan_view(r: Result<BrowsePlan, BackendError>) -> Result<
    BrowsePlanModel,
    BackendErrorModel,
> {
    match r {
        Ok(p) => Ok(p@),
        Err(e) => Err(e@),
    }
}

/// What is done to browse a path.
pub fn plan_browse(
    cfg: &AppConfig,
    path: Option<String>,
    machine_id: Option<String>,
    env: &LocalEnv,
) -> (r: Result<BrowsePlan, BackendError>)
    ensures
        plan_view(r) == browse_plan(cfg@, opt_view(path), opt_view(machine_id), env@),
{
    let id = match &machine_id {
        Some(v) => machine_id_from_path(Some(v.as_str())),
        None => machine_id_from_path(None),
    };
    if same(id.as_str(), "local") {
        let p = match path {
            Some(v) => v,
            None => "/".to_string(),
        };
        return Ok(BrowsePlan::Here(p));
    }
    match find_machine(cfg, id.as_str(), env) {
        Some(m) => {
            let requested = match path {
                Some(v) => v,
                None => default_path_for_os(m.os.as_str()),
            };
            let mut target = "/api/browse-paths?path=".to_string();
            target.append(encode_query_component(requested.as_str()).as_str());
            Ok(BrowsePlan::Ask(m, target))
        },
        None => Err(BackendError::UnknownMachine(id)),
    }
}

/// What a path turned out to be, once links were followed.
#[derive(Debug)]
pub enum PlaceKind {
    /// It cannot be opened.
    Missing,
    File(String),
    Directory(String),
    /// Neither a file nor a directory.
    Other(String),
}

/// The path that is opened: the root where none is given.
pub open spec fn asked_path(path: Seq<char>) -> Seq<char> {
    if path.len() == 0 {
        "/"@
    } else {
        path
    }
}

/// The path that is opened: the root where none is given.
pub fn path_to_open(path: &str) -> (r: String)
    ensures
        r@ == asked_path(path@),
{
    if is_blank(path) {
        "/".to_string()
    } else {
        path.to_string()
    }
}

/// The directory that is browsed: that of a file, or the directory itself.
pub fn normalize_browse_dir(path: &str, kind: PlaceKind) -> (r: Result<String, BackendError>)
    ensures
        match kind {
            PlaceKind::Missing => r is Err && r->Err_0@ == BackendErrorModel::NotOpened(
                asked_path(path@),
            ),
            PlaceKind::File(p) => match parent(p@) {
                Some(dir) => r is Ok && r->Ok_0@ == dir,
                None => r is Err && r->Err_0@ == BackendErrorModel::NoParent(p@),
            },
            PlaceKind::Directory(p) => r is Ok && r->Ok_0@ == p@,
            PlaceKind::Other(p) => r is Err && r->Err_0@ == BackendErrorModel::NotBrowsable(p@),
        },
{
    match kind {
        PlaceKind::Missing => Err(BackendError::NotOpened(path_to_open(path))),
        PlaceKind::File(p) => match parent_of(p.as_str()) {
            Some(dir) => Ok(dir),
            None => Err(BackendError::NoParent(p)),
        },
        PlaceKind::Directory(p) => Ok(p),
        PlaceKind::Other(p) => Err(BackendError::NotBrowsable(p)),
    }
}

/// An entry that was found in a directory.
#[derive(Debug)]
pub struct FoundEntry {
    pub name: String,
    pub path: String,
    pub is_dir: bool,
    pub is_file: bool,
}

/// The model of a `FoundEntry`.
pub struct FoundEntryModel {
    pub name: Seq<char>,
    pub path: Seq<char>,
    pub is_dir: bool,
    pub is_file: bool,
}

impl View for FoundEntry {
    type V = FoundEntryModel;

    open spec fn view(&self) -> FoundEntryModel {
        FoundEntryModel {
            name: self.name@,
            path: self.path@,
            is_dir: self.is_dir,
            is_file: self.is_file,
        }
    }
}

/// Choosing the entries that are shown: directories and files.
pub open spec fn browsable() -> spec_fn(FoundEntryModel) -> Option<
    crate::collector::browse::BrowseEntryModel,
> {
    |e: FoundEntryModel|
        if e.is_dir || e.is_file {
            Some(
                crate::collector::browse::BrowseEntryModel {
                    name: e.name,
                    path: e.path,
                    is_dir: e.is_dir,
                },
            )
        } else {
            None
        }
}

/// Giving an entry the word for its kind.
pub open spec fn with_kind() -> spec_fn(
    crate::collector::browse::BrowseEntryModel,
) -> BrowseEntryModel {
    |e: crate::collector::browse::BrowseEntryModel|
        BrowseEntryModel {
            name: e.name,
            path: e.path,
            kind: if e.is_dir {
                "dir"@
            } else {
                "file"@
            },
        }
}

/// The entries of a directory, directories first, then by name.
pub fn browse_paths_inner(path: &str, found: &Vec<FoundEntry>) -> (r: BrowseResponse)
    ensures
        r@.path == path@,
        r@.parent == parent(path@),
        r@.entries == in_order(views(found@).filter_map(browsable())).map_values(with_kind()),
{
    let ghost all = views(found@);
    let ghost f = browsable();
    let mut sorted: Vec<CollectorBrowseEntry> = Vec::new();
    proof {
        assert(all.take(0) =~= Seq::empty());
        assert(all.take(0).filter_map(f) =~= Seq::empty());
        assert(views(sorted@) =~= in_order(all.take(0).filter_map(f)));
    }
    for i in 0..found.len()
        invariant
            all == views(found@),
            f == browsable(),
            views(sorted@) == in_order(all.take(i as int).filter_map(f)),
    {
        let e = &found[i];
        let ghost before = all.take(i as int).filter_map(f);
        proof {
            assert(all[i as int] == e@);
            all.lemma_filter_map_take_succ(f, i as int);
        }
        if e.is_dir || e.is_file {
            let entry = CollectorBrowseEntry {
                name: e.name.clone(),
                path: e.path.clone(),
                is_dir: e.is_dir,
            };
            proof {
                assert(f(e@) == Some(entry@));
                assert(all.take(i + 1).filter_map(f) =~= before.push(entry@));
                assert(before.push(entry@).drop_last() =~= before);
            }
            place(&mut sorted, entry);
        } else {
            proof {
                assert(f(e@) is None);
                assert(all.take(i + 1).filter_map(f) =~= before);
            }
        }
    }
    let mut entries: Vec<BrowseEntry> = Vec::new();
    for i in 0..sorted.len()
        invariant
            entries.len() == i,
            forall|j: int|
                0 <= j < i ==> (#[trigger] entries@[j])@ == with_kind()(sorted@[j]@),
    {
        let e = &sorted[i];
        entries.push(
            BrowseEntry {
                name: e.name.clone(),
                path: e.path.clone(),
                kind: if e.is_dir {
                    "dir".to_string()
                } else {
                    "file".to_string()
                },
            },
        );
    }
    proof {
        assert(all.take(all.len() as int) =~= all);
        assert(views(entries@) =~= views(sorted@).map_values(with_kind()));
    }
    BrowseResponse { path: path.to_string(), parent: parent_of(path), entries }
}

} // verus!
