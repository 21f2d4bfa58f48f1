//! Sources that are synchronised by the machine that holds them.

use crate::backend::types::{
    BackendError, BackendErrorModel, DelegatedSourceGroupsRequest,
    DelegatedSourceGroupsRequestModel,
};
use crate::config::clean::{cleaned_machines, holds};
use crate::config::identity::{
    machine_id_or_local, machine_matches_reference, matches_reference, reference_of,
};
use crate::config::types::{
    clone_machine_configs, AppConfig, AppConfigModel, DestinationConfigModel, LocalEnv,
    LocalEnvModel, MachineConfig, MachineConfigModel, SourceGroupConfig, SourceGroupConfigModel,
};
use crate::machines::lookup::{find_machine, resolved};
use crate::seqs::{first_item, first_where, lemma_first_where_is};
use crate::text::{
    is_blank, lowered, opt_view, same, trim, trimmed, trimming_is_idempotent, views,
};
use vstd::prelude::*;

verus! {

/// The machine of a configuration that a reference means.
pub open spec fn machine_of(cfg: AppConfigModel, id: Seq<char>, env: LocalEnvModel) -> Option<
    MachineConfigModel,
> {
    resolved(cleaned_machines(cfg.machines, env), id)
}

/// Whether a source is on another machine.
pub open spec fn is_remote(s: SourceGroupConfigModel) -> bool {
    reference_of(s.machine_id) != "local"@
}

/// Whether a source is on another machine.
pub fn on_other_machine(s: &SourceGroupConfig) -> (r: bool)
    ensures
        r == is_remote(s@),
{
    !same(machine_id_or_local(s.machine_id.as_str()).as_str(), "local")
}

/// Making a destination local for the machine of its source, where it is on that machine.
pub open spec fn localizing(machine: MachineConfigModel, id: Seq<char>) -> spec_fn(
    DestinationConfigModel,
) -> DestinationConfigModel {
    |d: DestinationConfigModel|
        if reference_of(d.machine_id) == id || matches_reference(machine, d.machine_id) {
            DestinationConfigModel { machine_id: "local"@, ..d }
        } else {
            d
        }
}

/// A source as the machine that holds it is told of it.
pub open spec fn delegated_group(
    machine: MachineConfigModel,
    id: Seq<char>,
    controller_id: Seq<char>,
    s: SourceGroupConfigModel,
) -> SourceGroupConfigModel {
    SourceGroupConfigModel {
        machine_id: "local"@,
        managed_by: controller_id,
        destinations: s.destinations.map_values(localizing(machine, id)),
        ..s
    }
}

/// A source as the machine is told of it, where it is on that machine.
pub open spec fn delegating(
    machine: MachineConfigModel,
    id: Seq<char>,
    controller_id: Seq<char>,
) -> spec_fn(SourceGroupConfigModel) -> Option<SourceGroupConfigModel> {
    |s: SourceGroupConfigModel|
        if reference_of(s.machine_id) == id {
            Some(delegated_group(machine, id, controller_id, s))
        } else {
            None
        }
}

/// A source as the machine that holds it is told of it.
fn delegate(machine: &MachineConfig, id: &str, controller_id: &str, s: &SourceGroupConfig) -> (r:
    SourceGroupConfig)
    ensures
        r@ == delegated_group(machine@, id@, controller_id@, s@),
{
    let mut r = s.clone();
    let ghost ds = s@.destinations;
    let ghost f = localizing(machine@, id@);
    r.machine_id = "local".to_string();
    r.managed_by = controller_id.to_string();
    let n: usize = r.destinations.len();
    proof {
        assert(r@.destinations == ds);
        assert forall|j: int| 0 <= j < n implies (#[trigger] r.destinations@[j])@ == ds[j] by {
            assert(r@.destinations[j] == r.destinations@[j]@);
        }
    }
    for i in 0..n
        invariant
            n == r.destinations.len(),
            ds.len() == n,
            f == localizing(machine@, id@),
            r@ == (SourceGroupConfigModel {
                machine_id: "local"@,
                managed_by: controller_id@,
                destinations: r@.destinations,
                ..s@
            }),
            forall|j: int| 0 <= j < i ==> (#[trigger] r.destinations@[j])@ == f(ds[j]),
            forall|j: int| i <= j < n ==> (#[trigger] r.destinations@[j])@ == ds[j],
    {
        let mut d = r.destinations[i].clone();
        let d_id = machine_id_or_local(d.machine_id.as_str());
        if same(d_id.as_str(), id) || machine_matches_reference(machine, d.machine_id.as_str()) {
            d.machine_id = "local".to_string();
        }
        proof {
            assert(d@ == f(ds[i as int]));
        }
        r.destinations.set(i, d);
    }
    proof {
        assert(r@.destinations =~= ds.map_values(f));
    }
    r
}

/// The sources that a machine is told of.
pub fn delegated_groups_for_machine(
    cfg: &AppConfig,
    source_machine_id: &str,
    controller_id: &str,
    env: &LocalEnv,
) -> (r: Result<Vec<SourceGroupConfig>, BackendError>)
    ensures
        match machine_of(cfg@, source_machine_id@, env@) {
            Some(machine) => r is Ok && views(r->Ok_0@) == cfg@.source_groups.filter_map(
                delegating(machine, source_machine_id@, controller_id@),
            ),
            None => r is Err && r->Err_0@ == BackendErrorModel::UnknownSourceMachine(
                source_machine_id@,
            ),
        },
{
    let machine = match find_machine(cfg, source_machine_id, env) {
        Some(m) => m,
        None => {
            return Err(BackendError::UnknownSourceMachine(source_machine_id.to_string()));
        },
    };
    let ghost ss = cfg@.source_groups;
    let ghost f = delegating(machine@, source_machine_id@, controller_id@);
    let mut groups: Vec<SourceGroupConfig> = Vec::new();
    proof {
        assert(ss.take(0) =~= Seq::empty());
        assert(views(groups@) =~= ss.take(0).filter_map(f));
    }
    for i in 0..cfg.source_groups.len()
        invariant
            ss == views(cfg.source_groups@),
            f == delegating(machine@, source_machine_id@, controller_id@),
            views(groups@) == ss.take(i as int).filter_map(f),
    {
        let s = &cfg.source_groups[i];
        let ghost was = views(groups@);
        proof {
            assert(ss[i as int] == s@);
            ss.lemma_filter_map_take_succ(f, i as int);
        }
        if same(machine_id_or_local(s.machine_id.as_str()).as_str(), source_machine_id) {
            let g = delegate(&machine, source_machine_id, controller_id, s);
            let ghost gv = g@;
            groups.push(g);
            proof {
                assert(f(s@) == Some(gv));
                assert(views(groups@) =~= was.push(gv));
                assert(ss.take(i + 1).filter_map(f) =~= was.push(gv));
            }
        } else {
            proof {
                assert(f(s@) is None);
                assert(ss.take(i + 1).filter_map(f) =~= was);
            }
        }
    }
    proof {
        assert(ss.take(ss.len() as int) =~= ss);
    }
    Ok(groups)
}

/// The test for a source with an identifier.
pub open spec fn source_with_id(id: Seq<char>) -> spec_fn(SourceGroupConfigModel) -> bool {
    |s: SourceGroupConfigModel| s.id == id
}

/// The index of a source, or the number of sources.
pub fn find_source(ss: &Vec<SourceGroupConfig>, id: &str) -> (r: usize)
    ensures
        r == first_where(views(ss@), source_with_id(id@)),
        r <= ss.len(),
{
    let ghost all = views(ss@);
    let ghost test = source_with_id(id@);
    for i in 0..ss.len()
        invariant
            all == views(ss@),
            test == source_with_id(id@),
            forall|j: int| 0 <= j < i ==> !test(#[trigger] all[j]),
    {
        proof {
            assert(all[i as int] == ss@[i as int]@);
        }
        if same(ss[i].id.as_str(), id) {
            proof {
                lemma_first_where_is(all, test, i as int);
            }
            return i;
        }
    }
    proof {
        lemma_first_where_is(all, test, all.len() as int);
    }
    ss.len()
}

/// The machine that synchronises a source: none where it is this one or the source is not known.
pub fn source_execution_machine(cfg: &AppConfig, source_id: &str, env: &LocalEnv) -> (r: Result<
    Option<MachineConfig>,
    BackendError,
>)
    ensures
        match first_item(cfg@.source_groups, source_with_id(source_id@)) {
            Some(s) => if is_remote(s) {
                match machine_of(cfg@, reference_of(s.machine_id), env@) {
                    Some(m) => r is Ok && opt_view(r->Ok_0) == Some(m),
                    None => r is Err && r->Err_0@ == BackendErrorModel::UnknownSourceMachine(
                        reference_of(s.machine_id),
                    ),
                }
            } else {
                r is Ok && r->Ok_0 is None
            },
            None => r is Ok && r->Ok_0 is None,
        },
{
    let k = find_source(&cfg.source_groups, source_id);
    if k >= cfg.source_groups.len() {
        return Ok(None);
    }
    let s = &cfg.source_groups[k];
    proof {
        assert(cfg@.source_groups[k as int] == s@);
    }
    if !on_other_machine(s) {
        return Ok(None);
    }
    let id = machine_id_or_local(s.machine_id.as_str());
    match find_machine(cfg, id.as_str(), env) {
        Some(m) => Ok(Some(m)),
        None => Err(BackendError::UnknownSourceMachine(id)),
    }
}

/// Whether a reference means one of the machines.
pub open spec fn is_meant(ms: Seq<MachineConfigModel>, id: Seq<char>) -> bool {
    exists|i: int| 0 <= i < ms.len() && matches_reference(#[trigger] ms[i], id)
}

/// The machines that hold sources, each once, in the order of the sources.
pub open spec fn holding_machines(
    cfg: AppConfigModel,
    ss: Seq<SourceGroupConfigModel>,
    env: LocalEnvModel,
) -> Seq<MachineConfigModel>
    decreases ss.len(),
{
    if ss.len() == 0 {
        Seq::empty()
    } else {
        let before = holding_machines(cfg, ss.drop_last(), env);
        let id = reference_of(ss.last().machine_id);
        if is_remote(ss.last()) && !is_meant(before, id) && machine_of(cfg, id, env) is Some {
            before.push(machine_of(cfg, id, env)->0)
        } else {
            before
        }
    }
}

/// The machines that hold sources, each once, in the order of the sources.
pub fn remote_source_machines(cfg: &AppConfig, env: &LocalEnv) -> (out: Vec<MachineConfig>)
    ensures
        views(out@) == holding_machines(cfg@, cfg@.source_groups, env@),
{
    let ghost ss = cfg@.source_groups;
    let mut out: Vec<MachineConfig> = Vec::new();
    proof {
        assert(ss.take(0) =~= Seq::empty());
        assert(views(out@) =~= holding_machines(cfg@, ss.take(0), env@));
    }
    for i in 0..cfg.source_groups.len()
        invariant
            ss == views(cfg.source_groups@),
            views(out@) == holding_machines(cfg@, ss.take(i as int), env@),
    {
        let s = &cfg.source_groups[i];
        let ghost was = views(out@);
        proof {
            assert(ss[i as int] == s@);
            assert(ss.take(i + 1).drop_last() =~= ss.take(i as int));
        }
        let id = machine_id_or_local(s.machine_id.as_str());
        if on_other_machine(s) && !means_one_of(&out, id.as_str()) {
            match find_machine(cfg, id.as_str(), env) {
                Some(m) => {
                    let ghost mv = m@;
                    out.push(m);
                    proof {
                        assert(views(out@) =~= was.push(mv));
                    }
                },
                None => {},
            }
        }
    }
    proof {
        assert(ss.take(ss.len() as int) =~= ss);
    }
    out
}

/// Whether a reference means one of the machines.
fn means_one_of(ms: &Vec<MachineConfig>, id: &str) -> (r: bool)
    ensures
        r == is_meant(views(ms@), id@),
{
    let ghost all = views(ms@);
    for i in 0..ms.len()
        invariant
            all == views(ms@),
            forall|j: int| 0 <= j < i ==> !matches_reference(#[trigger] all[j], id@),
    {
        proof {
            assert(all[i as int] == ms@[i as int]@);
        }
        if machine_matches_reference(&ms[i], id) {
            proof {
                assert(matches_reference(all[i as int], id@));
            }
            return true;
        }
    }
    false
}

/// Whether a name that is not blank means a machine.
pub open spec fn named_by(m: MachineConfigModel, value: Seq<char>) -> bool {
    trimmed(value).len() > 0 && matches_reference(m, value)
}

/// The test for machines that one of the names of another machine means.
pub open spec fn shares_name(m: MachineConfigModel) -> spec_fn(MachineConfigModel) -> bool {
    |e: MachineConfigModel| named_by(e, m.id) || named_by(e, m.alias_name) || named_by(e, m.host)
}

/// Whether a name that is not blank means a machine.
fn is_named_by(m: &MachineConfig, value: &str) -> (r: bool)
    ensures
        r == named_by(m@, value@),
{
    !is_blank(trim(value).as_str()) && machine_matches_reference(m, value)
}

/// The index of the first machine that one of the names of another machine means, or the number of
/// machines.
pub fn find_namesake(ms: &Vec<MachineConfig>, m: &MachineConfig) -> (r: usize)
    ensures
        r == first_where(views(ms@), shares_name(m@)),
        r <= ms.len(),
{
    let ghost all = views(ms@);
    let ghost test = shares_name(m@);
    for i in 0..ms.len()
        invariant
            all == views(ms@),
            test == shares_name(m@),
            forall|j: int| 0 <= j < i ==> !test(#[trigger] all[j]),
    {
        let e = &ms[i];
        proof {
            assert(all[i as int] == e@);
        }
        if is_named_by(e, m.id.as_str()) || is_named_by(e, m.alias_name.as_str()) || is_named_by(
            e,
            m.host.as_str(),
        ) {
            proof {
                lemma_first_where_is(all, test, i as int);
            }
            return i;
        }
    }
    proof {
        lemma_first_where_is(all, test, all.len() as int);
    }
    ms.len()
}

/// The machines after a controlling machine has told of one: it takes the place of its namesake,
/// unless that is this machine.
pub open spec fn with_told(ms: Seq<MachineConfigModel>, m: MachineConfigModel) -> Seq<
    MachineConfigModel,
> {
    let k = first_where(ms, shares_name(m));
    if m.id == "local"@ {
        ms
    } else if k < ms.len() {
        if ms[k].id == "local"@ {
            ms
        } else {
            ms.update(k, m)
        }
    } else {
        ms.push(m)
    }
}

/// The machines after a controlling machine has told of others.
pub open spec fn with_all_told(
    ms: Seq<MachineConfigModel>,
    incoming: Seq<MachineConfigModel>,
) -> Seq<MachineConfigModel>
    decreases incoming.len(),
{
    if incoming.len() == 0 {
        ms
    } else {
        with_told(with_all_told(ms, incoming.drop_last()), incoming.last())
    }
}

/// Takes over the machines that a controlling machine has told of.
pub fn merge_delegated_machines(cfg: &mut AppConfig, incoming: &Vec<MachineConfig>)
    ensures
        final(cfg)@ == (AppConfigModel {
            machines: with_all_told(old(cfg)@.machines, views(incoming@)),
            ..old(cfg)@
        }),
{
    let ghost told = views(incoming@);
    proof {
        assert(told.take(0) =~= Seq::empty());
    }
    for i in 0..incoming.len()
        invariant
            told == views(incoming@),
            cfg@ == (AppConfigModel {
                machines: with_all_told(old(cfg)@.machines, told.take(i as int)),
                ..old(cfg)@
            }),
    {
        let m = &incoming[i];
        let ghost ms = cfg@.machines;
        proof {
            assert(told[i as int] == m@);
            assert(told.take(i + 1).drop_last() =~= told.take(i as int));
        }
        if !same(m.id.as_str(), "local") {
            let k = find_namesake(&cfg.machines, m);
            if k < cfg.machines.len() {
                proof {
                    assert(ms[k as int] == cfg.machines@[k as int]@);
                }
                if !same(cfg.machines[k].id.as_str(), "local") {
                    cfg.machines.set(k, m.clone());
                    proof {
                        assert(cfg@.machines =~= ms.update(k as int, m@));
                    }
                }
            } else {
                cfg.machines.push(m.clone());
                proof {
                    assert(cfg@.machines =~= ms.push(m@));
                }
            }
        }
    }
    proof {
        assert(told.take(told.len() as int) =~= told);
    }
}

/// The test for sources that a controlling machine does not manage.
pub open spec fn not_managed_by(controller_id: Seq<char>) -> spec_fn(
    SourceGroupConfigModel,
) -> bool {
    |s: SourceGroupConfigModel| s.managed_by != controller_id
}

/// Marking a source as managed by a controlling machine.
pub open spec fn managing(controller_id: Seq<char>) -> spec_fn(
    SourceGroupConfigModel,
) -> SourceGroupConfigModel {
    |s: SourceGroupConfigModel| SourceGroupConfigModel { managed_by: controller_id, ..s }
}

/// The sources after a controlling machine has told of its own.
pub open spec fn with_delegated(
    ss: Seq<SourceGroupConfigModel>,
    controller_id: Seq<char>,
    groups: Seq<SourceGroupConfigModel>,
) -> Seq<SourceGroupConfigModel> {
    ss.filter(not_managed_by(controller_id)) + groups.map_values(managing(controller_id))
}

/// The configuration after a controlling machine has told of its sources and machines.
pub open spec fn delegated_config(
    cfg: AppConfigModel,
    req: DelegatedSourceGroupsRequestModel,
) -> AppConfigModel {
    AppConfigModel {
        source_groups: with_delegated(cfg.source_groups, req.controller_id, req.source_groups),
        machines: with_all_told(cfg.machines, req.machines),
        ..cfg
    }
}

/// The configuration after a controlling machine has told of its sources and machines.
pub fn take_delegation(cfg: &AppConfig, req: &DelegatedSourceGroupsRequest) -> (r: AppConfig)
    ensures
        r@ == delegated_config(cfg@, req@),
{
    let ghost all = cfg@.source_groups;
    let ghost keep = not_managed_by(req@.controller_id);
    let mut ss: Vec<SourceGroupConfig> = Vec::new();
    proof {
        assert(views(ss@) =~= all.take(0).filter(keep));
    }
    for i in 0..cfg.source_groups.len()
        invariant
            all == views(cfg.source_groups@),
            keep == not_managed_by(req@.controller_id),
            views(ss@) == all.take(i as int).filter(keep),
    {
        let s = &cfg.source_groups[i];
        let ghost was = views(ss@);
        proof {
            assert(all[i as int] == s@);
            assert(all.take(i + 1) =~= all.take(i as int).push(s@));
            all.take(i as int).lemma_filter_push(s@, keep);
        }
        if !same(s.managed_by.as_str(), req.controller_id.as_str()) {
            ss.push(s.clone());
            proof {
                assert(views(ss@) =~= was.push(s@));
            }
        }
    }
    let ghost own = views(ss@);
    let ghost groups = req@.source_groups;
    let ghost f = managing(req@.controller_id);
    proof {
        assert(all.take(all.len() as int) =~= all);
        assert(own + groups.take(0).map_values(f) =~= own);
    }
    for i in 0..req.source_groups.len()
        invariant
            groups == views(req.source_groups@),
            f == managing(req@.controller_id),
            views(ss@) == own + groups.take(i as int).map_values(f),
    {
        let mut s = req.source_groups[i].clone();
        let ghost was = views(ss@);
        proof {
            assert(groups[i as int] == req.source_groups@[i as int]@);
        }
        s.managed_by = req.controller_id.clone();
        let ghost sv = s@;
        ss.push(s);
        proof {
            assert(sv == f(groups[i as int]));
            assert(views(ss@) =~= was.push(sv));
            assert(was.push(sv) =~= own + groups.take(i + 1).map_values(f));
        }
    }
    proof {
        assert(groups.take(groups.len() as int) =~= groups);
    }
    let mut r = cfg.clone();
    r.source_groups = ss;
    merge_delegated_machines(&mut r, &req.machines);
    r
}

/// The machines that hold or held sources, by the names that the sources give them, each once.
pub open spec fn source_machine_names(ss: Seq<SourceGroupConfigModel>) -> Seq<Seq<char>>
    decreases ss.len(),
{
    if ss.len() == 0 {
        Seq::empty()
    } else {
        let before = source_machine_names(ss.drop_last());
        let id = reference_of(ss.last().machine_id);
        if is_remote(ss.last()) && !before.contains(id) {
            before.push(id)
        } else {
            before
        }
    }
}

/// Adds the machines of sources to those that are to be told, each once.
fn add_source_machines(names: &mut Vec<String>, ss: &Vec<SourceGroupConfig>, Ghost(earlier): Ghost<
    Seq<SourceGroupConfigModel>,
>)
    requires
        views(old(names)@) == source_machine_names(earlier),
    ensures
        views(final(names)@) == source_machine_names(earlier + views(ss@)),
{
    let ghost all = views(ss@);
    proof {
        assert(earlier + all.take(0) =~= earlier);
    }
    for i in 0..ss.len()
        invariant
            all == views(ss@),
            views(names@) == source_machine_names(earlier + all.take(i as int)),
    {
        let s = &ss[i];
        let ghost was = views(names@);
        proof {
            assert(all[i as int] == s@);
            let more = earlier + all.take(i + 1);
            assert(more.last() == s@);
            assert(more.drop_last() =~= earlier + all.take(i as int));
        }
        let id = machine_id_or_local(s.machine_id.as_str());
        if on_other_machine(s) && !holds(names, id.as_str()) {
            let ghost idv = id@;
            names.push(id);
            proof {
                assert(views(names@) =~= was.push(idv));
            }
        }
    }
    proof {
        assert(all.take(all.len() as int) =~= all);
    }
}

/// The machines that are to be told of their sources after a configuration was stored: those that
/// hold sources now or did before.
pub fn machines_to_tell(previous: &Option<AppConfig>, cfg: &AppConfig) -> (names: Vec<String>)
    ensures
        views(names@) == source_machine_names(
            (match previous {
                Some(p) => p@.source_groups,
                None => Seq::empty(),
            }) + cfg@.source_groups,
        ),
{
    let mut names: Vec<String> = Vec::new();
    let ghost earlier: Seq<SourceGroupConfigModel> = match previous {
        Some(p) => p@.source_groups,
        None => Seq::empty(),
    };
    proof {
        assert(views(names@) =~= source_machine_names(Seq::empty()));
        assert(Seq::<SourceGroupConfigModel>::empty() + earlier =~= earlier);
    }
    match previous {
        Some(p) => {
            add_source_machines(&mut names, &p.source_groups, Ghost(Seq::empty()));
        },
        None => {},
    }
    add_source_machines(&mut names, &cfg.source_groups, Ghost(earlier));
    names
}

/// What a machine is told after a configuration was stored, and how it is reached.
pub fn delegation_for(
    cfg: &AppConfig,
    source_machine_id: &str,
    controller_id: &str,
    env: &LocalEnv,
) -> (r: Result<(MachineConfig, DelegatedSourceGroupsRequest), BackendError>)
    ensures
        match machine_of(cfg@, source_machine_id@, env@) {
            Some(m) => r is Ok && r->Ok_0.0@ == m && r->Ok_0.1@ == (
            DelegatedSourceGroupsRequestModel {
                controller_id: controller_id@,
                machines: cfg@.machines,
                source_groups: cfg@.source_groups.filter_map(
                    delegating(m, source_machine_id@, controller_id@),
                ),
            }),
            None => r is Err && r->Err_0@ == BackendErrorModel::UnknownSourceMachine(
                source_machine_id@,
            ),
        },
{
    let machine = match find_machine(cfg, source_machine_id, env) {
        Some(m) => m,
        None => {
            return Err(BackendError::UnknownSourceMachine(source_machine_id.to_string()));
        },
    };
    match delegated_groups_for_machine(cfg, source_machine_id, controller_id, env) {
        Ok(groups) => Ok(
            (
                machine,
                DelegatedSourceGroupsRequest {
                    controller_id: controller_id.to_string(),
                    machines: clone_machine_configs(&cfg.machines),
                    source_groups: groups,
                },
            ),
        ),
        Err(e) => Err(e),
    }
}

/// A machine synchronises what it is told of itself, for the machine that told it: every source is
/// local there and managed by the controlling machine.
pub proof fn delegated_sources_are_local(
    machine: MachineConfigModel,
    id: Seq<char>,
    controller_id: Seq<char>,
    ss: Seq<SourceGroupConfigModel>,
)
    ensures
        forall|i: int|
            0 <= i < ss.filter_map(delegating(machine, id, controller_id)).len() ==> {
                let g = #[trigger] ss.filter_map(delegating(machine, id, controller_id))[i];
                g.machine_id == "local"@ && g.managed_by == controller_id
            },
    decreases ss.len(),
{
    let f = delegating(machine, id, controller_id);
    if ss.len() > 0 {
        delegated_sources_are_local(machine, id, controller_id, ss.drop_last());
        ss.lemma_filter_map_take_succ(f, ss.len() - 1);
        assert(ss.take(ss.len() - 1) =~= ss.drop_last());
        assert(ss.take(ss.len() as int) =~= ss);
    } else {
        assert(ss.filter_map(f) =~= Seq::empty());
    }
}

/// What a controlling machine tells replaces what it told before, and nothing else.
pub proof fn delegation_replaces_the_earlier_one(
    ss: Seq<SourceGroupConfigModel>,
    controller_id: Seq<char>,
    first: Seq<SourceGroupConfigModel>,
    second: Seq<SourceGroupConfigModel>,
)
    ensures
        with_delegated(with_delegated(ss, controller_id, first), controller_id, second)
            == with_delegated(ss, controller_id, second),
{
    let keep = not_managed_by(controller_id);
    let own = ss.filter(keep);
    let told = first.map_values(managing(controller_id));
    lemma_filter_append(own, told, keep);
    lemma_filter_keeps_all(own, keep);
    lemma_filter_drops_all(told, keep);
    assert((own + told).filter(keep) =~= own);
}

proof fn lemma_filter_append<T>(a: Seq<T>, b: Seq<T>, p: spec_fn(T) -> bool)
    ensures
        (a + b).filter(p) == a.filter(p) + b.filter(p),
    decreases b.len(),
{
    if b.len() == 0 {
        assert(a + b =~= a);
        assert(b.filter(p) =~= Seq::empty());
        assert(a.filter(p) + b.filter(p) =~= a.filter(p));
    } else {
        let t = b.drop_last();
        lemma_filter_append(a, t, p);
        (a + t).lemma_filter_push(b.last(), p);
        t.lemma_filter_push(b.last(), p);
        assert(a + b =~= (a + t).push(b.last()));
        assert(b =~= t.push(b.last()));
        assert((a.filter(p) + t.filter(p)).push(b.last()) =~= a.filter(p) + t.filter(p).push(
            b.last(),
        ));
    }
}

proof fn lemma_filter_keeps_all(own: Seq<SourceGroupConfigModel>, keep: spec_fn(
    SourceGroupConfigModel,
) -> bool)
    requires
        forall|i: int| 0 <= i < own.len() ==> keep(#[trigger] own[i]),
    ensures
        own.filter(keep) == own,
    decreases own.len(),
{
    if own.len() == 0 {
        assert(own.filter(keep) =~= own);
    } else {
        let t = own.drop_last();
        assert forall|i: int| 0 <= i < t.len() implies keep(#[trigger] t[i]) by {
            assert(keep(own[i]));
        }
        lemma_filter_keeps_all(t, keep);
        t.lemma_filter_push(own.last(), keep);
        assert(own =~= t.push(own.last()));
        assert(keep(own[own.len() - 1]));
    }
}

proof fn lemma_filter_drops_all(told: Seq<SourceGroupConfigModel>, keep: spec_fn(
    SourceGroupConfigModel,
) -> bool)
    requires
        forall|i: int| 0 <= i < told.len() ==> !keep(#[trigger] told[i]),
    ensures
        told.filter(keep) == Seq::<SourceGroupConfigModel>::empty(),
    decreases told.len(),
{
    if told.len() == 0 {
        assert(told.filter(keep) =~= Seq::empty());
    } else {
        let t = told.drop_last();
        assert forall|i: int| 0 <= i < t.len() implies !keep(#[trigger] t[i]) by {
            assert(!keep(told[i]));
        }
        lemma_filter_drops_all(t, keep);
        t.lemma_filter_push(told.last(), keep);
        assert(told =~= t.push(told.last()));
        assert(!keep(told[told.len() - 1]));
    }
}

/// Whether a reference to a machine is the text `id`: without the white space around it, where a
/// blank one stands for this machine.
pub open spec fn refers(reference: Seq<char>, id: Seq<char>) -> bool {
    let t = trimmed(reference);
    (t.len() > 0 && t == id) || (t.len() == 0 && id == "local"@)
}

/// Whether a reference that is not to this machine names a machine, by its alias, its identifier or
/// its address, whatever the case of their letters.
pub open spec fn names_machine(m: MachineConfigModel, reference: Seq<char>) -> bool {
    let t = trimmed(reference);
    t.len() > 0 && lowered(t) != "local"@ && {
        ||| trimmed(m.alias_name).len() > 0 && lowered(trimmed(m.alias_name)) == lowered(t)
        ||| lowered(m.id) == lowered(t)
        ||| lowered(trimmed(m.host)) == lowered(t)
    }
}

/// Whether a destination is on the machine of its source: it refers to the machine as the source
/// does, or by one of its names.
pub open spec fn is_at_the_source(
    machine: MachineConfigModel,
    id: Seq<char>,
    d: DestinationConfigModel,
) -> bool {
    ||| refers(d.machine_id, id)
    ||| names_machine(machine, d.machine_id)
    ||| machine.id == "local"@ && (trimmed(d.machine_id).len() == 0 || lowered(
        trimmed(d.machine_id),
    ) == "local"@)
}

/// Whether a group is what the machine of a source is told of it: a source on that machine, managed
/// by the controlling one, with everything else as it was. Its destinations are the same ones; those
/// on the machine of the source are on this machine for it, and all others are where they were.
pub open spec fn tells_of(
    machine: MachineConfigModel,
    id: Seq<char>,
    controller_id: Seq<char>,
    s: SourceGroupConfigModel,
    g: SourceGroupConfigModel,
) -> bool {
    &&& g.id == s.id
    &&& g.machine_id == "local"@
    &&& g.managed_by == controller_id
    &&& g.src == s.src
    &&& g.add_directory == s.add_directory
    &&& g.excludes == s.excludes
    &&& g.enabled == s.enabled
    &&& g.order == s.order
    &&& g.mode == s.mode
    &&& g.snapshot == s.snapshot
    &&& g.destinations.len() == s.destinations.len()
    &&& forall|j: int|
        0 <= j < s.destinations.len() ==> {
            let a = #[trigger] g.destinations[j];
            let b = s.destinations[j];
            &&& a.id == b.id
            &&& a.path == b.path
            &&& a.enabled == b.enabled
            &&& a.paused == b.paused
            &&& a.schedule == b.schedule
            &&& a.sync == b.sync
            &&& is_at_the_source(machine, id, b) ==> a.machine_id == "local"@
            &&& !is_at_the_source(machine, id, b) ==> a.machine_id == b.machine_id
        }
}

/// The test for sources that refer to a machine by the text `id`.
pub open spec fn on_machine(id: Seq<char>) -> spec_fn(SourceGroupConfigModel) -> bool {
    |s: SourceGroupConfigModel| refers(s.machine_id, id)
}

/// A machine is told of each of the sources on it, in their order and of no other. A destination of
/// such a source on a third machine stays on that machine; one on the machine of the source becomes
/// local to it; nothing else of a destination changes.
pub proof fn delegated_destinations_stay_where_they_are(
    machine: MachineConfigModel,
    id: Seq<char>,
    controller_id: Seq<char>,
    ss: Seq<SourceGroupConfigModel>,
)
    ensures
        ({
            let groups = ss.filter_map(delegating(machine, id, controller_id));
            let told = ss.filter(on_machine(id));
            &&& groups.len() == told.len()
            &&& forall|i: int|
                0 <= i < groups.len() ==> tells_of(
                    machine,
                    id,
                    controller_id,
                    told[i],
                    #[trigger] groups[i],
                )
        }),
    decreases ss.len(),
{
    let f = delegating(machine, id, controller_id);
    let test = on_machine(id);
    if ss.len() == 0 {
        assert(ss.filter_map(f) =~= Seq::empty());
        assert(ss.filter(test) =~= Seq::empty());
    } else {
        let t = ss.drop_last();
        let s = ss.last();
        delegated_destinations_stay_where_they_are(machine, id, controller_id, t);
        ss.lemma_filter_map_take_succ(f, ss.len() - 1);
        assert(ss.take(ss.len() - 1) =~= t);
        assert(ss.take(ss.len() as int) =~= ss);
        t.lemma_filter_push(s, test);
        assert(t.push(s) =~= ss);
        assert(refers(s.machine_id, id) == (reference_of(s.machine_id) == id));
        let before = t.filter_map(f);
        let groups = ss.filter_map(f);
        let told = ss.filter(test);
        if refers(s.machine_id, id) {
            let g = delegated_group(machine, id, controller_id, s);
            assert(groups =~= before.push(g));
            lemma_tells_of(machine, id, controller_id, s);
            assert forall|i: int| 0 <= i < groups.len() implies tells_of(
                machine,
                id,
                controller_id,
                told[i],
                #[trigger] groups[i],
            ) by {
                if i < before.len() {
                    assert(groups[i] == before[i]);
                    assert(told[i] == t.filter(test)[i]);
                }
            }
        } else {
            assert(groups =~= before);
        }
    }
}

proof fn lemma_tells_of(
    machine: MachineConfigModel,
    id: Seq<char>,
    controller_id: Seq<char>,
    s: SourceGroupConfigModel,
)
    ensures
        tells_of(machine, id, controller_id, s, delegated_group(machine, id, controller_id, s)),
{
    let g = delegated_group(machine, id, controller_id, s);
    assert forall|j: int| 0 <= j < s.destinations.len() implies {
        let a = #[trigger] g.destinations[j];
        let b = s.destinations[j];
        &&& a.id == b.id
        &&& a.path == b.path
        &&& a.enabled == b.enabled
        &&& a.paused == b.paused
        &&& a.schedule == b.schedule
        &&& a.sync == b.sync
        &&& is_at_the_source(machine, id, b) ==> a.machine_id == "local"@
        &&& !is_at_the_source(machine, id, b) ==> a.machine_id == b.machine_id
    } by {
        let b = s.destinations[j];
        lemma_local_is_lower();
        assert(refers(b.machine_id, id) == (reference_of(b.machine_id) == id));
        assert(is_at_the_source(machine, id, b) == (reference_of(b.machine_id) == id
            || matches_reference(machine, b.machine_id)));
    }
}

/// The name of this machine is in lower case.
proof fn lemma_local_is_lower()
    ensures
        lowered("local"@) == "local"@,
        "local"@.len() > 0,
{
    reveal_strlit("local");
    assert(lowered("local"@) =~= "local"@);
}

/// The test for names of machines that sources are on and that are not this one.
pub open spec fn holds_source(ss: Seq<SourceGroupConfigModel>, name: Seq<char>) -> bool {
    name != "local"@ && exists|i: int|
        0 <= i < ss.len() && refers((#[trigger] ss[i]).machine_id, name)
}

/// Every machine that holds a source or did before is told, once, and no other one; this machine is
/// not told.
pub proof fn machines_with_sources_are_told(ss: Seq<SourceGroupConfigModel>, name: Seq<char>)
    ensures
        source_machine_names(ss).contains(name) == holds_source(ss, name),
        forall|i: int, j: int|
            0 <= i < j < source_machine_names(ss).len() ==> source_machine_names(ss)[i]
                != source_machine_names(ss)[j],
    decreases ss.len(),
{
    let names = source_machine_names(ss);
    if ss.len() > 0 {
        let t = ss.drop_last();
        let before = source_machine_names(t);
        let id = reference_of(ss.last().machine_id);
        machines_with_sources_are_told(t, name);
        machines_with_sources_are_told(t, id);
        lemma_local_is_lower();
        let n = ss.len() - 1;
        assert(refers(ss[n].machine_id, name) == (id == name));
        if holds_source(t, name) {
            let i = choose|i: int| 0 <= i < t.len() && refers((#[trigger] t[i]).machine_id, name);
            assert(refers(ss[i].machine_id, name));
        }
        if holds_source(ss, name) && id != name {
            let i = choose|i: int| 0 <= i < ss.len() && refers((#[trigger] ss[i]).machine_id, name);
            assert(refers(t[i].machine_id, name));
        }
        if names.len() > before.len() {
            assert(names[before.len() as int] == id);
            if before.contains(name) {
                let m = choose|m: int| 0 <= m < before.len() && before[m] == name;
                assert(names[m] == name);
            }
            if names.contains(name) && name != id {
                let m = choose|m: int| 0 <= m < names.len() && names[m] == name;
                assert(before[m] == name);
            }
            assert forall|i: int, j: int| 0 <= i < j < names.len() implies names[i] != names[j] by {
                if j == before.len() {
                    assert(before.contains(before[i]));
                }
            }
        }
    }
}

/// A machine that is told of sources keeps those that another one manages or none does, as they
/// were and in their order, and has those that it was told of behind them, managed by the machine
/// that told it.
pub proof fn told_sources_join_the_others(
    cfg: AppConfigModel,
    req: DelegatedSourceGroupsRequestModel,
    s: SourceGroupConfigModel,
    j: int,
)
    ensures
        ({
            let after = delegated_config(cfg, req).source_groups;
            let n = after.len() - req.source_groups.len();
            &&& n >= 0
            &&& s.managed_by != req.controller_id && cfg.source_groups.contains(s)
                ==> after.contains(s)
            &&& forall|i: int|
                0 <= i < n ==> cfg.source_groups.contains(#[trigger] after[i]) && after[i].managed_by
                    != req.controller_id
            &&& 0 <= j < req.source_groups.len() ==> after[n + j] == SourceGroupConfigModel {
                managed_by: req.controller_id,
                ..req.source_groups[j]
            }
        }),
{
    let keep = not_managed_by(req.controller_id);
    let ss = cfg.source_groups;
    let own = ss.filter(keep);
    let after = delegated_config(cfg, req).source_groups;
    assert forall|i: int| 0 <= i < own.len() implies ss.contains(#[trigger] after[i])
        && after[i].managed_by != req.controller_id by {
        ss.lemma_filter_pred(keep, i);
        ss.lemma_filter_contains_rev(keep, own[i]);
        assert(after[i] == own[i]);
    }
    if s.managed_by != req.controller_id && ss.contains(s) {
        let m = choose|m: int| 0 <= m < ss.len() && ss[m] == s;
        ss.lemma_filter_contains(keep, m);
        let l = choose|l: int| 0 <= l < own.len() && own[l] == s;
        assert(after[l] == s);
    }
}

/// When everything is synchronised, every machine that holds a source and is known is among those
/// that are told, by one of its names; and no machine is told twice under one name.
pub proof fn every_machine_with_a_source_is_reached(
    cfg: AppConfigModel,
    ss: Seq<SourceGroupConfigModel>,
    env: LocalEnvModel,
    i: int,
)
    requires
        0 <= i < ss.len(),
        trimmed(ss[i].machine_id).len() > 0,
        trimmed(ss[i].machine_id) != "local"@,
        machine_of(cfg, trimmed(ss[i].machine_id), env) is Some,
    ensures
        exists|k: int|
            0 <= k < holding_machines(cfg, ss, env).len() && {
                let m = #[trigger] holding_machines(cfg, ss, env)[k];
                m == machine_of(cfg, trimmed(ss[i].machine_id), env)->0 || matches_reference(
                    m,
                    ss[i].machine_id,
                )
            },
    decreases ss.len(),
{
    let t = ss.drop_last();
    let before = holding_machines(cfg, t, env);
    let all = holding_machines(cfg, ss, env);
    let id = reference_of(ss.last().machine_id);
    if i < t.len() {
        assert(t[i] == ss[i]);
        every_machine_with_a_source_is_reached(cfg, t, env, i);
        let k = choose|k: int|
            0 <= k < before.len() && {
                let m = #[trigger] before[k];
                m == machine_of(cfg, trimmed(ss[i].machine_id), env)->0 || matches_reference(
                    m,
                    ss[i].machine_id,
                )
            };
        assert(all[k] == before[k]);
    } else if is_meant(before, id) {
        let k = choose|k: int| 0 <= k < before.len() && matches_reference(#[trigger] before[k], id);
        assert(all[k] == before[k]);
        trimming_is_idempotent(ss[i].machine_id);
        assert(reference_of(id) == id);
        assert(matches_reference(all[k], ss[i].machine_id));
    } else {
        assert(all[before.len() as int] == machine_of(cfg, id, env)->0);
    }
}

} // verus!
