//! Telling the machine that manages a source of changes to it.
//!
//! Only changes of this machine are told, and only to the machine that manages the source, so
//! notifications never go round in circles.

use crate::config::identity::{machine_matches_reference, matches_reference};
use crate::config::locality::{is_self, machine_is_self};
use crate::config::types::{
    AppConfig, AppConfigModel, LocalEnv, LocalEnvModel, MachineConfig, MachineConfigModel,
    SourceGroupConfigModel,
};
use crate::machines::discovery::{has_discovery_id, machine_matches_discovery_id};
use crate::seqs::{first_item, lemma_first_where_is};
use crate::sorted::{insert_sorted, inserted};
use crate::text::{is_blank, opt_view, same, trim, trimmed, views};
use vstd::prelude::*;

verus! {

/// What has changed.
#[derive(Debug)]
pub struct NotifyState {
    /// The sources that this machine changed since the last push, sorted and without repeats.
    pub changed: Vec<String>,
    /// Counts changes of this machine and notifications of others.
    pub epoch: u64,
}

impl NotifyState {
    /// Nothing has changed.
    pub fn new() -> (r: NotifyState)
        ensures
            r.changed@.len() == 0,
            r.epoch == 0,
    {
        NotifyState { changed: Vec::new(), epoch: 0 }
    }
}

/// Records that this machine changed a source.
pub fn mark_local_change(s: &mut NotifyState, source_id: &str)
    ensures
        views(final(s).changed@) == inserted(views(old(s).changed@), source_id@),
        final(s).epoch == old(s).epoch.wrapping_add(1),
{
    insert_sorted(&mut s.changed, source_id.to_string());
    s.epoch = s.epoch.wrapping_add(1);
}

/// Records a notification of another machine: it is counted, and nothing is pushed for it.
pub fn note_remote_change(s: &mut NotifyState)
    ensures
        final(s).changed == old(s).changed,
        final(s).epoch == old(s).epoch.wrapping_add(1),
{
    s.epoch = s.epoch.wrapping_add(1);
}

/// Counts changes of this machine and notifications of others.
pub fn status_epoch(s: &NotifyState) -> (r: u64)
    ensures
        r == s.epoch,
{
    s.epoch
}

/// Hands over the changed sources and forgets them.
pub fn take_changed(s: &mut NotifyState) -> (r: Vec<String>)
    ensures
        views(r@) == views(old(s).changed@),
        final(s).changed@.len() == 0,
        final(s).epoch == old(s).epoch,
{
    let mut r: Vec<String> = Vec::new();
    r.append(&mut s.changed);
    proof {
        assert(views(r@) =~= views(old(s).changed@));
    }
    r
}

/// The test for the machine that manages a source: another one that is switched on, and that the
/// text refers to or is a discovery identifier of.
pub open spec fn manages(cfg: AppConfigModel, managed_by: Seq<char>, env: LocalEnvModel) -> spec_fn(
    MachineConfigModel,
) -> bool {
    |m: MachineConfigModel|
        m.id != "local"@ && m.enabled && !is_self(cfg, m, env) && (matches_reference(m, managed_by)
            || has_discovery_id(m, managed_by))
}

/// The machine that manages a source; none for sources of this machine.
pub open spec fn controller_of(
    cfg: AppConfigModel,
    managed_by: Seq<char>,
    env: LocalEnvModel,
) -> Option<MachineConfigModel> {
    if trimmed(managed_by).len() == 0 {
        None
    } else {
        first_item(cfg.machines, manages(cfg, trimmed(managed_by), env))
    }
}

/// The machine that manages a source.
pub fn controller_machine(cfg: &AppConfig, managed_by: &str, env: &LocalEnv) -> (r: Option<
    MachineConfig,
>)
    ensures
        opt_view(r) == controller_of(cfg@, managed_by@, env@),
{
    let by = trim(managed_by);
    let by = by.as_str();
    if is_blank(by) {
        return None;
    }
    let ghost ms = cfg@.machines;
    let ghost test = manages(cfg@, by@, env@);
    for i in 0..cfg.machines.len()
        invariant
            ms == views(cfg.machines@),
            ms == cfg@.machines,
            by@ == trimmed(managed_by@),
            by@.len() > 0,
            test == manages(cfg@, by@, env@),
            forall|j: int| 0 <= j < i ==> !test(#[trigger] ms[j]),
    {
        let m = &cfg.machines[i];
        proof {
            assert(ms[i as int] == m@);
        }
        if !same(m.id.as_str(), "local") && m.enabled && !machine_is_self(cfg, m, env) && (
        machine_matches_reference(m, by) || machine_matches_discovery_id(m, by)) {
            proof {
                lemma_first_where_is(ms, test, i as int);
            }
            return Some(m.clone());
        }
    }
    proof {
        lemma_first_where_is(ms, test, ms.len() as int);
    }
    None
}

/// The test for the source with an identifier.
pub open spec fn has_source_id(id: Seq<char>) -> spec_fn(SourceGroupConfigModel) -> bool {
    |s: SourceGroupConfigModel| s.id == id
}

/// The machine that is told of a change of a source.
pub open spec fn told_of(cfg: AppConfigModel, source_id: Seq<char>, env: LocalEnvModel) -> Option<
    MachineConfigModel,
> {
    match first_item(cfg.source_groups, has_source_id(source_id)) {
        Some(s) => controller_of(cfg, s.managed_by, env),
        None => None,
    }
}

/// Whether a machine is among those that are told.
pub open spec fn is_told(targets: Seq<MachineConfigModel>, m: MachineConfigModel) -> bool {
    exists|i: int|
        0 <= i < targets.len() && (#[trigger] targets[i]).id == m.id && targets[i].host == m.host
}

/// The machines that are told of changes: one for each source that is managed elsewhere, without
/// repeats.
pub open spec fn push_targets(
    cfg: AppConfigModel,
    changed: Seq<Seq<char>>,
    env: LocalEnvModel,
) -> Seq<MachineConfigModel>
    decreases changed.len(),
{
    if changed.len() == 0 {
        Seq::empty()
    } else {
        let before = push_targets(cfg, changed.drop_last(), env);
        match told_of(cfg, changed.last(), env) {
            Some(m) => if is_told(before, m) {
                before
            } else {
                before.push(m)
            },
            None => before,
        }
    }
}

/// The machine that is told of a change of a source.
fn find_told(cfg: &AppConfig, source_id: &str, env: &LocalEnv) -> (r: Option<MachineConfig>)
    ensures
        opt_view(r) == told_of(cfg@, source_id@, env@),
{
    let ghost ss = cfg@.source_groups;
    let ghost test = has_source_id(source_id@);
    for i in 0..cfg.source_groups.len()
        invariant
            ss == views(cfg.source_groups@),
            ss == cfg@.source_groups,
            test == has_source_id(source_id@),
            forall|j: int| 0 <= j < i ==> !test(#[trigger] ss[j]),
    {
        proof {
            assert(ss[i as int] == cfg.source_groups@[i as int]@);
        }
        if same(cfg.source_groups[i].id.as_str(), source_id) {
            proof {
                lemma_first_where_is(ss, test, i as int);
            }
            return controller_machine(cfg, cfg.source_groups[i].managed_by.as_str(), env);
        }
    }
    proof {
        lemma_first_where_is(ss, test, ss.len() as int);
    }
    None
}

/// Whether a machine is among those that are told.
fn already_told(targets: &Vec<MachineConfig>, m: &MachineConfig) -> (r: bool)
    ensures
        r == is_told(views(targets@), m@),
{
    for i in 0..targets.len()
        invariant
            forall|j: int|
                0 <= j < i ==> !((#[trigger] views(targets@)[j]).id == m@.id && views(
                    targets@,
                )[j].host == m@.host),
    {
        proof {
            assert(views(targets@)[i as int] == targets@[i as int]@);
        }
        if same(targets[i].id.as_str(), m.id.as_str()) && same(
            targets[i].host.as_str(),
            m.host.as_str(),
        ) {
            return true;
        }
    }
    false
}

/// The machines that are told of changes.
pub fn push_to_controllers(cfg: &AppConfig, changed: &Vec<String>, env: &LocalEnv) -> (out: Vec<
    MachineConfig,
>)
    ensures
        views(out@) == push_targets(cfg@, views(changed@), env@),
{
    let ghost cs = views(changed@);
    let mut out: Vec<MachineConfig> = Vec::new();
    proof {
        assert(views(out@) =~= push_targets(cfg@, cs.take(0), env@));
    }
    for i in 0..changed.len()
        invariant
            cs == views(changed@),
            views(out@) == push_targets(cfg@, cs.take(i as int), env@),
    {
        let ghost was = views(out@);
        proof {
            assert(cs.take(i + 1).drop_last() =~= cs.take(i as int));
            assert(cs.take(i + 1).last() == changed@[i as int]@);
        }
        match find_told(cfg, changed[i].as_str(), env) {
            Some(m) => {
                if !already_told(&out, &m) {
                    let ghost mv = m@;
                    out.push(m);
                    proof {
                        assert(views(out@) =~= was.push(mv));
                    }
                }
            },
            None => {},
        }
    }
    proof {
        assert(cs.take(cs.len() as int) =~= cs);
    }
    out
}

/// A machine that is told of a change is another one, is switched on, and is told only once.
pub proof fn told_machines_are_others(
    cfg: AppConfigModel,
    changed: Seq<Seq<char>>,
    env: LocalEnvModel,
)
    ensures
        forall|i: int|
            0 <= i < push_targets(cfg, changed, env).len() ==> {
                let m = #[trigger] push_targets(cfg, changed, env)[i];
                m.id != "local"@ && m.enabled && !is_self(cfg, m, env)
            },
        forall|i: int, j: int|
            0 <= i < j < push_targets(cfg, changed, env).len() ==> !(#[trigger] push_targets(
                cfg,
                changed,
                env,
            )[i].id == #[trigger] push_targets(cfg, changed, env)[j].id && push_targets(
                cfg,
                changed,
                env,
            )[i].host == push_targets(cfg, changed, env)[j].host),
    decreases changed.len(),
{
    if changed.len() > 0 {
        told_machines_are_others(cfg, changed.drop_last(), env);
        let before = push_targets(cfg, changed.drop_last(), env);
        let now = push_targets(cfg, changed, env);
        let told = told_of(cfg, changed.last(), env);
        if let Some(m) = told {
            let s = first_item(cfg.source_groups, has_source_id(changed.last()))->0;
            let test = manages(cfg, trimmed(s.managed_by), env);
            crate::seqs::lemma_first_where(cfg.machines, test);
            assert(test(m));
            assert forall|i: int, j: int| 0 <= i < j < now.len() implies !(#[trigger] now[i].id
                == #[trigger] now[j].id && now[i].host == now[j].host) by {
                if now.len() > before.len() && j == before.len() {
                    assert(now[i] == before[i]);
                } else {
                    assert(now[i] == before[i] && now[j] == before[j]);
                }
            }
        }
    }
}

/// Whether an entry is of another machine that is switched on, and a source that says it is managed
/// by `by` may be managed by it.
pub open spec fn may_manage(
    cfg: AppConfigModel,
    m: MachineConfigModel,
    by: Seq<char>,
    env: LocalEnvModel,
) -> bool {
    &&& m.id != "local"@
    &&& m.enabled
    &&& !is_self(cfg, m, env)
    &&& matches_reference(m, by) || has_discovery_id(m, by)
}

/// Whether one of the machines that are told may manage a source.
pub open spec fn tells_manager(
    cfg: AppConfigModel,
    told: Seq<MachineConfigModel>,
    by: Seq<char>,
    env: LocalEnvModel,
) -> bool {
    exists|k: int|
        0 <= k < told.len() && exists|j: int|
            0 <= j < cfg.machines.len() && (#[trigger] cfg.machines[j]).id == (
            #[trigger] told[k]).id && cfg.machines[j].host == told[k].host && may_manage(
                cfg,
                cfg.machines[j],
                by,
                env,
            )
}

/// Whenever a source has changed and says that another machine manages it, one that may is told.
pub proof fn managers_are_told_of_changes(
    cfg: AppConfigModel,
    changed: Seq<Seq<char>>,
    env: LocalEnvModel,
    c: int,
    i: int,
    j: int,
)
    requires
        0 <= c < changed.len(),
        0 <= i < cfg.source_groups.len(),
        cfg.source_groups[i].id == changed[c],
        forall|n: int| 0 <= n < i ==> (#[trigger] cfg.source_groups[n]).id != changed[c],
        trimmed(cfg.source_groups[i].managed_by).len() > 0,
        0 <= j < cfg.machines.len(),
        may_manage(cfg, cfg.machines[j], trimmed(cfg.source_groups[i].managed_by), env),
    ensures
        tells_manager(
            cfg,
            push_targets(cfg, changed, env),
            trimmed(cfg.source_groups[i].managed_by),
            env,
        ),
    decreases changed.len(),
{
    let by = trimmed(cfg.source_groups[i].managed_by);
    let fewer = changed.drop_last();
    let before = push_targets(cfg, fewer, env);
    let now = push_targets(cfg, changed, env);
    if c < fewer.len() {
        managers_are_told_of_changes(cfg, fewer, env, c, i, j);
        let k = choose|k: int|
            0 <= k < before.len() && exists|n: int|
                0 <= n < cfg.machines.len() && (#[trigger] cfg.machines[n]).id == (
                #[trigger] before[k]).id && cfg.machines[n].host == before[k].host && may_manage(
                    cfg,
                    cfg.machines[n],
                    by,
                    env,
                );
        assert(now[k] == before[k]);
    } else {
        lemma_first_where_is(cfg.source_groups, has_source_id(changed[c]), i);
        let test = manages(cfg, by, env);
        crate::seqs::lemma_first_where(cfg.machines, test);
        let f = crate::seqs::first_where(cfg.machines, test);
        assert(test(cfg.machines[j]));
        assert(f < cfg.machines.len()) by {
            if f >= cfg.machines.len() {
                assert(!test(cfg.machines[j]));
            }
        }
        let m = cfg.machines[f];
        assert(told_of(cfg, changed.last(), env) == Some(m));
        assert(may_manage(cfg, m, by, env));
        if is_told(before, m) {
            let k = choose|k: int|
                0 <= k < before.len() && (#[trigger] before[k]).id == m.id && before[k].host
                    == m.host;
            assert(now[k].id == cfg.machines[f].id);
        } else {
            assert(now[before.len() as int].id == cfg.machines[f].id);
        }
    }
}

} // verus!
