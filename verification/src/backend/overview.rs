//! The state of all destinations, with those of sources on other machines.

use crate::backend::delegation::{is_remote, machine_of, on_other_machine};
use crate::config::identity::{machine_id_or_local, reference_of};
use crate::config::types::{
    AppConfig, AppConfigModel, DestinationConfigModel, LocalEnv, LocalEnvModel, MachineConfig,
    MachineConfigModel, SourceGroupConfig, SourceGroupConfigModel,
};
use crate::machines::lookup::find_machine;
use crate::state::types::{DestinationView, DestinationViewModel};
use crate::text::{opt_view, same, trim, is_blank, trimmed, views};
use vstd::prelude::*;

verus! {

/// A destination of which nothing is known but why.
pub open spec fn offline_view(
    s: SourceGroupConfigModel,
    d: DestinationConfigModel,
    reason: Seq<char>,
) -> DestinationViewModel {
    DestinationViewModel {
        source_id: s.id,
        destination_id: d.id,
        path: d.path,
        enabled: d.enabled,
        latest_closed_cycle_id: None,
        target_cycle_id: None,
        last_verified_cycle_id: None,
        last_completed_cycle_id: None,
        status: "red"@,
        status_reason: reason,
        updated_at: None,
        issues: Seq::empty(),
        scan_differences: None,
        scan_at: None,
        restart_notice_at: None,
        restart_gap_started: None,
    }
}

/// `offline_view` for destinations that are switched on.
pub open spec fn offline(s: SourceGroupConfigModel, reason: Seq<char>) -> spec_fn(
    DestinationConfigModel,
) -> Option<DestinationViewModel> {
    |d: DestinationConfigModel|
        if d.enabled {
            Some(offline_view(s, d, reason))
        } else {
            None
        }
}

/// The destinations of a source that are switched on, as shown when nothing is known of them.
pub fn offline_views_for_source(source: &SourceGroupConfig, reason: &str) -> (out: Vec<
    DestinationView,
>)
    ensures
        views(out@) == source@.destinations.filter_map(offline(source@, reason@)),
{
    let ghost ds = source@.destinations;
    let ghost f = offline(source@, reason@);
    let mut out: Vec<DestinationView> = Vec::new();
    proof {
        assert(ds.take(0) =~= Seq::empty());
        assert(views(out@) =~= ds.take(0).filter_map(f));
    }
    for i in 0..source.destinations.len()
        invariant
            ds == views(source.destinations@),
            f == offline(source@, reason@),
            views(out@) == ds.take(i as int).filter_map(f),
    {
        let d = &source.destinations[i];
        let ghost was = views(out@);
        proof {
            assert(ds[i as int] == d@);
            ds.lemma_filter_map_take_succ(f, i as int);
        }
        if d.enabled {
            let view = DestinationView {
                source_id: source.id.clone(),
                destination_id: d.id.clone(),
                path: d.path.clone(),
                enabled: d.enabled,
                latest_closed_cycle_id: None,
                target_cycle_id: None,
                last_verified_cycle_id: None,
                last_completed_cycle_id: None,
                status: "red".to_string(),
                status_reason: reason.to_string(),
                updated_at: None,
                issues: Vec::new(),
                scan_differences: None,
                scan_at: None,
                restart_notice_at: None,
                restart_gap_started: None,
            };
            proof {
                assert(view@.issues =~= Seq::empty());
                assert(f(d@) == Some(view@));
            }
            let ghost vv = view@;
            out.push(view);
            proof {
                assert(views(out@) =~= was.push(vv));
                assert(ds.take(i + 1).filter_map(f) =~= was.push(vv));
            }
        } else {
            proof {
                assert(f(d@) is None);
                assert(ds.take(i + 1).filter_map(f) =~= was);
            }
        }
    }
    proof {
        assert(ds.take(ds.len() as int) =~= ds);
    }
    out
}

/// Whether a source of that name is on another machine.
pub open spec fn is_remote_id(ss: Seq<SourceGroupConfigModel>, id: Seq<char>) -> bool {
    exists|i: int| 0 <= i < ss.len() && is_remote(#[trigger] ss[i]) && ss[i].id == id
}

/// The test for destinations whose source is on this machine.
pub open spec fn seen_here(ss: Seq<SourceGroupConfigModel>) -> spec_fn(
    DestinationViewModel,
) -> bool {
    |v: DestinationViewModel| !is_remote_id(ss, v.source_id)
}

/// The test for destinations of a source.
pub open spec fn view_of(source_id: Seq<char>) -> spec_fn(DestinationViewModel) -> bool {
    |v: DestinationViewModel| v.source_id == source_id
}

/// What was answered for the source at an index; nothing where the machine did not answer.
pub open spec fn reply_at(replies: Seq<Option<Vec<DestinationView>>>, i: int) -> Option<
    Seq<DestinationViewModel>,
> {
    if 0 <= i < replies.len() && replies[i] is Some {
        Some(views(replies[i]->0@))
    } else {
        None
    }
}

/// What is shown for a source on another machine.
pub open spec fn remote_views(
    s: SourceGroupConfigModel,
    machine: Option<MachineConfigModel>,
    reply: Option<Seq<DestinationViewModel>>,
) -> Seq<DestinationViewModel> {
    match (machine, reply) {
        (None, _) => s.destinations.filter_map(offline(s, "unknown_source_machine"@)),
        (Some(_), None) => s.destinations.filter_map(offline(s, "source_machine_offline"@)),
        (Some(_), Some(vs)) => if vs.filter(view_of(s.id)).len() == 0 {
            s.destinations.filter_map(offline(s, "remote_status_missing"@))
        } else {
            vs.filter(view_of(s.id))
        },
    }
}

/// What is shown for the first sources that are on other machines.
pub open spec fn all_remote_views(
    cfg: AppConfigModel,
    replies: Seq<Option<Vec<DestinationView>>>,
    env: LocalEnvModel,
    n: int,
) -> Seq<DestinationViewModel>
    decreases n,
{
    if n <= 0 {
        Seq::empty()
    } else {
        let before = all_remote_views(cfg, replies, env, n - 1);
        let s = cfg.source_groups[n - 1];
        if is_remote(s) {
            before + remote_views(
                s,
                machine_of(cfg, reference_of(s.machine_id), env),
                reply_at(replies, n - 1),
            )
        } else {
            before
        }
    }
}

/// The items that pass the test for destinations of a source.
fn views_of(vs: &Vec<DestinationView>, source_id: &str) -> (out: Vec<DestinationView>)
    ensures
        views(out@) == views(vs@).filter(view_of(source_id@)),
{
    let ghost all = views(vs@);
    let ghost test = view_of(source_id@);
    let mut out: Vec<DestinationView> = Vec::new();
    proof {
        assert(views(out@) =~= all.take(0).filter(test));
    }
    for i in 0..vs.len()
        invariant
            all == views(vs@),
            test == view_of(source_id@),
            views(out@) == all.take(i as int).filter(test),
    {
        let v = &vs[i];
        let ghost was = views(out@);
        proof {
            assert(all[i as int] == v@);
            assert(all.take(i + 1) =~= all.take(i as int).push(v@));
            all.take(i as int).lemma_filter_push(v@, test);
        }
        if same(v.source_id.as_str(), source_id) {
            out.push(v.clone());
            proof {
                assert(views(out@) =~= was.push(v@));
            }
        }
    }
    proof {
        assert(all.take(all.len() as int) =~= all);
    }
    out
}

/// Puts one list behind another.
fn extend(list: &mut Vec<DestinationView>, more: Vec<DestinationView>)
    ensures
        views(final(list)@) == views(old(list)@) + views(more@),
{
    let ghost a = views(list@);
    let ghost b = views(more@);
    proof {
        assert(a + b.take(0) =~= a);
    }
    for i in 0..more.len()
        invariant
            b == views(more@),
            views(list@) == a + b.take(i as int),
    {
        let ghost was = views(list@);
        list.push(more[i].clone());
        proof {
            assert(views(list@) =~= was.push(b[i as int]));
            assert(was.push(b[i as int]) =~= a + b.take(i + 1));
        }
    }
    proof {
        assert(b.take(b.len() as int) =~= b);
    }
}

/// Whether a source of that name is on another machine.
fn is_held_elsewhere(ss: &Vec<SourceGroupConfig>, id: &str) -> (r: bool)
    ensures
        r == is_remote_id(views(ss@), id@),
{
    let ghost all = views(ss@);
    for i in 0..ss.len()
        invariant
            all == views(ss@),
            forall|j: int| 0 <= j < i ==> !(is_remote(#[trigger] all[j]) && all[j].id == id@),
    {
        proof {
            assert(all[i as int] == ss@[i as int]@);
        }
        if same(ss[i].id.as_str(), id) && on_other_machine(&ss[i]) {
            proof {
                assert(is_remote(all[i as int]));
            }
            return true;
        }
    }
    false
}

/// The machines to ask for the state of their sources: for each source the machine that holds it,
/// none where that is this one or is not known.
pub fn machines_to_ask(cfg: &AppConfig, env: &LocalEnv) -> (out: Vec<Option<MachineConfig>>)
    ensures
        out.len() == cfg@.source_groups.len(),
        forall|i: int|
            0 <= i < out.len() ==> opt_view(#[trigger] out@[i]) == (if is_remote(
                cfg@.source_groups[i],
            ) {
                machine_of(cfg@, reference_of(cfg@.source_groups[i].machine_id), env@)
            } else {
                None
            }),
{
    let mut out: Vec<Option<MachineConfig>> = Vec::new();
    for i in 0..cfg.source_groups.len()
        invariant
            out.len() == i,
            forall|j: int|
                0 <= j < i ==> opt_view(#[trigger] out@[j]) == (if is_remote(
                    cfg@.source_groups[j],
                ) {
                    machine_of(cfg@, reference_of(cfg@.source_groups[j].machine_id), env@)
                } else {
                    None
                }),
    {
        let s = &cfg.source_groups[i];
        proof {
            assert(cfg@.source_groups[i as int] == s@);
        }
        if on_other_machine(s) {
            let id = machine_id_or_local(s.machine_id.as_str());
            out.push(find_machine(cfg, id.as_str(), env));
        } else {
            out.push(None);
        }
    }
    out
}

/// The state of all destinations: of sources on this machine as it is known here, of others as
/// their machines answered. Replies stand at the indices of their sources.
pub fn merge_remote_source_statuses(
    cfg: &AppConfig,
    local: &Vec<DestinationView>,
    replies: &Vec<Option<Vec<DestinationView>>>,
    env: &LocalEnv,
) -> (out: Vec<DestinationView>)
    ensures
        views(out@) == views(local@).filter(seen_here(cfg@.source_groups)) + all_remote_views(
            cfg@,
            replies@,
            env@,
            cfg@.source_groups.len() as int,
        ),
{
    let ghost all = views(local@);
    let ghost test = seen_here(cfg@.source_groups);
    let mut out: Vec<DestinationView> = Vec::new();
    proof {
        assert(views(out@) =~= all.take(0).filter(test));
    }
    for i in 0..local.len()
        invariant
            all == views(local@),
            test == seen_here(cfg@.source_groups),
            views(out@) == all.take(i as int).filter(test),
    {
        let v = &local[i];
        let ghost was = views(out@);
        proof {
            assert(all[i as int] == v@);
            assert(all.take(i + 1) =~= all.take(i as int).push(v@));
            all.take(i as int).lemma_filter_push(v@, test);
        }
        if !is_held_elsewhere(&cfg.source_groups, v.source_id.as_str()) {
            out.push(v.clone());
            proof {
                assert(views(out@) =~= was.push(v@));
            }
        }
    }
    let ghost here = views(out@);
    proof {
        assert(all.take(all.len() as int) =~= all);
        assert(here + Seq::<DestinationViewModel>::empty() =~= here);
    }
    for i in 0..cfg.source_groups.len()
        invariant
            views(out@) == here + all_remote_views(cfg@, replies@, env@, i as int),
    {
        let s = &cfg.source_groups[i];
        let ghost before = all_remote_views(cfg@, replies@, env@, i as int);
        proof {
            assert(cfg@.source_groups[i as int] == s@);
        }
        if on_other_machine(s) {
            let id = machine_id_or_local(s.machine_id.as_str());
            let shown = match find_machine(cfg, id.as_str(), env) {
                None => offline_views_for_source(s, "unknown_source_machine"),
                Some(_) => {
                    if i < replies.len() {
                        match &replies[i] {
                            Some(vs) => {
                                let wanted = views_of(vs, s.id.as_str());
                                if wanted.len() == 0 {
                                    offline_views_for_source(s, "remote_status_missing")
                                } else {
                                    wanted
                                }
                            },
                            None => offline_views_for_source(s, "source_machine_offline"),
                        }
                    } else {
                        offline_views_for_source(s, "source_machine_offline")
                    }
                },
            };
            let ghost sv = views(shown@);
            proof {
                assert(sv == remote_views(
                    s@,
                    machine_of(cfg@, reference_of(s@.machine_id), env@),
                    reply_at(replies@, i as int),
                ));
            }
            extend(&mut out, shown);
            proof {
                assert(here + before + sv =~= here + (before + sv));
            }
        }
    }
    out
}

/// What a machine is called in messages: its alias, else its name, else its address, else its
/// identifier.
pub open spec fn label_of(m: MachineConfigModel) -> Seq<char> {
    if trimmed(m.alias_name).len() > 0 {
        trimmed(m.alias_name)
    } else if trimmed(m.name).len() > 0 {
        trimmed(m.name)
    } else if trimmed(m.host).len() > 0 {
        trimmed(m.host)
    } else {
        m.id
    }
}

/// What a machine is called in messages.
pub fn machine_label(machine: &MachineConfig) -> (r: String)
    ensures
        r@ == label_of(machine@),
{
    let alias = trim(machine.alias_name.as_str());
    if !is_blank(alias.as_str()) {
        return alias;
    }
    let name = trim(machine.name.as_str());
    if !is_blank(name.as_str()) {
        return name;
    }
    let host = trim(machine.host.as_str());
    if !is_blank(host.as_str()) {
        return host;
    }
    machine.id.clone()
}

/// Where a machine that holds a source answers for it, what it answers is shown, and nothing that
/// this machine believes of that source.
pub proof fn other_machines_speak_for_their_sources(
    cfg: AppConfigModel,
    local: Seq<DestinationViewModel>,
    i: int,
)
    requires
        0 <= i < cfg.source_groups.len(),
        is_remote(cfg.source_groups[i]),
    ensures
        forall|k: int|
            0 <= k < local.filter(seen_here(cfg.source_groups)).len() ==> (
            #[trigger] local.filter(seen_here(cfg.source_groups))[k]).source_id
                != cfg.source_groups[i].id,
{
    let test = seen_here(cfg.source_groups);
    assert forall|k: int| 0 <= k < local.filter(test).len() implies (#[trigger] local.filter(
        test,
    )[k]).source_id != cfg.source_groups[i].id by {
        assert(test(local.filter(test)[k]));
        assert(is_remote(cfg.source_groups[i]));
    }
}

/// Whether a source is said to be on another machine.
pub open spec fn is_elsewhere(s: SourceGroupConfigModel) -> bool {
    trimmed(s.machine_id).len() > 0 && trimmed(s.machine_id) != "local"@
}

/// All that is shown, as a list.
pub open spec fn overview(
    cfg: AppConfigModel,
    local: Seq<DestinationViewModel>,
    replies: Seq<Option<Vec<DestinationView>>>,
    env: LocalEnvModel,
) -> Seq<DestinationViewModel> {
    local.filter(seen_here(cfg.source_groups)) + all_remote_views(
        cfg,
        replies,
        env,
        cfg.source_groups.len() as int,
    )
}

proof fn lemma_remote_views_are_shown(
    cfg: AppConfigModel,
    replies: Seq<Option<Vec<DestinationView>>>,
    env: LocalEnvModel,
    n: int,
    i: int,
    v: DestinationViewModel,
)
    requires
        0 <= i < n <= cfg.source_groups.len(),
        is_remote(cfg.source_groups[i]),
        remote_views(
            cfg.source_groups[i],
            machine_of(cfg, reference_of(cfg.source_groups[i].machine_id), env),
            reply_at(replies, i),
        ).contains(v),
    ensures
        all_remote_views(cfg, replies, env, n).contains(v),
    decreases n,
{
    let before = all_remote_views(cfg, replies, env, n - 1);
    let now = all_remote_views(cfg, replies, env, n);
    if i < n - 1 {
        lemma_remote_views_are_shown(cfg, replies, env, n - 1, i, v);
        let k = choose|k: int| 0 <= k < before.len() && before[k] == v;
        assert(now[k] == v);
    } else {
        let more = remote_views(
            cfg.source_groups[i],
            machine_of(cfg, reference_of(cfg.source_groups[i].machine_id), env),
            reply_at(replies, i),
        );
        let k = choose|k: int| 0 <= k < more.len() && more[k] == v;
        assert(now == before + more);
        assert(now[before.len() + k] == v);
    }
}

proof fn lemma_shown_behind(
    cfg: AppConfigModel,
    local: Seq<DestinationViewModel>,
    replies: Seq<Option<Vec<DestinationView>>>,
    env: LocalEnvModel,
    v: DestinationViewModel,
)
    requires
        all_remote_views(cfg, replies, env, cfg.source_groups.len() as int).contains(v),
    ensures
        overview(cfg, local, replies, env).contains(v),
{
    let here = local.filter(seen_here(cfg.source_groups));
    let there = all_remote_views(cfg, replies, env, cfg.source_groups.len() as int);
    let k = choose|k: int| 0 <= k < there.len() && there[k] == v;
    assert(overview(cfg, local, replies, env)[here.len() + k] == v);
}

/// What is known here of a source on this machine is shown.
pub proof fn sources_on_this_machine_are_shown(
    cfg: AppConfigModel,
    local: Seq<DestinationViewModel>,
    replies: Seq<Option<Vec<DestinationView>>>,
    env: LocalEnvModel,
    v: DestinationViewModel,
)
    requires
        local.contains(v),
        forall|i: int|
            0 <= i < cfg.source_groups.len() && is_elsewhere(#[trigger] cfg.source_groups[i])
                ==> cfg.source_groups[i].id != v.source_id,
    ensures
        overview(cfg, local, replies, env).contains(v),
{
    let test = seen_here(cfg.source_groups);
    let here = local.filter(test);
    let i = choose|i: int| 0 <= i < local.len() && local[i] == v;
    assert(!is_remote_id(cfg.source_groups, v.source_id)) by {
        if is_remote_id(cfg.source_groups, v.source_id) {
            let n = choose|n: int|
                0 <= n < cfg.source_groups.len() && is_remote(#[trigger] cfg.source_groups[n])
                    && cfg.source_groups[n].id == v.source_id;
            assert(is_elsewhere(cfg.source_groups[n]));
        }
    }
    local.lemma_filter_contains(test, i);
    let k = choose|k: int| 0 <= k < here.len() && here[k] == v;
    assert(overview(cfg, local, replies, env)[k] == v);
}

/// What the machine of a source answers for that source is shown.
pub proof fn answers_of_other_machines_are_shown(
    cfg: AppConfigModel,
    local: Seq<DestinationViewModel>,
    replies: Seq<Option<Vec<DestinationView>>>,
    env: LocalEnvModel,
    i: int,
    v: DestinationViewModel,
)
    requires
        0 <= i < cfg.source_groups.len(),
        is_elsewhere(cfg.source_groups[i]),
        machine_of(cfg, trimmed(cfg.source_groups[i].machine_id), env) is Some,
        i < replies.len(),
        replies[i] is Some,
        views(replies[i]->0@).contains(v),
        v.source_id == cfg.source_groups[i].id,
    ensures
        overview(cfg, local, replies, env).contains(v),
{
    let s = cfg.source_groups[i];
    let vs = views(replies[i]->0@);
    let k = choose|k: int| 0 <= k < vs.len() && vs[k] == v;
    vs.lemma_filter_contains(view_of(s.id), k);
    lemma_remote_views_are_shown(cfg, replies, env, cfg.source_groups.len() as int, i, v);
    lemma_shown_behind(cfg, local, replies, env, v);
}

/// Whether a destination is shown as one of which nothing is known, and why.
pub open spec fn shows_nothing(
    v: DestinationViewModel,
    s: SourceGroupConfigModel,
    d: DestinationConfigModel,
    reason: Seq<char>,
) -> bool {
    &&& v.source_id == s.id
    &&& v.destination_id == d.id
    &&& v.path == d.path
    &&& v.status == "red"@
    &&& v.status_reason == reason
    &&& v.last_verified_cycle_id is None
}

proof fn lemma_offline(
    s: SourceGroupConfigModel,
    ds: Seq<DestinationConfigModel>,
    reason: Seq<char>,
    j: int,
)
    requires
        0 <= j < ds.len(),
        ds[j].enabled,
    ensures
        ds.filter_map(offline(s, reason)).contains(offline_view(s, ds[j], reason)),
    decreases ds.len(),
{
    let f = offline(s, reason);
    let t = ds.drop_last();
    let before = t.filter_map(f);
    let now = ds.filter_map(f);
    if j < t.len() {
        lemma_offline(s, t, reason, j);
        let k = choose|k: int| 0 <= k < before.len() && before[k] == offline_view(s, ds[j], reason);
        assert(now[k] == before[k]);
    } else {
        assert(now[before.len() as int] == offline_view(s, ds[j], reason));
    }
}

/// Where the machine of a source is not known, does not answer, or says nothing of the source, each
/// destination of the source that is switched on is shown red, and why.
pub proof fn silent_machines_leave_their_sources_red(
    cfg: AppConfigModel,
    local: Seq<DestinationViewModel>,
    replies: Seq<Option<Vec<DestinationView>>>,
    env: LocalEnvModel,
    i: int,
    j: int,
    reason: Seq<char>,
)
    requires
        0 <= i < cfg.source_groups.len(),
        is_elsewhere(cfg.source_groups[i]),
        0 <= j < cfg.source_groups[i].destinations.len(),
        cfg.source_groups[i].destinations[j].enabled,
        ({
            let s = cfg.source_groups[i];
            if machine_of(cfg, trimmed(s.machine_id), env) is None {
                reason == "unknown_source_machine"@
            } else if i >= replies.len() || replies[i] is None {
                reason == "source_machine_offline"@
            } else {
                &&& reason == "remote_status_missing"@
                &&& forall|k: int|
                    0 <= k < replies[i]->0@.len() ==> (
                    #[trigger] replies[i]->0@[k])@.source_id != s.id
            }
        }),
    ensures
        exists|n: int|
            0 <= n < overview(cfg, local, replies, env).len() && shows_nothing(
                #[trigger] overview(cfg, local, replies, env)[n],
                cfg.source_groups[i],
                cfg.source_groups[i].destinations[j],
                reason,
            ),
{
    let s = cfg.source_groups[i];
    let v = offline_view(s, s.destinations[j], reason);
    lemma_offline(s, s.destinations, reason, j);
    if machine_of(cfg, trimmed(s.machine_id), env) is Some && i < replies.len() && replies[i] is Some {
        let vs = views(replies[i]->0@);
        let kept = vs.filter(view_of(s.id));
        if kept.len() > 0 {
            vs.lemma_filter_pred(view_of(s.id), 0);
            assert(kept.contains(kept[0]));
            vs.lemma_filter_contains_rev(view_of(s.id), kept[0]);
            let k = choose|k: int| 0 <= k < vs.len() && vs[k] == kept[0];
            assert(replies[i]->0@[k]@ == vs[k]);
        }
    }
    lemma_remote_views_are_shown(cfg, replies, env, cfg.source_groups.len() as int, i, v);
    lemma_shown_behind(cfg, local, replies, env, v);
    let out = overview(cfg, local, replies, env);
    let n = choose|n: int| 0 <= n < out.len() && out[n] == v;
    assert(shows_nothing(out[n], s, s.destinations[j], reason));
}

} // verus!
