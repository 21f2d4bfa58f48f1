//! The machines as they are shown: the configured ones, and those that were discovered.

use crate::config::clean::{
    cleaned_machines, cleaned_machines_are_distinct, normalized_machines, or_else,
};
use crate::config::types::{
    local_machine, AppConfig, AppConfigModel, LocalEnv, LocalEnvModel, MachineConfig,
    MachineConfigModel,
};
use crate::machines::discovery::{
    clean_machine_id, discovered_machine_name, discovery_id, discovery_machine_id, endpoint,
    found_name, free_id, free_id_is_free, id_taken, is_id_taken, machine_id_of,
    machine_view_matches_health, same_endpoint, unique_machine_id, view_is,
};
use crate::machines::ssh::{advertised_ssh_config, normalized_ssh_port, ssh_port_of, told_ssh};
use crate::machines::types::{
    MachineHealth, MachineHealthModel, MachineStatus, MachineStatusModel, MachineView,
    MachineViewModel, Probes, ProbesModel,
};
use crate::seqs::{first_item, first_where, lemma_first_where, lemma_first_where_is};
use crate::text::{is_blank, lowered, same, trim, trimmed, views};
use vstd::prelude::*;

verus! {

/// The test for the entry of this machine.
pub open spec fn is_local() -> spec_fn(MachineConfigModel) -> bool {
    |m: MachineConfigModel| m.id == "local"@
}

/// The name that this machine goes by: that of the host unless it is a placeholder, else the
/// configured one.
pub open spec fn own_name(hostname: Seq<char>, configured: Seq<char>) -> Seq<char> {
    if trimmed(hostname).len() > 0 && hostname != "This machine"@ {
        hostname
    } else if trimmed(configured).len() == 0 {
        "This machine"@
    } else {
        trimmed(configured)
    }
}

/// The name that this machine goes by.
pub fn local_machine_name(hostname: &str, configured: &str) -> (r: String)
    ensures
        r@ == own_name(hostname@, configured@),
{
    if !is_blank(trim(hostname).as_str()) && !same(hostname, "This machine") {
        return hostname.to_string();
    }
    let name = trim(configured);
    if is_blank(name.as_str()) {
        "This machine".to_string()
    } else {
        name
    }
}

/// The entry of this machine among the cleaned ones.
pub open spec fn own_entry(cfg: AppConfigModel, env: LocalEnvModel) -> MachineConfigModel {
    match first_item(cleaned_machines(cfg.machines, env), is_local()) {
        Some(m) => m,
        None => local_machine(env),
    }
}

/// The entry of this machine among the cleaned ones.
fn find_own(machines: &Vec<MachineConfig>, env: &LocalEnv) -> (r: MachineConfig)
    ensures
        r@ == (match first_item(views(machines@), is_local()) {
            Some(m) => m,
            None => local_machine(env@),
        }),
{
    let ghost ms = views(machines@);
    for i in 0..machines.len()
        invariant
            ms == views(machines@),
            forall|j: int| 0 <= j < i ==> !is_local()(#[trigger] ms[j]),
    {
        proof {
            assert(ms[i as int] == machines@[i as int]@);
        }
        if same(machines[i].id.as_str(), "local") {
            proof {
                lemma_first_where_is(ms, is_local(), i as int);
            }
            return machines[i].clone();
        }
    }
    proof {
        lemma_first_where_is(ms, is_local(), ms.len() as int);
    }
    MachineConfig::local(env)
}

/// What this machine says of itself.
pub open spec fn own_health(
    cfg: AppConfigModel,
    port: u16,
    env: LocalEnvModel,
    probes: ProbesModel,
    mark: Seq<char>,
    version: Seq<char>,
) -> MachineHealthModel {
    let local = own_entry(cfg, env);
    let ssh = told_ssh(cleaned_machines(cfg.machines, env), local, port, probes);
    MachineHealthModel {
        id: discovery_id(local.host, port, mark),
        alias_name: trimmed(local.alias_name),
        name: own_name(env.hostname, local.name),
        host: local.host,
        port,
        ssh_user: ssh.0,
        ssh_port: ssh.1,
        os: env.os,
        install_dir: local.install_dir,
        version,
    }
}

/// What this machine says of itself. `mark` is the mark of the running program.
pub fn local_health(
    cfg: &AppConfig,
    port: u16,
    env: &LocalEnv,
    probes: &Probes,
    mark: &str,
    version: &str,
) -> (r: MachineHealth)
    ensures
        r@ == own_health(cfg@, port, env@, probes@, mark@, version@),
{
    let machines = normalized_machines(cfg, env);
    let local = find_own(&machines, env);
    let ssh = advertised_ssh_config(&machines, &local, port, probes);
    MachineHealth {
        id: discovery_machine_id(local.host.as_str(), port, mark),
        alias_name: trim(local.alias_name.as_str()),
        name: local_machine_name(env.hostname.as_str(), local.name.as_str()),
        host: local.host,
        port,
        ssh_user: ssh.0,
        ssh_port: ssh.1,
        os: env.os.clone(),
        install_dir: local.install_dir,
        version: version.to_string(),
    }
}

/// The SSH access of a shown machine after another source of it: a missing user is filled in, and
/// the standard port gives way to another one.
pub open spec fn with_ssh(v: MachineViewModel, user: Seq<char>, port: u16) -> MachineViewModel {
    MachineViewModel {
        ssh_user: if trimmed(v.ssh_user).len() == 0 && trimmed(user).len() > 0 {
            trimmed(user)
        } else {
            v.ssh_user
        },
        ssh_port: if v.ssh_port == 0 || (v.ssh_port == 22 && ssh_port_of(port) != 22) {
            ssh_port_of(port)
        } else {
            v.ssh_port
        },
        ..v
    }
}

/// Merges SSH access from another source into a shown machine.
fn merge_ssh(view: &mut MachineView, user: &str, port: u16)
    ensures
        final(view)@ == with_ssh(old(view)@, user@, port),
{
    let user = trim(user);
    let empty = is_blank(trim(view.ssh_user.as_str()).as_str());
    if empty && !is_blank(user.as_str()) {
        view.ssh_user = user;
    }
    let ssh_port: u16 = normalized_ssh_port(port);
    if view.ssh_port == 0 || (view.ssh_port == 22 && ssh_port != 22) {
        view.ssh_port = ssh_port;
    }
}

/// A configured machine as it is shown. This machine is always online.
pub open spec fn shown(
    m: MachineConfigModel,
    ms: Seq<MachineConfigModel>,
    probes: ProbesModel,
) -> MachineViewModel {
    let ssh = if m.id == "local"@ {
        told_ssh(ms, m, m.port, probes)
    } else {
        (trimmed(m.ssh_user), ssh_port_of(m.ssh_port))
    };
    MachineViewModel {
        id: m.id,
        alias_name: m.alias_name,
        name: m.name,
        host: m.host,
        port: m.port,
        ssh_user: ssh.0,
        ssh_port: ssh.1,
        os: m.os,
        install_dir: m.install_dir,
        enabled: m.enabled,
        manual: m.manual,
        online: m.id == "local"@ || probes.answered.contains(m.id),
        discovered: false,
    }
}

/// The test for shown machines at the endpoint of an entry.
pub open spec fn at_endpoint(host: Seq<char>, port: u16) -> spec_fn(MachineViewModel) -> bool {
    |v: MachineViewModel| endpoint(v.host, v.port) == endpoint(host, port)
}

/// The shown machines after one more entry: an entry at a known endpoint only adds what it says
/// about SSH, and an entry that is switched off is left out.
pub open spec fn with_entry(
    vs: Seq<MachineViewModel>,
    m: MachineConfigModel,
    ms: Seq<MachineConfigModel>,
    probes: ProbesModel,
) -> Seq<MachineViewModel> {
    let k = first_where(vs, at_endpoint(m.host, m.port));
    if !m.enabled {
        vs
    } else if k < vs.len() {
        vs.update(k, with_ssh(vs[k], m.ssh_user, m.ssh_port))
    } else {
        vs.push(shown(m, ms, probes))
    }
}

/// The shown machines after the first `n` entries.
pub open spec fn with_entries(
    ms: Seq<MachineConfigModel>,
    n: int,
    probes: ProbesModel,
) -> Seq<MachineViewModel>
    decreases n,
{
    if n <= 0 {
        Seq::empty()
    } else {
        with_entry(with_entries(ms, n - 1, probes), ms[n - 1], ms, probes)
    }
}

/// The test for machines that are online.
pub open spec fn is_online() -> spec_fn(MachineViewModel) -> bool {
    |v: MachineViewModel| v.online
}

/// Shown machines with their counts.
pub open spec fn counted(vs: Seq<MachineViewModel>) -> MachineStatusModel {
    MachineStatusModel { online: vs.filter(is_online()).len(), total: vs.len(), machines: vs }
}

/// How many of the machines are online.
fn count_online(vs: &Vec<MachineView>) -> (r: usize)
    ensures
        r == views(vs@).filter(is_online()).len(),
        r <= vs.len(),
{
    let ghost all = views(vs@);
    let mut n: usize = 0;
    proof {
        assert(all.take(0).filter(is_online()) =~= Seq::<MachineViewModel>::empty());
    }
    for i in 0..vs.len()
        invariant
            all == views(vs@),
            n == all.take(i as int).filter(is_online()).len(),
            n <= i,
    {
        proof {
            assert(all[i as int] == vs@[i as int]@);
            assert(all.take(i + 1) =~= all.take(i as int).push(all[i as int]));
            all.take(i as int).lemma_filter_push(all[i as int], is_online());
        }
        if vs[i].online {
            n = n + 1;
        }
    }
    proof {
        assert(all.take(all.len() as int) =~= all);
    }
    n
}

/// The index of the first shown machine at an endpoint, or the number of machines.
fn find_endpoint(vs: &Vec<MachineView>, host: &str, port: u16) -> (r: usize)
    ensures
        r == first_where(views(vs@), at_endpoint(host@, port)),
        r <= vs.len(),
{
    let ghost all = views(vs@);
    let ghost test = at_endpoint(host@, port);
    for i in 0..vs.len()
        invariant
            all == views(vs@),
            test == at_endpoint(host@, port),
            forall|j: int| 0 <= j < i ==> !test(#[trigger] all[j]),
    {
        proof {
            assert(all[i as int] == vs@[i as int]@);
        }
        if same_endpoint(vs[i].host.as_str(), vs[i].port, host, port) {
            proof {
                lemma_first_where_is(all, test, i as int);
            }
            return i;
        }
    }
    proof {
        lemma_first_where_is(all, test, all.len() as int);
    }
    vs.len()
}

/// A configured machine as it is shown.
fn show(m: &MachineConfig, machines: &Vec<MachineConfig>, probes: &Probes) -> (r: MachineView)
    ensures
        r@ == shown(m@, views(machines@), probes@),
{
    let local = same(m.id.as_str(), "local");
    let ssh: (String, u16) = if local {
        advertised_ssh_config(machines, m, m.port, probes)
    } else {
        (trim(m.ssh_user.as_str()), normalized_ssh_port(m.ssh_port))
    };
    let online = local || crate::config::clean::holds(&probes.answered, m.id.as_str());
    MachineView {
        id: m.id.clone(),
        alias_name: m.alias_name.clone(),
        name: m.name.clone(),
        host: m.host.clone(),
        port: m.port,
        ssh_user: ssh.0,
        ssh_port: ssh.1,
        os: m.os.clone(),
        install_dir: m.install_dir.clone(),
        enabled: m.enabled,
        manual: m.manual,
        online,
        discovered: false,
    }
}

/// The configured machines as they are shown.
fn configured_views(machines: &Vec<MachineConfig>, probes: &Probes) -> (vs: Vec<MachineView>)
    ensures
        views(vs@) == with_entries(views(machines@), machines@.len() as int, probes@),
{
    let ghost ms = views(machines@);
    let mut vs: Vec<MachineView> = Vec::new();
    proof {
        assert(views(vs@) =~= with_entries(ms, 0, probes@));
    }
    for i in 0..machines.len()
        invariant
            ms == views(machines@),
            views(vs@) == with_entries(ms, i as int, probes@),
    {
        let m = &machines[i];
        let ghost was = views(vs@);
        proof {
            assert(ms[i as int] == m@);
        }
        if m.enabled {
            let k = find_endpoint(&vs, m.host.as_str(), m.port);
            if k < vs.len() {
                let mut v = vs[k].clone();
                merge_ssh(&mut v, m.ssh_user.as_str(), m.ssh_port);
                let ghost vv = v@;
                vs.set(k, v);
                proof {
                    assert(views(vs@) =~= was.update(k as int, vv));
                }
            } else {
                let v = show(m, machines, probes);
                let ghost vv = v@;
                vs.push(v);
                proof {
                    assert(views(vs@) =~= was.push(vv));
                }
            }
        }
    }
    vs
}

/// The configured machines as they are shown.
pub open spec fn configured_status(
    cfg: AppConfigModel,
    env: LocalEnvModel,
    probes: ProbesModel,
) -> Seq<MachineViewModel> {
    let ms = cleaned_machines(cfg.machines, env);
    with_entries(ms, ms.len() as int, probes)
}

/// The configured machines as they are shown, with their counts.
pub fn machine_status(cfg: &AppConfig, env: &LocalEnv, probes: &Probes) -> (r: MachineStatus)
    ensures
        r@ == counted(configured_status(cfg@, env@, probes@)),
{
    let machines = normalized_machines(cfg, env);
    let vs = configured_views(&machines, probes);
    let online = count_online(&vs);
    proof {
        assert(views(machines@).len() == machines@.len());
    }
    MachineStatus { online, total: vs.len(), machines: vs }
}

/// A shown machine after it was discovered: it is online, and unless it is managed by hand its
/// name and SSH access are refreshed.
pub open spec fn refreshed(v: MachineViewModel, h: MachineHealthModel) -> MachineViewModel {
    let w = if v.manual {
        v
    } else {
        with_ssh(MachineViewModel { name: found_name(h), ..v }, h.ssh_user, h.ssh_port)
    };
    MachineViewModel { online: true, discovered: v.discovered || v.id != "local"@, ..w }
}

/// The identifier of a newly discovered machine: its alias, else its own identifier, else, where
/// that is blank, `local` or taken, one made of its address; numbered where it is taken.
pub open spec fn new_id(vs: Seq<MachineViewModel>, h: MachineHealthModel, mark: Seq<char>) -> Seq<
    char,
> {
    let own = or_else(machine_id_of(h.alias_name), machine_id_of(h.id));
    let base = if own.len() == 0 || own == "local"@ || id_taken(vs, own) {
        discovery_id(h.host, h.port, mark)
    } else {
        own
    };
    free_id(vs, base)
}

/// A newly discovered machine as it is shown.
pub open spec fn newly_shown(
    vs: Seq<MachineViewModel>,
    h: MachineHealthModel,
    mark: Seq<char>,
) -> MachineViewModel {
    MachineViewModel {
        id: new_id(vs, h, mark),
        alias_name: machine_id_of(h.alias_name),
        name: found_name(h),
        host: h.host,
        port: h.port,
        ssh_user: trimmed(h.ssh_user),
        ssh_port: ssh_port_of(h.ssh_port),
        os: h.os,
        install_dir: "/opt/auto_sync"@,
        enabled: true,
        manual: false,
        online: true,
        discovered: true,
    }
}

/// The test for shown machines that are a discovered one.
pub open spec fn is_found(h: MachineHealthModel) -> spec_fn(MachineViewModel) -> bool {
    |v: MachineViewModel| view_is(v, h)
}

/// The shown machines after one was discovered.
pub open spec fn with_found(
    vs: Seq<MachineViewModel>,
    h: MachineHealthModel,
    mark: Seq<char>,
) -> Seq<MachineViewModel> {
    let k = first_where(vs, is_found(h));
    if k < vs.len() {
        vs.update(k, refreshed(vs[k], h))
    } else {
        vs.push(newly_shown(vs, h, mark))
    }
}

/// The shown machines after several were discovered.
pub open spec fn with_all_found(
    vs: Seq<MachineViewModel>,
    hs: Seq<MachineHealthModel>,
    mark: Seq<char>,
) -> Seq<MachineViewModel>
    decreases hs.len(),
{
    if hs.len() == 0 {
        vs
    } else {
        with_found(with_all_found(vs, hs.drop_last(), mark), hs.last(), mark)
    }
}

/// The index of the first shown machine that is a discovered one, or the number of machines.
fn find_found(vs: &Vec<MachineView>, health: &MachineHealth) -> (r: usize)
    ensures
        r == first_where(views(vs@), is_found(health@)),
        r <= vs.len(),
{
    let ghost all = views(vs@);
    let ghost test = is_found(health@);
    for i in 0..vs.len()
        invariant
            all == views(vs@),
            test == is_found(health@),
            forall|j: int| 0 <= j < i ==> !test(#[trigger] all[j]),
    {
        proof {
            assert(all[i as int] == vs@[i as int]@);
        }
        if machine_view_matches_health(&vs[i], health) {
            proof {
                lemma_first_where_is(all, test, i as int);
            }
            return i;
        }
    }
    proof {
        lemma_first_where_is(all, test, all.len() as int);
    }
    vs.len()
}

/// The identifier of a newly discovered machine.
fn make_id(vs: &Vec<MachineView>, health: &MachineHealth, mark: &str) -> (r: String)
    ensures
        r@ == new_id(views(vs@), health@, mark@),
        !id_taken(views(vs@), r@),
{
    let alias = clean_machine_id(health.alias_name.as_str());
    let own: String = if is_blank(alias.as_str()) {
        clean_machine_id(health.id.as_str())
    } else {
        alias
    };
    let base: String = if is_blank(own.as_str()) || same(own.as_str(), "local") || is_id_taken(
        vs,
        own.as_str(),
    ) {
        discovery_machine_id(health.host.as_str(), health.port, mark)
    } else {
        own
    };
    unique_machine_id(base, vs)
}

/// Adds a discovered machine to the shown ones.
fn add_found(vs: &mut Vec<MachineView>, health: &MachineHealth, mark: &str)
    ensures
        views(final(vs)@) == with_found(views(old(vs)@), health@, mark@),
{
    let ghost was = views(vs@);
    let k = find_found(vs, health);
    if k < vs.len() {
        let mut v = vs[k].clone();
        let ghost v0 = v@;
        if !v.manual {
            v.name = discovered_machine_name(health);
            merge_ssh(&mut v, health.ssh_user.as_str(), health.ssh_port);
        }
        v.online = true;
        if !same(v.id.as_str(), "local") {
            v.discovered = true;
        }
        let ghost vv = v@;
        proof {
            assert(vv == refreshed(v0, health@));
        }
        vs.set(k, v);
        proof {
            assert(views(vs@) =~= was.update(k as int, vv));
        }
    } else {
        let id = make_id(vs, health, mark);
        let v = MachineView {
            id,
            alias_name: clean_machine_id(health.alias_name.as_str()),
            name: discovered_machine_name(health),
            host: health.host.clone(),
            port: health.port,
            ssh_user: trim(health.ssh_user.as_str()),
            ssh_port: normalized_ssh_port(health.ssh_port),
            os: health.os.clone(),
            install_dir: "/opt/auto_sync".to_string(),
            enabled: true,
            manual: false,
            online: true,
            discovered: true,
        };
        let ghost vv = v@;
        vs.push(v);
        proof {
            assert(views(vs@) =~= was.push(vv));
        }
    }
}

/// The configured machines together with those that were discovered, with their counts. `mark` is
/// the mark of the running program.
pub fn merge_discovered(
    cfg: &AppConfig,
    discovered: &Vec<MachineHealth>,
    env: &LocalEnv,
    probes: &Probes,
    mark: &str,
) -> (r: MachineStatus)
    ensures
        r@ == counted(
            with_all_found(configured_status(cfg@, env@, probes@), views(discovered@), mark@),
        ),
{
    let machines = normalized_machines(cfg, env);
    let mut vs = configured_views(&machines, probes);
    proof {
        assert(views(machines@).len() == machines@.len());
    }
    let ghost start = views(vs@);
    let ghost hs = views(discovered@);
    for i in 0..discovered.len()
        invariant
            hs == views(discovered@),
            views(vs@) == with_all_found(start, hs.take(i as int), mark@),
    {
        proof {
            assert(hs.take(i + 1).drop_last() =~= hs.take(i as int));
            assert(hs.take(i + 1).last() == discovered@[i as int]@);
        }
        add_found(&mut vs, &discovered[i], mark);
    }
    proof {
        assert(hs.take(hs.len() as int) =~= hs);
    }
    let online = count_online(&vs);
    MachineStatus { online, total: vs.len(), machines: vs }
}

/// A newly discovered machine gets an identifier that is free.
proof fn lemma_new_id_is_free(vs: Seq<MachineViewModel>, h: MachineHealthModel, mark: Seq<char>)
    ensures
        !id_taken(vs, new_id(vs, h, mark)),
{
    let own = or_else(machine_id_of(h.alias_name), machine_id_of(h.id));
    free_id_is_free(vs, own);
    free_id_is_free(vs, discovery_id(h.host, h.port, mark));
}

/// No two of the shown machines have the same identifier.
pub open spec fn distinct_ids(vs: Seq<MachineViewModel>) -> bool {
    forall|i: int, j: int|
        0 <= i < j < vs.len() ==> (#[trigger] vs[i]).id != (#[trigger] vs[j]).id
}

/// A discovery keeps the identifiers of the shown machines distinct, and changes nothing of a
/// machine that is managed by hand but that it is online and was discovered.
pub proof fn discovery_keeps_ids_distinct(
    vs: Seq<MachineViewModel>,
    h: MachineHealthModel,
    mark: Seq<char>,
)
    requires
        distinct_ids(vs),
    ensures
        distinct_ids(with_found(vs, h, mark)),
        forall|i: int|
            0 <= i < vs.len() && (#[trigger] vs[i]).manual ==> with_found(vs, h, mark)[i] == (
            MachineViewModel {
                online: with_found(vs, h, mark)[i].online,
                discovered: with_found(vs, h, mark)[i].discovered,
                ..vs[i]
            }),
{
    lemma_first_where(vs, is_found(h));
    let k = first_where(vs, is_found(h));
    let now = with_found(vs, h, mark);
    lemma_new_id_is_free(vs, h, mark);
    assert forall|i: int, j: int| 0 <= i < j < now.len() implies (#[trigger] now[i]).id != (
    #[trigger] now[j]).id by {
        if k < vs.len() {
            assert(now[i].id == vs[i].id);
            assert(now[j].id == vs[j].id);
        } else if j == vs.len() {
            assert(now[i] == vs[i]);
        }
    }
}

/// Whether shown machines are those that were shown before and others behind them: the ones from
/// before have the same identifiers, aliases, addresses and ports, in the same order, are managed by
/// hand or not as before, and are online and discovered where they were.
pub open spec fn keeps_machines(before: Seq<MachineViewModel>, after: Seq<MachineViewModel>) -> bool {
    &&& before.len() <= after.len()
    &&& forall|i: int|
        0 <= i < before.len() ==> {
            let v = #[trigger] after[i];
            &&& v.id == before[i].id
            &&& v.alias_name == before[i].alias_name
            &&& v.host == before[i].host
            &&& v.port == before[i].port
            &&& v.manual == before[i].manual
            &&& before[i].online ==> v.online
            &&& before[i].discovered ==> v.discovered
        }
}

/// Whether a discovered machine is among those that are shown as online.
pub open spec fn shown_online(vs: Seq<MachineViewModel>, h: MachineHealthModel) -> bool {
    exists|i: int| 0 <= i < vs.len() && view_is(#[trigger] vs[i], h) && vs[i].online
}

/// A discovery keeps the machines that are shown; the discovered one is among them and online, and
/// one that is new was discovered and is not managed by hand.
proof fn lemma_found(vs: Seq<MachineViewModel>, h: MachineHealthModel, mark: Seq<char>)
    ensures
        keeps_machines(vs, with_found(vs, h, mark)),
        shown_online(with_found(vs, h, mark), h),
        with_found(vs, h, mark).len() <= vs.len() + 1,
        with_found(vs, h, mark).len() > vs.len() ==> {
            let v = with_found(vs, h, mark)[vs.len() as int];
            v.discovered && v.online && !v.manual
        },
{
    lemma_first_where(vs, is_found(h));
    let k = first_where(vs, is_found(h));
    let now = with_found(vs, h, mark);
    if k < vs.len() {
        assert(is_found(h)(vs[k]));
        assert(view_is(now[k], h) && now[k].online);
    } else {
        let n = vs.len() as int;
        assert(view_is(now[n], h) && now[n].online);
    }
}

/// What is shown online stays so as long as the machines are kept.
proof fn lemma_still_online(
    before: Seq<MachineViewModel>,
    after: Seq<MachineViewModel>,
    h: MachineHealthModel,
)
    requires
        keeps_machines(before, after),
        shown_online(before, h),
    ensures
        shown_online(after, h),
{
    let i = choose|i: int|
        0 <= i < before.len() && view_is(#[trigger] before[i], h) && before[i].online;
    assert(view_is(after[i], h) && after[i].online);
}

/// Discoveries keep the machines that are shown, in their order, and the identifiers distinct. Each
/// discovered machine is among those that are shown then, and online; those that are new were
/// discovered, are online and are not managed by hand.
pub proof fn discoveries_are_merged(
    vs: Seq<MachineViewModel>,
    hs: Seq<MachineHealthModel>,
    mark: Seq<char>,
)
    requires
        distinct_ids(vs),
    ensures
        keeps_machines(vs, with_all_found(vs, hs, mark)),
        distinct_ids(with_all_found(vs, hs, mark)),
        forall|k: int|
            0 <= k < hs.len() ==> shown_online(with_all_found(vs, hs, mark), #[trigger] hs[k]),
        forall|i: int|
            vs.len() <= i < with_all_found(vs, hs, mark).len() ==> {
                let v = #[trigger] with_all_found(vs, hs, mark)[i];
                v.discovered && v.online && !v.manual
            },
    decreases hs.len(),
{
    if hs.len() > 0 {
        let fewer = hs.drop_last();
        let h = hs.last();
        discoveries_are_merged(vs, fewer, mark);
        let before = with_all_found(vs, fewer, mark);
        let now = with_all_found(vs, hs, mark);
        lemma_found(before, h, mark);
        discovery_keeps_ids_distinct(before, h, mark);
        assert forall|i: int| 0 <= i < vs.len() implies {
            let v = #[trigger] now[i];
            &&& v.id == vs[i].id
            &&& v.alias_name == vs[i].alias_name
            &&& v.host == vs[i].host
            &&& v.port == vs[i].port
            &&& v.manual == vs[i].manual
            &&& vs[i].online ==> v.online
            &&& vs[i].discovered ==> v.discovered
        } by {
            assert(before[i].id == vs[i].id);
        }
        assert forall|k: int| 0 <= k < hs.len() implies shown_online(now, #[trigger] hs[k]) by {
            if k < fewer.len() {
                assert(fewer[k] == hs[k]);
                lemma_still_online(before, now, hs[k]);
            }
        }
        assert forall|i: int| vs.len() <= i < now.len() implies {
            let v = #[trigger] now[i];
            v.discovered && v.online && !v.manual
        } by {
            if i < before.len() {
                assert(before[i].discovered && before[i].online && !before[i].manual);
            }
        }
    }
}

/// Each shown machine has the identifier of one of the entries, and no two that of the same one.
proof fn lemma_entries_distinct(ms: Seq<MachineConfigModel>, n: int, probes: ProbesModel)
    requires
        0 <= n <= ms.len(),
        forall|i: int, j: int| 0 <= i < j < ms.len() ==> (#[trigger] ms[i]).id != (#[trigger] ms[j]).id,
    ensures
        distinct_ids(with_entries(ms, n, probes)),
        forall|i: int|
            0 <= i < with_entries(ms, n, probes).len() ==> exists|k: int|
                0 <= k < n && (#[trigger] with_entries(ms, n, probes)[i]).id == (#[trigger] ms[k]).id,
    decreases n,
{
    if n > 0 {
        lemma_entries_distinct(ms, n - 1, probes);
        let before = with_entries(ms, n - 1, probes);
        let now = with_entries(ms, n, probes);
        let m = ms[n - 1];
        lemma_first_where(before, at_endpoint(m.host, m.port));
        assert forall|i: int| 0 <= i < now.len() implies exists|k: int|
            0 <= k < n && (#[trigger] now[i]).id == (#[trigger] ms[k]).id by {
            if i < before.len() {
                let k = choose|k: int| 0 <= k < n - 1 && before[i].id == (#[trigger] ms[k]).id;
                assert(now[i].id == ms[k].id);
            } else {
                assert(now[i].id == ms[n - 1].id);
            }
        }
        assert forall|i: int, j: int| 0 <= i < j < now.len() implies (#[trigger] now[i]).id != (
        #[trigger] now[j]).id by {
            if j < before.len() {
                assert(before[i].id != before[j].id);
                assert(now[i].id == before[i].id && now[j].id == before[j].id);
            } else {
                let k = choose|k: int| 0 <= k < n - 1 && before[i].id == (#[trigger] ms[k]).id;
                assert(ms[k].id != ms[n - 1].id);
                assert(now[i].id == before[i].id);
            }
        }
    }
}

/// Merging discovered machines into the configured ones keeps these first and in their order, with
/// their identifiers, addresses and ports. All identifiers differ, and the counts are those of the
/// machines and of the ones that are online. Each discovered machine is among those that are online,
/// by alias, by an identifier that is its own, or by address and port. All that follow the configured
/// ones were discovered, are online and are not managed by hand.
pub proof fn merging_keeps_configured_machines(
    cfg: AppConfigModel,
    hs: Seq<MachineHealthModel>,
    env: LocalEnvModel,
    probes: ProbesModel,
    mark: Seq<char>,
)
    ensures
        ({
            let s = counted(configured_status(cfg, env, probes));
            let r = counted(with_all_found(configured_status(cfg, env, probes), hs, mark));
            &&& keeps_machines(s.machines, r.machines)
            &&& distinct_ids(r.machines)
            &&& r.total == r.machines.len()
            &&& r.online == r.machines.filter(is_online()).len()
            &&& forall|k: int| 0 <= k < hs.len() ==> shown_online(r.machines, #[trigger] hs[k])
            &&& forall|i: int|
                s.total <= i < r.total ==> {
                    let v = #[trigger] r.machines[i];
                    v.discovered && v.online && !v.manual
                }
        }),
{
    let ms = cleaned_machines(cfg.machines, env);
    cleaned_machines_are_distinct(cfg.machines, env);
    lemma_entries_distinct(ms, ms.len() as int, probes);
    discoveries_are_merged(configured_status(cfg, env, probes), hs, mark);
}

/// Whether two addresses with ports are the same, whatever the case of letters and the white space
/// around them.
pub open spec fn same_place(v: MachineViewModel, m: MachineConfigModel) -> bool {
    lowered(trimmed(v.host)) == lowered(trimmed(m.host)) && v.port == m.port
}

/// Whether a shown machine is an entry, with its names and its address. It is online where it is
/// this machine or has answered.
pub open spec fn shows_entry(v: MachineViewModel, m: MachineConfigModel, probes: ProbesModel) -> bool {
    &&& m.enabled
    &&& v.id == m.id
    &&& v.alias_name == m.alias_name
    &&& v.name == m.name
    &&& v.host == m.host
    &&& v.port == m.port
    &&& v.os == m.os
    &&& v.install_dir == m.install_dir
    &&& v.enabled
    &&& v.manual == m.manual
    &&& v.online == (m.id == "local"@ || probes.answered.contains(m.id))
    &&& !v.discovered
}

/// Whether a shown machine is one of the first `n` entries.
pub open spec fn shows_one_of(
    v: MachineViewModel,
    ms: Seq<MachineConfigModel>,
    n: int,
    probes: ProbesModel,
) -> bool {
    exists|i: int| 0 <= i < n && shows_entry(v, #[trigger] ms[i], probes)
}

/// Whether a machine is shown at the address and port of an entry.
pub open spec fn is_shown(vs: Seq<MachineViewModel>, m: MachineConfigModel) -> bool {
    exists|k: int| 0 <= k < vs.len() && same_place(#[trigger] vs[k], m)
}

/// Every entry that is switched on is shown, no two of them at the same address and port, and all
/// that is shown are such entries as they are configured.
pub proof fn switched_on_machines_are_shown(
    ms: Seq<MachineConfigModel>,
    n: int,
    probes: ProbesModel,
)
    requires
        0 <= n <= ms.len(),
    ensures
        forall|i: int|
            0 <= i < n && (#[trigger] ms[i]).enabled ==> is_shown(
                with_entries(ms, n, probes),
                ms[i],
            ),
        forall|k: int|
            0 <= k < with_entries(ms, n, probes).len() ==> shows_one_of(
                #[trigger] with_entries(ms, n, probes)[k],
                ms,
                n,
                probes,
            ),
        forall|j: int, k: int|
            0 <= j < k < with_entries(ms, n, probes).len() ==> {
                let a = #[trigger] with_entries(ms, n, probes)[j];
                let b = #[trigger] with_entries(ms, n, probes)[k];
                lowered(trimmed(a.host)) != lowered(trimmed(b.host)) || a.port != b.port
            },
    decreases n,
{
    if n > 0 {
        switched_on_machines_are_shown(ms, n - 1, probes);
        let before = with_entries(ms, n - 1, probes);
        let now = with_entries(ms, n, probes);
        let m = ms[n - 1];
        let test = at_endpoint(m.host, m.port);
        lemma_first_where(before, test);
        let f = first_where(before, test);
        assert(forall|k: int|
            0 <= k < before.len() ==> (#[trigger] now[k]).host == before[k].host && now[k].port
                == before[k].port);
        assert forall|i: int| 0 <= i < n && (#[trigger] ms[i]).enabled implies is_shown(
            now,
            ms[i],
        ) by {
            if i < n - 1 {
                let k = choose|k: int| 0 <= k < before.len() && same_place(#[trigger] before[k], ms[i]);
                assert(same_place(now[k], ms[i]));
            } else {
                assert(same_place(now[f], ms[i]));
            }
        }
        assert forall|k: int| 0 <= k < now.len() implies shows_one_of(
            #[trigger] now[k],
            ms,
            n,
            probes,
        ) by {
            if k < before.len() {
                assert(shows_one_of(before[k], ms, n - 1, probes));
                let i = choose|i: int| 0 <= i < n - 1 && shows_entry(before[k], #[trigger] ms[i], probes);
                assert(shows_entry(now[k], ms[i], probes));
            } else {
                assert(shows_entry(now[k], ms[n - 1], probes));
            }
        }
        assert forall|j: int, k: int| 0 <= j < k < now.len() implies {
            let a = #[trigger] now[j];
            let b = #[trigger] now[k];
            lowered(trimmed(a.host)) != lowered(trimmed(b.host)) || a.port != b.port
        } by {
            if k < before.len() {
                assert(before[j].host == now[j].host && before[k].host == now[k].host);
            } else {
                assert(!test(before[j]));
            }
        }
    }
}

/// A machine that is discovered and was not shown before is shown last, with what it says of itself.
pub proof fn new_machines_are_shown_as_they_say(
    vs: Seq<MachineViewModel>,
    h: MachineHealthModel,
    mark: Seq<char>,
)
    requires
        forall|i: int| 0 <= i < vs.len() ==> !view_is(#[trigger] vs[i], h),
    ensures
        ({
            let r = with_found(vs, h, mark);
            let v = r.last();
            &&& r.len() == vs.len() + 1
            &&& forall|i: int| 0 <= i < vs.len() ==> #[trigger] r[i] == vs[i]
            &&& v.host == h.host
            &&& v.port == h.port
            &&& v.os == h.os
            &&& v.ssh_user == trimmed(h.ssh_user)
            &&& h.ssh_port != 0 ==> v.ssh_port == h.ssh_port
            &&& h.ssh_port == 0 ==> v.ssh_port == 22
            &&& trimmed(h.alias_name).len() > 0 ==> v.name == trimmed(h.alias_name)
            &&& v.enabled && v.online && v.discovered && !v.manual
            &&& forall|i: int| 0 <= i < vs.len() ==> (#[trigger] vs[i]).id != v.id
        }),
{
    lemma_first_where(vs, is_found(h));
    let k = first_where(vs, is_found(h));
    if k < vs.len() {
        assert(is_found(h)(vs[k]));
    }
    lemma_new_id_is_free(vs, h, mark);
}

} // verus!
