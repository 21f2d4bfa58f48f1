//! Bringing a configuration into the form in which it is stored and used.

use crate::config::host::{advertised_address, advertised_addresses_are_trimmed};
use crate::config::identity::{
    advertisable, clean_id, id_of, id_of_id, is_advertisable_host, is_alphanumeric,
    is_placeholder_local_name, placeholder_name, trimming_an_id,
};
use crate::config::types::{
    clone_machine_configs, default_install_dir, default_install_dir_for_os, local_machine,
    AppConfig, AppConfigModel, AppSection, AppSectionModel, DeployTarget, DeployTargetModel,
    DestinationConfig, DestinationConfigModel, LocalEnv, LocalEnvModel, MachineConfig,
    MachineConfigModel, NativeSyncConfig, SourceGroupConfig, SourceGroupConfigModel, DEFAULT_PORT,
    DEFAULT_TRANSFER_TIMEOUT_SECS,
};
use crate::ipv4::ipv4_of;
use crate::paths::{normalize_lossy, normalized};
use crate::text::{
    is_blank, is_space, lower_char, lowered, same, same_ignoring_case, trim, trimmed,
    trimming_is_idempotent, views,
};
use vstd::prelude::*;

verus! {

/// Transfer settings without a timeout of zero.
pub open spec fn cleaned_sync(s: NativeSyncConfig) -> NativeSyncConfig {
    if s.transfer_timeout_secs == 0 {
        NativeSyncConfig { transfer_timeout_secs: DEFAULT_TRANSFER_TIMEOUT_SECS, ..s }
    } else {
        s
    }
}

/// Transfer settings without a timeout of zero.
pub fn clean_native_sync_config(s: NativeSyncConfig) -> (r: NativeSyncConfig)
    ensures
        r == cleaned_sync(s),
{
    let mut r = s;
    if r.transfer_timeout_secs == 0 {
        r.transfer_timeout_secs = DEFAULT_TRANSFER_TIMEOUT_SECS;
    }
    r
}

/// `value` unless it is blank, else `other`.
pub open spec fn or_else(value: Seq<char>, other: Seq<char>) -> Seq<char> {
    if value.len() == 0 {
        other
    } else {
        value
    }
}

/// `value` unless it is blank, else `other`.
pub fn or_other(value: String, other: &str) -> (r: String)
    ensures
        r@ == or_else(value@, other@),
{
    if is_blank(value.as_str()) {
        other.to_string()
    } else {
        value
    }
}

/// A machine entry with its identifier cleaned, its texts trimmed, and its gaps filled.
pub open spec fn tidied(m: MachineConfigModel, env: LocalEnvModel) -> MachineConfigModel {
    MachineConfigModel {
        id: id_of(m.id),
        alias_name: id_of(m.alias_name),
        name: or_else(trimmed(m.name), id_of(m.id)),
        host: or_else(trimmed(m.host), env.host),
        port: if m.port == 0 {
            DEFAULT_PORT
        } else {
            m.port
        },
        ssh_user: trimmed(m.ssh_user),
        ssh_port: if m.ssh_port == 0 {
            22
        } else {
            m.ssh_port
        },
        os: trimmed(m.os),
        install_dir: or_else(m.install_dir, default_install_dir(trimmed(m.os))),
        ..m
    }
}

/// Whether an entry has this identifier.
pub open spec fn has_id(ms: Seq<MachineConfigModel>, id: Seq<char>) -> bool {
    exists|i: int| 0 <= i < ms.len() && (#[trigger] ms[i]).id == id
}

/// The entries tidied, without those whose identifier is blank or came before.
pub open spec fn tidied_all(ms: Seq<MachineConfigModel>, env: LocalEnvModel) -> Seq<
    MachineConfigModel,
>
    decreases ms.len(),
{
    if ms.len() == 0 {
        Seq::empty()
    } else {
        let before = tidied_all(ms.drop_last(), env);
        let id = id_of(ms.last().id);
        if id.len() == 0 || has_id(before, id) {
            before
        } else {
            before.push(tidied(ms.last(), env))
        }
    }
}

/// The index of the first entry with this identifier, or the number of entries.
pub open spec fn index_with_id(ms: Seq<MachineConfigModel>, id: Seq<char>) -> int
    decreases ms.len(),
{
    if ms.len() == 0 || id_of(ms[0].id) == id {
        0
    } else {
        1 + index_with_id(ms.drop_first(), id)
    }
}

/// The entry of this machine: what was detected, overridden by what was configured. The detected
/// name wins unless it is a placeholder.
pub open spec fn local_entry(ms: Seq<MachineConfigModel>, env: LocalEnvModel) -> MachineConfigModel {
    let base = local_machine(env);
    let k = index_with_id(ms, "local"@);
    if k >= ms.len() {
        base
    } else {
        let c = ms[k];
        MachineConfigModel {
            name: if placeholder_name(base.name) && !placeholder_name(trimmed(c.name)) {
                trimmed(c.name)
            } else {
                base.name
            },
            alias_name: id_of(c.alias_name),
            host: if advertisable(c.host) {
                trimmed(c.host)
            } else {
                base.host
            },
            port: if c.port != 0 {
                c.port
            } else {
                base.port
            },
            ssh_port: if c.ssh_port != 0 {
                c.ssh_port
            } else {
                base.ssh_port
            },
            ssh_user: or_else(trimmed(c.ssh_user), base.ssh_user),
            os: or_else(trimmed(c.os), base.os),
            install_dir: or_else(c.install_dir, base.install_dir),
            ..base
        }
    }
}

/// The test for entries of other machines.
pub open spec fn is_other() -> spec_fn(MachineConfigModel) -> bool {
    |m: MachineConfigModel| id_of(m.id) != "local"@
}

/// The machine entries as they are used: this machine first, then the others, tidied and without
/// repeats.
pub open spec fn cleaned_machines(ms: Seq<MachineConfigModel>, env: LocalEnvModel) -> Seq<
    MachineConfigModel,
> {
    tidied_all(seq![local_entry(ms, env)] + ms.filter(is_other()), env)
}

/// What `index_with_id` means.
pub proof fn lemma_index_with_id(ms: Seq<MachineConfigModel>, id: Seq<char>)
    ensures
        0 <= index_with_id(ms, id) <= ms.len(),
        forall|j: int| 0 <= j < index_with_id(ms, id) ==> id_of((#[trigger] ms[j]).id) != id,
        index_with_id(ms, id) < ms.len() ==> id_of(ms[index_with_id(ms, id)].id) == id,
    decreases ms.len(),
{
    if ms.len() > 0 && id_of(ms[0].id) != id {
        let t = ms.drop_first();
        lemma_index_with_id(t, id);
        assert forall|j: int| 0 <= j < index_with_id(ms, id) implies id_of((#[trigger] ms[j]).id)
            != id by {
            if j > 0 {
                assert(ms[j] == t[j - 1]);
            }
        }
    }
}

/// The index of the first entry with this identifier, or the number of entries.
fn find_with_id(ms: &Vec<MachineConfig>, id: &str) -> (r: usize)
    ensures
        r == index_with_id(views(ms@), id@),
        r <= ms.len(),
{
    let ghost all = views(ms@);
    let mut i: usize = 0;
    proof {
        assert(all.skip(0) =~= all);
        lemma_index_with_id(all, id@);
    }
    while i < ms.len()
        invariant
            i <= ms.len(),
            all == views(ms@),
            index_with_id(all, id@) == i + index_with_id(all.skip(i as int), id@),
        decreases ms.len() - i,
    {
        proof {
            assert(all.skip(i as int)[0] == ms@[i as int]@);
            assert(all.skip(i as int).drop_first() =~= all.skip(i + 1));
        }
        if same(clean_id(ms[i].id.as_str()).as_str(), id) {
            return i;
        }
        i = i + 1;
    }
    i
}

/// Whether an entry has this identifier.
fn any_has_id(ms: &Vec<MachineConfig>, id: &str) -> (r: bool)
    ensures
        r == has_id(views(ms@), id@),
{
    for i in 0..ms.len()
        invariant
            forall|j: int| 0 <= j < i ==> (#[trigger] views(ms@)[j]).id != id@,
    {
        proof {
            assert(views(ms@)[i as int] == ms@[i as int]@);
        }
        if same(ms[i].id.as_str(), id) {
            return true;
        }
    }
    false
}

/// A machine entry with its identifier cleaned, its texts trimmed, and its gaps filled.
fn tidy(m: &MachineConfig, env: &LocalEnv) -> (r: MachineConfig)
    ensures
        r@ == tidied(m@, env@),
{
    let id = clean_id(m.id.as_str());
    let os = trim(m.os.as_str());
    MachineConfig {
        alias_name: clean_id(m.alias_name.as_str()),
        name: or_other(trim(m.name.as_str()), id.as_str()),
        host: or_other(trim(m.host.as_str()), env.host.as_str()),
        port: if m.port == 0 {
            DEFAULT_PORT
        } else {
            m.port
        },
        ssh_user: trim(m.ssh_user.as_str()),
        ssh_port: if m.ssh_port == 0 {
            22
        } else {
            m.ssh_port
        },
        install_dir: or_other(
            m.install_dir.clone(),
            default_install_dir_for_os(os.as_str()).as_str(),
        ),
        os,
        id,
        enabled: m.enabled,
        manual: m.manual,
    }
}

/// Adds an entry, tidied, unless its identifier is blank or taken.
fn add_tidied(out: &mut Vec<MachineConfig>, m: &MachineConfig, env: &LocalEnv)
    ensures
        views(final(out)@) == (if id_of(m@.id).len() == 0 || has_id(
            views(old(out)@),
            id_of(m@.id),
        ) {
            views(old(out)@)
        } else {
            views(old(out)@).push(tidied(m@, env@))
        }),
{
    let id = clean_id(m.id.as_str());
    if is_blank(id.as_str()) || any_has_id(out, id.as_str()) {
        return;
    }
    out.push(tidy(m, env));
    proof {
        assert(views(out@) =~= views(old(out)@).push(tidied(m@, env@)));
    }
}

/// The entry of this machine: what was detected, overridden by what was configured.
fn local_machine_from_config(machines: &Vec<MachineConfig>, env: &LocalEnv) -> (r: MachineConfig)
    ensures
        r@ == local_entry(views(machines@), env@),
{
    let base = MachineConfig::local(env);
    let k = find_with_id(machines, "local");
    if k >= machines.len() {
        return base;
    }
    let c = &machines[k];
    proof {
        assert(views(machines@)[k as int] == c@);
    }
    let configured = trim(c.name.as_str());
    let name: String = if is_placeholder_local_name(base.name.as_str())
        && !is_placeholder_local_name(configured.as_str()) {
        configured
    } else {
        base.name
    };
    let host: String = if is_advertisable_host(c.host.as_str()) {
        trim(c.host.as_str())
    } else {
        base.host
    };
    MachineConfig {
        id: base.id,
        alias_name: clean_id(c.alias_name.as_str()),
        name,
        host,
        port: if c.port != 0 {
            c.port
        } else {
            base.port
        },
        ssh_user: or_other(trim(c.ssh_user.as_str()), base.ssh_user.as_str()),
        ssh_port: if c.ssh_port != 0 {
            c.ssh_port
        } else {
            base.ssh_port
        },
        os: or_other(trim(c.os.as_str()), base.os.as_str()),
        install_dir: or_other(c.install_dir.clone(), base.install_dir.as_str()),
        enabled: base.enabled,
        manual: base.manual,
    }
}

/// The machine entries as they are used.
pub fn clean_machines(machines: &Vec<MachineConfig>, env: &LocalEnv) -> (out: Vec<MachineConfig>)
    ensures
        views(out@) == cleaned_machines(views(machines@), env@),
{
    let ghost all = views(machines@);
    let local = local_machine_from_config(machines, env);
    let ghost first = seq![local@];
    let mut out: Vec<MachineConfig> = Vec::new();
    proof {
        assert(views(out@) =~= tidied_all(first.drop_last(), env@));
    }
    add_tidied(&mut out, &local, env);
    proof {
        assert(first + all.take(0).filter(is_other()) =~= first) by {
            assert(all.take(0).filter(is_other()) =~= Seq::<MachineConfigModel>::empty());
        }
    }
    for i in 0..machines.len()
        invariant
            all == views(machines@),
            views(out@) == tidied_all(first + all.take(i as int).filter(is_other()), env@),
    {
        let m = &machines[i];
        let ghost kept = all.take(i as int).filter(is_other());
        proof {
            assert(all.take(i + 1) =~= all.take(i as int).push(all[i as int]));
            all.take(i as int).lemma_filter_push(all[i as int], is_other());
            assert(all[i as int] == m@);
        }
        if !same(clean_id(m.id.as_str()).as_str(), "local") {
            proof {
                assert((first + kept.push(m@)).drop_last() =~= first + kept);
                assert((first + kept.push(m@)).last() == m@);
            }
            add_tidied(&mut out, m, env);
        }
    }
    proof {
        assert(all.take(all.len() as int) =~= all);
    }
    out
}

/// The machine entries as they are used.
pub fn normalized_machines(cfg: &AppConfig, env: &LocalEnv) -> (out: Vec<MachineConfig>)
    ensures
        views(out@) == cleaned_machines(cfg@.machines, env@),
{
    clean_machines(&cfg.machines, env)
}

/// The machine entries after one target of older configurations was merged in: it fills the gaps
/// of the entry with its identifier, or becomes an entry of its own.
pub open spec fn with_target(ms: Seq<MachineConfigModel>, t: DeployTargetModel) -> Seq<
    MachineConfigModel,
> {
    let id = id_of(t.id);
    let k = index_with_id(ms, id);
    if id.len() == 0 {
        ms
    } else if k < ms.len() {
        let m = ms[k];
        ms.update(
            k,
            MachineConfigModel {
                host: if trimmed(m.host).len() == 0 {
                    trimmed(t.host)
                } else {
                    m.host
                },
                ssh_user: if trimmed(m.ssh_user).len() == 0 {
                    trimmed(t.user)
                } else {
                    m.ssh_user
                },
                ssh_port: if m.ssh_port == 0 || m.ssh_port == 22 {
                    t.port
                } else {
                    m.ssh_port
                },
                install_dir: or_else(m.install_dir, t.install_dir),
                ..m
            },
        )
    } else {
        ms.push(
            MachineConfigModel {
                id,
                alias_name: Seq::empty(),
                name: id,
                host: trimmed(t.host),
                port: DEFAULT_PORT,
                ssh_user: trimmed(t.user),
                ssh_port: if t.port == 0 {
                    22
                } else {
                    t.port
                },
                os: Seq::empty(),
                install_dir: t.install_dir,
                enabled: true,
                manual: true,
            },
        )
    }
}

/// The machine entries after all targets of older configurations were merged in.
pub open spec fn with_targets(ms: Seq<MachineConfigModel>, ts: Seq<DeployTargetModel>) -> Seq<
    MachineConfigModel,
>
    decreases ts.len(),
{
    if ts.len() == 0 {
        ms
    } else {
        with_target(with_targets(ms, ts.drop_last()), ts.last())
    }
}

/// Merges one target of older configurations into the machine entries.
fn merge_target(machines: &mut Vec<MachineConfig>, t: &DeployTarget)
    ensures
        views(final(machines)@) == with_target(views(old(machines)@), t@),
{
    let id = clean_id(t.id.as_str());
    if is_blank(id.as_str()) {
        return;
    }
    let k = find_with_id(machines, id.as_str());
    if k < machines.len() {
        let m = machines[k].clone();
        proof {
            assert(views(machines@)[k as int] == m@);
        }
        let merged = MachineConfig {
            host: if is_blank(trim(m.host.as_str()).as_str()) {
                trim(t.host.as_str())
            } else {
                m.host
            },
            ssh_user: if is_blank(trim(m.ssh_user.as_str()).as_str()) {
                trim(t.user.as_str())
            } else {
                m.ssh_user
            },
            ssh_port: if m.ssh_port == 0 || m.ssh_port == 22 {
                t.port
            } else {
                m.ssh_port
            },
            install_dir: or_other(m.install_dir, t.install_dir.as_str()),
            id: m.id,
            alias_name: m.alias_name,
            name: m.name,
            port: m.port,
            os: m.os,
            enabled: m.enabled,
            manual: m.manual,
        };
        let ghost mm = merged@;
        machines.set(k, merged);
        proof {
            assert(views(machines@) =~= views(old(machines)@).update(k as int, mm));
        }
    } else {
        let added = MachineConfig {
            id: id.clone(),
            alias_name: String::new(),
            name: id,
            host: trim(t.host.as_str()),
            port: DEFAULT_PORT,
            ssh_user: trim(t.user.as_str()),
            ssh_port: if t.port == 0 {
                22
            } else {
                t.port
            },
            os: String::new(),
            install_dir: t.install_dir.clone(),
            enabled: true,
            manual: true,
        };
        let ghost mm = added@;
        proof {
            assert(mm.alias_name =~= Seq::<char>::empty());
            assert(mm.os =~= Seq::<char>::empty());
        }
        machines.push(added);
        proof {
            assert(views(machines@) =~= views(old(machines)@).push(mm));
        }
    }
}

/// The machine entries after all targets of older configurations were merged in.
pub fn merge_deploy_targets_into_machines(
    machines: &Vec<MachineConfig>,
    targets: &Vec<DeployTarget>,
) -> (out: Vec<MachineConfig>)
    ensures
        views(out@) == with_targets(views(machines@), views(targets@)),
{
    let mut out = clone_machine_configs(machines);
    let ghost ts = views(targets@);
    for i in 0..targets.len()
        invariant
            ts == views(targets@),
            views(out@) == with_targets(views(machines@), ts.take(i as int)),
    {
        proof {
            assert(ts.take(i + 1).drop_last() =~= ts.take(i as int));
            assert(ts.take(i + 1).last() == targets@[i as int]@);
        }
        merge_target(&mut out, &targets[i]);
    }
    proof {
        assert(ts.take(ts.len() as int) =~= ts);
    }
    out
}

/// The excluded paths, trimmed and normalized, without blanks and repeats.
pub open spec fn cleaned_excludes(ps: Seq<Seq<char>>) -> Seq<Seq<char>>
    decreases ps.len(),
{
    if ps.len() == 0 {
        Seq::empty()
    } else {
        let before = cleaned_excludes(ps.drop_last());
        let p = trimmed(ps.last());
        if p.len() == 0 || before.contains(normalized(p)) {
            before
        } else {
            before.push(normalized(p))
        }
    }
}

/// Whether a list holds a text.
pub fn holds(list: &Vec<String>, item: &str) -> (r: bool)
    ensures
        r == views(list@).contains(item@),
{
    for i in 0..list.len()
        invariant
            forall|j: int| 0 <= j < i ==> views(list@)[j] != item@,
    {
        if same(list[i].as_str(), item) {
            proof {
                assert(views(list@)[i as int] == item@);
            }
            return true;
        }
    }
    false
}

/// The excluded paths, trimmed and normalized, without blanks and repeats.
pub fn clean_excludes(excludes: &Vec<String>) -> (out: Vec<String>)
    ensures
        views(out@) == cleaned_excludes(views(excludes@)),
{
    let ghost all = views(excludes@);
    let mut out: Vec<String> = Vec::new();
    proof {
        assert(views(out@) =~= cleaned_excludes(all.take(0)));
    }
    for i in 0..excludes.len()
        invariant
            all == views(excludes@),
            views(out@) == cleaned_excludes(all.take(i as int)),
    {
        let ghost was = views(out@);
        proof {
            assert(all.take(i + 1).drop_last() =~= all.take(i as int));
            assert(all.take(i + 1).last() == excludes@[i as int]@);
        }
        let p = trim(excludes[i].as_str());
        if !is_blank(p.as_str()) {
            let n = normalize_lossy(p.as_str());
            if !holds(&out, n.as_str()) {
                out.push(n);
                proof {
                    assert(views(out@) =~= was.push(normalized(p@)));
                }
            }
        }
    }
    proof {
        assert(all.take(all.len() as int) =~= all);
    }
    out
}

/// A machine reference as it is stored: a blank one becomes `local`, others stay as they are.
pub open spec fn stored_reference(id: Seq<char>) -> Seq<char> {
    if trimmed(id).len() == 0 {
        "local"@
    } else {
        id
    }
}

/// A machine reference as it is stored.
fn store_reference(id: &String) -> (r: String)
    ensures
        r@ == stored_reference(id@),
{
    if is_blank(trim(id.as_str()).as_str()) {
        "local".to_string()
    } else {
        id.clone()
    }
}

/// A destination with its reference filled, its path trimmed, and its settings cleaned.
pub open spec fn cleaned_destination(d: DestinationConfigModel) -> DestinationConfigModel {
    DestinationConfigModel {
        machine_id: stored_reference(d.machine_id),
        path: trimmed(d.path),
        sync: match d.sync {
            Some(s) => Some(cleaned_sync(s)),
            None => None,
        },
        ..d
    }
}

/// Whether a destination has this path.
pub open spec fn has_path(ds: Seq<DestinationConfigModel>, path: Seq<char>) -> bool {
    exists|i: int| 0 <= i < ds.len() && normalized((#[trigger] ds[i]).path) == normalized(path)
}

/// The destinations cleaned, without those whose path is blank or came before.
pub open spec fn cleaned_destinations(ds: Seq<DestinationConfigModel>) -> Seq<
    DestinationConfigModel,
>
    decreases ds.len(),
{
    if ds.len() == 0 {
        Seq::empty()
    } else {
        let before = cleaned_destinations(ds.drop_last());
        let d = cleaned_destination(ds.last());
        if d.path.len() == 0 || has_path(before, d.path) {
            before
        } else {
            before.push(d)
        }
    }
}

/// Whether a destination has this path.
fn any_has_path(ds: &Vec<DestinationConfig>, path: &str) -> (r: bool)
    ensures
        r == has_path(views(ds@), path@),
{
    let p = normalize_lossy(path);
    for i in 0..ds.len()
        invariant
            p@ == normalized(path@),
            forall|j: int|
                0 <= j < i ==> normalized((#[trigger] views(ds@)[j]).path) != normalized(path@),
    {
        proof {
            assert(views(ds@)[i as int] == ds@[i as int]@);
        }
        if same(normalize_lossy(ds[i].path.as_str()).as_str(), p.as_str()) {
            return true;
        }
    }
    false
}

/// The destinations cleaned, without those whose path is blank or came before.
fn clean_destinations(ds: &Vec<DestinationConfig>) -> (out: Vec<DestinationConfig>)
    ensures
        views(out@) == cleaned_destinations(views(ds@)),
{
    let ghost all = views(ds@);
    let mut out: Vec<DestinationConfig> = Vec::new();
    proof {
        assert(views(out@) =~= cleaned_destinations(all.take(0)));
    }
    for i in 0..ds.len()
        invariant
            all == views(ds@),
            views(out@) == cleaned_destinations(all.take(i as int)),
    {
        let ghost was = views(out@);
        proof {
            assert(all.take(i + 1).drop_last() =~= all.take(i as int));
            assert(all.take(i + 1).last() == ds@[i as int]@);
        }
        let d = DestinationConfig {
            id: ds[i].id.clone(),
            machine_id: store_reference(&ds[i].machine_id),
            path: trim(ds[i].path.as_str()),
            enabled: ds[i].enabled,
            paused: ds[i].paused,
            schedule: ds[i].schedule.clone(),
            sync: match ds[i].sync {
                Some(s) => Some(clean_native_sync_config(s)),
                None => None,
            },
        };
        let ghost dm = d@;
        proof {
            assert(dm == cleaned_destination(ds@[i as int]@));
        }
        if !is_blank(d.path.as_str()) && !any_has_path(&out, d.path.as_str()) {
            out.push(d);
            proof {
                assert(views(out@) =~= was.push(dm));
            }
        }
    }
    proof {
        assert(all.take(all.len() as int) =~= all);
    }
    out
}

/// A source with its reference filled, its paths trimmed, and its destinations cleaned.
pub open spec fn cleaned_source(s: SourceGroupConfigModel) -> SourceGroupConfigModel {
    SourceGroupConfigModel {
        machine_id: stored_reference(s.machine_id),
        src: trimmed(s.src),
        excludes: cleaned_excludes(s.excludes),
        destinations: cleaned_destinations(s.destinations),
        ..s
    }
}

/// The test for sources that have a path.
pub open spec fn has_src() -> spec_fn(SourceGroupConfigModel) -> bool {
    |s: SourceGroupConfigModel| s.src.len() > 0
}

/// The cleaning of a source, as a function.
pub open spec fn source_cleaner() -> spec_fn(SourceGroupConfigModel) -> SourceGroupConfigModel {
    |s: SourceGroupConfigModel| cleaned_source(s)
}

/// The sources cleaned, without those whose path is blank.
pub open spec fn cleaned_sources(ss: Seq<SourceGroupConfigModel>) -> Seq<SourceGroupConfigModel> {
    ss.map_values(source_cleaner()).filter(has_src())
}

/// The configuration in the form in which it is stored.
pub open spec fn cleaned_config(cfg: AppConfigModel, env: LocalEnvModel) -> AppConfigModel {
    AppConfigModel {
        app: AppSectionModel {
            port: if cfg.app.port == 0 {
                DEFAULT_PORT
            } else {
                cfg.app.port
            },
            sync: cleaned_sync(cfg.app.sync),
            ..cfg.app
        },
        machines: cleaned_machines(with_targets(cfg.machines, cfg.deploy.targets), env),
        source_groups: cleaned_sources(cfg.source_groups),
        ..cfg
    }
}

/// A source with its reference filled, its paths trimmed, and its destinations cleaned.
fn clean_source(s: &SourceGroupConfig) -> (r: SourceGroupConfig)
    ensures
        r@ == cleaned_source(s@),
{
    SourceGroupConfig {
        id: s.id.clone(),
        machine_id: store_reference(&s.machine_id),
        src: trim(s.src.as_str()),
        add_directory: s.add_directory,
        managed_by: s.managed_by.clone(),
        excludes: clean_excludes(&s.excludes),
        enabled: s.enabled,
        order: s.order,
        mode: s.mode,
        snapshot: s.snapshot.clone(),
        destinations: clean_destinations(&s.destinations),
    }
}

/// The sources cleaned, without those whose path is blank.
fn clean_sources(ss: &Vec<SourceGroupConfig>) -> (out: Vec<SourceGroupConfig>)
    ensures
        views(out@) == cleaned_sources(views(ss@)),
{
    let ghost all = views(ss@).map_values(source_cleaner());
    let mut out: Vec<SourceGroupConfig> = Vec::new();
    proof {
        assert(views(out@) =~= all.take(0).filter(has_src()));
    }
    for i in 0..ss.len()
        invariant
            all == views(ss@).map_values(source_cleaner()),
            views(out@) == all.take(i as int).filter(has_src()),
    {
        let ghost was = views(out@);
        let s = clean_source(&ss[i]);
        let ghost sm = s@;
        proof {
            assert(all[i as int] == sm);
            assert(all.take(i + 1) =~= all.take(i as int).push(sm));
            all.take(i as int).lemma_filter_push(sm, has_src());
        }
        if !is_blank(s.src.as_str()) {
            out.push(s);
            proof {
                assert(views(out@) =~= was.push(sm));
            }
        }
    }
    proof {
        assert(all.take(all.len() as int) =~= all);
    }
    out
}

/// Brings a configuration into the form in which it is stored: paths trimmed, blank sources and
/// destinations dropped, repeats removed, gaps filled, and older targets merged into the machines.
pub fn clean_config_for_save(cfg: &AppConfig, env: &LocalEnv) -> (r: AppConfig)
    ensures
        r@ == cleaned_config(cfg@, env@),
{
    let copy = cfg.clone();
    let merged = merge_deploy_targets_into_machines(&cfg.machines, &cfg.deploy.targets);
    AppConfig {
        app: AppSection {
            port: if cfg.app.port == 0 {
                DEFAULT_PORT
            } else {
                cfg.app.port
            },
            sync: clean_native_sync_config(cfg.app.sync),
            data_db: copy.app.data_db,
            log_dir: copy.app.log_dir,
            status_log_interval_secs: copy.app.status_log_interval_secs,
            tcp_connection_pool_size: copy.app.tcp_connection_pool_size,
            peer_token: copy.app.peer_token,
            preferred_subnet: copy.app.preferred_subnet,
            autostart: copy.app.autostart,
            close_to_tray: copy.app.close_to_tray,
        },
        machines: clean_machines(&merged, env),
        source_groups: clean_sources(&cfg.source_groups),
        standby_pools: copy.standby_pools,
        deploy: copy.deploy,
    }
}

/// Cleaned machine entries start with this machine, have distinct identifiers that are not blank,
/// and no gaps in name and port.
pub proof fn cleaned_machines_are_distinct(ms: Seq<MachineConfigModel>, env: LocalEnvModel)
    ensures
        cleaned_machines(ms, env).len() >= 1,
        cleaned_machines(ms, env)[0].id == "local"@,
        forall|i: int, j: int|
            0 <= i < j < cleaned_machines(ms, env).len() ==> cleaned_machines(ms, env)[i].id
                != cleaned_machines(ms, env)[j].id,
        forall|i: int|
            0 <= i < cleaned_machines(ms, env).len() ==> {
                let m = #[trigger] cleaned_machines(ms, env)[i];
                m.id.len() > 0 && m.name.len() > 0 && m.port != 0 && m.ssh_port != 0
            },
{
    let local = local_entry(ms, env);
    let all = seq![local] + ms.filter(is_other());
    reveal_strlit("local");
    assert(local.id == "local"@);
    let id = local.id;
    assert(crate::text::trimmed(id) =~= id);
    assert(id_of(id) =~= id);
    lemma_tidied_distinct(all, env);
    assert(all.take(1) =~= seq![local]);
    let one = tidied_all(all.take(1), env);
    assert(all.take(1).drop_last() =~= Seq::<MachineConfigModel>::empty());
    assert(tidied_all(all.take(1).drop_last(), env) =~= Seq::<MachineConfigModel>::empty());
    assert(all.take(1).last() == local);
    assert(one =~= seq![tidied(local, env)]);
    lemma_tidied_prefix(all, 1, env);
}

/// Tidying more entries keeps what earlier entries gave.
proof fn lemma_tidied_prefix(ms: Seq<MachineConfigModel>, k: int, env: LocalEnvModel)
    requires
        0 <= k <= ms.len(),
    ensures
        tidied_all(ms.take(k), env).len() <= tidied_all(ms, env).len(),
        forall|i: int|
            0 <= i < tidied_all(ms.take(k), env).len() ==> tidied_all(ms.take(k), env)[i]
                == #[trigger] tidied_all(ms, env)[i],
    decreases ms.len(),
{
    if k == ms.len() {
        assert(ms.take(k) =~= ms);
    } else {
        lemma_tidied_prefix(ms.drop_last(), k, env);
        assert(ms.drop_last().take(k) =~= ms.take(k));
    }
}

proof fn lemma_tidied_distinct(ms: Seq<MachineConfigModel>, env: LocalEnvModel)
    ensures
        forall|i: int, j: int|
            0 <= i < j < tidied_all(ms, env).len() ==> tidied_all(ms, env)[i].id != tidied_all(
                ms,
                env,
            )[j].id,
        forall|i: int|
            0 <= i < tidied_all(ms, env).len() ==> {
                let m = #[trigger] tidied_all(ms, env)[i];
                m.id.len() > 0 && m.name.len() > 0 && m.port != 0 && m.ssh_port != 0
            },
    decreases ms.len(),
{
    if ms.len() > 0 {
        lemma_tidied_distinct(ms.drop_last(), env);
        let before = tidied_all(ms.drop_last(), env);
        let now = tidied_all(ms, env);
        let id = id_of(ms.last().id);
        assert forall|i: int, j: int| 0 <= i < j < now.len() implies now[i].id != now[j].id by {
            if now.len() > before.len() && j == before.len() {
                assert(now[i] == before[i]);
            }
        }
    }
}

/// Cleaned sources have a path, and their destinations have paths that are not blank and that
/// differ from each other.
pub proof fn cleaned_sources_are_complete(ss: Seq<SourceGroupConfigModel>)
    ensures
        forall|i: int|
            0 <= i < cleaned_sources(ss).len() ==> {
                let s = #[trigger] cleaned_sources(ss)[i];
                s.src.len() > 0 && distinct_paths(s.destinations)
            },
{
    let mapped = ss.map_values(source_cleaner());
    assert forall|i: int| 0 <= i < cleaned_sources(ss).len() implies {
        let s = #[trigger] cleaned_sources(ss)[i];
        s.src.len() > 0 && distinct_paths(s.destinations)
    } by {
        let s = cleaned_sources(ss)[i];
        mapped.lemma_filter_pred(has_src(), i);
        mapped.lemma_filter_contains_rev(has_src(), s);
        let k = choose|k: int| 0 <= k < mapped.len() && mapped[k] == s;
        assert(s == cleaned_source(ss[k]));
        lemma_destinations_distinct(ss[k].destinations);
    }
}

/// Whether destinations have paths that are not blank and that differ from each other.
pub open spec fn distinct_paths(ds: Seq<DestinationConfigModel>) -> bool {
    &&& forall|i: int| 0 <= i < ds.len() ==> (#[trigger] ds[i]).path.len() > 0
    &&& forall|i: int, j: int|
        0 <= i < j < ds.len() ==> normalized((#[trigger] ds[i]).path) != normalized(
            (#[trigger] ds[j]).path,
        )
}

proof fn lemma_destinations_distinct(ds: Seq<DestinationConfigModel>)
    ensures
        distinct_paths(cleaned_destinations(ds)),
    decreases ds.len(),
{
    if ds.len() > 0 {
        lemma_destinations_distinct(ds.drop_last());
        let before = cleaned_destinations(ds.drop_last());
        let now = cleaned_destinations(ds);
        assert forall|i: int, j: int| 0 <= i < j < now.len() implies normalized(
            (#[trigger] now[i]).path,
        ) != normalized((#[trigger] now[j]).path) by {
            if now.len() > before.len() && j == before.len() {
                assert(now[i] == before[i]);
            }
        }
    }
}

/// Whether a character may stand in an identifier.
pub open spec fn is_id_char(c: char) -> bool {
    is_alphanumeric(c) || c == '_' || c == '-'
}

/// The machine entries as they are used are this machine and then, in their order, the first entries
/// for the identifiers of other machines, each tidied. Their identifiers differ and consist of
/// letters, digits, `_` and `-`; none of them lacks an identifier, an address or a port.
pub proof fn machines_are_first_entries(ms: Seq<MachineConfigModel>, env: LocalEnvModel)
    requires
        env.host.len() > 0,
    ensures
        ({
            let r = cleaned_machines(ms, env);
            &&& r.len() >= 1
            &&& r[0] == tidied(local_entry(ms, env), env)
            &&& r[0].id == "local"@
            &&& forall|k: int|
                1 <= k < r.len() ==> {
                    let f = index_with_id(ms, (#[trigger] r[k]).id);
                    &&& r[k].id != "local"@
                    &&& 0 <= f < ms.len()
                    &&& r[k] == tidied(ms[f], env)
                }
            &&& forall|j: int, k: int|
                1 <= j < k < r.len() ==> index_with_id(ms, (#[trigger] r[j]).id) < index_with_id(
                    ms,
                    (#[trigger] r[k]).id,
                )
            &&& forall|i: int|
                0 <= i < ms.len() && id_of((#[trigger] ms[i]).id).len() > 0 ==> has_id(
                    r,
                    id_of(ms[i].id),
                )
            &&& forall|j: int, k: int|
                0 <= j < k < r.len() ==> (#[trigger] r[j]).id != (#[trigger] r[k]).id
            &&& forall|k: int|
                0 <= k < r.len() ==> (#[trigger] r[k]).id.len() > 0 && r[k].host.len() > 0
                    && r[k].port != 0 && r[k].ssh_port != 0
            &&& forall|k: int, c: int|
                0 <= k < r.len() && 0 <= c < r[k].id.len() ==> is_id_char(#[trigger] r[k].id[c])
        }),
{
    let r = cleaned_machines(ms, env);
    let local = local_entry(ms, env);
    cleaned_machines_are_distinct(ms, env);
    lemma_local_id(ms, env);
    lemma_first_entries(local, ms, env);
    let all = seq![local] + ms.filter(is_other());
    lemma_tidied_shape(all, env);
    assert forall|i: int| 0 <= i < ms.len() && id_of((#[trigger] ms[i]).id).len() > 0 implies has_id(
        r,
        id_of(ms[i].id),
    ) by {
        if id_of(ms[i].id) == "local"@ {
            assert(r[0].id == id_of(ms[i].id));
        }
    }
}

/// The entry of this machine has the identifier of this machine.
proof fn lemma_local_id(ms: Seq<MachineConfigModel>, env: LocalEnvModel)
    ensures
        local_entry(ms, env).id == "local"@,
        id_of("local"@) == "local"@,
{
    reveal_strlit("local");
    let id = "local"@;
    assert(trimmed(id) =~= id);
    assert(id_of(id) =~= id);
}

/// Tidied entries come from entries, have identifiers of the allowed characters, and no gaps.
proof fn lemma_tidied_shape(ms: Seq<MachineConfigModel>, env: LocalEnvModel)
    requires
        env.host.len() > 0,
    ensures
        forall|k: int|
            0 <= k < tidied_all(ms, env).len() ==> (#[trigger] tidied_all(ms, env)[k]).host.len()
                > 0,
        forall|k: int, c: int|
            0 <= k < tidied_all(ms, env).len() && 0 <= c < tidied_all(ms, env)[k].id.len()
                ==> is_id_char(#[trigger] tidied_all(ms, env)[k].id[c]),
    decreases ms.len(),
{
    if ms.len() > 0 {
        let before = tidied_all(ms.drop_last(), env);
        let now = tidied_all(ms, env);
        lemma_tidied_shape(ms.drop_last(), env);
        assert forall|k: int| 0 <= k < now.len() implies (#[trigger] now[k]).host.len() > 0 by {
            if k < before.len() {
                assert(now[k] == before[k]);
            }
        }
        assert forall|k: int, c: int| 0 <= k < now.len() && 0 <= c < now[k].id.len() implies is_id_char(
            #[trigger] now[k].id[c],
        ) by {
            if k < before.len() {
                assert(now[k] == before[k]);
                assert(is_id_char(before[k].id[c]));
            } else {
                assert(now[k].id == id_of(ms.last().id));
            }
        }
    }
}

/// The index of the first entry with an identifier, from what it means.
proof fn lemma_index_is(ms: Seq<MachineConfigModel>, id: Seq<char>, k: int)
    requires
        0 <= k < ms.len(),
        id_of(ms[k].id) == id,
        forall|j: int| 0 <= j < k ==> id_of((#[trigger] ms[j]).id) != id,
    ensures
        index_with_id(ms, id) == k,
{
    lemma_index_with_id(ms, id);
    let f = index_with_id(ms, id);
    if f < k {
        assert(id_of(ms[f].id) != id);
    }
    if f > k {
        assert(id_of(ms[k].id) != id);
    }
}

/// After the entry of this machine come the first entries for the identifiers of other machines.
proof fn lemma_first_entries(
    local: MachineConfigModel,
    ms: Seq<MachineConfigModel>,
    env: LocalEnvModel,
)
    requires
        local.id == "local"@,
        id_of("local"@) == "local"@,
    ensures
        ({
            let r = tidied_all(seq![local] + ms.filter(is_other()), env);
            &&& r.len() >= 1
            &&& r[0] == tidied(local, env)
            &&& forall|k: int|
                1 <= k < r.len() ==> {
                    let f = index_with_id(ms, (#[trigger] r[k]).id);
                    &&& r[k].id != "local"@
                    &&& 0 <= f < ms.len()
                    &&& r[k] == tidied(ms[f], env)
                }
            &&& forall|j: int, k: int|
                1 <= j < k < r.len() ==> index_with_id(ms, (#[trigger] r[j]).id) < index_with_id(
                    ms,
                    (#[trigger] r[k]).id,
                )
            &&& forall|i: int|
                0 <= i < ms.len() && id_of((#[trigger] ms[i]).id).len() > 0 && id_of(ms[i].id)
                    != "local"@ ==> has_id(r, id_of(ms[i].id))
        }),
    decreases ms.len(),
{
    reveal(Seq::filter);
    let all = seq![local] + ms.filter(is_other());
    let r = tidied_all(all, env);
    reveal_strlit("local");
    if ms.len() == 0 {
        assert(all =~= seq![local]);
        assert(all.drop_last() =~= Seq::<MachineConfigModel>::empty());
        assert(tidied_all(all.drop_last(), env) =~= Seq::<MachineConfigModel>::empty());
        assert(all.last() == local);
        assert(r =~= seq![tidied(local, env)]);
    } else {
        let rest = ms.drop_last();
        let m = ms.last();
        let id = id_of(m.id);
        let n = ms.len() - 1;
        let all_before = seq![local] + rest.filter(is_other());
        let before = tidied_all(all_before, env);
        lemma_first_entries(local, rest, env);
        // The entries before the last one keep their first places.
        assert forall|k: int| 1 <= k < before.len() implies index_with_id(
            ms,
            (#[trigger] before[k]).id,
        ) == index_with_id(rest, before[k].id) by {
            let x = before[k].id;
            lemma_index_with_id(rest, x);
            let f = index_with_id(rest, x);
            assert(ms[f] == rest[f]);
            assert forall|j: int| 0 <= j < f implies id_of((#[trigger] ms[j]).id) != x by {
                assert(ms[j] == rest[j]);
            }
            lemma_index_is(ms, x, f);
        }
        if is_other()(m) {
            assert(all =~= all_before.push(m));
            assert(all.drop_last() =~= all_before);
            assert(all.last() == m);
            if id.len() > 0 && !has_id(before, id) {
                assert(r == before.push(tidied(m, env)));
                assert forall|j: int| 0 <= j < n implies id_of((#[trigger] ms[j]).id) != id by {
                    assert(ms[j] == rest[j]);
                    if id_of(rest[j].id) == id {
                        assert(has_id(before, id));
                    }
                }
                lemma_index_is(ms, id, n);
                assert(r.last().id == id);
                assert forall|k: int| 1 <= k < r.len() implies {
                    let f = index_with_id(ms, (#[trigger] r[k]).id);
                    &&& r[k].id != "local"@
                    &&& 0 <= f < ms.len()
                    &&& r[k] == tidied(ms[f], env)
                } by {
                    if k < before.len() {
                        assert(r[k] == before[k]);
                        let f = index_with_id(rest, before[k].id);
                        assert(ms[f] == rest[f]);
                    }
                }
                assert forall|j: int, k: int| 1 <= j < k < r.len() implies index_with_id(
                    ms,
                    (#[trigger] r[j]).id,
                ) < index_with_id(ms, (#[trigger] r[k]).id) by {
                    assert(r[j] == before[j]);
                    let f = index_with_id(rest, before[j].id);
                    assert(0 <= f < rest.len());
                    if k < before.len() {
                        assert(r[k] == before[k]);
                    }
                }
            } else {
                assert(r == before);
                assert forall|k: int| 1 <= k < r.len() implies {
                    let f = index_with_id(ms, (#[trigger] r[k]).id);
                    &&& r[k].id != "local"@
                    &&& 0 <= f < ms.len()
                    &&& r[k] == tidied(ms[f], env)
                } by {
                    let f = index_with_id(rest, before[k].id);
                    assert(ms[f] == rest[f]);
                }
            }
        } else {
            assert(all =~= all_before);
            assert forall|k: int| 1 <= k < r.len() implies {
                let f = index_with_id(ms, (#[trigger] r[k]).id);
                &&& r[k].id != "local"@
                &&& 0 <= f < ms.len()
                &&& r[k] == tidied(ms[f], env)
            } by {
                let f = index_with_id(rest, before[k].id);
                assert(ms[f] == rest[f]);
            }
        }
        assert forall|i: int|
            0 <= i < ms.len() && id_of((#[trigger] ms[i]).id).len() > 0 && id_of(ms[i].id)
                != "local"@ implies has_id(r, id_of(ms[i].id)) by {
            let x = id_of(ms[i].id);
            if i < n {
                assert(ms[i] == rest[i]);
                assert(has_id(before, x));
                let k = choose|k: int| 0 <= k < before.len() && (#[trigger] before[k]).id == x;
                assert(r[k].id == x);
            } else if has_id(before, x) {
                let k = choose|k: int| 0 <= k < before.len() && (#[trigger] before[k]).id == x;
                assert(r[k].id == x);
            } else {
                assert(r.last().id == x);
                assert(r[r.len() - 1].id == x);
            }
        }
    }
}

/// Tidying a tidied entry changes nothing, where the address of this machine has no white space at
/// its ends.
proof fn lemma_tidied_twice(m: MachineConfigModel, env: LocalEnvModel)
    requires
        trimmed(env.host) == env.host,
    ensures
        tidied(tidied(m, env), env) == tidied(m, env),
{
    id_of_id(m.id);
    id_of_id(m.alias_name);
    trimming_an_id(m.id);
    trimming_is_idempotent(m.name);
    trimming_is_idempotent(m.host);
    trimming_is_idempotent(m.ssh_user);
    trimming_is_idempotent(m.os);
    lemma_default_dir(trimmed(m.os));
}

/// There is always a place to install to.
proof fn lemma_default_dir(os: Seq<char>)
    ensures
        default_install_dir(os).len() > 0,
{
    reveal_strlit("C:/auto_sync");
    reveal_strlit("/opt/auto_sync");
}

/// A placeholder has no white space at its ends.
proof fn lemma_placeholder_trimmed(name: Seq<char>)
    requires
        placeholder_name(name),
    ensures
        trimmed(name) == name,
{
    reveal_strlit("This machine");
    reveal_strlit("local");
    if name.len() > 0 {
        if same_ignoring_case(name, "local"@) {
            let low = lowered(name);
            assert(low == lowered("local"@));
            assert(low.len() == 5);
            assert(low[0] == lower_char(name[0]));
            assert(low[4] == lower_char(name[4]));
            assert(lowered("local"@)[0] == 'l');
            assert(lowered("local"@)[4] == 'l');
        }
        assert(!is_space(name[0]));
        assert(!is_space(name.last()));
    }
}

/// What the entry of this machine gives, tidied, it gives again where the tidied entry is the
/// configured one.
proof fn lemma_local_entry_twice(
    ms: Seq<MachineConfigModel>,
    next: Seq<MachineConfigModel>,
    env: LocalEnvModel,
)
    requires
        trimmed(env.host) == env.host,
        next.len() > 0,
        next[0] == tidied(local_entry(ms, env), env),
    ensures
        tidied(local_entry(next, env), env) == next[0],
{
    let base = local_machine(env);
    let l = local_entry(ms, env);
    let c = next[0];
    lemma_local_id(ms, env);
    assert(index_with_id(next, "local"@) == 0);
    let m = local_entry(next, env);
    lemma_default_dir(env.os);
    lemma_default_dir(trimmed(l.os));
    lemma_default_dir(trimmed(m.os));
    let k = index_with_id(ms, "local"@);
    lemma_index_with_id(ms, "local"@);
    id_of_id(l.alias_name);
    assert(id_of(c.alias_name) == c.alias_name);
    trimming_is_idempotent(l.name);
    trimming_is_idempotent(l.host);
    trimming_is_idempotent(l.ssh_user);
    trimming_is_idempotent(l.os);
    reveal_strlit("local");
    reveal_strlit("This machine");
    if k < ms.len() {
        let o = ms[k];
        trimming_is_idempotent(o.name);
        trimming_is_idempotent(o.host);
        trimming_is_idempotent(o.ssh_user);
        trimming_is_idempotent(o.os);
        id_of_id(o.alias_name);
    }
    if placeholder_name(env.hostname) {
        lemma_placeholder_trimmed(env.hostname);
    }
    let t = tidied(m, env);
    assert("local"@ == trimmed("local"@)) by {
        assert(trimmed("local"@) =~= "local"@);
    }
    assert(same_ignoring_case("local"@, "local"@));
    assert(t.name == c.name);
    assert(t.alias_name == c.alias_name);
    assert(t.host == c.host);
    assert(t.ssh_user == c.ssh_user);
    assert(t.os == c.os);
    assert(t.install_dir == c.install_dir);
    assert(t =~= c);
}

/// Entries whose tidied forms have distinct identifiers are all kept.
proof fn lemma_all_kept(
    ms: Seq<MachineConfigModel>,
    out: Seq<MachineConfigModel>,
    env: LocalEnvModel,
)
    requires
        ms.len() == out.len(),
        forall|i: int| 0 <= i < ms.len() ==> tidied(#[trigger] ms[i], env) == out[i],
        forall|i: int| 0 <= i < out.len() ==> (#[trigger] out[i]).id.len() > 0,
        forall|i: int, j: int|
            0 <= i < j < out.len() ==> (#[trigger] out[i]).id != (#[trigger] out[j]).id,
    ensures
        tidied_all(ms, env) == out,
    decreases ms.len(),
{
    if ms.len() == 0 {
        assert(tidied_all(ms, env) =~= out);
    } else {
        let n = ms.len() - 1;
        lemma_all_kept(ms.drop_last(), out.drop_last(), env);
        assert(tidied(ms[n], env) == out[n]);
        assert(!has_id(out.drop_last(), out[n].id));
        assert(out.drop_last().push(out[n]) =~= out);
    }
}

/// Cleaning the machine entries again changes nothing, as long as the name and the address of this
/// machine do not change.
pub proof fn cleaning_machines_is_idempotent(ms: Seq<MachineConfigModel>, env: LocalEnvModel)
    requires
        env.host.len() > 0,
        trimmed(env.host) == env.host,
    ensures
        cleaned_machines(cleaned_machines(ms, env), env) == cleaned_machines(ms, env),
{
    let r = cleaned_machines(ms, env);
    machines_are_first_entries(ms, env);
    lemma_local_id(ms, env);
    lemma_local_entry_twice(ms, r, env);
    let others = r.drop_first();
    assert forall|k: int| 1 <= k < r.len() implies id_of((#[trigger] r[k]).id) == r[k].id && tidied(
        r[k],
        env,
    ) == r[k] by {
        let m = ms[index_with_id(ms, r[k].id)];
        id_of_id(m.id);
        lemma_tidied_twice(m, env);
    }
    lemma_filter_rest(r);
    let all = seq![local_entry(r, env)] + others;
    assert(all.len() == r.len());
    assert forall|i: int| 0 <= i < all.len() implies tidied(#[trigger] all[i], env) == r[i] by {
        if i > 0 {
            assert(all[i] == r[i]);
        }
    }
    lemma_all_kept(all, r, env);
}

/// Where only the first entry is that of this machine, the others are the rest.
proof fn lemma_filter_rest(r: Seq<MachineConfigModel>)
    requires
        r.len() >= 1,
        id_of(r[0].id) == "local"@,
        forall|k: int| 1 <= k < r.len() ==> id_of((#[trigger] r[k]).id) != "local"@,
    ensures
        r.filter(is_other()) == r.drop_first(),
    decreases r.len(),
{
    reveal(Seq::filter);
    if r.len() == 1 {
        assert(r.drop_last().filter(is_other()) =~= Seq::<MachineConfigModel>::empty());
        assert(r.drop_first() =~= Seq::<MachineConfigModel>::empty());
    } else {
        let rest = r.drop_last();
        lemma_filter_rest(rest);
        assert(rest.drop_first().push(r.last()) =~= r.drop_first());
        assert(is_other()(r.last())) by {
            assert(r[r.len() - 1] == r.last());
        }
    }
}

/// On a machine that tells peers the address that was found for it, the machine entries are this
/// machine and the first entries of the others, and cleaning them again changes nothing.
pub proof fn found_addresses_keep_machines(
    ms: Seq<MachineConfigModel>,
    hostname: Seq<char>,
    os: Seq<char>,
    subnet: Seq<char>,
    facing: Option<Seq<char>>,
    outward: Option<Seq<char>>,
)
    requires
        facing is Some ==> ipv4_of(facing->0) is Some,
        outward is Some ==> ipv4_of(outward->0) is Some,
    ensures
        ({
            let env = LocalEnvModel {
                hostname,
                host: advertised_address(subnet, facing, outward),
                os,
            };
            let r = cleaned_machines(ms, env);
            &&& cleaned_machines(r, env) == r
            &&& forall|k: int| 0 <= k < r.len() ==> (#[trigger] r[k]).host.len() > 0
        }),
{
    let env = LocalEnvModel { hostname, host: advertised_address(subnet, facing, outward), os };
    advertised_addresses_are_trimmed(subnet, facing, outward);
    machines_are_first_entries(ms, env);
    cleaning_machines_is_idempotent(ms, env);
}

} // verus!
