//! What cleaning keeps of a configuration, and what it fills in.

use crate::config::clean::{
    cleaned_config, cleaned_destination, cleaned_destinations, cleaned_excludes, cleaned_machines,
    cleaned_source, cleaned_sources, has_id, has_path, has_src, index_with_id, lemma_index_with_id,
    machines_are_first_entries, source_cleaner, with_target,
};
use crate::config::identity::{advertisable, id_of};
use crate::config::types::{
    AppConfigModel, DeployTargetModel, DestinationConfigModel, LocalEnvModel, MachineConfigModel, NativeSyncConfig,
    SourceGroupConfigModel,
};
use crate::paths::normalized;
use crate::text::trimmed;
use vstd::prelude::*;

verus! {

/// Whether a reference is stored for another: the same one, or `local` for a blank one.
pub open spec fn refers_alike(stored: Seq<char>, given: Seq<char>) -> bool {
    if trimmed(given).len() == 0 {
        stored == "local"@
    } else {
        stored == given
    }
}

/// Whether transfer settings are others, with two minutes in place of no time at all.
pub open spec fn same_transfers(stored: NativeSyncConfig, given: NativeSyncConfig) -> bool {
    &&& given.transfer_timeout_secs == 0 ==> stored.transfer_timeout_secs == 120
    &&& given.transfer_timeout_secs != 0 ==> stored.transfer_timeout_secs
        == given.transfer_timeout_secs
    &&& stored == NativeSyncConfig { transfer_timeout_secs: stored.transfer_timeout_secs, ..given }
}

/// Whether a destination is stored for another.
pub open spec fn stands_for(stored: DestinationConfigModel, given: DestinationConfigModel) -> bool {
    &&& stored.id == given.id
    &&& refers_alike(stored.machine_id, given.machine_id)
    &&& stored.path == trimmed(given.path)
    &&& stored.enabled == given.enabled
    &&& stored.paused == given.paused
    &&& stored.schedule == given.schedule
    &&& (stored.sync is Some) == (given.sync is Some)
    &&& given.sync is Some ==> same_transfers(stored.sync->0, given.sync->0)
}

/// The destinations that are stored are the configured ones with a path, the first one for each
/// path, with their settings.
pub proof fn destinations_are_stored(ds: Seq<DestinationConfigModel>)
    ensures
        forall|i: int|
            0 <= i < ds.len() && trimmed((#[trigger] ds[i]).path).len() > 0 && (forall|j: int|
                0 <= j < i ==> normalized(trimmed((#[trigger] ds[j]).path)) != normalized(
                    trimmed(ds[i].path),
                )) ==> exists|k: int|
                0 <= k < cleaned_destinations(ds).len() && stands_for(
                    #[trigger] cleaned_destinations(ds)[k],
                    ds[i],
                ),
        forall|k: int|
            0 <= k < cleaned_destinations(ds).len() ==> exists|i: int|
                0 <= i < ds.len() && stands_for(
                    #[trigger] cleaned_destinations(ds)[k],
                    #[trigger] ds[i],
                ) && trimmed(ds[i].path).len() > 0,
    decreases ds.len(),
{
    if ds.len() > 0 {
        let t = ds.drop_last();
        destinations_are_stored(t);
        let before = cleaned_destinations(t);
        let now = cleaned_destinations(ds);
        let d = cleaned_destination(ds.last());
        assert(stands_for(d, ds.last()));
        assert forall|k: int| 0 <= k < now.len() implies exists|i: int|
            0 <= i < ds.len() && stands_for(#[trigger] now[k], #[trigger] ds[i]) && trimmed(
                ds[i].path,
            ).len() > 0 by {
            if k < before.len() {
                assert(now[k] == before[k]);
                let i = choose|i: int|
                    0 <= i < t.len() && stands_for(before[k], #[trigger] t[i]) && trimmed(
                        t[i].path,
                    ).len() > 0;
                assert(ds[i] == t[i]);
            } else {
                assert(now[k] == d);
                assert(ds[ds.len() - 1] == ds.last());
            }
        }
        assert forall|i: int|
            0 <= i < ds.len() && trimmed((#[trigger] ds[i]).path).len() > 0 && (forall|j: int|
                0 <= j < i ==> normalized(trimmed((#[trigger] ds[j]).path)) != normalized(
                    trimmed(ds[i].path),
                )) implies exists|k: int|
            0 <= k < now.len() && stands_for(#[trigger] now[k], ds[i]) by {
            if i < t.len() {
                assert(t[i] == ds[i]);
                assert forall|j: int| 0 <= j < i implies normalized(
                    trimmed((#[trigger] t[j]).path),
                ) != normalized(trimmed(t[i].path)) by {
                    assert(t[j] == ds[j]);
                }
                let k = choose|k: int|
                    0 <= k < before.len() && stands_for(#[trigger] before[k], t[i]);
                assert(now[k] == before[k]);
            } else {
                assert(!has_path(before, d.path)) by {
                    if has_path(before, d.path) {
                        let k = choose|k: int|
                            0 <= k < before.len() && normalized((#[trigger] before[k]).path)
                                == normalized(d.path);
                        let j = choose|j: int|
                            0 <= j < t.len() && stands_for(before[k], #[trigger] t[j]);
                        assert(t[j] == ds[j]);
                    }
                }
                assert(now[before.len() as int] == d);
            }
        }
    }
}

/// The excluded paths that are stored are the configured ones that are not blank, normalized; none
/// of them is stored twice.
pub proof fn excluded_paths_are_stored(ps: Seq<Seq<char>>)
    ensures
        forall|i: int|
            0 <= i < ps.len() && trimmed(#[trigger] ps[i]).len() > 0 ==> cleaned_excludes(
                ps,
            ).contains(normalized(trimmed(ps[i]))),
        forall|k: int|
            0 <= k < cleaned_excludes(ps).len() ==> exists|i: int|
                0 <= i < ps.len() && trimmed(#[trigger] ps[i]).len() > 0
                    && #[trigger] cleaned_excludes(ps)[k] == normalized(trimmed(ps[i])),
        cleaned_excludes(ps).no_duplicates(),
    decreases ps.len(),
{
    if ps.len() > 0 {
        let t = ps.drop_last();
        excluded_paths_are_stored(t);
        let before = cleaned_excludes(t);
        let now = cleaned_excludes(ps);
        assert forall|i: int| 0 <= i < ps.len() && trimmed(#[trigger] ps[i]).len()
            > 0 implies now.contains(normalized(trimmed(ps[i]))) by {
            let n = normalized(trimmed(ps[i]));
            if before.contains(n) {
                let k = choose|k: int| 0 <= k < before.len() && before[k] == n;
                assert(now[k] == n);
            } else {
                if i < t.len() {
                    assert(t[i] == ps[i]);
                }
                assert(now[before.len() as int] == n);
            }
        }
        assert forall|k: int| 0 <= k < now.len() implies exists|i: int|
            0 <= i < ps.len() && trimmed(#[trigger] ps[i]).len() > 0 && #[trigger] now[k]
                == normalized(trimmed(ps[i])) by {
            if k < before.len() {
                assert(now[k] == before[k]);
                let i = choose|i: int|
                    0 <= i < t.len() && trimmed(#[trigger] t[i]).len() > 0 && before[k]
                        == normalized(trimmed(t[i]));
                assert(ps[i] == t[i]);
            } else {
                assert(ps[ps.len() - 1] == ps.last());
            }
        }
    }
}

/// Whether a source is stored for another; its destinations and excluded paths aside.
pub open spec fn stored_for(stored: SourceGroupConfigModel, given: SourceGroupConfigModel) -> bool {
    &&& stored.id == given.id
    &&& refers_alike(stored.machine_id, given.machine_id)
    &&& stored.src == trimmed(given.src)
    &&& stored.add_directory == given.add_directory
    &&& stored.managed_by == given.managed_by
    &&& stored.enabled == given.enabled
    &&& stored.order == given.order
    &&& stored.mode == given.mode
    &&& stored.snapshot == given.snapshot
    &&& stored.destinations == cleaned_destinations(given.destinations)
    &&& stored.excludes == cleaned_excludes(given.excludes)
}

/// Whether a source is stored for one of those with a path.
pub open spec fn is_configured(
    ss: Seq<SourceGroupConfigModel>,
    stored: SourceGroupConfigModel,
) -> bool {
    exists|i: int|
        0 <= i < ss.len() && trimmed((#[trigger] ss[i]).src).len() > 0 && stored_for(stored, ss[i])
}

/// The sources that are stored are the configured ones with a path.
pub proof fn sources_are_stored(ss: Seq<SourceGroupConfigModel>)
    ensures
        forall|i: int|
            0 <= i < ss.len() && trimmed((#[trigger] ss[i]).src).len() > 0 ==> exists|k: int|
                0 <= k < cleaned_sources(ss).len() && stored_for(
                    #[trigger] cleaned_sources(ss)[k],
                    ss[i],
                ),
        forall|k: int|
            0 <= k < cleaned_sources(ss).len() ==> is_configured(
                ss,
                #[trigger] cleaned_sources(ss)[k],
            ),
{
    let mapped = ss.map_values(source_cleaner());
    let now = cleaned_sources(ss);
    assert forall|i: int| 0 <= i < ss.len() && trimmed((#[trigger] ss[i]).src).len()
        > 0 implies exists|k: int| 0 <= k < now.len() && stored_for(#[trigger] now[k], ss[i]) by {
        assert(mapped[i] == cleaned_source(ss[i]));
        mapped.lemma_filter_contains(has_src(), i);
        let k = choose|k: int| 0 <= k < now.len() && now[k] == mapped[i];
        assert(stored_for(now[k], ss[i]));
    }
    assert forall|k: int| 0 <= k < now.len() implies is_configured(ss, #[trigger] now[k]) by {
        mapped.lemma_filter_pred(has_src(), k);
        mapped.lemma_filter_contains_rev(has_src(), now[k]);
        let i = choose|i: int| 0 <= i < mapped.len() && mapped[i] == now[k];
        assert(now[k] == cleaned_source(ss[i]));
        assert(stored_for(now[k], ss[i]));
    }
}

/// Whether a machine entry is used for another one: what is set stays, what is missing is filled in
/// with the usual ports, the identifier for a name and the address of this machine.
pub open spec fn used_for(used: MachineConfigModel, given: MachineConfigModel, env: LocalEnvModel) -> bool {
    &&& used.id == id_of(given.id)
    &&& used.alias_name == id_of(given.alias_name)
    &&& trimmed(given.name).len() > 0 ==> used.name == trimmed(given.name)
    &&& trimmed(given.name).len() == 0 ==> used.name == used.id
    &&& trimmed(given.host).len() > 0 ==> used.host == trimmed(given.host)
    &&& trimmed(given.host).len() == 0 ==> used.host == env.host
    &&& given.port != 0 ==> used.port == given.port
    &&& given.port == 0 ==> used.port == 18765
    &&& used.ssh_user == trimmed(given.ssh_user)
    &&& given.ssh_port != 0 ==> used.ssh_port == given.ssh_port
    &&& given.ssh_port == 0 ==> used.ssh_port == 22
    &&& used.os == trimmed(given.os)
    &&& given.install_dir.len() > 0 ==> used.install_dir == given.install_dir
    &&& used.enabled == given.enabled
    &&& used.manual == given.manual
}

/// Every entry of another machine that is the first with its identifier is used, with what is set in
/// it.
pub proof fn entries_are_used_as_they_are_set(
    ms: Seq<MachineConfigModel>,
    env: LocalEnvModel,
    i: int,
)
    requires
        env.host.len() > 0,
        0 <= i < ms.len(),
        id_of(ms[i].id).len() > 0,
        id_of(ms[i].id) != "local"@,
        forall|j: int| 0 <= j < i ==> id_of((#[trigger] ms[j]).id) != id_of(ms[i].id),
    ensures
        exists|k: int|
            1 <= k < cleaned_machines(ms, env).len() && used_for(
                #[trigger] cleaned_machines(ms, env)[k],
                ms[i],
                env,
            ),
{
    let r = cleaned_machines(ms, env);
    machines_are_first_entries(ms, env);
    assert(has_id(r, id_of(ms[i].id)));
    let k = choose|k: int| 0 <= k < r.len() && (#[trigger] r[k]).id == id_of(ms[i].id);
    assert(k != 0);
    let f = index_with_id(ms, r[k].id);
    lemma_index_with_id(ms, r[k].id);
    assert(f == i) by {
        if f < i {
            assert(id_of(ms[f].id) != id_of(ms[i].id));
        }
    }
    assert(used_for(r[k], ms[i], env));
}

/// The entry of this machine comes first and keeps the ports, the user, the system, the directory
/// and the alias that are set in its first entry, and its address where others can reach it.
pub proof fn this_machine_is_used_as_it_is_set(
    ms: Seq<MachineConfigModel>,
    env: LocalEnvModel,
    i: int,
)
    requires
        env.host.len() > 0,
        0 <= i < ms.len(),
        id_of(ms[i].id) == "local"@,
        forall|j: int| 0 <= j < i ==> id_of((#[trigger] ms[j]).id) != "local"@,
    ensures
        ({
            let r = cleaned_machines(ms, env);
            &&& r.len() >= 1
            &&& r[0].id == "local"@
            &&& r[0].alias_name == id_of(ms[i].alias_name)
            &&& ms[i].port != 0 ==> r[0].port == ms[i].port
            &&& ms[i].ssh_port != 0 ==> r[0].ssh_port == ms[i].ssh_port
            &&& trimmed(ms[i].ssh_user).len() > 0 ==> r[0].ssh_user == trimmed(ms[i].ssh_user)
            &&& trimmed(ms[i].os).len() > 0 ==> r[0].os == trimmed(ms[i].os)
            &&& ms[i].install_dir.len() > 0 ==> r[0].install_dir == ms[i].install_dir
            &&& advertisable(ms[i].host) && trimmed(ms[i].host).len() > 0 ==> r[0].host == trimmed(
                ms[i].host,
            )
        }),
{
    machines_are_first_entries(ms, env);
    lemma_index_with_id(ms, "local"@);
    let f = index_with_id(ms, "local"@);
    assert(f == i) by {
        if f < i {
            assert(id_of(ms[f].id) != "local"@);
        }
    }
    crate::text::trimming_is_idempotent(ms[i].host);
    crate::text::trimming_is_idempotent(ms[i].ssh_user);
    crate::text::trimming_is_idempotent(ms[i].os);
    crate::config::identity::id_of_id(ms[i].alias_name);
}

/// Cleaning keeps the settings that do not concern machines and sources; a missing port becomes the
/// usual one.
pub proof fn settings_are_stored(cfg: AppConfigModel, env: LocalEnvModel)
    ensures
        ({
            let r = cleaned_config(cfg, env);
            &&& cfg.app.port != 0 ==> r.app.port == cfg.app.port
            &&& cfg.app.port == 0 ==> r.app.port == 18765
            &&& same_transfers(r.app.sync, cfg.app.sync)
            &&& r.app == (crate::config::types::AppSectionModel {
                port: r.app.port,
                sync: r.app.sync,
                ..cfg.app
            })
            &&& r == (AppConfigModel {
                app: r.app,
                machines: r.machines,
                source_groups: r.source_groups,
                ..cfg
            })
            &&& r.source_groups == cleaned_sources(cfg.source_groups)
        }),
{
}

/// A target of an older configuration becomes an entry where there is none with its identifier, and
/// otherwise fills what is missing in the first such entry; all other entries stay as they are.
pub proof fn targets_become_machines(ms: Seq<MachineConfigModel>, t: DeployTargetModel, i: int)
    requires
        id_of(t.id).len() > 0,
        0 <= i <= ms.len(),
        forall|j: int| 0 <= j < i ==> id_of((#[trigger] ms[j]).id) != id_of(t.id),
        i < ms.len() ==> id_of(ms[i].id) == id_of(t.id),
    ensures
        ({
            let r = with_target(ms, t);
            &&& r.len() == (if i < ms.len() {
                ms.len()
            } else {
                ms.len() + 1
            })
            &&& forall|j: int| 0 <= j < ms.len() && j != i ==> #[trigger] r[j] == ms[j]
            &&& i == ms.len() ==> {
                &&& r[i].id == id_of(t.id)
                &&& r[i].host == trimmed(t.host)
                &&& r[i].ssh_user == trimmed(t.user)
                &&& t.port != 0 ==> r[i].ssh_port == t.port
                &&& t.port == 0 ==> r[i].ssh_port == 22
                &&& r[i].install_dir == t.install_dir
                &&& r[i].enabled
                &&& r[i].manual
            }
            &&& i < ms.len() ==> {
                &&& r[i].id == ms[i].id
                &&& r[i].alias_name == ms[i].alias_name
                &&& r[i].name == ms[i].name
                &&& r[i].port == ms[i].port
                &&& r[i].enabled == ms[i].enabled
                &&& trimmed(ms[i].host).len() > 0 ==> r[i].host == ms[i].host
                &&& trimmed(ms[i].host).len() == 0 ==> r[i].host == trimmed(t.host)
                &&& trimmed(ms[i].ssh_user).len() > 0 ==> r[i].ssh_user == ms[i].ssh_user
                &&& trimmed(ms[i].ssh_user).len() == 0 ==> r[i].ssh_user == trimmed(t.user)
                &&& ms[i].ssh_port != 0 && ms[i].ssh_port != 22 ==> r[i].ssh_port == ms[i].ssh_port
                &&& ms[i].ssh_port == 0 || ms[i].ssh_port == 22 ==> r[i].ssh_port == t.port
                &&& ms[i].install_dir.len() > 0 ==> r[i].install_dir == ms[i].install_dir
                &&& ms[i].install_dir.len() == 0 ==> r[i].install_dir == t.install_dir
            }
        }),
{
    let id = id_of(t.id);
    lemma_index_with_id(ms, id);
    let k = index_with_id(ms, id);
    assert(k == i) by {
        if k < i {
            assert(id_of(ms[k].id) != id);
        }
    }
}

} // verus!
