//! What a configuration that passes is like, and that every such configuration passes.

use crate::config::clean::cleaned_machines;
use crate::config::identity::id_of;
use crate::config::schedule_time::time_of_day;
use crate::config::types::{
    AppConfigModel, LocalEnvModel, MachineConfigModel, ScheduleMode, SourceGroupConfigModel,
};
use crate::config::validate::{
    config_fault, destination_fault, destinations_fault_from, exclude_fault, excludes_fault_from,
    is_meant, kind_at, known_machine, machine_fault_from, repeats_id, source_fault,
    sources_fault_from,
};
use crate::paths::{components, strictly_under};
use crate::text::{lowered, trimmed};
use vstd::prelude::*;

verus! {

/// Whether a reference names one of the machines, by its identifier, its alias or its address, or is
/// blank and this machine is among them; the case of letters does not matter.
pub open spec fn is_known(ms: Seq<MachineConfigModel>, reference: Seq<char>) -> bool {
    let t = trimmed(reference);
    let wanted = if t.len() == 0 {
        lowered("local"@)
    } else {
        lowered(t)
    };
    exists|i: int|
        0 <= i < ms.len() && {
            let m = #[trigger] ms[i];
            ||| trimmed(m.id).len() > 0 && lowered(trimmed(m.id)) == wanted
            ||| trimmed(m.alias_name).len() > 0 && lowered(trimmed(m.alias_name)) == wanted
            ||| trimmed(m.host).len() > 0 && lowered(trimmed(m.host)) == wanted
        }
}

/// Whether a path is known to be a directory, or known to be something else.
pub open spec fn is_kind(kinds: Seq<(Seq<char>, bool)>, path: Seq<char>, directory: bool) -> bool {
    exists|i: int|
        0 <= i < kinds.len() && (#[trigger] kinds[i]).0 == path && kinds[i].1 == directory
            && forall|j: int| 0 <= j < i ==> (#[trigger] kinds[j]).0 != path
}

/// Whether a destination of a source is sound: it has an identifier that no earlier one has, a path,
/// a machine that is known and a schedule with a time that can be read; it is no file where the
/// source is a directory, and does not lie inside the source.
pub open spec fn sound_destination(
    s: SourceGroupConfigModel,
    k: int,
    ms: Seq<MachineConfigModel>,
    kinds: Seq<(Seq<char>, bool)>,
) -> bool {
    let d = s.destinations[k];
    &&& trimmed(d.id).len() > 0
    &&& forall|j: int| 0 <= j < k ==> (#[trigger] s.destinations[j]).id != d.id
    &&& d.path.len() > 0
    &&& is_known(ms, d.machine_id)
    &&& d.schedule.mode == ScheduleMode::Realtime || time_of_day(d.schedule.time) is Ok
    &&& !(is_kind(kinds, s.src, true) && is_kind(kinds, d.path, false))
    &&& !strictly_under(d.path, s.src)
}

/// Whether a source is sound: it has an identifier that no earlier one has, a path, a machine that
/// is known, a prefix and an interval for its snapshots, excluded paths that are relative and do not
/// lead upwards, and sound destinations.
pub open spec fn sound_source(
    ss: Seq<SourceGroupConfigModel>,
    i: int,
    ms: Seq<MachineConfigModel>,
    kinds: Seq<(Seq<char>, bool)>,
) -> bool {
    let s = ss[i];
    &&& trimmed(s.id).len() > 0
    &&& forall|j: int| 0 <= j < i ==> (#[trigger] ss[j]).id != s.id
    &&& s.src.len() > 0
    &&& is_known(ms, s.machine_id)
    &&& trimmed(s.snapshot.prefix).len() > 0
    &&& s.snapshot.reconcile_interval_secs != 0
    &&& forall|e: int|
        0 <= e < s.excludes.len() ==> (#[trigger] s.excludes[e]).len() > 0 && s.excludes[e][0] != '/'
            && !components(s.excludes[e]).contains(".."@)
    &&& forall|k: int|
        0 <= k < s.destinations.len() ==> #[trigger] sound_destination(s, k, ms, kinds)
}

/// Whether a configuration is sound: no two machines have the same identifier, and its sources are
/// sound.
pub open spec fn sound_config(
    cfg: AppConfigModel,
    env: LocalEnvModel,
    kinds: Seq<(Seq<char>, bool)>,
) -> bool {
    &&& forall|i: int, j: int|
        0 <= j < i < cfg.machines.len() && id_of((#[trigger] cfg.machines[i]).id).len() > 0
            ==> id_of((#[trigger] cfg.machines[j]).id) != id_of(cfg.machines[i].id)
    &&& forall|i: int|
        0 <= i < cfg.source_groups.len() ==> #[trigger] sound_source(
            cfg.source_groups,
            i,
            cleaned_machines(cfg.machines, env),
            kinds,
        )
}

/// A configuration passes exactly when it is sound.
pub proof fn sound_configurations_pass_and_no_others(
    cfg: AppConfigModel,
    env: LocalEnvModel,
    kinds: Seq<(Seq<char>, bool)>,
)
    ensures
        (config_fault(cfg, env, kinds) is None) == sound_config(cfg, env, kinds),
{
    let ms = cleaned_machines(cfg.machines, env);
    lemma_machines(cfg.machines, 0);
    lemma_sources(cfg.source_groups, 0, ms, kinds);
    if config_fault(cfg, env, kinds) is None {
        assert forall|i: int, j: int|
            0 <= j < i < cfg.machines.len() && id_of((#[trigger] cfg.machines[i]).id).len()
                > 0 implies id_of((#[trigger] cfg.machines[j]).id) != id_of(cfg.machines[i].id) by {
            assert(!(id_of(cfg.machines[i].id).len() > 0 && repeats_id(cfg.machines, i)));
        }
    }
    if sound_config(cfg, env, kinds) {
        assert forall|i: int| 0 <= i < cfg.machines.len() implies !(id_of(
            (#[trigger] cfg.machines[i]).id,
        ).len() > 0 && repeats_id(cfg.machines, i)) by {}
    }
}

proof fn lemma_machines(ms: Seq<MachineConfigModel>, from: int)
    requires
        0 <= from,
    ensures
        machine_fault_from(ms, from) is None == forall|i: int|
            from <= i < ms.len() ==> !(id_of((#[trigger] ms[i]).id).len() > 0 && repeats_id(ms, i)),
    decreases ms.len() - from,
{
    if from < ms.len() {
        lemma_machines(ms, from + 1);
        assert(ms[from].id == ms[from].id);
    }
}

proof fn lemma_known(ms: Seq<MachineConfigModel>, value: Seq<char>)
    ensures
        known_machine(ms, value) == is_known(ms, value),
{
    let t = trimmed(value);
    let wanted = if t.len() == 0 {
        lowered("local"@)
    } else {
        lowered(t)
    };
    if known_machine(ms, value) {
        let i = choose|i: int| 0 <= i < ms.len() && is_meant(#[trigger] ms[i], wanted);
        assert(is_meant(ms[i], wanted));
    }
    if is_known(ms, value) {
        let i = choose|i: int|
            0 <= i < ms.len() && {
                let m = #[trigger] ms[i];
                ||| trimmed(m.id).len() > 0 && lowered(trimmed(m.id)) == wanted
                ||| trimmed(m.alias_name).len() > 0 && lowered(trimmed(m.alias_name)) == wanted
                ||| trimmed(m.host).len() > 0 && lowered(trimmed(m.host)) == wanted
            };
        assert(is_meant(ms[i], wanted));
    }
}

proof fn lemma_kind(kinds: Seq<(Seq<char>, bool)>, path: Seq<char>, directory: bool)
    ensures
        (kind_at(kinds, path) == Some(directory)) == is_kind(kinds, path, directory),
    decreases kinds.len(),
{
    if kinds.len() > 0 {
        let rest = kinds.drop_first();
        lemma_kind(rest, path, directory);
        if kinds[0].0 == path {
            if kinds[0].1 == directory {
                assert(kinds[0].0 == path);
            }
            if is_kind(kinds, path, directory) {
                let i = choose|i: int|
                    0 <= i < kinds.len() && (#[trigger] kinds[i]).0 == path && kinds[i].1
                        == directory && forall|j: int| 0 <= j < i ==> (#[trigger] kinds[j]).0
                        != path;
                if i > 0 {
                    assert(kinds[0].0 != path);
                }
            }
        } else {
            if is_kind(rest, path, directory) {
                let i = choose|i: int|
                    0 <= i < rest.len() && (#[trigger] rest[i]).0 == path && rest[i].1 == directory
                        && forall|j: int| 0 <= j < i ==> (#[trigger] rest[j]).0 != path;
                assert(kinds[i + 1] == rest[i]);
                assert forall|j: int| 0 <= j < i + 1 implies (#[trigger] kinds[j]).0 != path by {
                    if j > 0 {
                        assert(kinds[j] == rest[j - 1]);
                    }
                }
            }
            if is_kind(kinds, path, directory) {
                let i = choose|i: int|
                    0 <= i < kinds.len() && (#[trigger] kinds[i]).0 == path && kinds[i].1
                        == directory && forall|j: int| 0 <= j < i ==> (#[trigger] kinds[j]).0
                        != path;
                assert(rest[i - 1] == kinds[i]);
                assert forall|j: int| 0 <= j < i - 1 implies (#[trigger] rest[j]).0 != path by {
                    assert(rest[j] == kinds[j + 1]);
                }
            }
        }
    }
}

proof fn lemma_destination(
    s: SourceGroupConfigModel,
    k: int,
    ms: Seq<MachineConfigModel>,
    kinds: Seq<(Seq<char>, bool)>,
)
    requires
        0 <= k < s.destinations.len(),
    ensures
        destination_fault(s, k, ms, kinds) is None == sound_destination(s, k, ms, kinds),
{
    let d = s.destinations[k];
    lemma_known(ms, d.machine_id);
    lemma_kind(kinds, s.src, true);
    lemma_kind(kinds, d.path, false);
    assert((exists|j: int| 0 <= j < k && (#[trigger] s.destinations[j]).id == d.id) == !(forall|
        j: int,
    |
        0 <= j < k ==> (#[trigger] s.destinations[j]).id != d.id));
}

proof fn lemma_destinations(
    s: SourceGroupConfigModel,
    from: int,
    ms: Seq<MachineConfigModel>,
    kinds: Seq<(Seq<char>, bool)>,
)
    requires
        0 <= from,
    ensures
        destinations_fault_from(s, from, ms, kinds) is None == forall|k: int|
            from <= k < s.destinations.len() ==> #[trigger] sound_destination(s, k, ms, kinds),
    decreases s.destinations.len() - from,
{
    if from < s.destinations.len() {
        lemma_destinations(s, from + 1, ms, kinds);
        lemma_destination(s, from, ms, kinds);
        if destinations_fault_from(s, from, ms, kinds) is None {
            assert forall|k: int| from <= k < s.destinations.len() implies #[trigger] sound_destination(
                s,
                k,
                ms,
                kinds,
            ) by {}
        }
    }
}

proof fn lemma_excludes(source_id: Seq<char>, paths: Seq<Seq<char>>, from: int)
    requires
        0 <= from,
    ensures
        excludes_fault_from(source_id, paths, from) is None == forall|e: int|
            from <= e < paths.len() ==> (#[trigger] paths[e]).len() > 0 && paths[e][0] != '/'
                && !components(paths[e]).contains(".."@),
    decreases paths.len() - from,
{
    if from < paths.len() {
        lemma_excludes(source_id, paths, from + 1);
        let p = paths[from];
        assert(exclude_fault(source_id, p) is None == (p.len() > 0 && p[0] != '/' && !components(
            p,
        ).contains(".."@)));
    }
}

proof fn lemma_source(
    ss: Seq<SourceGroupConfigModel>,
    i: int,
    ms: Seq<MachineConfigModel>,
    kinds: Seq<(Seq<char>, bool)>,
)
    requires
        0 <= i < ss.len(),
    ensures
        source_fault(ss, i, ms, kinds) is None == sound_source(ss, i, ms, kinds),
{
    let s = ss[i];
    lemma_known(ms, s.machine_id);
    lemma_excludes(s.id, s.excludes, 0);
    lemma_destinations(s, 0, ms, kinds);
    assert((exists|j: int| 0 <= j < i && (#[trigger] ss[j]).id == s.id) == !(forall|j: int|
        0 <= j < i ==> (#[trigger] ss[j]).id != s.id));
}

proof fn lemma_sources(
    ss: Seq<SourceGroupConfigModel>,
    from: int,
    ms: Seq<MachineConfigModel>,
    kinds: Seq<(Seq<char>, bool)>,
)
    requires
        0 <= from,
    ensures
        sources_fault_from(ss, from, ms, kinds) is None == forall|i: int|
            from <= i < ss.len() ==> #[trigger] sound_source(ss, i, ms, kinds),
    decreases ss.len() - from,
{
    if from < ss.len() {
        lemma_sources(ss, from + 1, ms, kinds);
        lemma_source(ss, from, ms, kinds);
        if sources_fault_from(ss, from, ms, kinds) is None {
            assert forall|i: int| from <= i < ss.len() implies #[trigger] sound_source(
                ss,
                i,
                ms,
                kinds,
            ) by {}
        }
    }
}

} // verus!
