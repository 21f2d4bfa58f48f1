//! Which machine entries mean the machine that this process runs on, and what is odd about a
//! configuration without being wrong.

use crate::config::clean::{cleaned_machines, normalized_machines};
use crate::config::identity::{
    display_name, machine_display_name, machine_id_or_local, machine_matches_reference,
    matches_reference, reference_of,
};
use crate::config::types::{
    AppConfig, AppConfigModel, LocalEnv, LocalEnvModel, MachineConfig, MachineConfigModel,
};
use crate::seqs::{lemma_filter_map_holds, lemma_two_pass};
use crate::sorted::{sort_set, sorted_set, sorted_set_is_sorted_and_complete};
use crate::text::{
    eq_ignore_ascii_case, is_blank, join, joined, lowered, same, same_ignoring_case,
    to_ascii_lowercase, trim, trimmed, views,
};
use vstd::prelude::*;

verus! {

/// Whether an entry is that of this machine and is meant by the reference.
pub open spec fn is_local_entry(m: MachineConfigModel, value: Seq<char>) -> bool {
    m.id == "local"@ && matches_reference(m, value)
}

/// Whether a reference means this machine: it is `local`, it is the name of this host, or it means
/// the entry of this machine.
pub open spec fn refers_here(cfg: AppConfigModel, value: Seq<char>, env: LocalEnvModel) -> bool {
    let v = reference_of(value);
    let ms = cleaned_machines(cfg.machines, env);
    ||| same_ignoring_case(v, "local"@)
    ||| same_ignoring_case(v, trimmed(env.hostname))
    ||| exists|i: int| 0 <= i < ms.len() && is_local_entry(#[trigger] ms[i], v)
}

/// Whether a reference means this machine.
pub fn machine_is_local(cfg: &AppConfig, machine_id: &str, env: &LocalEnv) -> (r: bool)
    ensures
        r == refers_here(cfg@, machine_id@, env@),
{
    let v = machine_id_or_local(machine_id);
    let v = v.as_str();
    if eq_ignore_ascii_case(v, "local") {
        return true;
    }
    if eq_ignore_ascii_case(v, trim(env.hostname.as_str()).as_str()) {
        return true;
    }
    let machines = normalized_machines(cfg, env);
    let ghost ms = views(machines@);
    for i in 0..machines.len()
        invariant
            ms == views(machines@),
            ms == cleaned_machines(cfg@.machines, env@),
            forall|j: int| 0 <= j < i ==> !is_local_entry(#[trigger] ms[j], v@),
            v@ == reference_of(machine_id@),
    {
        proof {
            assert(ms[i as int] == machines@[i as int]@);
        }
        if same(machines[i].id.as_str(), "local") && machine_matches_reference(&machines[i], v) {
            return true;
        }
    }
    false
}

/// Whether an address is one of this machine.
pub open spec fn host_is_here(host: Seq<char>, env: LocalEnvModel) -> bool {
    let h = trimmed(host);
    h.len() > 0 && (same_ignoring_case(h, "127.0.0.1"@) || same_ignoring_case(h, "::1"@)
        || same_ignoring_case(h, "localhost"@) || same_ignoring_case(h, trimmed(env.host))
        || same_ignoring_case(h, trimmed(env.hostname)))
}

/// Whether a text that may be blank refers to this machine.
pub open spec fn names_here(cfg: AppConfigModel, value: Seq<char>, env: LocalEnvModel) -> bool {
    trimmed(value).len() > 0 && refers_here(cfg, value, env)
}

/// Whether an entry is one of this machine: by its id, its alias, or its address.
pub open spec fn is_self(
    cfg: AppConfigModel,
    m: MachineConfigModel,
    env: LocalEnvModel,
) -> bool {
    ||| m.id == "local"@
    ||| names_here(cfg, m.id, env)
    ||| names_here(cfg, m.alias_name, env)
    ||| host_is_here(m.host, env)
}

/// Whether an entry is one of this machine.
pub fn machine_is_self(cfg: &AppConfig, machine: &MachineConfig, env: &LocalEnv) -> (r: bool)
    ensures
        r == is_self(cfg@, machine@, env@),
{
    if same(machine.id.as_str(), "local") {
        return true;
    }
    if !is_blank(trim(machine.id.as_str()).as_str()) && machine_is_local(
        cfg,
        machine.id.as_str(),
        env,
    ) {
        return true;
    }
    if !is_blank(trim(machine.alias_name.as_str()).as_str()) && machine_is_local(
        cfg,
        machine.alias_name.as_str(),
        env,
    ) {
        return true;
    }
    let host = trim(machine.host.as_str());
    let h = host.as_str();
    !is_blank(h) && (eq_ignore_ascii_case(h, "127.0.0.1") || eq_ignore_ascii_case(h, "::1")
        || eq_ignore_ascii_case(h, "localhost") || eq_ignore_ascii_case(
        h,
        trim(env.host.as_str()).as_str(),
    ) || eq_ignore_ascii_case(h, trim(env.hostname.as_str()).as_str()))
}

/// The address of an entry as it is compared.
pub open spec fn host_key(m: MachineConfigModel) -> Seq<char> {
    lowered(trimmed(m.host))
}

/// `host_key` as a function.
pub open spec fn to_host_key() -> spec_fn(MachineConfigModel) -> Seq<char> {
    |m: MachineConfigModel| host_key(m)
}

/// `display_name` as a function.
pub open spec fn to_display_name() -> spec_fn(MachineConfigModel) -> Seq<char> {
    |m: MachineConfigModel| display_name(m)
}

/// The test for entries at an address.
pub open spec fn at_host(host: Seq<char>) -> spec_fn(MachineConfigModel) -> bool {
    |m: MachineConfigModel| host_key(m) == host
}

/// The test for texts that are not empty.
pub open spec fn not_empty() -> spec_fn(Seq<char>) -> bool {
    |s: Seq<char>| s.len() > 0
}

/// The test for entries of this machine.
pub open spec fn self_test(cfg: AppConfigModel, env: LocalEnvModel) -> spec_fn(
    MachineConfigModel,
) -> bool {
    |m: MachineConfigModel| is_self(cfg, m, env)
}

/// The addresses of the entries, sorted and without repeats.
pub open spec fn all_hosts(ms: Seq<MachineConfigModel>) -> Seq<Seq<char>> {
    sorted_set(ms.map_values(to_host_key()).filter(not_empty()))
}

/// The names of the entries at an address, sorted and without repeats.
pub open spec fn names_at(ms: Seq<MachineConfigModel>, host: Seq<char>) -> Seq<Seq<char>> {
    sorted_set(ms.filter(at_host(host)).map_values(to_display_name()))
}

/// The warning about an address that several differently named entries share.
pub open spec fn shared_host_warning(ms: Seq<MachineConfigModel>, host: Seq<char>) -> Option<
    Seq<char>,
> {
    let names = names_at(ms, host);
    if names.len() > 1 {
        Some("multiple machines share host "@ + host + ": "@ + joined(names, ", "@))
    } else {
        None
    }
}

/// `shared_host_warning` as a function.
pub open spec fn to_host_warning(ms: Seq<MachineConfigModel>) -> spec_fn(Seq<char>) -> Option<
    Seq<char>,
> {
    |h: Seq<char>| shared_host_warning(ms, h)
}

/// The names of the entries that mean this machine.
pub open spec fn self_names(cfg: AppConfigModel, env: LocalEnvModel) -> Seq<Seq<char>> {
    cfg.machines.filter(self_test(cfg, env)).map_values(to_display_name())
}

/// The warnings about a configuration: shared addresses in the order of the addresses, then
/// several entries for this machine.
pub open spec fn warnings_of(cfg: AppConfigModel, env: LocalEnvModel) -> Seq<Seq<char>> {
    let shared = all_hosts(cfg.machines).filter_map(to_host_warning(cfg.machines));
    if self_names(cfg, env).len() > 1 {
        shared.push(
            "multiple machine entries refer to this machine: "@ + joined(
                self_names(cfg, env),
                ", "@,
            ),
        )
    } else {
        shared
    }
}

/// The addresses of the entries, sorted and without repeats.
fn hosts_of(machines: &Vec<MachineConfig>) -> (out: Vec<String>)
    ensures
        views(out@) == all_hosts(views(machines@)),
{
    let ghost keys = views(machines@).map_values(to_host_key());
    let mut list: Vec<String> = Vec::new();
    proof {
        assert(views(list@) =~= keys.take(0).filter(not_empty()));
    }
    for i in 0..machines.len()
        invariant
            keys == views(machines@).map_values(to_host_key()),
            views(list@) == keys.take(i as int).filter(not_empty()),
    {
        let key = to_ascii_lowercase(trim(machines[i].host.as_str()).as_str());
        let ghost was = views(list@);
        let ghost kv = key@;
        proof {
            assert(keys[i as int] == kv);
            assert(keys.take(i + 1) =~= keys.take(i as int).push(kv));
            keys.take(i as int).lemma_filter_push(kv, not_empty());
        }
        if !is_blank(key.as_str()) {
            list.push(key);
            proof {
                assert(views(list@) =~= was.push(kv));
            }
        }
    }
    proof {
        assert(keys.take(keys.len() as int) =~= keys);
    }
    sort_set(&list)
}

/// The names of the entries at an address, sorted and without repeats.
fn names_at_host(machines: &Vec<MachineConfig>, host: &str) -> (out: Vec<String>)
    ensures
        views(out@) == names_at(views(machines@), host@),
{
    let ghost ms = views(machines@);
    let ghost f = at_host(host@);
    let ghost g = to_display_name();
    let mut list: Vec<String> = Vec::new();
    proof {
        assert(views(list@) =~= ms.take(0).filter(f).map_values(g));
    }
    for i in 0..machines.len()
        invariant
            ms == views(machines@),
            f == at_host(host@),
            g == to_display_name(),
            views(list@) == ms.take(i as int).filter(f).map_values(g),
    {
        let ghost was = views(list@);
        proof {
            assert(ms[i as int] == machines@[i as int]@);
            assert(ms.take(i + 1) =~= ms.take(i as int).push(ms[i as int]));
            ms.take(i as int).lemma_filter_push(ms[i as int], f);
        }
        let key = to_ascii_lowercase(trim(machines[i].host.as_str()).as_str());
        if same(key.as_str(), host) {
            list.push(machine_display_name(&machines[i]));
            proof {
                assert(views(list@) =~= was.push(display_name(ms[i as int])));
                assert(ms.take(i + 1).filter(f).map_values(g) =~= was.push(
                    display_name(ms[i as int]),
                ));
            }
        }
    }
    proof {
        assert(ms.take(ms.len() as int) =~= ms);
    }
    sort_set(&list)
}

/// The names of the entries that mean this machine.
fn names_of_self(cfg: &AppConfig, env: &LocalEnv) -> (list: Vec<String>)
    ensures
        views(list@) == self_names(cfg@, env@),
{
    let ghost ms = cfg@.machines;
    let ghost f = self_test(cfg@, env@);
    let ghost g = to_display_name();
    let mut list: Vec<String> = Vec::new();
    proof {
        assert(views(list@) =~= ms.take(0).filter(f).map_values(g));
    }
    for i in 0..cfg.machines.len()
        invariant
            ms == cfg@.machines,
            ms == views(cfg.machines@),
            f == self_test(cfg@, env@),
            g == to_display_name(),
            views(list@) == ms.take(i as int).filter(f).map_values(g),
    {
        let ghost was = views(list@);
        proof {
            assert(ms[i as int] == cfg.machines@[i as int]@);
            assert(ms.take(i + 1) =~= ms.take(i as int).push(ms[i as int]));
            ms.take(i as int).lemma_filter_push(ms[i as int], f);
        }
        if machine_is_self(cfg, &cfg.machines[i], env) {
            list.push(machine_display_name(&cfg.machines[i]));
            proof {
                assert(views(list@) =~= was.push(display_name(ms[i as int])));
                assert(ms.take(i + 1).filter(f).map_values(g) =~= was.push(
                    display_name(ms[i as int]),
                ));
            }
        }
    }
    proof {
        assert(ms.take(ms.len() as int) =~= ms);
    }
    list
}

/// What is odd about a configuration without being wrong.
pub fn config_warnings(cfg: &AppConfig, env: &LocalEnv) -> (out: Vec<String>)
    ensures
        views(out@) == warnings_of(cfg@, env@),
{
    let hosts = hosts_of(&cfg.machines);
    let ghost hs = views(hosts@);
    let ghost w = to_host_warning(cfg@.machines);
    let mut out: Vec<String> = Vec::new();
    proof {
        assert(hs.take(0) =~= Seq::empty());
        assert(views(out@) =~= hs.take(0).filter_map(w));
    }
    for i in 0..hosts.len()
        invariant
            hs == views(hosts@),
            w == to_host_warning(cfg@.machines),
            views(out@) == hs.take(i as int).filter_map(w),
    {
        let ghost was = views(out@);
        let names = names_at_host(&cfg.machines, hosts[i].as_str());
        proof {
            assert(hs[i as int] == hosts@[i as int]@);
            hs.lemma_filter_map_take_succ(w, i as int);
        }
        if names.len() > 1 {
            let mut text = "multiple machines share host ".to_string();
            text.append(hosts[i].as_str());
            text.append(": ");
            text.append(join(&names, ", ").as_str());
            let ghost tv = text@;
            out.push(text);
            proof {
                assert(w(hs[i as int]) == Some(tv));
                assert(views(out@) =~= was.push(tv));
                assert(hs.take(i + 1).filter_map(w) =~= was.push(tv));
            }
        } else {
            proof {
                assert(hs.take(i + 1).filter_map(w) =~= was);
            }
        }
    }
    proof {
        assert(hs.take(hs.len() as int) =~= hs);
    }
    let selves = names_of_self(cfg, env);
    if selves.len() > 1 {
        let ghost was = views(out@);
        let mut text = "multiple machine entries refer to this machine: ".to_string();
        text.append(join(&selves, ", ").as_str());
        let ghost tv = text@;
        out.push(text);
        proof {
            assert(views(out@) =~= was.push(tv));
        }
    }
    out
}

/// Whether a text is a name of this machine: `local`, the name of the host, or the alias or the
/// address of the entry of this machine, whatever the case of letters.
pub open spec fn is_own_name(cfg: AppConfigModel, name: Seq<char>, env: LocalEnvModel) -> bool {
    let t = lowered(trimmed(name));
    let ms = cleaned_machines(cfg.machines, env);
    t.len() > 0 && {
        ||| t == lowered("local"@)
        ||| t == lowered(trimmed(env.hostname))
        ||| exists|i: int|
            0 <= i < ms.len() && (#[trigger] ms[i]).id == "local"@ && t != "local"@ && {
                ||| trimmed(ms[i].alias_name).len() > 0 && t == lowered(trimmed(ms[i].alias_name))
                ||| t == lowered(ms[i].id)
                ||| t == lowered(trimmed(ms[i].host))
            }
    }
}

/// An entry means this machine exactly where it has its identifier, where its identifier or its
/// alias is one of its names, or where its address is one that leads back here.
pub proof fn entries_of_this_machine_are_known(
    cfg: AppConfigModel,
    m: MachineConfigModel,
    env: LocalEnvModel,
)
    ensures
        is_self(cfg, m, env) <==> {
            let h = lowered(trimmed(m.host));
            ||| m.id == "local"@
            ||| is_own_name(cfg, m.id, env)
            ||| is_own_name(cfg, m.alias_name, env)
            ||| h.len() > 0 && (h == lowered("127.0.0.1"@) || h == lowered("::1"@) || h == lowered(
                "localhost"@,
            ) || h == lowered(trimmed(env.host)) || h == lowered(trimmed(env.hostname)))
        },
{
    lemma_own_name(cfg, m.id, env);
    lemma_own_name(cfg, m.alias_name, env);
}

proof fn lemma_own_name(cfg: AppConfigModel, name: Seq<char>, env: LocalEnvModel)
    ensures
        names_here(cfg, name, env) <==> is_own_name(cfg, name, env),
{
    let v = trimmed(name);
    let t = lowered(v);
    let ms = cleaned_machines(cfg.machines, env);
    assert(t.len() == v.len());
    crate::text::trimming_is_idempotent(name);
    if v.len() > 0 {
        assert forall|i: int| 0 <= i < ms.len() && t != lowered("local"@) && t != lowered(
            trimmed(env.hostname),
        ) implies is_local_entry(#[trigger] ms[i], v) == (ms[i].id == "local"@ && t != "local"@ && {
            ||| trimmed(ms[i].alias_name).len() > 0 && t == lowered(trimmed(ms[i].alias_name))
            ||| t == lowered(ms[i].id)
            ||| t == lowered(trimmed(ms[i].host))
        }) by {
            lemma_lowered_local();
        }
    }
}

proof fn lemma_lowered_local()
    ensures
        lowered("local"@) == "local"@,
{
    reveal_strlit("local");
    assert(lowered("local"@) =~= "local"@);
}

/// Whether a text begins with another one.
pub open spec fn begins_with(warning: Seq<char>, start: Seq<char>) -> bool {
    start.is_prefix_of(warning)
}

/// Where two entries share an address and have different aliases, there is a warning that says
/// which address.
pub proof fn shared_addresses_are_warned_of(
    cfg: AppConfigModel,
    env: LocalEnvModel,
    i: int,
    j: int,
)
    requires
        0 <= i < j < cfg.machines.len(),
        trimmed(cfg.machines[i].host).len() > 0,
        lowered(trimmed(cfg.machines[i].host)) == lowered(trimmed(cfg.machines[j].host)),
        trimmed(cfg.machines[i].alias_name).len() > 0,
        trimmed(cfg.machines[j].alias_name).len() > 0,
        trimmed(cfg.machines[i].alias_name) != trimmed(cfg.machines[j].alias_name),
    ensures
        exists|k: int|
            0 <= k < warnings_of(cfg, env).len() && begins_with(
                #[trigger] warnings_of(cfg, env)[k],
                "multiple machines share host "@ + lowered(trimmed(cfg.machines[i].host)),
            ),
{
    let ms = cfg.machines;
    let host = lowered(trimmed(ms[i].host));
    let keys = ms.map_values(to_host_key());
    let filled = keys.filter(not_empty());
    assert(keys[i] == host);
    keys.lemma_filter_contains(not_empty(), i);
    sorted_set_is_sorted_and_complete(filled);
    assert(all_hosts(ms).contains(host));
    let there = ms.filter(at_host(host));
    let shown = there.map_values(to_display_name());
    ms.lemma_filter_contains(at_host(host), i);
    ms.lemma_filter_contains(at_host(host), j);
    let a = choose|a: int| 0 <= a < there.len() && there[a] == ms[i];
    let b = choose|b: int| 0 <= b < there.len() && there[b] == ms[j];
    let first = trimmed(ms[i].alias_name);
    let second = trimmed(ms[j].alias_name);
    assert(shown[a] == first);
    assert(shown[b] == second);
    sorted_set_is_sorted_and_complete(shown);
    let names = names_at(ms, host);
    assert(names.contains(first));
    assert(names.contains(second));
    let x = choose|x: int| 0 <= x < names.len() && names[x] == first;
    let y = choose|y: int| 0 <= y < names.len() && names[y] == second;
    assert(names.len() > 1);
    let f = to_host_warning(ms);
    let h = choose|h: int| 0 <= h < all_hosts(ms).len() && all_hosts(ms)[h] == host;
    lemma_filter_map_holds(all_hosts(ms), f, h);
    let shared = all_hosts(ms).filter_map(f);
    let w = f(host)->0;
    let k = choose|k: int| 0 <= k < shared.len() && shared[k] == w;
    let start = "multiple machines share host "@ + host;
    assert(w.subrange(0, start.len() as int) =~= start);
    assert(warnings_of(cfg, env)[k] == w);
    assert(begins_with(warnings_of(cfg, env)[k], start));
}

/// Where two entries mean this machine, the last warning says so.
pub proof fn repeated_entries_of_this_machine_are_warned_of(
    cfg: AppConfigModel,
    env: LocalEnvModel,
    i: int,
    j: int,
)
    requires
        0 <= i < j < cfg.machines.len(),
        is_self(cfg, cfg.machines[i], env),
        is_self(cfg, cfg.machines[j], env),
    ensures
        warnings_of(cfg, env).len() > 0,
        begins_with(
            warnings_of(cfg, env).last(),
            "multiple machine entries refer to this machine: "@,
        ),
{
    lemma_two_pass(cfg.machines, self_test(cfg, env), i, j);
    let start = "multiple machine entries refer to this machine: "@;
    let w = warnings_of(cfg, env).last();
    assert(w.subrange(0, start.len() as int) =~= start);
}

} // verus!
