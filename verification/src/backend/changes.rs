//! Changes of the configuration.

use crate::backend::delegation::{
    find_namesake, find_source, shares_name, source_with_id,
};
use crate::backend::types::{BackendError, BackendErrorModel};
use crate::config::clean::{clean_config_for_save, cleaned_config};
use crate::config::types::{
    clone_machine_configs, AppConfig, AppConfigModel, DestinationConfig, DestinationConfigModel,
    LocalEnv, MachineConfig, MachineConfigModel, SourceGroupConfigModel,
};
use crate::paths::{components, components_of, same_list};
use crate::seqs::{first_item, first_where, lemma_first_where_is};
use crate::state::offsets::offset_reset;
use crate::state::types::{State, StateModel};
use crate::text::{same, views};
use vstd::prelude::*;

verus! {

/// A configuration with the machines of the stored one: machines are changed by requests of their
/// own, so those that come with a configuration may be stale.
pub open spec fn with_stored_machines(
    cfg: AppConfigModel,
    stored: Option<AppConfigModel>,
) -> AppConfigModel {
    match stored {
        Some(s) => AppConfigModel { machines: s.machines, ..cfg },
        None => cfg,
    }
}

/// A configuration with the machines of the stored one.
pub fn preserve_current_machines(cfg: &AppConfig, stored: &Option<AppConfig>) -> (r: AppConfig)
    ensures
        r@ == with_stored_machines(
            cfg@,
            match stored {
                Some(s) => Some(s@),
                None => None,
            },
        ),
{
    let mut r = cfg.clone();
    match stored {
        Some(s) => {
            r.machines = clone_machine_configs(&s.machines);
        },
        None => {},
    }
    r
}

/// Whether two paths are the same, component by component.
pub open spec fn same_place(a: Seq<char>, b: Seq<char>) -> bool {
    components(a) == components(b)
}

/// Whether two paths are the same, component by component.
fn is_same_place(a: &str, b: &str) -> (r: bool)
    ensures
        r == same_place(a@, b@),
{
    same_list(&components_of(a), &components_of(b))
}

/// Whether a source that has destinations is elsewhere in another configuration.
pub open spec fn is_moved(s: SourceGroupConfigModel, next: Seq<SourceGroupConfigModel>) -> bool {
    let n = first_item(next, source_with_id(s.id));
    s.destinations.len() > 0 && n is Some && (!same_place(s.src, n->0.src) || s.machine_id
        != n->0.machine_id)
}

/// The test for sources that have destinations and are elsewhere in another configuration.
pub open spec fn moved_in(next: Seq<SourceGroupConfigModel>) -> spec_fn(
    SourceGroupConfigModel,
) -> bool {
    |s: SourceGroupConfigModel| is_moved(s, next)
}

/// Refuses a configuration that moves a source which has destinations.
pub fn reject_locked_source_path_changes(
    current: &AppConfig,
    next: &AppConfig,
    env: &LocalEnv,
) -> (r: Result<(), BackendError>)
    ensures
        match first_item(
            cleaned_config(current@, env@).source_groups,
            moved_in(cleaned_config(next@, env@).source_groups),
        ) {
            Some(s) => r is Err && r->Err_0@ == BackendErrorModel::SourceLocked(s.id),
            None => r is Ok,
        },
{
    let before = clean_config_for_save(current, env);
    let after = clean_config_for_save(next, env);
    let ghost cs = before@.source_groups;
    let ghost ns = after@.source_groups;
    let ghost test = moved_in(ns);
    for i in 0..before.source_groups.len()
        invariant
            cs == views(before.source_groups@),
            ns == views(after.source_groups@),
            test == moved_in(ns),
            cs == cleaned_config(current@, env@).source_groups,
            ns == cleaned_config(next@, env@).source_groups,
            forall|j: int| 0 <= j < i ==> !test(#[trigger] cs[j]),
    {
        let s = &before.source_groups[i];
        proof {
            assert(cs[i as int] == s@);
        }
        let k = find_source(&after.source_groups, s.id.as_str());
        if s.destinations.len() > 0 && k < after.source_groups.len() {
            let n = &after.source_groups[k];
            proof {
                assert(ns[k as int] == n@);
            }
            if !is_same_place(s.src.as_str(), n.src.as_str()) || !same(
                s.machine_id.as_str(),
                n.machine_id.as_str(),
            ) {
                proof {
                    lemma_first_where_is(cs, test, i as int);
                }
                return Err(BackendError::SourceLocked(s.id.clone()));
            }
        }
    }
    proof {
        lemma_first_where_is(cs, test, cs.len() as int);
    }
    Ok(())
}

/// The test for a destination with an identifier.
pub open spec fn destination_with_id(id: Seq<char>) -> spec_fn(DestinationConfigModel) -> bool {
    |d: DestinationConfigModel| d.id == id
}

/// The index of a destination, or the number of destinations.
fn find_destination(ds: &Vec<DestinationConfig>, id: &str) -> (r: usize)
    ensures
        r == first_where(views(ds@), destination_with_id(id@)),
        r <= ds.len(),
{
    let ghost all = views(ds@);
    let ghost test = destination_with_id(id@);
    for i in 0..ds.len()
        invariant
            all == views(ds@),
            test == destination_with_id(id@),
            forall|j: int| 0 <= j < i ==> !test(#[trigger] all[j]),
    {
        proof {
            assert(all[i as int] == ds@[i as int]@);
        }
        if same(ds[i].id.as_str(), id) {
            proof {
                lemma_first_where_is(all, test, i as int);
            }
            return i;
        }
    }
    proof {
        lemma_first_where_is(all, test, all.len() as int);
    }
    ds.len()
}

/// Whether a destination is elsewhere in another configuration.
pub open spec fn destination_moved(d: DestinationConfigModel, next: Seq<DestinationConfigModel>) -> bool {
    let n = first_item(next, destination_with_id(d.id));
    n is Some && (!same_place(d.path, n->0.path) || d.machine_id != n->0.machine_id)
}

/// The state after the destinations of a source that are elsewhere now were reset.
pub open spec fn destinations_reset(
    st: StateModel,
    source_id: Seq<char>,
    ds: Seq<DestinationConfigModel>,
    next: Seq<DestinationConfigModel>,
    now: Seq<char>,
) -> StateModel
    decreases ds.len(),
{
    if ds.len() == 0 {
        st
    } else {
        let before = destinations_reset(st, source_id, ds.drop_last(), next, now);
        if destination_moved(ds.last(), next) {
            offset_reset(before, source_id, ds.last().id, "destination_path_changed"@, now)
        } else {
            before
        }
    }
}

/// The state after the destinations that are elsewhere now were reset.
pub open spec fn sources_reset(
    st: StateModel,
    ss: Seq<SourceGroupConfigModel>,
    next: Seq<SourceGroupConfigModel>,
    now: Seq<char>,
) -> StateModel
    decreases ss.len(),
{
    if ss.len() == 0 {
        st
    } else {
        let before = sources_reset(st, ss.drop_last(), next, now);
        match first_item(next, source_with_id(ss.last().id)) {
            Some(n) => destinations_reset(
                before,
                ss.last().id,
                ss.last().destinations,
                n.destinations,
                now,
            ),
            None => before,
        }
    }
}

/// Forgets what is known of the destinations that are elsewhere in the next configuration.
pub fn reset_changed_destination_offsets(
    state: &mut State,
    current: &AppConfig,
    next: &AppConfig,
    now: &str,
)
    ensures
        final(state)@ == sources_reset(
            old(state)@,
            current@.source_groups,
            next@.source_groups,
            now@,
        ),
{
    let ghost cs = current@.source_groups;
    let ghost ns = next@.source_groups;
    proof {
        assert(cs.take(0) =~= Seq::empty());
    }
    for i in 0..current.source_groups.len()
        invariant
            cs == views(current.source_groups@),
            ns == views(next.source_groups@),
            state@ == sources_reset(old(state)@, cs.take(i as int), ns, now@),
    {
        let s = &current.source_groups[i];
        let ghost before = state@;
        proof {
            assert(cs[i as int] == s@);
            assert(cs.take(i + 1).drop_last() =~= cs.take(i as int));
        }
        let k = find_source(&next.source_groups, s.id.as_str());
        if k < next.source_groups.len() {
            let n = &next.source_groups[k];
            let ghost ds = s@.destinations;
            let ghost nds = n@.destinations;
            proof {
                assert(ns[k as int] == n@);
                assert(ds.take(0) =~= Seq::empty());
            }
            for j in 0..s.destinations.len()
                invariant
                    ds == views(s.destinations@),
                    nds == views(n.destinations@),
                    state@ == destinations_reset(before, s@.id, ds.take(j as int), nds, now@),
            {
                let d = &s.destinations[j];
                proof {
                    assert(ds[j as int] == d@);
                    assert(ds.take(j + 1).drop_last() =~= ds.take(j as int));
                }
                let m = find_destination(&n.destinations, d.id.as_str());
                if m < n.destinations.len() {
                    let nd = &n.destinations[m];
                    proof {
                        assert(nds[m as int] == nd@);
                    }
                    if !is_same_place(d.path.as_str(), nd.path.as_str()) || !same(
                        d.machine_id.as_str(),
                        nd.machine_id.as_str(),
                    ) {
                        state.reset_destination_offset(
                            s.id.as_str(),
                            d.id.as_str(),
                            "destination_path_changed",
                            now,
                        );
                    }
                }
            }
            proof {
                assert(ds.take(ds.len() as int) =~= ds);
            }
        }
    }
    proof {
        assert(cs.take(cs.len() as int) =~= cs);
    }
}

/// The machines with one of them added, in place of its namesake where there is one.
pub open spec fn with_machine(ms: Seq<MachineConfigModel>, m: MachineConfigModel) -> Seq<
    MachineConfigModel,
> {
    let k = first_where(ms, shares_name(m));
    if k < ms.len() {
        ms.update(k, m)
    } else {
        ms.push(m)
    }
}

/// A configuration with a machine added, in place of its namesake where there is one.
pub fn put_machine(cfg: AppConfig, machine: MachineConfig) -> (r: AppConfig)
    ensures
        r@ == (AppConfigModel { machines: with_machine(cfg@.machines, machine@), ..cfg@ }),
{
    let mut r = cfg;
    let ghost ms = r@.machines;
    let ghost mv = machine@;
    let k = find_namesake(&r.machines, &machine);
    if k < r.machines.len() {
        r.machines.set(k, machine);
        proof {
            assert(r@.machines =~= ms.update(k as int, mv));
        }
    } else {
        r.machines.push(machine);
        proof {
            assert(r@.machines =~= ms.push(mv));
        }
    }
    r
}

/// The test for machines with another identifier.
pub open spec fn other_machine(id: Seq<char>) -> spec_fn(MachineConfigModel) -> bool {
    |m: MachineConfigModel| m.id != id
}

/// A configuration without the machines of an identifier.
pub fn drop_machine(cfg: AppConfig, id: &str) -> (r: AppConfig)
    ensures
        r@ == (AppConfigModel { machines: cfg@.machines.filter(other_machine(id@)), ..cfg@ }),
{
    let mut r = cfg;
    let ghost all = r@.machines;
    let ghost keep = other_machine(id@);
    let mut kept: Vec<MachineConfig> = Vec::new();
    proof {
        assert(views(kept@) =~= all.take(0).filter(keep));
    }
    for i in 0..r.machines.len()
        invariant
            all == views(r.machines@),
            keep == other_machine(id@),
            views(kept@) == all.take(i as int).filter(keep),
    {
        let m = &r.machines[i];
        let ghost was = views(kept@);
        proof {
            assert(all[i as int] == m@);
            assert(all.take(i + 1) =~= all.take(i as int).push(m@));
            all.take(i as int).lemma_filter_push(m@, keep);
        }
        if !same(m.id.as_str(), id) {
            kept.push(m.clone());
            proof {
                assert(views(kept@) =~= was.push(m@));
            }
        }
    }
    proof {
        assert(all.take(all.len() as int) =~= all);
    }
    r.machines = kept;
    r
}

} // verus!
