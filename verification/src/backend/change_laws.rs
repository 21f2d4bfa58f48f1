//! What storing another configuration does to sources, destinations and machines, stated on the two
//! configurations and the rows themselves.

use crate::backend::changes::{
    destination_moved, destination_with_id, destinations_reset, moved_in, other_machine,
    sources_reset, with_machine,
};
use crate::backend::delegation::{shares_name, source_with_id};
use crate::config::types::{
    DestinationConfigModel, MachineConfigModel, SourceGroupConfigModel,
};
use crate::paths::components;
use crate::seqs::{first_item, first_where, lemma_first_where, lemma_first_where_is};
use crate::state::offsets::{blank_row, offset_row, put_row_is_found};
use crate::state::types::StateModel;
use vstd::prelude::*;

verus! {

/// Whether the source at an index is the first one of its name.
pub open spec fn first_named(ss: Seq<SourceGroupConfigModel>, k: int, id: Seq<char>) -> bool {
    &&& 0 <= k < ss.len()
    &&& ss[k].id == id
    &&& forall|j: int| 0 <= j < k ==> (#[trigger] ss[j]).id != id
}

/// A configuration is accepted in place of another one exactly when every source of the earlier one
/// that has destinations and is in the later one too has the same path and the same machine there.
pub proof fn only_sources_without_destinations_move(
    before: Seq<SourceGroupConfigModel>,
    after: Seq<SourceGroupConfigModel>,
)
    ensures
        (first_item(before, moved_in(after)) is None) == (forall|i: int, k: int|
            0 <= i < before.len() && (#[trigger] before[i]).destinations.len() > 0
                && #[trigger] first_named(after, k, before[i].id) ==> components(before[i].src)
                == components(after[k].src) && before[i].machine_id == after[k].machine_id),
{
    let test = moved_in(after);
    lemma_first_where(before, test);
    if first_item(before, test) is None {
        assert forall|i: int, k: int|
            0 <= i < before.len() && (#[trigger] before[i]).destinations.len() > 0
                && #[trigger] first_named(after, k, before[i].id) implies components(
            before[i].src,
        ) == components(after[k].src) && before[i].machine_id == after[k].machine_id by {
            assert(!test(before[i]));
            lemma_first_named(after, k, before[i].id);
        }
    } else {
        let i = first_where(before, test);
        assert(test(before[i]));
        let k = first_where(after, source_with_id(before[i].id));
        lemma_first_where(after, source_with_id(before[i].id));
        assert(source_with_id(before[i].id)(after[k]));
        assert(first_named(after, k, before[i].id)) by {
            assert forall|j: int| 0 <= j < k implies (#[trigger] after[j]).id != before[i].id by {
                assert(!source_with_id(before[i].id)(after[j]));
            }
        }
    }
}

proof fn lemma_first_named(ss: Seq<SourceGroupConfigModel>, k: int, id: Seq<char>)
    requires
        first_named(ss, k, id),
    ensures
        first_item(ss, source_with_id(id)) == Some(ss[k]),
{
    lemma_first_where_is(ss, source_with_id(id), k);
}

/// Whether a destination of a source is elsewhere among other destinations: the first one of its name
/// there has another path or another machine.
pub open spec fn is_elsewhere(
    d: DestinationConfigModel,
    ds: Seq<DestinationConfigModel>,
    m: int,
) -> bool {
    &&& 0 <= m < ds.len()
    &&& ds[m].id == d.id
    &&& forall|j: int| 0 <= j < m ==> (#[trigger] ds[j]).id != d.id
    &&& components(d.path) != components(ds[m].path) || d.machine_id != ds[m].machine_id
}

/// Whether a destination of that name of a source of that name has moved from one configuration to
/// another.
pub open spec fn has_moved(
    before: Seq<SourceGroupConfigModel>,
    after: Seq<SourceGroupConfigModel>,
    source_id: Seq<char>,
    id: Seq<char>,
) -> bool {
    exists|i: int, j: int, k: int, m: int|
        #![trigger before[i].destinations[j], after[k].destinations[m]]
        0 <= i < before.len() && before[i].id == source_id && 0 <= j
            < before[i].destinations.len() && before[i].destinations[j].id == id && first_named(
            after,
            k,
            source_id,
        ) && is_elsewhere(before[i].destinations[j], after[k].destinations, m)
}

proof fn lemma_elsewhere(d: DestinationConfigModel, ds: Seq<DestinationConfigModel>)
    ensures
        destination_moved(d, ds) == exists|m: int| is_elsewhere(d, ds, m),
{
    let test = destination_with_id(d.id);
    let m = first_where(ds, test);
    lemma_first_where(ds, test);
    if destination_moved(d, ds) {
        assert(test(ds[m]));
        assert forall|j: int| 0 <= j < m implies (#[trigger] ds[j]).id != d.id by {
            assert(!test(ds[j]));
        }
        assert(is_elsewhere(d, ds, m));
    }
    if exists|m: int| is_elsewhere(d, ds, m) {
        let l = choose|l: int| is_elsewhere(d, ds, l);
        lemma_first_where_is(ds, test, l);
    }
}

/// What resetting destinations of a source does to the row of one destination.
proof fn lemma_destinations_reset(
    st: StateModel,
    source_id: Seq<char>,
    ds: Seq<DestinationConfigModel>,
    next: Seq<DestinationConfigModel>,
    now: Seq<char>,
    row_source: Seq<char>,
    id: Seq<char>,
)
    ensures
        ({
            let row = offset_row(
                destinations_reset(st, source_id, ds, next, now).offsets,
                row_source,
                id,
            );
            if row_source == source_id && exists|j: int|
                0 <= j < ds.len() && (#[trigger] ds[j]).id == id && destination_moved(ds[j], next) {
                row == Some(blank_row(row_source, id, "destination_path_changed"@, now))
            } else {
                row == offset_row(st.offsets, row_source, id)
            }
        }),
    decreases ds.len(),
{
    if ds.len() > 0 {
        let t = ds.drop_last();
        let d = ds.last();
        let n = ds.len() - 1;
        lemma_destinations_reset(st, source_id, t, next, now, row_source, id);
        let before = destinations_reset(st, source_id, t, next, now);
        let row = blank_row(source_id, d.id, "destination_path_changed"@, now);
        put_row_is_found(before.offsets, row, row_source, id);
        if exists|j: int|
            0 <= j < t.len() && (#[trigger] t[j]).id == id && destination_moved(t[j], next) {
            let j = choose|j: int|
                0 <= j < t.len() && (#[trigger] t[j]).id == id && destination_moved(t[j], next);
            assert(ds[j].id == id && destination_moved(ds[j], next));
        }
        if exists|j: int|
            0 <= j < ds.len() && (#[trigger] ds[j]).id == id && destination_moved(ds[j], next) {
            let j = choose|j: int|
                0 <= j < ds.len() && (#[trigger] ds[j]).id == id && destination_moved(ds[j], next);
            if j < n {
                assert(t[j].id == id && destination_moved(t[j], next));
            }
        }
        if d.id == id && destination_moved(d, next) {
            assert(ds[n].id == id && destination_moved(ds[n], next));
        }
    }
}

/// Once another configuration is stored, nothing is known any more of a destination that is elsewhere
/// in it: it has no target, and was never verified. What is known of all others stays.
pub proof fn moved_destinations_start_again(
    st: StateModel,
    before: Seq<SourceGroupConfigModel>,
    after: Seq<SourceGroupConfigModel>,
    now: Seq<char>,
    source_id: Seq<char>,
    id: Seq<char>,
)
    ensures
        ({
            let row = offset_row(sources_reset(st, before, after, now).offsets, source_id, id);
            if has_moved(before, after, source_id, id) {
                &&& row is Some
                &&& row->0.target_cycle_id is None
                &&& row->0.last_verified_cycle_id is None
                &&& row->0.last_completed_cycle_id is None
                &&& row->0.verified_snapshot is None
                &&& row->0.verified_dst_snapshot is None
                &&& row->0.status == "red"@
            } else {
                row == offset_row(st.offsets, source_id, id)
            }
        }),
{
    lemma_sources_reset(st, before, after, now, source_id, id);
}

proof fn lemma_sources_reset(
    st: StateModel,
    before: Seq<SourceGroupConfigModel>,
    after: Seq<SourceGroupConfigModel>,
    now: Seq<char>,
    source_id: Seq<char>,
    id: Seq<char>,
)
    ensures
        offset_row(sources_reset(st, before, after, now).offsets, source_id, id) == (if has_moved(
            before,
            after,
            source_id,
            id,
        ) {
            Some(blank_row(source_id, id, "destination_path_changed"@, now))
        } else {
            offset_row(st.offsets, source_id, id)
        }),
    decreases before.len(),
{
    if before.len() > 0 {
        let t = before.drop_last();
        let s = before.last();
        let n = before.len() - 1;
        lemma_sources_reset(st, t, after, now, source_id, id);
        let mid = sources_reset(st, t, after, now);
        let k = first_where(after, source_with_id(s.id));
        lemma_first_where(after, source_with_id(s.id));
        if k < after.len() {
            lemma_destinations_reset(
                mid,
                s.id,
                s.destinations,
                after[k].destinations,
                now,
                source_id,
                id,
            );
            assert(source_with_id(s.id)(after[k]));
            assert(first_named(after, k, s.id)) by {
                assert forall|j: int| 0 <= j < k implies (#[trigger] after[j]).id != s.id by {
                    assert(!source_with_id(s.id)(after[j]));
                }
            }
        }
        let here = s.id == source_id && k < after.len() && exists|j: int|
            0 <= j < s.destinations.len() && (#[trigger] s.destinations[j]).id == id
                && destination_moved(s.destinations[j], after[k].destinations);
        if has_moved(t, after, source_id, id) {
            let (i, j, l, m) = choose|i: int, j: int, l: int, m: int|
                #![trigger t[i].destinations[j], after[l].destinations[m]]
                0 <= i < t.len() && t[i].id == source_id && 0 <= j < t[i].destinations.len()
                    && t[i].destinations[j].id == id && first_named(after, l, source_id)
                    && is_elsewhere(t[i].destinations[j], after[l].destinations, m);
            assert(before[i].destinations[j].id == id);
            assert(after[l].destinations[m].id == id);
            assert(has_moved(before, after, source_id, id));
        }
        if here {
            let j = choose|j: int|
                0 <= j < s.destinations.len() && (#[trigger] s.destinations[j]).id == id
                    && destination_moved(s.destinations[j], after[k].destinations);
            lemma_elsewhere(s.destinations[j], after[k].destinations);
            let m = choose|m: int|
                is_elsewhere(s.destinations[j], after[k].destinations, m);
            assert(before[n].destinations[j].id == id);
            assert(after[k].destinations[m].id == id);
            assert(has_moved(before, after, source_id, id));
        }
        if has_moved(before, after, source_id, id) {
            let (i, j, l, m) = choose|i: int, j: int, l: int, m: int|
                #![trigger before[i].destinations[j], after[l].destinations[m]]
                0 <= i < before.len() && before[i].id == source_id && 0 <= j
                    < before[i].destinations.len() && before[i].destinations[j].id == id
                    && first_named(after, l, source_id) && is_elsewhere(
                    before[i].destinations[j],
                    after[l].destinations,
                    m,
                );
            if i < n {
                assert(t[i].destinations[j].id == id);
                assert(after[l].destinations[m].id == id);
                assert(has_moved(t, after, source_id, id));
            } else {
                lemma_first_where_is(after, source_with_id(s.id), l);
                lemma_elsewhere(s.destinations[j], after[k].destinations);
                assert(s.destinations[j].id == id);
                assert(here);
            }
        }
    } else {
        assert(!has_moved(before, after, source_id, id));
    }
}

/// A machine that is added is among the machines, and takes the place of one that one of its names
/// means, where there is one; all others stay where they are.
pub proof fn added_machines_are_there(
    ms: Seq<MachineConfigModel>,
    m: MachineConfigModel,
    i: int,
)
    ensures
        with_machine(ms, m).contains(m),
        ms.len() <= with_machine(ms, m).len() <= ms.len() + 1,
        0 <= i < ms.len() && !shares_name(m)(ms[i]) ==> with_machine(ms, m)[i] == ms[i],
        (forall|j: int| 0 <= j < ms.len() ==> !shares_name(m)(#[trigger] ms[j])) ==> with_machine(
            ms,
            m,
        ) == ms.push(m),
{
    let test = shares_name(m);
    lemma_first_where(ms, test);
    let k = first_where(ms, test);
    let after = with_machine(ms, m);
    if k < ms.len() {
        assert(after[k] == m);
        assert(test(ms[k]));
    } else {
        assert(after[ms.len() as int] == m);
    }
}

/// Removing a machine removes all entries of its identifier and no other one.
pub proof fn removed_machines_are_gone(
    ms: Seq<MachineConfigModel>,
    id: Seq<char>,
    m: MachineConfigModel,
)
    ensures
        ms.filter(other_machine(id)).contains(m) == (ms.contains(m) && m.id != id),
{
    let keep = other_machine(id);
    let kept = ms.filter(keep);
    if kept.contains(m) {
        let i = choose|i: int| 0 <= i < kept.len() && kept[i] == m;
        ms.lemma_filter_pred(keep, i);
        ms.lemma_filter_contains_rev(keep, m);
    }
    if ms.contains(m) && m.id != id {
        let i = choose|i: int| 0 <= i < ms.len() && ms[i] == m;
        ms.lemma_filter_contains(keep, i);
    }
}

} // verus!
