//! What happens to cycles.

use crate::clock::Moment;
use crate::config::types::SourceGroupConfigModel;
use crate::seqs::{last_item, last_where, lemma_last_where, lemma_last_where_is};
use crate::state::cycles::{
    can_close, cycles_in_order, not_open_of, open_cycle, open_of, open_with_id, opened, pending_of,
    reopened, with_change, ChangeModel,
};
use crate::state::offsets::referenced;
use crate::state::targets::{lemma_targets_keep_cycles, source_forced, working_ids};
use crate::state::types::{CycleModel, OffsetRowModel, StateModel};
use vstd::prelude::*;

verus! {

/// Where the open cycle of a source is closed, it ends at that moment, and a new one begins at it,
/// with an identifier of its own. All other cycles are as they were.
pub proof fn cycles_follow_each_other(st: StateModel, source_id: Seq<char>, at: Moment, k: int)
    requires
        cycles_in_order(st),
        0 <= st.next_cycle,
        can_close(st, source_id),
        0 <= k < st.cycles.len(),
        st.cycles[k].source_id == source_id,
        st.cycles[k].status == "open"@,
    ensures
        ({
            let r = reopened(st, source_id, at);
            let n = st.cycles.len() as int;
            &&& r.cycles.len() == n + 1
            &&& forall|i: int| 0 <= i < n && i != k ==> #[trigger] r.cycles[i] == st.cycles[i]
            &&& r.cycles[k].id == st.cycles[k].id
            &&& r.cycles[k].source_id == source_id
            &&& r.cycles[k].starts_at == st.cycles[k].starts_at
            &&& r.cycles[k].ends_at == Some(at)
            &&& r.cycles[k].status == "closed"@
            &&& r.cycles[k].needs_full_rescan == st.cycles[k].needs_full_rescan
            &&& r.cycles[n].id == st.next_cycle
            &&& r.cycles[n].source_id == source_id
            &&& r.cycles[n].starts_at == at
            &&& r.cycles[n].ends_at is None
            &&& r.cycles[n].status == "open"@
            &&& !r.cycles[n].needs_full_rescan
            &&& r.events == st.events
            &&& r.offsets == st.offsets
        }),
{
    let test = open_of(source_id);
    let n = st.cycles.len() as int;
    assert forall|j: int| k < j < n implies !test(#[trigger] st.cycles[j]) by {}
    lemma_last_where_is(st.cycles, test, k);
    let c = st.cycles[k];
    let closed = StateModel {
        cycles: crate::seqs::changed_where(
            st.cycles,
            open_with_id(c.id),
            crate::state::cycles::closing(at),
        ),
        ..st
    };
    reveal_strlit("open");
    reveal_strlit("closed");
    assert("open"@.len() == 4);
    assert("closed"@.len() == 6);
    assert forall|i: int| 0 <= i < n && i != k implies #[trigger] closed.cycles[i]
        == st.cycles[i] by {
        if i < k {
            assert(st.cycles[i].id < st.cycles[k].id);
        } else {
            assert(st.cycles[k].id < st.cycles[i].id);
        }
    }
    assert forall|j: int| 0 <= j < n implies !test(#[trigger] closed.cycles[j]) by {
        if j < k {
            assert(st.cycles[j] == closed.cycles[j]);
        }
    }
    lemma_last_where_is(closed.cycles, test, -1);
    assert(!crate::state::cycles::other_open(st, source_id, c.id)) by {
        if crate::state::cycles::other_open(st, source_id, c.id) {
            let j = choose|j: int|
                0 <= j < n && test(#[trigger] st.cycles[j]) && st.cycles[j].id != c.id;
            if j < k {
                assert(!(st.cycles[j].status == "open"@ && st.cycles[k].status == "open"@));
            }
        }
    }
    assert(reopened(st, source_id, at) == opened(closed, source_id, at));
}

/// Whether two cycles are the same but for the status and the need for a full scan.
pub open spec fn same_cycle(a: CycleModel, b: CycleModel) -> bool {
    &&& a.id == b.id
    &&& a.source_id == b.source_id
    &&& a.starts_at == b.starts_at
    &&& a.ends_at == b.ends_at
    &&& a.manual_changed_since_rescan == b.manual_changed_since_rescan
}

/// What is marked is the cycle with that identifier, and no other. A scan that a user asked for is
/// not taken back with the others.
pub proof fn marks_are_put_on_their_cycle(st: StateModel, id: i64, status: Seq<char>, i: int)
    requires
        0 <= i < st.cycles.len(),
    ensures
        ({
            let c = st.cycles[i];
            let stated = with_change(st, id, ChangeModel::Status(status)).cycles;
            let rescan = with_change(st, id, ChangeModel::Rescan).cycles;
            let manual = with_change(st, id, ChangeModel::ManualRescan).cycles;
            let cleared = with_change(st, id, ChangeModel::ClearRescan).cycles;
            &&& stated.len() == st.cycles.len()
            &&& rescan.len() == st.cycles.len()
            &&& manual.len() == st.cycles.len()
            &&& cleared.len() == st.cycles.len()
            &&& c.id != id ==> stated[i] == c && rescan[i] == c && manual[i] == c && cleared[i] == c
            &&& c.id == id ==> {
                &&& same_cycle(stated[i], c) && stated[i].status == status
                &&& stated[i].needs_full_rescan == c.needs_full_rescan
                &&& same_cycle(rescan[i], c) && rescan[i].status == c.status
                &&& rescan[i].needs_full_rescan
                &&& rescan[i].manual_full_rescan == c.manual_full_rescan
                &&& same_cycle(manual[i], c) && manual[i].status == c.status
                &&& manual[i].needs_full_rescan && manual[i].manual_full_rescan
                &&& same_cycle(cleared[i], c) && cleared[i].status == c.status
                &&& c.manual_full_rescan ==> cleared[i] == c
                &&& !c.manual_full_rescan ==> !cleared[i].needs_full_rescan
            }
        }),
{
}

/// The cycles of a source that are to be synchronised are those that are closed, under way or
/// failed.
pub proof fn closed_cycles_wait_to_be_synchronised(
    cs: Seq<CycleModel>,
    source_id: Seq<char>,
    c: CycleModel,
)
    ensures
        cs.filter(pending_of(source_id)).contains(c) <==> cs.contains(c) && c.source_id == source_id
            && (c.status == "closed"@ || c.status == "planning"@ || c.status == "syncing"@
            || c.status == "failed"@),
{
    let keep = pending_of(source_id);
    let kept = cs.filter(keep);
    if cs.contains(c) && keep(c) {
        let i = choose|i: int| 0 <= i < cs.len() && cs[i] == c;
        cs.lemma_filter_contains(keep, i);
    }
    if kept.contains(c) {
        let k = choose|k: int| 0 <= k < kept.len() && kept[k] == c;
        cs.lemma_filter_pred(keep, k);
        cs.lemma_filter_contains_rev(keep, c);
    }
}

/// The latest cycle of a source that is not open is the one with the highest identifier, and there
/// is one wherever the source has one.
pub proof fn the_latest_closed_cycle_is_the_highest(st: StateModel, source_id: Seq<char>, i: int)
    requires
        cycles_in_order(st),
        0 <= i < st.cycles.len(),
        st.cycles[i].source_id == source_id,
        st.cycles[i].status != "open"@,
    ensures
        ({
            let r = last_item(st.cycles, not_open_of(source_id));
            &&& r is Some
            &&& st.cycles[i].id <= r->0.id
            &&& r->0.source_id == source_id
            &&& r->0.status != "open"@
        }),
{
    let test = not_open_of(source_id);
    lemma_last_where(st.cycles, test);
    let k = last_where(st.cycles, test);
    if k < i {
        assert(!test(st.cycles[i]));
    } else if i < k {
        assert(st.cycles[i].id < st.cycles[k].id);
    }
}

/// The open cycle of a source is an open cycle of that source, and there is one wherever the source
/// has one.
pub proof fn open_cycles_are_found(st: StateModel, source_id: Seq<char>, i: int)
    requires
        0 <= i < st.cycles.len(),
        st.cycles[i].source_id == source_id,
        st.cycles[i].status == "open"@,
    ensures
        ({
            let r = open_cycle(st, source_id);
            &&& r is Some
            &&& r->0.source_id == source_id
            &&& r->0.status == "open"@
            &&& cycles_in_order(st) ==> r->0 == st.cycles[i]
        }),
{
    let test = open_of(source_id);
    lemma_last_where(st.cycles, test);
    let k = last_where(st.cycles, test);
    if k < i {
        assert(!test(st.cycles[i]));
    } else if i < k && cycles_in_order(st) {
        assert(!(st.cycles[i].status == "open"@ && st.cycles[k].status == "open"@));
    }
}

/// A snapshot is still referred to where a destination of the source was verified against it.
pub proof fn snapshots_of_verified_destinations_are_kept(
    rows: Seq<OffsetRowModel>,
    source_id: Seq<char>,
    i: int,
)
    requires
        0 <= i < rows.len(),
        rows[i].source_id == source_id,
        rows[i].verified_snapshot is Some,
    ensures
        rows.filter_map(referenced(source_id)).contains(rows[i].verified_snapshot->0),
{
    crate::seqs::lemma_filter_map_holds(rows, referenced(source_id), i);
}

/// Synchronising a source now closes its open cycle, which is given back, and opens another one.
pub proof fn forcing_closes_the_open_cycle(
    st: StateModel,
    s: SourceGroupConfigModel,
    at: Moment,
    now: Seq<char>,
    k: int,
)
    requires
        cycles_in_order(st),
        0 <= st.next_cycle,
        can_close(st, s.id),
        0 <= k < st.cycles.len(),
        st.cycles[k].source_id == s.id,
        st.cycles[k].status == "open"@,
    ensures
        ({
            let (after, closed) = source_forced(st, s, at, now);
            let n = st.cycles.len() as int;
            &&& closed == Some(after.cycles[k])
            &&& after.cycles.len() == n + 1
            &&& after.cycles[k].id == st.cycles[k].id
            &&& after.cycles[k].status == "closed"@
            &&& after.cycles[k].ends_at == Some(at)
            &&& after.cycles[k].needs_full_rescan == st.cycles[k].needs_full_rescan
            &&& after.cycles[n].source_id == s.id
            &&& after.cycles[n].status == "open"@
            &&& after.cycles[n].starts_at == at
            &&& forall|i: int| 0 <= i < n && i != k ==> #[trigger] after.cycles[i] == st.cycles[i]
        }),
{
    cycles_follow_each_other(st, s.id, at, k);
    open_cycles_are_found(st, s.id, k);
    lemma_targets_keep_cycles(
        crate::state::cycles::closed_state(st, s.id, at),
        s.id,
        working_ids(s, s.destinations.len() as int),
        st.cycles[k].id,
        now,
    );
}

} // verus!
