//! What advancing and forcing sources does to the rows of destinations and to the cycles, stated on
//! the rows, the cycles and the events themselves.

use crate::clock::{passed, Moment, DAY_SECS};
use crate::config::types::{AppConfigModel, ScheduleMode, SourceGroupConfigModel};
use crate::scheduler::{
    cycles_end_in_time, due_verdict, ended_by, had, possible_boundary, BoundaryErrorModel,
};
use crate::seqs::{
    changed_where, first_item, first_where, last_where, lemma_first_where, lemma_first_where_is,
    lemma_last_where, lemma_last_where_is,
};
use crate::state::cycles::{
    can_close, closed_state, closing, closing_keeps_order, cycles_in_order, fits, fresh_cycle,
    open_cycle, open_of, open_with_id, opened, reopened, with_change, ChangeModel,
};
use crate::state::events::{has_actionable, quiesced};
use crate::state::offsets::{offset_row, row_of, row_or_blank, target_set};
use crate::state::targets::{
    advanced_by, advanced_by_schedules, all_realtime, destination_forced, destination_is_due,
    due_destinations_get_the_closed_cycle, due_follows_schedules, due_ids, enabled_source, flag_at,
    flags_follow_schedules, forcing_leaves_paused_destinations_alone, has_working, is_due,
    lemma_advanced_fits, lemma_due_ids, lemma_forced_fits, lemma_targets_keep_cycles,
    lemma_targets_set_row, source_advanced, source_forced, sources_advanced, sources_forced,
    targets_set, working_ids,
};
use crate::state::types::{CycleModel, OffsetRowModel, StateModel};
use vstd::prelude::*;

verus! {

/// Whether the row at an index is that of a destination.
pub open spec fn row_at(
    rows: Seq<OffsetRowModel>,
    i: int,
    source_id: Seq<char>,
    destination_id: Seq<char>,
) -> bool {
    0 <= i < rows.len() && rows[i].source_id == source_id && rows[i].destination_id
        == destination_id
}

/// Whether no destination has two rows.
pub open spec fn keyed_once(rows: Seq<OffsetRowModel>) -> bool {
    forall|i: int, j: int|
        0 <= i < j < rows.len() ==> (#[trigger] rows[i]).source_id != (#[trigger] rows[j]).source_id
            || rows[i].destination_id != rows[j].destination_id
}

/// Whether a destination has a row with a target.
pub open spec fn holds_target(
    rows: Seq<OffsetRowModel>,
    source_id: Seq<char>,
    destination_id: Seq<char>,
    target: i64,
) -> bool {
    exists|i: int|
        #[trigger] row_at(rows, i, source_id, destination_id) && rows[i].target_cycle_id == Some(
            target,
        )
}

/// Whether the cycle at an index is the open one of a source: the last one that is open.
pub open spec fn opens_at(st: StateModel, source_id: Seq<char>, k: int) -> bool {
    &&& 0 <= k < st.cycles.len()
    &&& st.cycles[k].source_id == source_id
    &&& st.cycles[k].status == "open"@
    &&& forall|j: int|
        k < j < st.cycles.len() ==> (#[trigger] st.cycles[j]).source_id != source_id
            || st.cycles[j].status != "open"@
}

/// Whether an event of a cycle names a path or asks for a full scan.
pub open spec fn has_work(st: StateModel, cycle_id: i64) -> bool {
    exists|e: int|
        0 <= e < st.events.len() && (#[trigger] st.events[e]).cycle_id == cycle_id && (
        st.events[e].rel_path is Some || st.events[e].rescan_required)
}

/// Whether a destination has reached the target that it has, if it has one.
pub open spec fn caught_up(
    rows: Seq<OffsetRowModel>,
    source_id: Seq<char>,
    destination_id: Seq<char>,
) -> bool {
    forall|i: int| #[trigger]
        row_at(rows, i, source_id, destination_id) ==> match (
            rows[i].target_cycle_id,
            rows[i].last_verified_cycle_id,
        ) {
            (None, _) => true,
            (Some(target), Some(verified)) => target <= verified,
            (Some(_), None) => false,
        }
}

/// Whether a destination was never synchronised and is not about to be.
pub open spec fn never_synced(
    rows: Seq<OffsetRowModel>,
    source_id: Seq<char>,
    destination_id: Seq<char>,
) -> bool {
    forall|i: int| #[trigger]
        row_at(rows, i, source_id, destination_id) ==> rows[i].target_cycle_id is None
            && rows[i].last_verified_cycle_id is None
}

/// Whether a destination is to get the cycle at an index: it is switched on, not paused and caught
/// up, and it was never synchronised, or is in realtime and there is work, or its schedule says so.
pub open spec fn entitled(
    st: StateModel,
    s: SourceGroupConfigModel,
    j: int,
    k: int,
    flags: Seq<bool>,
) -> bool {
    let d = s.destinations[j];
    &&& 0 <= j < s.destinations.len()
    &&& d.enabled
    &&& !d.paused
    &&& caught_up(st.offsets, s.id, d.id)
    &&& {
        ||| never_synced(st.offsets, s.id, d.id)
        ||| d.schedule.mode == ScheduleMode::Realtime && has_work(st, st.cycles[k].id)
        ||| d.schedule.mode != ScheduleMode::Realtime && j < flags.len() && flags[j]
    }
}

/// The open cycle of a source is the one that is found.
proof fn lemma_opens_at(st: StateModel, source_id: Seq<char>, k: int)
    requires
        opens_at(st, source_id, k),
    ensures
        open_cycle(st, source_id) == Some(st.cycles[k]),
{
    lemma_last_where_is(st.cycles, open_of(source_id), k);
}

/// What is found as the open cycle of a source is one.
proof fn lemma_open_index(st: StateModel, source_id: Seq<char>) -> (k: int)
    requires
        open_cycle(st, source_id) is Some,
    ensures
        opens_at(st, source_id, k),
        st.cycles[k] == open_cycle(st, source_id)->0,
{
    let test = open_of(source_id);
    let k = last_where(st.cycles, test);
    lemma_last_where(st.cycles, test);
    assert(test(st.cycles[k]));
    assert forall|j: int| k < j < st.cycles.len() implies (#[trigger] st.cycles[j]).source_id
        != source_id || st.cycles[j].status != "open"@ by {
        assert(!test(st.cycles[j]));
    }
    k
}

/// What is found as the row of a destination is one of its rows, and the only one where rows are
/// keyed.
proof fn lemma_row_index(rows: Seq<OffsetRowModel>, source_id: Seq<char>, destination_id: Seq<char>)
    ensures
        match offset_row(rows, source_id, destination_id) {
            Some(row) => exists|i: int| #[trigger]
                row_at(rows, i, source_id, destination_id) && rows[i] == row,
            None => forall|i: int| !#[trigger] row_at(rows, i, source_id, destination_id),
        },
        keyed_once(rows) ==> forall|i: int| #[trigger]
            row_at(rows, i, source_id, destination_id) ==> offset_row(
                rows,
                source_id,
                destination_id,
            ) == Some(rows[i]),
{
    let test = row_of(source_id, destination_id);
    let m = first_where(rows, test);
    lemma_first_where(rows, test);
    if m < rows.len() {
        assert(test(rows[m]));
        assert(row_at(rows, m, source_id, destination_id));
    } else {
        assert forall|i: int| !#[trigger] row_at(rows, i, source_id, destination_id) by {
            if 0 <= i < rows.len() {
                assert(!test(rows[i]));
            }
        }
    }
    if keyed_once(rows) {
        assert forall|i: int| #[trigger] row_at(rows, i, source_id, destination_id) implies offset_row(
            rows,
            source_id,
            destination_id,
        ) == Some(rows[i]) by {
            assert(test(rows[i]));
            if i < m {
                assert(!test(rows[i]));
            } else if m < i {
                assert(rows[m].source_id != rows[i].source_id || rows[m].destination_id
                    != rows[i].destination_id);
            }
        }
    }
}

/// A destination that is entitled is due; where rows are keyed, no other one is.
proof fn lemma_entitled(st: StateModel, s: SourceGroupConfigModel, j: int, k: int, flags: Seq<bool>, now: Seq<char>)
    requires
        opens_at(st, s.id, k),
        0 <= j < s.destinations.len(),
    ensures
        entitled(st, s, j, k, flags) ==> destination_is_due(
            s.destinations[j],
            row_or_blank(st.offsets, s.id, s.destinations[j].id, now),
            has_actionable(st, st.cycles[k].id),
            flag_at(flags, j),
        ),
        keyed_once(st.offsets) ==> entitled(st, s, j, k, flags) == destination_is_due(
            s.destinations[j],
            row_or_blank(st.offsets, s.id, s.destinations[j].id, now),
            has_actionable(st, st.cycles[k].id),
            flag_at(flags, j),
        ),
{
    let d = s.destinations[j];
    lemma_row_index(st.offsets, s.id, d.id);
    assert(has_actionable(st, st.cycles[k].id) == has_work(st, st.cycles[k].id));
    match offset_row(st.offsets, s.id, d.id) {
        Some(row) => {
            let i = choose|i: int| #[trigger]
                row_at(st.offsets, i, s.id, d.id) && st.offsets[i] == row;
            assert(row_at(st.offsets, i, s.id, d.id));
        },
        None => {},
    }
}

/// Every destination of a source that is entitled to the open cycle has it as its target once the
/// source was advanced, and that cycle is the one that was closed: destinations in realtime when
/// there is work, daily and weekly ones when their schedule says so, and each one once at first.
pub proof fn entitled_destinations_get_the_cycle(
    st: StateModel,
    s: SourceGroupConfigModel,
    flags: Seq<bool>,
    at: Moment,
    now: Seq<char>,
    k: int,
    j: int,
)
    requires
        opens_at(st, s.id, k),
        entitled(st, s, j, k, flags),
    ensures
        ({
            let (after, closed) = source_advanced(st, s, flags, at, now);
            &&& closed == Some(
                CycleModel { status: "closed"@, ends_at: Some(at), ..st.cycles[k] },
            )
            &&& holds_target(after.offsets, s.id, s.destinations[j].id, st.cycles[k].id)
        }),
{
    let id = s.destinations[j].id;
    let n = s.destinations.len() as int;
    lemma_opens_at(st, s.id, k);
    lemma_entitled(st, s, j, k, flags, now);
    assert(is_due(st, s, flags, now, id, n)) by {
        assert(s.destinations[j].id == id);
    }
    due_destinations_get_the_closed_cycle(st, s, flags, at, now, s.id, id);
    let (after, closed) = source_advanced(st, s, flags, at, now);
    lemma_row_index(after.offsets, s.id, id);
    let row = offset_row(after.offsets, s.id, id)->0;
    let i = choose|i: int| #[trigger] row_at(after.offsets, i, s.id, id) && after.offsets[i] == row;
    assert(after.offsets[i].target_cycle_id == Some(st.cycles[k].id));
}

/// Giving a destination a target changes no row but its own, and of that only the target, the
/// status and its time.
proof fn lemma_target_rows(
    st: StateModel,
    source_id: Seq<char>,
    destination_id: Seq<char>,
    target: i64,
    now: Seq<char>,
    i: int,
)
    requires
        0 <= i < st.offsets.len(),
    ensures
        ({
            let after = target_set(st, source_id, destination_id, target, now);
            let a = after.offsets[i];
            let b = st.offsets[i];
            &&& i < after.offsets.len()
            &&& a.source_id == b.source_id
            &&& a.destination_id == b.destination_id
            &&& a.last_completed_cycle_id == b.last_completed_cycle_id
            &&& a.last_verified_cycle_id == b.last_verified_cycle_id
            &&& a.verified_snapshot == b.verified_snapshot
            &&& a.verified_dst_snapshot == b.verified_dst_snapshot
            &&& a == b || row_at(st.offsets, i, source_id, destination_id)
        }),
{
    let test = row_of(source_id, destination_id);
    lemma_first_where(st.offsets, test);
    let k = first_where(st.offsets, test);
    if k < st.offsets.len() {
        assert(test(st.offsets[k]));
    }
}

/// Giving destinations targets changes no rows but theirs.
proof fn lemma_targets_rows(
    st: StateModel,
    source_id: Seq<char>,
    ids: Seq<Seq<char>>,
    target: i64,
    now: Seq<char>,
    i: int,
)
    requires
        0 <= i < st.offsets.len(),
    ensures
        ({
            let after = targets_set(st, source_id, ids, target, now);
            let a = after.offsets[i];
            let b = st.offsets[i];
            &&& i < after.offsets.len()
            &&& a.source_id == b.source_id
            &&& a.destination_id == b.destination_id
            &&& a.last_completed_cycle_id == b.last_completed_cycle_id
            &&& a.last_verified_cycle_id == b.last_verified_cycle_id
            &&& a.verified_snapshot == b.verified_snapshot
            &&& a.verified_dst_snapshot == b.verified_dst_snapshot
            &&& a == b || (b.source_id == source_id && ids.contains(b.destination_id))
        }),
    decreases ids.len(),
{
    if ids.len() > 0 {
        let fewer = ids.drop_last();
        lemma_targets_rows(st, source_id, fewer, target, now, i);
        let mid = targets_set(st, source_id, fewer, target, now);
        lemma_target_rows(mid, source_id, ids.last(), target, now, i);
        let b = st.offsets[i];
        if fewer.contains(b.destination_id) {
            let m = choose|m: int| 0 <= m < fewer.len() && fewer[m] == b.destination_id;
            assert(ids[m] == b.destination_id);
        }
        assert(ids[ids.len() - 1] == ids.last());
    }
}

/// Advancing a source leaves every row alone that is not of one of its destinations that are
/// entitled to the open cycle; and in no row does it change what was verified.
pub proof fn other_rows_are_left_alone(
    st: StateModel,
    s: SourceGroupConfigModel,
    flags: Seq<bool>,
    at: Moment,
    now: Seq<char>,
    k: int,
    i: int,
)
    requires
        opens_at(st, s.id, k),
        keyed_once(st.offsets),
        0 <= i < st.offsets.len(),
    ensures
        ({
            let after = source_advanced(st, s, flags, at, now).0;
            let a = after.offsets[i];
            let b = st.offsets[i];
            &&& i < after.offsets.len()
            &&& a.source_id == b.source_id
            &&& a.destination_id == b.destination_id
            &&& a.last_completed_cycle_id == b.last_completed_cycle_id
            &&& a.last_verified_cycle_id == b.last_verified_cycle_id
            &&& a != b ==> b.source_id == s.id && exists|j: int|
                entitled(st, s, j, k, flags) && #[trigger] s.destinations[j].id == b.destination_id
        }),
{
    lemma_opens_at(st, s.id, k);
    let c = st.cycles[k];
    let n = s.destinations.len() as int;
    let ids = due_ids(st, s, has_actionable(st, c.id), flags, now, n);
    let shut = closed_state(st, s.id, at);
    let cleared = if !c.needs_full_rescan && all_realtime(s, ids) {
        with_change(shut, c.id, ChangeModel::ClearRescan)
    } else {
        shut
    };
    assert(cleared.offsets == st.offsets);
    lemma_targets_rows(cleared, s.id, ids, c.id, now, i);
    let b = st.offsets[i];
    lemma_due_ids(st, s, flags, now, b.destination_id, n);
    if is_due(st, s, flags, now, b.destination_id, n) {
        let j = choose|j: int|
            0 <= j < n && (#[trigger] s.destinations[j]).id == b.destination_id
                && destination_is_due(
                s.destinations[j],
                row_or_blank(st.offsets, s.id, b.destination_id, now),
                has_actionable(st, open_cycle(st, s.id)->0.id),
                flag_at(flags, j),
            );
        lemma_entitled(st, s, j, k, flags, now);
        assert(entitled(st, s, j, k, flags) && s.destinations[j].id == b.destination_id);
    }
}

/// The open cycle of a source is closed just where a destination is entitled to it, or where there
/// is work and the source is quiet; another one is opened then, with the next identifier. Otherwise
/// nothing happens.
pub proof fn cycles_are_closed_for_a_reason(
    st: StateModel,
    s: SourceGroupConfigModel,
    flags: Seq<bool>,
    at: Moment,
    now: Seq<char>,
    k: int,
)
    requires
        opens_at(st, s.id, k),
        keyed_once(st.offsets),
        cycles_in_order(st),
        st.next_cycle >= 0,
        fits(source_advanced(st, s, flags, at, now).0),
    ensures
        ({
            let (after, closed) = source_advanced(st, s, flags, at, now);
            let asked = exists|j: int| entitled(st, s, j, k, flags);
            let idle = has_work(st, st.cycles[k].id) && quiesced(st, s.id, at);
            &&& closed is Some == (asked || idle)
            &&& closed is None ==> after == st
            &&& closed is Some ==> {
                let n = st.cycles.len() as int;
                &&& after.cycles.len() == n + 1
                &&& after.cycles[k].id == st.cycles[k].id
                &&& after.cycles[k].source_id == s.id
                &&& after.cycles[k].starts_at == st.cycles[k].starts_at
                &&& after.cycles[k].status == "closed"@
                &&& after.cycles[k].ends_at == Some(at)
                &&& after.cycles[k].needs_full_rescan == st.cycles[k].needs_full_rescan
                &&& after.cycles[k].manual_full_rescan == st.cycles[k].manual_full_rescan
                &&& after.cycles[n].id == st.next_cycle
                &&& after.cycles[n].source_id == s.id
                &&& after.cycles[n].status == "open"@
                &&& after.cycles[n].starts_at == at
                &&& forall|i: int|
                    0 <= i < n && i != k ==> (#[trigger] after.cycles[i]) == st.cycles[i]
            }
        }),
{
    lemma_opens_at(st, s.id, k);
    let c = st.cycles[k];
    let n = s.destinations.len() as int;
    let has = has_actionable(st, c.id);
    let ids = due_ids(st, s, has, flags, now, n);
    let (after, closed) = source_advanced(st, s, flags, at, now);
    assert(has == has_work(st, c.id));
    if ids.len() > 0 {
        let id = ids[0];
        assert(ids.contains(id));
        lemma_due_ids(st, s, flags, now, id, n);
        let j = choose|j: int|
            0 <= j < n && (#[trigger] s.destinations[j]).id == id && destination_is_due(
                s.destinations[j],
                row_or_blank(st.offsets, s.id, id, now),
                has,
                flag_at(flags, j),
            );
        lemma_entitled(st, s, j, k, flags, now);
        assert(entitled(st, s, j, k, flags));
    }
    if exists|j: int| entitled(st, s, j, k, flags) {
        let j = choose|j: int| entitled(st, s, j, k, flags);
        lemma_entitled(st, s, j, k, flags, now);
        let id = s.destinations[j].id;
        assert(is_due(st, s, flags, now, id, n)) by {
            assert(s.destinations[j].id == id);
        }
        lemma_due_ids(st, s, flags, now, id, n);
    }
    if closed is Some {
        lemma_advanced_cycles(st, s, flags, at, now, k);
    }
}

/// What the cycles are once a source was advanced and its open cycle closed.
proof fn lemma_advanced_cycles(
    st: StateModel,
    s: SourceGroupConfigModel,
    flags: Seq<bool>,
    at: Moment,
    now: Seq<char>,
    k: int,
)
    requires
        opens_at(st, s.id, k),
        cycles_in_order(st),
        st.next_cycle >= 0,
        fits(source_advanced(st, s, flags, at, now).0),
        source_advanced(st, s, flags, at, now).1 is Some,
    ensures
        ({
            let after = source_advanced(st, s, flags, at, now).0;
            let n = st.cycles.len() as int;
            &&& after.cycles.len() == n + 1
            &&& after.next_cycle == st.next_cycle + 1
            &&& after.cycles[k].id == st.cycles[k].id
            &&& after.cycles[k].source_id == s.id
            &&& after.cycles[k].starts_at == st.cycles[k].starts_at
            &&& after.cycles[k].needs_full_rescan == st.cycles[k].needs_full_rescan
            &&& after.cycles[k].manual_full_rescan == st.cycles[k].manual_full_rescan
            &&& after.cycles[k].status == "closed"@
            &&& after.cycles[k].ends_at == Some(at)
            &&& after.cycles[n].id == st.next_cycle
            &&& after.cycles[n].source_id == s.id
            &&& after.cycles[n].status == "open"@
            &&& after.cycles[n].starts_at == at
            &&& forall|i: int|
                0 <= i < n && i != k ==> (#[trigger] after.cycles[i]) == st.cycles[i]
        }),
{
    lemma_opens_at(st, s.id, k);
    let c = st.cycles[k];
    let ids = due_ids(st, s, has_actionable(st, c.id), flags, now, s.destinations.len() as int);
    let after = source_advanced(st, s, flags, at, now).0;
    lemma_advanced_fits(st, s, flags, at, now);
    lemma_closed_cycles(st, s.id, at, k);
    let shut = closed_state(st, s.id, at);
    let cleared = if !c.needs_full_rescan && all_realtime(s, ids) {
        with_change(shut, c.id, ChangeModel::ClearRescan)
    } else {
        shut
    };
    lemma_targets_keep_cycles(cleared, s.id, ids, c.id, now);
    let m = st.cycles.len() as int;
    assert forall|i: int| 0 <= i <= m && i != k implies (#[trigger] shut.cycles[i]).id != c.id by {
        if i < k {
            assert(st.cycles[i].id < st.cycles[k].id);
        } else if i < m {
            assert(st.cycles[k].id < st.cycles[i].id);
        } else {
            assert(st.cycles[k].id < st.next_cycle);
        }
    }
    if ids.len() > 0 {
        assert(after.cycles == cleared.cycles);
    }
    assert forall|i: int| 0 <= i < m && i != k implies (#[trigger] after.cycles[i])
        == st.cycles[i] by {
        assert(shut.cycles[i] == st.cycles[i]);
    }
    assert(shut.cycles[m].id != c.id);
}

/// What the cycles are once the open one of a source was closed, in a state whose cycles are in
/// order.
proof fn lemma_closed_cycles(st: StateModel, source_id: Seq<char>, at: Moment, k: int)
    requires
        opens_at(st, source_id, k),
        cycles_in_order(st),
        can_close(st, source_id),
        0 <= st.next_cycle,
    ensures
        ({
            let shut = closed_state(st, source_id, at);
            let n = st.cycles.len() as int;
            &&& shut.cycles.len() == n + 1
            &&& shut.next_cycle == st.next_cycle + 1
            &&& shut.cycles[k] == CycleModel {
                status: "closed"@,
                ends_at: Some(at),
                ..st.cycles[k]
            }
            &&& shut.cycles[n] == fresh_cycle(st.next_cycle, source_id, at)
            &&& st.next_cycle as i64 == st.next_cycle
            &&& forall|i: int| 0 <= i < n && i != k ==> (#[trigger] shut.cycles[i]) == st.cycles[i]
        }),
{
    lemma_opens_at(st, source_id, k);
    closing_keeps_order(st, source_id, at);
    let c = st.cycles[k];
    let n = st.cycles.len() as int;
    let shut = StateModel {
        cycles: changed_where(st.cycles, open_with_id(c.id), closing(at)),
        ..st
    };
    assert forall|i: int| 0 <= i < n && i != k implies (#[trigger] shut.cycles[i]) == st.cycles[i] by {
        if i < k {
            assert(st.cycles[i].id < st.cycles[k].id);
        } else {
            assert(st.cycles[k].id < st.cycles[i].id);
        }
    }
    let next = reopened(st, source_id, at);
    assert(next == opened(shut, source_id, at));
    if open_cycle(shut, source_id) is Some {
        let m = lemma_open_index(shut, source_id);
        assert(m < n);
        reveal_strlit("open");
        reveal_strlit("closed");
        assert("closed"@.len() != "open"@.len());
        assert(m != k);
        if m < k {
            assert(st.cycles[m].status == "open"@ && st.cycles[k].status == "open"@);
        } else {
            assert(st.cycles[m].source_id != source_id || st.cycles[m].status != "open"@);
        }
        assert(false);
    }
}

/// Closing the cycle at an index and adding an open one behind all others leaves the cycles in order
/// and the open cycles of other sources alone.
proof fn lemma_step_keeps(
    st: StateModel,
    after: StateModel,
    source_id: Seq<char>,
    k: int,
    other: Seq<char>,
)
    requires
        opens_at(st, source_id, k),
        cycles_in_order(st),
        st.next_cycle >= 0,
        fits(after),
        other != source_id,
        ({
            let n = st.cycles.len() as int;
            &&& after.cycles.len() == n + 1
            &&& after.next_cycle == st.next_cycle + 1
            &&& after.cycles[k].id == st.cycles[k].id
            &&& after.cycles[k].source_id == source_id
            &&& after.cycles[k].status == "closed"@
            &&& after.cycles[n].id == st.next_cycle
            &&& after.cycles[n].source_id == source_id
            &&& after.cycles[n].status == "open"@
            &&& forall|i: int|
                0 <= i < n && i != k ==> (#[trigger] after.cycles[i]) == st.cycles[i]
        }),
    ensures
        cycles_in_order(after),
        open_cycle(after, other) == open_cycle(st, other),
{
    let n = st.cycles.len() as int;
    reveal_strlit("open");
    reveal_strlit("closed");
    assert("closed"@.len() != "open"@.len());
    assert forall|i: int| 0 <= i < after.cycles.len() implies (#[trigger] after.cycles[i]).id
        < after.next_cycle by {
        if i < n {
            assert(st.cycles[i].id < st.next_cycle);
            assert(after.cycles[i].id == st.cycles[i].id);
        }
    }
    assert forall|i: int, j: int| 0 <= i < j < after.cycles.len() implies (
    #[trigger] after.cycles[i]).id < (#[trigger] after.cycles[j]).id by {
        assert(after.cycles[i].id == st.cycles[i].id);
        assert(st.cycles[i].id < st.next_cycle);
        if j < n {
            assert(after.cycles[j].id == st.cycles[j].id);
            assert(st.cycles[i].id < st.cycles[j].id);
        }
    }
    assert forall|i: int, j: int|
        #![trigger after.cycles[i], after.cycles[j]]
        0 <= i < j < after.cycles.len() && after.cycles[i].source_id
            == after.cycles[j].source_id implies !(after.cycles[i].status == "open"@
        && after.cycles[j].status == "open"@) by {
        if i != k && j != k {
            assert(after.cycles[i] == st.cycles[i]);
            if j < n {
                assert(after.cycles[j] == st.cycles[j]);
                assert(st.cycles[i].source_id == st.cycles[j].source_id);
            } else if st.cycles[i].source_id == source_id {
                if i < k {
                    assert(st.cycles[i].source_id == st.cycles[k].source_id);
                } else {
                    assert(st.cycles[i].status != "open"@);
                }
            }
        }
    }
    let test = open_of(other);
    let m = last_where(st.cycles, test);
    lemma_last_where(st.cycles, test);
    if m >= 0 {
        assert(test(st.cycles[m]));
        assert(m != k);
        assert(after.cycles[m] == st.cycles[m]);
    }
    assert forall|j: int| m < j < after.cycles.len() implies !test(#[trigger] after.cycles[j]) by {
        if j < n && j != k {
            assert(after.cycles[j] == st.cycles[j]);
            assert(!test(st.cycles[j]));
        }
    }
    lemma_last_where_is(after.cycles, test, m);
}

/// Giving destinations targets leaves events and what is remembered of sources alone.
proof fn lemma_targets_keep_events(
    st: StateModel,
    source_id: Seq<char>,
    ids: Seq<Seq<char>>,
    target: i64,
    now: Seq<char>,
)
    ensures
        targets_set(st, source_id, ids, target, now).events == st.events,
        targets_set(st, source_id, ids, target, now).metas == st.metas,
    decreases ids.len(),
{
    if ids.len() > 0 {
        lemma_targets_keep_events(st, source_id, ids.drop_last(), target, now);
    }
}

/// Advancing a source leaves the open cycles and the rows of other sources alone, and all events.
proof fn lemma_advance_keeps(
    st: StateModel,
    s: SourceGroupConfigModel,
    flags: Seq<bool>,
    at: Moment,
    now: Seq<char>,
    other: Seq<char>,
    id: Seq<char>,
)
    requires
        cycles_in_order(st),
        st.next_cycle >= 0,
        fits(source_advanced(st, s, flags, at, now).0),
        s.id != other,
    ensures
        ({
            let after = source_advanced(st, s, flags, at, now).0;
            &&& cycles_in_order(after)
            &&& after.next_cycle >= st.next_cycle
            &&& open_cycle(after, other) == open_cycle(st, other)
            &&& offset_row(after.offsets, other, id) == offset_row(st.offsets, other, id)
            &&& after.events == st.events
        }),
{
    if open_cycle(st, s.id) is Some {
        let k = lemma_open_index(st, s.id);
        let c = st.cycles[k];
        let (after, closed) = source_advanced(st, s, flags, at, now);
        lemma_advanced_fits(st, s, flags, at, now);
        due_destinations_get_the_closed_cycle(st, s, flags, at, now, other, id);
        let ids = due_ids(st, s, has_actionable(st, c.id), flags, now, s.destinations.len() as int);
        let shut = closed_state(st, s.id, at);
        lemma_targets_keep_events(shut, s.id, ids, c.id, now);
        lemma_targets_keep_events(
            with_change(shut, c.id, ChangeModel::ClearRescan),
            s.id,
            ids,
            c.id,
            now,
        );
        if closed is Some {
            lemma_advanced_cycles(st, s, flags, at, now, k);
            lemma_step_keeps(st, after, s.id, k, other);
        }
    }
}

/// The same source keeps its cycles in order.
proof fn lemma_advance_keeps_order(
    st: StateModel,
    s: SourceGroupConfigModel,
    flags: Seq<bool>,
    at: Moment,
    now: Seq<char>,
)
    requires
        cycles_in_order(st),
        st.next_cycle >= 0,
        fits(source_advanced(st, s, flags, at, now).0),
    ensures
        cycles_in_order(source_advanced(st, s, flags, at, now).0),
        source_advanced(st, s, flags, at, now).0.next_cycle >= st.next_cycle,
        source_advanced(st, s, flags, at, now).0.events == st.events,
{
    let other = s.id.push('x');
    assert(other.len() != s.id.len());
    lemma_advance_keeps(st, s, flags, at, now, other, s.id);
}

/// Advancing sources never gives identifiers back, keeps the cycles in order, and leaves a source
/// alone that is not among those that are switched on.
proof fn lemma_advances_keep(
    st: StateModel,
    ss: Seq<SourceGroupConfigModel>,
    due: Seq<Seq<bool>>,
    at: Moment,
    now: Seq<char>,
    other: Seq<char>,
    id: Seq<char>,
)
    requires
        cycles_in_order(st),
        st.next_cycle >= 0,
        fits(sources_advanced(st, ss, due, at, now).0),
        due.len() == ss.len(),
    ensures
        ({
            let after = sources_advanced(st, ss, due, at, now).0;
            &&& cycles_in_order(after)
            &&& after.next_cycle >= st.next_cycle
            &&& after.events == st.events
            &&& (forall|i: int| 0 <= i < ss.len() ==> (#[trigger] ss[i]).id != other || !ss[i].enabled)
                ==> open_cycle(after, other) == open_cycle(st, other) && offset_row(
                after.offsets,
                other,
                id,
            ) == offset_row(st.offsets, other, id)
        }),
    decreases ss.len(),
{
    if ss.len() > 0 {
        let fewer = ss.drop_last();
        let before = sources_advanced(st, fewer, due.drop_last(), at, now).0;
        let s = ss.last();
        if s.enabled {
            lemma_advanced_fits(before, s, due.last(), at, now);
        }
        lemma_advances_keep(st, fewer, due.drop_last(), at, now, other, id);
        if s.enabled {
            lemma_advance_keeps_order(before, s, due.last(), at, now);
            if s.id != other {
                lemma_advance_keeps(before, s, due.last(), at, now, other, id);
            }
        }
        if forall|i: int| 0 <= i < ss.len() ==> (#[trigger] ss[i]).id != other || !ss[i].enabled {
            assert forall|i: int| 0 <= i < fewer.len() implies (#[trigger] fewer[i]).id != other
                || !fewer[i].enabled by {
                assert(fewer[i] == ss[i]);
            }
            assert(ss[ss.len() - 1].id != other || !ss[ss.len() - 1].enabled);
        }
    }
}

/// Whether a source is switched on and the only one of its name that is.
pub open spec fn stands_alone(ss: Seq<SourceGroupConfigModel>, i: int) -> bool {
    &&& 0 <= i < ss.len()
    &&& ss[i].enabled
    &&& forall|m: int|
        0 <= m < ss.len() && m != i ==> (#[trigger] ss[m]).id != ss[i].id || !ss[m].enabled
}

/// Whether the rows of a destination are the same in two states.
proof fn lemma_same_row_same_claims(a: StateModel, b: StateModel, s: SourceGroupConfigModel, j: int, k: int, l: int, flags: Seq<bool>)
    requires
        entitled(a, s, j, k, flags),
        opens_at(a, s.id, k),
        opens_at(b, s.id, l),
        a.cycles[k] == b.cycles[l],
        a.events == b.events,
        keyed_once(a.offsets),
        offset_row(a.offsets, s.id, s.destinations[j].id) == offset_row(
            b.offsets,
            s.id,
            s.destinations[j].id,
        ),
    ensures
        destination_is_due(
            s.destinations[j],
            row_or_blank(b.offsets, s.id, s.destinations[j].id, Seq::empty()),
            has_actionable(b, b.cycles[l].id),
            flag_at(flags, j),
        ),
{
    lemma_entitled(a, s, j, k, flags, Seq::empty());
}

/// Once all sources were advanced, every destination of a source that stands alone has the cycle
/// that was open as its target, if it was entitled to it.
pub proof fn entitled_destinations_of_all_sources_get_their_cycles(
    st: StateModel,
    ss: Seq<SourceGroupConfigModel>,
    due: Seq<Seq<bool>>,
    at: Moment,
    now: Seq<char>,
    i: int,
    j: int,
    k: int,
)
    requires
        cycles_in_order(st),
        st.next_cycle >= 0,
        keyed_once(st.offsets),
        due.len() == ss.len(),
        fits(sources_advanced(st, ss, due, at, now).0),
        stands_alone(ss, i),
        opens_at(st, ss[i].id, k),
        entitled(st, ss[i], j, k, due[i]),
    ensures
        holds_target(
            sources_advanced(st, ss, due, at, now).0.offsets,
            ss[i].id,
            ss[i].destinations[j].id,
            st.cycles[k].id,
        ),
{
    lemma_entitled_row(st, ss, due, at, now, i, j, k);
    let after = sources_advanced(st, ss, due, at, now).0;
    let id = ss[i].destinations[j].id;
    lemma_row_index(after.offsets, ss[i].id, id);
    let row = offset_row(after.offsets, ss[i].id, id)->0;
    let m = choose|m: int| #[trigger]
        row_at(after.offsets, m, ss[i].id, id) && after.offsets[m] == row;
    assert(after.offsets[m].target_cycle_id == Some(st.cycles[k].id));
}

proof fn lemma_entitled_row(
    st: StateModel,
    ss: Seq<SourceGroupConfigModel>,
    due: Seq<Seq<bool>>,
    at: Moment,
    now: Seq<char>,
    i: int,
    j: int,
    k: int,
)
    requires
        cycles_in_order(st),
        st.next_cycle >= 0,
        keyed_once(st.offsets),
        due.len() == ss.len(),
        fits(sources_advanced(st, ss, due, at, now).0),
        stands_alone(ss, i),
        opens_at(st, ss[i].id, k),
        entitled(st, ss[i], j, k, due[i]),
    ensures
        ({
            let row = offset_row(
                sources_advanced(st, ss, due, at, now).0.offsets,
                ss[i].id,
                ss[i].destinations[j].id,
            );
            row is Some && row->0.target_cycle_id == Some(st.cycles[k].id)
        }),
    decreases ss.len(),
{
    let n = ss.len() - 1;
    let fewer = ss.drop_last();
    let before = sources_advanced(st, fewer, due.drop_last(), at, now).0;
    let s = ss.last();
    let x = ss[i].id;
    let id = ss[i].destinations[j].id;
    if s.enabled {
        lemma_advanced_fits(before, s, due.last(), at, now);
    }
    lemma_advances_keep(st, fewer, due.drop_last(), at, now, x, id);
    if i == n {
        assert forall|m: int| 0 <= m < fewer.len() implies (#[trigger] fewer[m]).id != x
            || !fewer[m].enabled by {
            assert(fewer[m] == ss[m]);
        }
        lemma_opens_at(st, x, k);
        let l = lemma_open_index(before, x);
        lemma_same_row_same_claims(st, before, s, j, k, l, due.last());
        assert(is_due(before, s, due.last(), now, id, s.destinations.len() as int)) by {
            assert(s.destinations[j].id == id);
            lemma_blank_rows(before.offsets, x, id, now);
        }
        due_destinations_get_the_closed_cycle(before, s, due.last(), at, now, x, id);
    } else {
        assert(stands_alone(fewer, i)) by {
            assert forall|m: int| 0 <= m < fewer.len() && m != i implies (#[trigger] fewer[m]).id
                != fewer[i].id || !fewer[m].enabled by {
                assert(fewer[m] == ss[m]);
            }
        }
        assert(due.drop_last()[i] == due[i]);
        lemma_entitled_row(st, fewer, due.drop_last(), at, now, i, j, k);
        if s.enabled {
            assert(ss[n].id != ss[i].id || !ss[n].enabled);
            lemma_advance_keeps(before, s, due.last(), at, now, x, id);
        }
    }
}

/// Whether a destination is due does not depend on when a blank row would have been made for it.
proof fn lemma_blank_rows(
    rows: Seq<OffsetRowModel>,
    source_id: Seq<char>,
    id: Seq<char>,
    now: Seq<char>,
)
    ensures
        row_or_blank(rows, source_id, id, now).target_cycle_id == row_or_blank(
            rows,
            source_id,
            id,
            Seq::empty(),
        ).target_cycle_id,
        row_or_blank(rows, source_id, id, now).last_verified_cycle_id == row_or_blank(
            rows,
            source_id,
            id,
            Seq::empty(),
        ).last_verified_cycle_id,
{
}

/// What the schedule says of a destination is said of the cycle that was open when the sources were
/// advanced, for a source that stands alone.
proof fn lemma_flag_verdict(
    st: StateModel,
    ss: Seq<SourceGroupConfigModel>,
    due: Seq<Seq<bool>>,
    at: Moment,
    now: Seq<char>,
    i: int,
    j: int,
    k: int,
)
    requires
        cycles_in_order(st),
        st.next_cycle >= 0,
        due.len() == ss.len(),
        due_follows_schedules(st, ss, due, at, now),
        fits(sources_advanced(st, ss, due, at, now).0),
        stands_alone(ss, i),
        opens_at(st, ss[i].id, k),
        0 <= j < ss[i].destinations.len(),
    ensures
        due[i].len() == ss[i].destinations.len(),
        due_verdict(due[i][j], st.cycles[k].starts_at, at, ss[i].destinations[j].schedule),
    decreases ss.len(),
{
    let n = ss.len() - 1;
    let fewer = ss.drop_last();
    let before = sources_advanced(st, fewer, due.drop_last(), at, now).0;
    let s = ss.last();
    let x = ss[i].id;
    if s.enabled {
        lemma_advanced_fits(before, s, due.last(), at, now);
    }
    lemma_advances_keep(st, fewer, due.drop_last(), at, now, x, x);
    if i == n {
        assert forall|m: int| 0 <= m < fewer.len() implies (#[trigger] fewer[m]).id != x
            || !fewer[m].enabled by {
            assert(fewer[m] == ss[m]);
        }
        lemma_opens_at(st, x, k);
        assert(flags_follow_schedules(before, s, due.last(), at));
        assert(due_verdict(
            due.last()[j],
            open_cycle(before, x)->0.starts_at,
            at,
            s.destinations[j].schedule,
        ));
    } else {
        assert(stands_alone(fewer, i)) by {
            assert forall|m: int| 0 <= m < fewer.len() && m != i implies (#[trigger] fewer[m]).id
                != fewer[i].id || !fewer[m].enabled by {
                assert(fewer[m] == ss[m]);
            }
        }
        assert(due.drop_last()[i] == due[i]);
        lemma_flag_verdict(st, fewer, due.drop_last(), at, now, i, j, k);
    }
}

/// Once the sources were advanced as the schedules say, a daily or weekly destination that is
/// switched on, not paused and caught up has the cycle that was open as its target if, in some time
/// zone, the boundary of that cycle has come or, where none could be calculated, a day has passed
/// since its start. In every time zone it has it once the longest gap between two days of a schedule
/// has passed, and at once where it was never synchronised.
pub proof fn scheduled_destinations_are_targeted_at_their_boundary(
    st: StateModel,
    ss: Seq<SourceGroupConfigModel>,
    at: Moment,
    now: Seq<char>,
    after: StateModel,
    closed: Seq<CycleModel>,
    i: int,
    j: int,
    k: int,
)
    requires
        cycles_in_order(st),
        st.next_cycle >= 0,
        keyed_once(st.offsets),
        advanced_by_schedules(st, ss, at, now, after, closed),
        fits(after),
        stands_alone(ss, i),
        opens_at(st, ss[i].id, k),
        0 <= j < ss[i].destinations.len(),
        ss[i].destinations[j].schedule.mode != ScheduleMode::Realtime,
        ss[i].destinations[j].enabled,
        !ss[i].destinations[j].paused,
        caught_up(st.offsets, ss[i].id, ss[i].destinations[j].id),
    ensures
        ({
            let d = ss[i].destinations[j];
            let start = st.cycles[k].starts_at;
            let given = holds_target(after.offsets, ss[i].id, d.id, st.cycles[k].id);
            &&& exists|b: Result<Moment, BoundaryErrorModel>| #[trigger]
                possible_boundary(b, start, d.schedule) && (ended_by(had(b), start, at) ==> given)
            &&& never_synced(st.offsets, ss[i].id, d.id) ==> given
            &&& passed(start, at, 17 * DAY_SECS) ==> given
        }),
{
    let due = choose|due: Seq<Seq<bool>>| #[trigger]
        advanced_by(st, ss, due, at, now, after, closed);
    let d = ss[i].destinations[j];
    let start = st.cycles[k].starts_at;
    lemma_flag_verdict(st, ss, due, at, now, i, j, k);
    let b = choose|b: Result<Moment, BoundaryErrorModel>| #[trigger]
        possible_boundary(b, start, d.schedule) && due[i][j] == ended_by(had(b), start, at);
    cycles_end_in_time(due[i][j], start, at, d.schedule);
    if due[i][j] || never_synced(st.offsets, ss[i].id, d.id) {
        entitled_destinations_of_all_sources_get_their_cycles(st, ss, due, at, now, i, j, k);
    }
    assert(possible_boundary(b, start, d.schedule));
}

/// Once the sources were advanced, a realtime destination that is switched on, not paused and caught
/// up has the cycle that was open as its target if that cycle has work, or if the destination was
/// never synchronised.
pub proof fn realtime_destinations_are_targeted_when_there_is_work(
    st: StateModel,
    ss: Seq<SourceGroupConfigModel>,
    at: Moment,
    now: Seq<char>,
    after: StateModel,
    closed: Seq<CycleModel>,
    i: int,
    j: int,
    k: int,
)
    requires
        cycles_in_order(st),
        st.next_cycle >= 0,
        keyed_once(st.offsets),
        advanced_by_schedules(st, ss, at, now, after, closed),
        fits(after),
        stands_alone(ss, i),
        opens_at(st, ss[i].id, k),
        0 <= j < ss[i].destinations.len(),
        ss[i].destinations[j].schedule.mode == ScheduleMode::Realtime,
        ss[i].destinations[j].enabled,
        !ss[i].destinations[j].paused,
        caught_up(st.offsets, ss[i].id, ss[i].destinations[j].id),
        has_work(st, st.cycles[k].id) || never_synced(
            st.offsets,
            ss[i].id,
            ss[i].destinations[j].id,
        ),
    ensures
        holds_target(after.offsets, ss[i].id, ss[i].destinations[j].id, st.cycles[k].id),
{
    let due = choose|due: Seq<Seq<bool>>| #[trigger]
        advanced_by(st, ss, due, at, now, after, closed);
    entitled_destinations_of_all_sources_get_their_cycles(st, ss, due, at, now, i, j, k);
}

/// A destination that is switched on and not paused is among those that receive work.
proof fn lemma_working_listed(s: SourceGroupConfigModel, j: int, n: int)
    requires
        0 <= j < n <= s.destinations.len(),
        s.destinations[j].enabled,
        !s.destinations[j].paused,
    ensures
        working_ids(s, n).contains(s.destinations[j].id),
    decreases n,
{
    let all = working_ids(s, n);
    if j == n - 1 {
        assert(all[all.len() - 1] == s.destinations[j].id);
    } else {
        lemma_working_listed(s, j, n - 1);
        let before = working_ids(s, n - 1);
        let m = choose|m: int| 0 <= m < before.len() && before[m] == s.destinations[j].id;
        assert(all[m] == before[m]);
    }
}

/// The destinations that receive work are switched on and not paused.
proof fn lemma_listed_working(s: SourceGroupConfigModel, id: Seq<char>, n: int)
    requires
        0 <= n <= s.destinations.len(),
        working_ids(s, n).contains(id),
    ensures
        exists|j: int|
            0 <= j < n && (#[trigger] s.destinations[j]).id == id && s.destinations[j].enabled
                && !s.destinations[j].paused,
    decreases n,
{
    let all = working_ids(s, n);
    let m = choose|m: int| 0 <= m < all.len() && all[m] == id;
    if n > 0 {
        let before = working_ids(s, n - 1);
        if m < before.len() {
            assert(before[m] == id);
            lemma_listed_working(s, id, n - 1);
            let j = choose|j: int|
                0 <= j < n - 1 && (#[trigger] s.destinations[j]).id == id
                    && s.destinations[j].enabled && !s.destinations[j].paused;
            assert(s.destinations[j].id == id);
        } else {
            assert(s.destinations[n - 1].id == id);
        }
    }
}

/// What a source that is synchronised now has in the row of a destination that receives work.
proof fn lemma_forced_row(
    st: StateModel,
    s: SourceGroupConfigModel,
    at: Moment,
    now: Seq<char>,
    j: int,
)
    requires
        open_cycle(st, s.id) is Some,
        0 <= j < s.destinations.len(),
        s.destinations[j].enabled,
        !s.destinations[j].paused,
    ensures
        ({
            let row = offset_row(
                source_forced(st, s, at, now).0.offsets,
                s.id,
                s.destinations[j].id,
            );
            row is Some && row->0.target_cycle_id == Some(open_cycle(st, s.id)->0.id)
        }),
{
    let n = s.destinations.len() as int;
    lemma_working_listed(s, j, n);
    lemma_targets_set_row(
        closed_state(st, s.id, at),
        s.id,
        working_ids(s, n),
        open_cycle(st, s.id)->0.id,
        now,
        s.id,
        s.destinations[j].id,
    );
}

/// A row that is found stands among the rows.
proof fn lemma_found_target(
    rows: Seq<OffsetRowModel>,
    source_id: Seq<char>,
    id: Seq<char>,
    target: i64,
)
    requires
        offset_row(rows, source_id, id) is Some,
        offset_row(rows, source_id, id)->0.target_cycle_id == Some(target),
    ensures
        holds_target(rows, source_id, id, target),
{
    lemma_row_index(rows, source_id, id);
    let row = offset_row(rows, source_id, id)->0;
    let i = choose|i: int| #[trigger] row_at(rows, i, source_id, id) && rows[i] == row;
    assert(rows[i].target_cycle_id == Some(target));
}

/// When a source is to be synchronised now, its open cycle is closed and becomes the target of every
/// one of its destinations that is switched on and not paused.
pub proof fn forcing_targets_every_working_destination(
    st: StateModel,
    s: SourceGroupConfigModel,
    at: Moment,
    now: Seq<char>,
    k: int,
    j: int,
)
    requires
        opens_at(st, s.id, k),
        0 <= j < s.destinations.len(),
        s.destinations[j].enabled,
        !s.destinations[j].paused,
    ensures
        ({
            let (after, closed) = source_forced(st, s, at, now);
            &&& closed == Some(
                CycleModel { status: "closed"@, ends_at: Some(at), ..st.cycles[k] },
            )
            &&& holds_target(after.offsets, s.id, s.destinations[j].id, st.cycles[k].id)
        }),
{
    lemma_opens_at(st, s.id, k);
    lemma_forced_row(st, s, at, now, j);
    lemma_found_target(
        source_forced(st, s, at, now).0.offsets,
        s.id,
        s.destinations[j].id,
        st.cycles[k].id,
    );
}

/// When a source is to be synchronised now, no row changes but those of its destinations that are
/// switched on and not paused, and in no row what was verified.
pub proof fn forcing_changes_no_other_row(
    st: StateModel,
    s: SourceGroupConfigModel,
    at: Moment,
    now: Seq<char>,
    i: int,
)
    requires
        0 <= i < st.offsets.len(),
    ensures
        ({
            let after = source_forced(st, s, at, now).0;
            let a = after.offsets[i];
            let b = st.offsets[i];
            &&& i < after.offsets.len()
            &&& a.source_id == b.source_id
            &&& a.destination_id == b.destination_id
            &&& a.last_completed_cycle_id == b.last_completed_cycle_id
            &&& a.last_verified_cycle_id == b.last_verified_cycle_id
            &&& a != b ==> b.source_id == s.id && exists|j: int|
                0 <= j < s.destinations.len() && (#[trigger] s.destinations[j]).id
                    == b.destination_id && s.destinations[j].enabled && !s.destinations[j].paused
        }),
{
    if open_cycle(st, s.id) is Some {
        let n = s.destinations.len() as int;
        let shut = closed_state(st, s.id, at);
        assert(shut.offsets == st.offsets);
        let ids = working_ids(s, n);
        lemma_targets_rows(shut, s.id, ids, open_cycle(st, s.id)->0.id, now, i);
        if ids.contains(st.offsets[i].destination_id) {
            lemma_listed_working(s, st.offsets[i].destination_id, n);
        }
    }
}

/// Synchronising a source now leaves the open cycles and the rows of other sources alone.
proof fn lemma_force_keeps(
    st: StateModel,
    s: SourceGroupConfigModel,
    at: Moment,
    now: Seq<char>,
    other: Seq<char>,
    id: Seq<char>,
)
    requires
        cycles_in_order(st),
        st.next_cycle >= 0,
        fits(source_forced(st, s, at, now).0),
    ensures
        ({
            let after = source_forced(st, s, at, now).0;
            &&& cycles_in_order(after)
            &&& after.next_cycle >= st.next_cycle
            &&& s.id != other ==> open_cycle(after, other) == open_cycle(st, other) && offset_row(
                after.offsets,
                other,
                id,
            ) == offset_row(st.offsets, other, id)
        }),
{
    if open_cycle(st, s.id) is Some {
        let k = lemma_open_index(st, s.id);
        let n = s.destinations.len() as int;
        lemma_forced_fits(st, s, at, now);
        lemma_closed_cycles(st, s.id, at, k);
        let shut = closed_state(st, s.id, at);
        lemma_targets_keep_cycles(shut, s.id, working_ids(s, n), st.cycles[k].id, now);
        let after = source_forced(st, s, at, now).0;
        let y = if other == s.id {
            s.id.push('x')
        } else {
            other
        };
        assert(y != s.id) by {
            assert(s.id.push('x').len() != s.id.len());
        }
        lemma_step_keeps(st, after, s.id, k, y);
        if s.id != other {
            forcing_leaves_paused_destinations_alone(st, s, at, now, other, id);
        }
    }
}

/// Synchronising sources now leaves a source alone that is not among those that are switched on.
proof fn lemma_forces_keep(
    st: StateModel,
    ss: Seq<SourceGroupConfigModel>,
    at: Moment,
    now: Seq<char>,
    other: Seq<char>,
    id: Seq<char>,
)
    requires
        cycles_in_order(st),
        st.next_cycle >= 0,
        fits(sources_forced(st, ss, at, now).0),
    ensures
        ({
            let after = sources_forced(st, ss, at, now).0;
            &&& cycles_in_order(after)
            &&& after.next_cycle >= st.next_cycle
            &&& (forall|i: int| 0 <= i < ss.len() ==> (#[trigger] ss[i]).id != other || !ss[i].enabled)
                ==> open_cycle(after, other) == open_cycle(st, other) && offset_row(
                after.offsets,
                other,
                id,
            ) == offset_row(st.offsets, other, id)
        }),
    decreases ss.len(),
{
    if ss.len() > 0 {
        let fewer = ss.drop_last();
        let before = sources_forced(st, fewer, at, now).0;
        let s = ss.last();
        if s.enabled {
            lemma_forced_fits(before, s, at, now);
        }
        lemma_forces_keep(st, fewer, at, now, other, id);
        if s.enabled {
            lemma_force_keeps(before, s, at, now, other, id);
        }
        if forall|i: int| 0 <= i < ss.len() ==> (#[trigger] ss[i]).id != other || !ss[i].enabled {
            assert forall|i: int| 0 <= i < fewer.len() implies (#[trigger] fewer[i]).id != other
                || !fewer[i].enabled by {
                assert(fewer[i] == ss[i]);
            }
            assert(ss[ss.len() - 1].id != other || !ss[ss.len() - 1].enabled);
        }
    }
}

/// When all sources are to be synchronised now, every destination that is switched on and not paused
/// of every source that stands alone has the cycle that was open as its target.
pub proof fn forcing_all_targets_every_working_destination(
    st: StateModel,
    ss: Seq<SourceGroupConfigModel>,
    at: Moment,
    now: Seq<char>,
    i: int,
    j: int,
    k: int,
)
    requires
        cycles_in_order(st),
        st.next_cycle >= 0,
        fits(sources_forced(st, ss, at, now).0),
        stands_alone(ss, i),
        opens_at(st, ss[i].id, k),
        0 <= j < ss[i].destinations.len(),
        ss[i].destinations[j].enabled,
        !ss[i].destinations[j].paused,
    ensures
        holds_target(
            sources_forced(st, ss, at, now).0.offsets,
            ss[i].id,
            ss[i].destinations[j].id,
            st.cycles[k].id,
        ),
{
    lemma_forced_all_row(st, ss, at, now, i, j, k);
    lemma_found_target(
        sources_forced(st, ss, at, now).0.offsets,
        ss[i].id,
        ss[i].destinations[j].id,
        st.cycles[k].id,
    );
}

proof fn lemma_forced_all_row(
    st: StateModel,
    ss: Seq<SourceGroupConfigModel>,
    at: Moment,
    now: Seq<char>,
    i: int,
    j: int,
    k: int,
)
    requires
        cycles_in_order(st),
        st.next_cycle >= 0,
        fits(sources_forced(st, ss, at, now).0),
        stands_alone(ss, i),
        opens_at(st, ss[i].id, k),
        0 <= j < ss[i].destinations.len(),
        ss[i].destinations[j].enabled,
        !ss[i].destinations[j].paused,
    ensures
        ({
            let row = offset_row(
                sources_forced(st, ss, at, now).0.offsets,
                ss[i].id,
                ss[i].destinations[j].id,
            );
            row is Some && row->0.target_cycle_id == Some(st.cycles[k].id)
        }),
    decreases ss.len(),
{
    let n = ss.len() - 1;
    let fewer = ss.drop_last();
    let before = sources_forced(st, fewer, at, now).0;
    let s = ss.last();
    let x = ss[i].id;
    let id = ss[i].destinations[j].id;
    if s.enabled {
        lemma_forced_fits(before, s, at, now);
    }
    lemma_forces_keep(st, fewer, at, now, x, id);
    if i == n {
        assert forall|m: int| 0 <= m < fewer.len() implies (#[trigger] fewer[m]).id != x
            || !fewer[m].enabled by {
            assert(fewer[m] == ss[m]);
        }
        lemma_opens_at(st, x, k);
        lemma_forced_row(before, s, at, now, j);
    } else {
        assert(stands_alone(fewer, i)) by {
            assert forall|m: int| 0 <= m < fewer.len() && m != i implies (#[trigger] fewer[m]).id
                != fewer[i].id || !fewer[m].enabled by {
                assert(fewer[m] == ss[m]);
            }
        }
        lemma_forced_all_row(st, fewer, at, now, i, j, k);
        if s.enabled {
            assert(ss[n].id != ss[i].id || !ss[n].enabled);
            lemma_force_keeps(before, s, at, now, x, id);
        }
    }
}

/// When one destination is to be synchronised now, the open cycle of its source is closed and becomes
/// its target, and no other row changes. Where the first source of that name that is switched on has
/// no such destination that is switched on and not paused, nothing changes at all.
pub proof fn forcing_one_destination_targets_it_alone(
    st: StateModel,
    cfg: AppConfigModel,
    source_id: Seq<char>,
    destination_id: Seq<char>,
    at: Moment,
    now: Seq<char>,
    m: int,
    k: int,
    i: int,
)
    requires
        0 <= m < cfg.source_groups.len(),
        cfg.source_groups[m].id == source_id,
        cfg.source_groups[m].enabled,
        forall|l: int|
            0 <= l < m ==> (#[trigger] cfg.source_groups[l]).id != source_id
                || !cfg.source_groups[l].enabled,
        opens_at(st, source_id, k),
    ensures
        ({
            let (after, closed) = destination_forced(
                st,
                cfg,
                source_id,
                destination_id,
                at,
                now,
            );
            let works = exists|j: int|
                0 <= j < cfg.source_groups[m].destinations.len() && (
                #[trigger] cfg.source_groups[m].destinations[j]).id == destination_id
                    && cfg.source_groups[m].destinations[j].enabled
                    && !cfg.source_groups[m].destinations[j].paused;
            &&& works ==> closed == Some(
                CycleModel { status: "closed"@, ends_at: Some(at), ..st.cycles[k] },
            ) && holds_target(after.offsets, source_id, destination_id, st.cycles[k].id)
            &&& !works ==> closed is None && after == st
            &&& 0 <= i < st.offsets.len() ==> after.offsets[i] == st.offsets[i] || row_at(
                st.offsets,
                i,
                source_id,
                destination_id,
            )
        }),
{
    let ss = cfg.source_groups;
    let test = enabled_source(source_id);
    assert forall|l: int| 0 <= l < m implies !test(#[trigger] ss[l]) by {}
    lemma_first_where_is(ss, test, m);
    lemma_opens_at(st, source_id, k);
    assert(first_item(ss, test) == Some(ss[m]));
    if has_working(ss[m], destination_id) {
        let shut = closed_state(st, source_id, at);
        let target = st.cycles[k].id;
        let after = target_set(shut, source_id, destination_id, target, now);
        let ids = seq![destination_id];
        assert(ids.drop_last() =~= Seq::empty());
        assert(targets_set(shut, source_id, ids.drop_last(), target, now) == shut);
        assert(targets_set(shut, source_id, ids, target, now) == after);
        assert(ids[0] == destination_id);
        lemma_targets_set_row(shut, source_id, ids, target, now, source_id, destination_id);
        lemma_found_target(after.offsets, source_id, destination_id, target);
        if 0 <= i < st.offsets.len() {
            lemma_target_rows(shut, source_id, destination_id, target, now, i);
        }
    }
}

} // verus!
