//! What the requests for rows, cycles and views give, stated on the rows and the cycles themselves.

use crate::clock::Moment;
use crate::config::types::{
    AppConfigModel, DestinationConfigModel, SourceGroupConfigModel,
};
use crate::daemon::watch::{gap_event, gaps_recorded};
use crate::seqs::{
    last_where, lemma_first_where, lemma_first_where_is, lemma_last_where, lemma_last_where_is,
};
use crate::state::cycles::{
    lemma_opened_has_open, lemma_opening_opens, not_open_of, open_cycle, open_of, opened,
};
use crate::state::events::{can_record, recorded, remembered};
use crate::state::issues::shown_issues;
use crate::state::offsets::{
    blank_row, known_row, offset_row, put_row_is_found, row_of, status_put, target_cleared,
};
use crate::state::reports::report_on;
use crate::state::targets::{destinations_ensured, sources_ensured, sources_opened};
use crate::state::types::{OffsetRowModel, StateModel, WatcherEventModel};
use crate::state::views::{destination_view, difference_fits};
use vstd::prelude::*;

verus! {

/// A status that is set is the status of the destination then, with its reason and its time; a cycle
/// that was verified is recorded where one is given, and what was recorded before stays where none
/// is. The target stays, and so do the rows of all other destinations.
pub proof fn set_statuses_are_recorded(
    st: StateModel,
    source_id: Seq<char>,
    id: Seq<char>,
    verified: Option<i64>,
    status: Seq<char>,
    reason: Seq<char>,
    now: Seq<char>,
    other_source: Seq<char>,
    other: Seq<char>,
)
    ensures
        ({
            let after = status_put(st, source_id, id, verified, status, reason, now).offsets;
            let row = offset_row(after, source_id, id);
            let before = offset_row(st.offsets, source_id, id);
            &&& row is Some
            &&& row->0.status == status
            &&& row->0.status_reason == reason
            &&& row->0.updated_at == now
            &&& verified is Some ==> row->0.last_verified_cycle_id == verified
                && row->0.last_completed_cycle_id == verified
            &&& verified is None && before is Some ==> row->0.last_verified_cycle_id
                == before->0.last_verified_cycle_id && row->0.last_completed_cycle_id
                == before->0.last_completed_cycle_id
            &&& verified is None && before is None ==> row->0.last_verified_cycle_id is None
            &&& before is Some ==> row->0.target_cycle_id == before->0.target_cycle_id
            &&& before is None ==> row->0.target_cycle_id is None
            &&& (other_source != source_id || other != id) ==> offset_row(
                after,
                other_source,
                other,
            ) == offset_row(st.offsets, other_source, other)
        }),
{
    let row = offset_row(
        status_put(st, source_id, id, verified, status, reason, now).offsets,
        source_id,
        id,
    );
    lemma_first_where(st.offsets, row_of(source_id, id));
    let was = match offset_row(st.offsets, source_id, id) {
        Some(r) => r,
        None => blank_row(source_id, id, "not_verified"@, now),
    };
    let put = OffsetRowModel {
        last_completed_cycle_id: if verified is Some {
            verified
        } else {
            was.last_completed_cycle_id
        },
        last_verified_cycle_id: if verified is Some {
            verified
        } else {
            was.last_verified_cycle_id
        },
        status,
        status_reason: reason,
        updated_at: now,
        ..was
    };
    put_row_is_found(st.offsets, put, other_source, other);
}

/// A target that is dropped is gone, and what was verified stays; other rows stay as they are.
pub proof fn dropped_targets_are_gone(
    st: StateModel,
    source_id: Seq<char>,
    id: Seq<char>,
    reason: Seq<char>,
    now: Seq<char>,
    other_source: Seq<char>,
    other: Seq<char>,
)
    ensures
        ({
            let after = target_cleared(st, source_id, id, reason, now).offsets;
            let row = offset_row(after, source_id, id);
            let before = offset_row(st.offsets, source_id, id);
            &&& before is Some ==> row is Some && row->0.target_cycle_id is None
                && row->0.last_verified_cycle_id == before->0.last_verified_cycle_id
                && row->0.status_reason == reason
            &&& before is None ==> row is None
            &&& (other_source != source_id || other != id) ==> offset_row(
                after,
                other_source,
                other,
            ) == offset_row(st.offsets, other_source, other)
        }),
{
    lemma_first_where(st.offsets, row_of(source_id, id));
    match offset_row(st.offsets, source_id, id) {
        Some(row) => {
            let put = OffsetRowModel {
                target_cycle_id: None,
                status: "red"@,
                status_reason: reason,
                updated_at: now,
                ..row
            };
            put_row_is_found(st.offsets, put, other_source, other);
        },
        None => {},
    }
}

/// Exactly the rows of destinations that the configuration has are kept, whether or not they are
/// switched on.
pub proof fn rows_of_removed_destinations_go(
    rows: Seq<OffsetRowModel>,
    cfg: AppConfigModel,
    row: OffsetRowModel,
)
    ensures
        rows.filter(known_row(cfg)).contains(row) == (rows.contains(row) && exists|i: int, j: int|
            #![trigger cfg.source_groups[i].destinations[j]]
            0 <= i < cfg.source_groups.len() && 0 <= j < cfg.source_groups[i].destinations.len()
                && cfg.source_groups[i].id == row.source_id
                && cfg.source_groups[i].destinations[j].id == row.destination_id),
{
    let keep = known_row(cfg);
    let kept = rows.filter(keep);
    if kept.contains(row) {
        let i = choose|i: int| 0 <= i < kept.len() && kept[i] == row;
        rows.lemma_filter_pred(keep, i);
        rows.lemma_filter_contains_rev(keep, row);
        let m = choose|m: int|
            0 <= m < cfg.source_groups.len() && (#[trigger] cfg.source_groups[m]).id
                == row.source_id && crate::state::offsets::has_destination(
                cfg.source_groups[m],
                row.destination_id,
            );
        let j = choose|j: int|
            0 <= j < cfg.source_groups[m].destinations.len() && (
            #[trigger] cfg.source_groups[m].destinations[j]).id == row.destination_id;
        assert(cfg.source_groups[m].destinations[j].id == row.destination_id);
    }
    if rows.contains(row) && exists|i: int, j: int|
        #![trigger cfg.source_groups[i].destinations[j]]
        0 <= i < cfg.source_groups.len() && 0 <= j < cfg.source_groups[i].destinations.len()
            && cfg.source_groups[i].id == row.source_id && cfg.source_groups[i].destinations[j].id
            == row.destination_id {
        let (i, j) = choose|i: int, j: int|
            #![trigger cfg.source_groups[i].destinations[j]]
            0 <= i < cfg.source_groups.len() && 0 <= j < cfg.source_groups[i].destinations.len()
                && cfg.source_groups[i].id == row.source_id
                && cfg.source_groups[i].destinations[j].id == row.destination_id;
        assert(crate::state::offsets::has_destination(cfg.source_groups[i], row.destination_id));
        let k = choose|k: int| 0 <= k < rows.len() && rows[k] == row;
        assert(keep(row));
        rows.lemma_filter_contains(keep, k);
    }
}

/// Bringing the state in line with a configuration changes no row that there is.
pub proof fn ensuring_keeps_rows(
    st: StateModel,
    ss: Seq<SourceGroupConfigModel>,
    now: Seq<char>,
    source_id: Seq<char>,
    id: Seq<char>,
)
    ensures
        offset_row(st.offsets, source_id, id) is Some ==> offset_row(
            sources_ensured(st, ss, now).offsets,
            source_id,
            id,
        ) == offset_row(st.offsets, source_id, id),
    decreases ss.len(),
{
    if ss.len() > 0 {
        ensuring_keeps_rows(st, ss.drop_last(), now, source_id, id);
        lemma_destinations_keep(
            sources_ensured(st, ss.drop_last(), now),
            ss.last().id,
            ss.last().destinations,
            now,
            source_id,
            id,
        );
    }
}

proof fn lemma_destinations_keep(
    st: StateModel,
    source: Seq<char>,
    ds: Seq<DestinationConfigModel>,
    now: Seq<char>,
    source_id: Seq<char>,
    id: Seq<char>,
)
    ensures
        offset_row(st.offsets, source_id, id) is Some ==> offset_row(
            destinations_ensured(st, source, ds, now).offsets,
            source_id,
            id,
        ) == offset_row(st.offsets, source_id, id),
    decreases ds.len(),
{
    if ds.len() > 0 {
        lemma_destinations_keep(st, source, ds.drop_last(), now, source_id, id);
        let mid = destinations_ensured(st, source, ds.drop_last(), now);
        put_row_is_found(
            mid.offsets,
            blank_row(source, ds.last().id, "not_verified"@, now),
            source_id,
            id,
        );
    }
}

/// Once a state is ready, every source that is switched on has an open cycle; cycles that there were
/// stay as they are, and those that are new are open, of sources that had none.
pub proof fn ready_sources_have_open_cycles(
    st: StateModel,
    ss: Seq<SourceGroupConfigModel>,
    at: Moment,
    i: int,
)
    ensures
        ({
            let after = sources_opened(st, ss, at);
            &&& after.cycles.len() >= st.cycles.len()
            &&& after.cycles.take(st.cycles.len() as int) == st.cycles
            &&& after.offsets == st.offsets
            &&& after.events == st.events
            &&& 0 <= i < ss.len() && ss[i].enabled ==> open_cycle(after, ss[i].id) is Some
            &&& forall|k: int|
                st.cycles.len() <= k < after.cycles.len() ==> (#[trigger] after.cycles[k]).status
                    == "open"@ && after.cycles[k].starts_at == at && !after.cycles[k].needs_full_rescan
        }),
    decreases ss.len(),
{
    if ss.len() == 0 {
        assert(st.cycles.take(st.cycles.len() as int) =~= st.cycles);
    } else {
        let t = ss.drop_last();
        let s = ss.last();
        ready_sources_have_open_cycles(st, t, at, i);
        let before = sources_opened(st, t, at);
        let after = sources_opened(st, ss, at);
        let n = st.cycles.len() as int;
        if s.enabled {
            lemma_opened_has_open(before, s.id, at);
            if 0 <= i < t.len() {
                assert(t[i] == ss[i]);
                lemma_opening_opens(before, s.id, at, ss[i].id);
            }
            assert(after.cycles.take(n) =~= before.cycles.take(n));
            assert forall|k: int| n <= k < after.cycles.len() implies (
            #[trigger] after.cycles[k]).status == "open"@ && after.cycles[k].starts_at == at
                && !after.cycles[k].needs_full_rescan by {
                if k < before.cycles.len() {
                    assert(after.cycles[k] == before.cycles[k]);
                }
            }
        } else if 0 <= i < t.len() {
            assert(t[i] == ss[i]);
        }
    }
}

/// What recording an event does to the open cycle of a source: it stays the open one, and needs a
/// full scan if it did or if the event is of that source and asks for one.
proof fn lemma_recorded_rescan(st: StateModel, e: WatcherEventModel, at: Moment, x: Seq<char>)
    ensures
        ({
            let after = recorded(st, e, at);
            let a = open_cycle(after, x);
            let b = open_cycle(st, x);
            &&& b is Some ==> a is Some && (b->0.needs_full_rescan ==> a->0.needs_full_rescan)
            &&& e.source_id == x ==> a is Some && (e.rescan_required ==> a->0.needs_full_rescan)
        }),
{
    let o = opened(st, e.source_id, at);
    let after = recorded(st, e, at);
    lemma_opened_has_open(st, e.source_id, at);
    let test = open_of(x);
    let k = last_where(o.cycles, test);
    lemma_last_where(o.cycles, test);
    lemma_opening_keeps(st, e.source_id, at, x);
    if e.rescan_required {
        assert forall|j: int| 0 <= j < after.cycles.len() implies test(#[trigger] after.cycles[j])
            == test(o.cycles[j]) && (o.cycles[j].needs_full_rescan
            ==> after.cycles[j].needs_full_rescan) by {}
        assert forall|j: int| k < j < after.cycles.len() implies !test(#[trigger] after.cycles[j]) by {
            assert(!test(o.cycles[j]));
        }
        if k >= 0 {
            assert(test(o.cycles[k]));
            assert(test(after.cycles[k]));
        }
        lemma_last_where_is(after.cycles, test, k);
    } else {
        assert(after.cycles == o.cycles);
    }
}

/// Opening leaves the open cycles that there are.
proof fn lemma_opening_keeps(st: StateModel, source_id: Seq<char>, at: Moment, x: Seq<char>)
    ensures
        open_cycle(st, x) is Some ==> open_cycle(opened(st, source_id, at), x) == open_cycle(st, x),
{
    let o = opened(st, source_id, at);
    if open_cycle(st, source_id) is None && open_cycle(st, x) is Some {
        let test = open_of(x);
        let k = last_where(st.cycles, test);
        lemma_last_where(st.cycles, test);
        assert(o.cycles[k] == st.cycles[k]);
        assert forall|j: int| k < j < o.cycles.len() implies !test(#[trigger] o.cycles[j]) by {
            if j < st.cycles.len() {
                assert(o.cycles[j] == st.cycles[j]);
                assert(!test(st.cycles[j]));
            }
        }
        lemma_last_where_is(o.cycles, test, k);
    }
}

/// After the watcher was restarted, every source that is switched on and watched here has an open
/// cycle that needs a full scan, as long as there are identifiers for its event.
pub proof fn restarts_ask_for_a_full_scan(
    st: StateModel,
    ss: Seq<SourceGroupConfigModel>,
    watched: Seq<bool>,
    at: Moment,
    n: int,
    i: int,
)
    requires
        0 <= i < n <= ss.len(),
        ss[i].enabled,
        i < watched.len(),
        watched[i],
        can_record(gaps_recorded(st, ss, watched, at, i), ss[i].id),
    ensures
        ({
            let c = open_cycle(gaps_recorded(st, ss, watched, at, n), ss[i].id);
            c is Some && c->0.needs_full_rescan
        }),
    decreases n,
{
    let before = gaps_recorded(st, ss, watched, at, n - 1);
    let s = ss[n - 1];
    if i == n - 1 {
        lemma_recorded_rescan(before, gap_event(s.id), at, s.id);
    } else {
        restarts_ask_for_a_full_scan(st, ss, watched, at, n - 1, i);
        lemma_recorded_rescan(before, gap_event(s.id), at, ss[i].id);
    }
}

/// What is shown of a destination is what its row says: its target and what was verified, completed
/// and when. It is green exactly when its row is and it has reached its target. The cycle that is
/// shown as closed last is the last one of its source that is not open.
pub proof fn views_show_what_is_known(
    st: StateModel,
    s: SourceGroupConfigModel,
    d: DestinationConfigModel,
    now: Seq<char>,
)
    ensures
        ({
            let v = destination_view(st, s, d, now);
            let row = offset_row(st.offsets, s.id, d.id);
            &&& v.source_id == s.id && v.destination_id == d.id && v.path == d.path && v.enabled
                == d.enabled
            &&& row is Some ==> v.target_cycle_id == row->0.target_cycle_id
                && v.last_verified_cycle_id == row->0.last_verified_cycle_id
                && v.last_completed_cycle_id == row->0.last_completed_cycle_id && v.updated_at
                == Some(row->0.updated_at)
            &&& row is None ==> v.target_cycle_id is None && v.last_verified_cycle_id is None
                && v.status == "red"@
            &&& (v.status == "green"@) == (row is Some && row->0.status == "green"@
                && row->0.target_cycle_id is Some && row->0.last_verified_cycle_id is Some
                && row->0.target_cycle_id->0 <= row->0.last_verified_cycle_id->0)
            &&& match v.latest_closed_cycle_id {
                Some(id) => exists|k: int|
                    0 <= k < st.cycles.len() && (#[trigger] st.cycles[k]).source_id == s.id
                        && st.cycles[k].status != "open"@ && st.cycles[k].id == id && forall|j: int|
                        k < j < st.cycles.len() ==> (#[trigger] st.cycles[j]).source_id != s.id
                            || st.cycles[j].status == "open"@,
                None => forall|k: int|
                    0 <= k < st.cycles.len() ==> (#[trigger] st.cycles[k]).source_id != s.id
                        || st.cycles[k].status == "open"@,
            }
        }),
{
    reveal_strlit("green");
    reveal_strlit("yellow");
    reveal_strlit("red");
    assert("green"@.len() == 5 && "yellow"@.len() == 6 && "red"@.len() == 3);
    let test = not_open_of(s.id);
    let k = last_where(st.cycles, test);
    lemma_last_where(st.cycles, test);
    if k >= 0 {
        assert(test(st.cycles[k]));
    }
    assert forall|j: int| k < j < st.cycles.len() implies (#[trigger] st.cycles[j]).source_id != s.id
        || st.cycles[j].status == "open"@ by {
        assert(!test(st.cycles[j]));
    }
}

/// The differences that are shown of a destination are all those that its report counts, where the
/// comparison succeeded; a restart that may have missed changes is shown with its time.
pub proof fn views_show_reports_and_notices(
    st: StateModel,
    s: SourceGroupConfigModel,
    d: DestinationConfigModel,
    now: Seq<char>,
    k: int,
)
    requires
        0 <= k < st.reports.len(),
        st.reports[k].source_id == s.id,
        st.reports[k].destination_id == d.id,
        forall|j: int|
            0 <= j < k ==> (#[trigger] st.reports[j]).source_id != s.id
                || st.reports[j].destination_id != d.id,
        difference_fits(st, s.id, d.id),
    ensures
        ({
            let v = destination_view(st, s, d, now);
            let r = st.reports[k];
            &&& r.error.len() == 0 ==> v.scan_differences is Some && v.scan_differences->0
                == r.to_add + r.to_update + r.to_delete + r.type_mismatch
            &&& r.error.len() > 0 ==> v.scan_differences is None
            &&& v.restart_notice_at == remembered(st.metas, s.id).restart_notice_at
            &&& v.issues == shown_issues(st.issues, s.id, d.id)
        }),
{
    lemma_first_where_is(st.reports, report_on(s.id, d.id), k);
}

} // verus!
