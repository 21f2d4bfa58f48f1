//! What the logs of events, tasks and problems say.

use crate::clock::{earlier, Moment};
use crate::seqs::{
    changed_where, first_where, lemma_filter_map_holds, lemma_first_where, lemma_last_where,
};
use crate::sorted::{sorted_set, sorted_set_is_sorted_and_complete};
use crate::state::cycles::{lemma_opened_has_open, open_cycle, open_of, opened};
use crate::state::events::{
    as_read, between, can_record, event_row, kept_from, last_event_of, meta_of, path_since,
    quiesced, recorded, remembered, with_event_at, with_meta,
};
use crate::state::issues::{
    issue_of, not_of_kind, same_issue, shown_issue, shown_issues, with_issues,
};
use crate::state::tasks::{
    aborting, begun_task, ending, newest_tasks, running, task_with_id, task_without_id,
    tasks_begun, unended_tasks_stay,
};
use crate::state::types::{
    DestinationIssueViewModel, EventRowModel, IssueRowModel, StateModel, TaskLogEntryModel,
    WatcherEventModel,
};
use vstd::prelude::*;

verus! {

/// An event that is recorded comes last in the log, says what was seen and when, and belongs to an
/// open cycle of its source, which needs a full scan if the event says so. The events before it
/// stay.
pub proof fn recorded_events_say_what_was_seen(st: StateModel, e: WatcherEventModel, now: Moment)
    requires
        can_record(st, e.source_id),
        0 <= st.next_event,
    ensures
        ({
            let r = recorded(st, e, now);
            let row = r.events.last();
            &&& r.events.len() == st.events.len() + 1
            &&& forall|i: int| 0 <= i < st.events.len() ==> #[trigger] r.events[i] == st.events[i]
            &&& row.event_id == st.next_event
            &&& row.source_id == e.source_id
            &&& row.observed_at == now
            &&& row.raw_mask == e.raw_mask
            &&& row.event_kind == e.event_kind
            &&& row.rel_path == e.rel_path
            &&& row.rescan_required == e.rescan_required
            &&& exists|k: int|
                0 <= k < r.cycles.len() && (#[trigger] r.cycles[k]).source_id == e.source_id
                    && r.cycles[k].status == "open"@ && r.cycles[k].id == row.cycle_id && (
                e.rescan_required ==> r.cycles[k].needs_full_rescan)
        }),
{
    let o = opened(st, e.source_id, now);
    lemma_opened_has_open(st, e.source_id, now);
    let row = event_row(e, o.next_event, open_cycle(o, e.source_id)->0.id, now);
    let with_row = StateModel {
        events: o.events.push(row),
        next_event: o.next_event + 1,
        metas: with_meta(
            o.metas,
            e.source_id,
            with_event_at(remembered(o.metas, e.source_id), now),
        ),
        ..o
    };
    assert(open_cycle(with_row, e.source_id) == open_cycle(o, e.source_id));
    let r = recorded(st, e, now);
    lemma_last_where(o.cycles, open_of(e.source_id));
    let k = crate::seqs::last_where(o.cycles, open_of(e.source_id));
    assert(r.cycles[k].id == row.cycle_id);
}

/// When an event is recorded, the last event of its source is this one, unless a later one is
/// remembered.
pub proof fn last_events_are_remembered(st: StateModel, e: WatcherEventModel, now: Moment)
    requires
        can_record(st, e.source_id),
    ensures
        ({
            let before = remembered(st.metas, e.source_id).last_event_at;
            let after = last_event_of(recorded(st, e, now), e.source_id);
            if before is Some && earlier(now, before->0) {
                after == before
            } else {
                after is Some && !earlier(after->0, now) && !earlier(now, after->0)
            }
        }),
{
    let test = meta_of(e.source_id);
    let o = opened(st, e.source_id, now);
    lemma_first_where(o.metas, test);
    let m = with_event_at(remembered(o.metas, e.source_id), now);
    let k = first_where(o.metas, test);
    let after = with_meta(o.metas, e.source_id, m);
    assert(m.source_id == e.source_id);
    assert forall|j: int| 0 <= j < k implies !test(#[trigger] after[j]) by {
        assert(!test(o.metas[j]));
    }
    crate::seqs::lemma_first_where_is(after, test, k);
    assert(recorded(st, e, now).metas == after);
}

/// A source whose last event was observed at a moment is quiet ten seconds later and not before;
/// one without events is quiet.
pub proof fn sources_are_quiet_after_ten_seconds(st: StateModel, source_id: Seq<char>, now: Moment)
    requires
        now.nanos < 1000000000,
        last_event_of(st, source_id) is Some ==> last_event_of(st, source_id)->0.nanos < 1000000000,
    ensures
        last_event_of(st, source_id) is None ==> quiesced(st, source_id, now),
        last_event_of(st, source_id) is Some ==> {
            let at = last_event_of(st, source_id)->0;
            quiesced(st, source_id, now) <==> now.secs - at.secs > 10 || (now.secs - at.secs == 10
                && now.nanos >= at.nanos)
        },
{
}

/// Whether an event is of a source, and of a cycle after one and up to another.
pub open spec fn falls_between(
    e: EventRowModel,
    source_id: Seq<char>,
    after: int,
    through: int,
) -> bool {
    e.source_id == source_id && after < e.cycle_id && e.cycle_id <= through
}

/// The events between two cycles of a source are read as they were recorded, in their order, and
/// no others are.
pub proof fn events_between_cycles_are_read(
    es: Seq<EventRowModel>,
    source_id: Seq<char>,
    after: int,
    through: int,
)
    ensures
        ({
            let out = es.filter(between(source_id, after, through)).map_values(as_read());
            &&& forall|i: int|
                0 <= i < es.len() && falls_between(#[trigger] es[i], source_id, after, through)
                    ==> exists|k: int|
                    0 <= k < out.len() && (#[trigger] out[k]).event_id == es[i].event_id
                        && out[k].event_kind == es[i].event_kind && out[k].rel_path
                        == es[i].rel_path && out[k].rescan_required == es[i].rescan_required
            &&& forall|k: int|
                0 <= k < out.len() ==> was_recorded(
                    es,
                    source_id,
                    after,
                    through,
                    (#[trigger] out[k]).event_id,
                )
        }),
{
    let test = between(source_id, after, through);
    let kept = es.filter(test);
    let out = kept.map_values(as_read());
    assert forall|i: int|
        0 <= i < es.len() && falls_between(
            #[trigger] es[i],
            source_id,
            after,
            through,
        ) implies exists|k: int|
        0 <= k < out.len() && (#[trigger] out[k]).event_id == es[i].event_id && out[k].event_kind
            == es[i].event_kind && out[k].rel_path == es[i].rel_path && out[k].rescan_required
            == es[i].rescan_required by {
        es.lemma_filter_contains(test, i);
        let k = choose|k: int| 0 <= k < kept.len() && kept[k] == es[i];
        assert(out[k] == as_read()(es[i]));
    }
    assert forall|k: int| 0 <= k < out.len() implies was_recorded(
        es,
        source_id,
        after,
        through,
        (#[trigger] out[k]).event_id,
    ) by {
        es.lemma_filter_pred(test, k);
        es.lemma_filter_contains_rev(test, kept[k]);
        let i = choose|i: int| 0 <= i < es.len() && es[i] == kept[k];
        assert(falls_between(es[i], source_id, after, through));
    }
}

/// Whether an event with an identifier is in the log, of a source and between two cycles.
pub open spec fn was_recorded(
    es: Seq<EventRowModel>,
    source_id: Seq<char>,
    after: int,
    through: int,
    event_id: i64,
) -> bool {
    exists|i: int|
        0 <= i < es.len() && falls_between(#[trigger] es[i], source_id, after, through)
            && es[i].event_id == event_id
}

/// The paths that were seen since a moment are those of the events of the source that were observed
/// then or later.
pub proof fn paths_seen_since_are_those_of_events(
    es: Seq<EventRowModel>,
    source_id: Seq<char>,
    at: Moment,
    path: Seq<char>,
)
    ensures
        sorted_set(es.filter_map(path_since(source_id, at))).contains(path) <==> exists|i: int|
            0 <= i < es.len() && (#[trigger] es[i]).source_id == source_id && es[i].rel_path
                == Some(path) && !earlier(es[i].observed_at, at),
{
    let f = path_since(source_id, at);
    sorted_set_is_sorted_and_complete(es.filter_map(f));
    if exists|i: int|
        0 <= i < es.len() && (#[trigger] es[i]).source_id == source_id && es[i].rel_path == Some(
            path,
        ) && !earlier(es[i].observed_at, at) {
        let i = choose|i: int|
            0 <= i < es.len() && (#[trigger] es[i]).source_id == source_id && es[i].rel_path
                == Some(path) && !earlier(es[i].observed_at, at);
        lemma_filter_map_holds(es, f, i);
    }
    if es.filter_map(f).contains(path) {
        es.lemma_filter_map_contains(f, path);
        let e = choose|e: EventRowModel| #[trigger] es.contains(e) && f(e) == Some(path);
        let i = choose|i: int| 0 <= i < es.len() && es[i] == e;
        assert(es[i].rel_path == Some(path));
    }
}

/// Removing the events of a source before a cycle removes those and no others.
pub proof fn old_events_go(
    es: Seq<EventRowModel>,
    source_id: Seq<char>,
    cycle_id: i64,
    e: EventRowModel,
)
    ensures
        es.filter(kept_from(source_id, cycle_id)).contains(e) <==> es.contains(e) && (e.source_id
            != source_id || e.cycle_id >= cycle_id),
{
    let keep = kept_from(source_id, cycle_id);
    let kept = es.filter(keep);
    if es.contains(e) && keep(e) {
        let i = choose|i: int| 0 <= i < es.len() && es[i] == e;
        es.lemma_filter_contains(keep, i);
    }
    if kept.contains(e) {
        let k = choose|k: int| 0 <= k < kept.len() && kept[k] == e;
        es.lemma_filter_pred(keep, k);
        es.lemma_filter_contains_rev(keep, e);
    }
}

/// A task that begins is in the log: running, without an end, and for what it was begun.
pub proof fn begun_tasks_are_running(
    ts: Seq<TaskLogEntryModel>,
    id: i64,
    kind: Seq<char>,
    source_id: Seq<char>,
    destination_id: Seq<char>,
    now: Seq<char>,
)
    ensures
        ({
            let after = tasks_begun(
                ts,
                begun_task(id as int, kind, source_id, destination_id, now),
            );
            exists|k: int|
                0 <= k < after.len() && (#[trigger] after[k]).id == id && after[k].kind == kind
                    && after[k].source_id == source_id && after[k].destination_id
                    == destination_id && after[k].started_at == now && after[k].ended_at is None
                    && after[k].duration_ms is None && after[k].status == "running"@
                    && after[k].error.len() == 0 && after[k].files_synced == 0
                    && after[k].differences == 0 && after[k].entries_scanned == 0
        }),
{
    let t = begun_task(id as int, kind, source_id, destination_id, now);
    unended_tasks_stay(ts, t, t);
    let after = tasks_begun(ts, t);
    let k = choose|k: int| 0 <= k < after.len() && after[k] == t;
    reveal_strlit("");
    assert(after[k].id == id);
}

/// Whether a task is another one that has come to an end since.
pub open spec fn is_ended(
    after: TaskLogEntryModel,
    before: TaskLogEntryModel,
    status: Seq<char>,
    error: Seq<char>,
    now: Seq<char>,
) -> bool {
    &&& after.id == before.id
    &&& after.kind == before.kind
    &&& after.source_id == before.source_id
    &&& after.destination_id == before.destination_id
    &&& after.started_at == before.started_at
    &&& after.ended_at == Some(now)
    &&& after.status == status
    &&& after.error == error
}

/// Finishing a task records its outcome and its numbers, and changes no other task.
pub proof fn finished_tasks_have_their_outcome(
    ts: Seq<TaskLogEntryModel>,
    id: i64,
    status: Seq<char>,
    error: Seq<char>,
    files_synced: u64,
    differences: u64,
    entries_scanned: u64,
    now: Seq<char>,
)
    ensures
        ({
            let after = changed_where(
                ts,
                task_with_id(id),
                ending(status, error, files_synced, differences, entries_scanned, now),
            );
            &&& after.len() == ts.len()
            &&& forall|i: int|
                0 <= i < ts.len() ==> if ts[i].id == id {
                    &&& is_ended(#[trigger] after[i], ts[i], status, error, now)
                    &&& after[i].files_synced == files_synced
                    &&& after[i].differences == differences
                    &&& after[i].entries_scanned == entries_scanned
                } else {
                    after[i] == ts[i]
                }
        }),
{
}

/// After a restart no task is running any more: those that were are aborted, and all others are as
/// they were.
pub proof fn no_task_survives_a_restart(ts: Seq<TaskLogEntryModel>, now: Seq<char>)
    ensures
        ({
            let after = changed_where(ts, running(), aborting(now));
            &&& after.len() == ts.len()
            &&& forall|i: int|
                0 <= i < ts.len() ==> if ts[i].status == "running"@ {
                    &&& is_ended(
                        #[trigger] after[i],
                        ts[i],
                        "aborted"@,
                        "daemon restarted while the task was running"@,
                        now,
                    )
                    &&& after[i].files_synced == ts[i].files_synced
                } else {
                    after[i] == ts[i]
                }
            &&& forall|i: int| 0 <= i < ts.len() ==> (#[trigger] after[i]).status != "running"@
        }),
{
    let after = changed_where(ts, running(), aborting(now));
    reveal_strlit("running");
    reveal_strlit("aborted");
    assert("aborted"@[0] != "running"@[0]);
}

/// Discarding a task removes it and no other one.
pub proof fn discarded_tasks_go(ts: Seq<TaskLogEntryModel>, id: i64, t: TaskLogEntryModel)
    ensures
        ts.filter(task_without_id(id)).contains(t) <==> ts.contains(t) && t.id != id,
{
    let keep = task_without_id(id);
    let kept = ts.filter(keep);
    if ts.contains(t) && keep(t) {
        let i = choose|i: int| 0 <= i < ts.len() && ts[i] == t;
        ts.lemma_filter_contains(keep, i);
    }
    if kept.contains(t) {
        let k = choose|k: int| 0 <= k < kept.len() && kept[k] == t;
        ts.lemma_filter_pred(keep, k);
        ts.lemma_filter_contains_rev(keep, t);
    }
}

/// The tasks that are shown are the last ones of the log, from the last one backwards.
pub proof fn newest_tasks_come_first(ts: Seq<TaskLogEntryModel>, limit: int)
    requires
        0 <= limit,
    ensures
        newest_tasks(ts, limit).len() <= limit,
        newest_tasks(ts, limit).len() == limit || newest_tasks(ts, limit).len() == ts.len(),
        forall|i: int|
            0 <= i < newest_tasks(ts, limit).len() ==> #[trigger] newest_tasks(ts, limit)[i]
                == ts[ts.len() - (i + 1)],
{
}

/// Whether a problem is of a destination and a kind.
pub open spec fn concerns(
    i: IssueRowModel,
    source_id: Seq<char>,
    destination_id: Seq<char>,
    kind: Seq<char>,
) -> bool {
    i.source_id == source_id && i.destination_id == destination_id && i.issue_kind == kind
}

proof fn lemma_with_issues(
    is: Seq<IssueRowModel>,
    row: IssueRowModel,
    paths: Seq<Seq<char>>,
    i: IssueRowModel,
)
    requires
        forall|k: int|
            0 <= k < is.len() ==> !concerns(
                #[trigger] is[k],
                row.source_id,
                row.destination_id,
                row.issue_kind,
            ),
    ensures
        with_issues(is, row, paths).contains(i) <==> is.contains(i) || (paths.contains(i.rel_path)
            && i == (IssueRowModel { rel_path: i.rel_path, ..row })),
    decreases paths.len(),
{
    if paths.len() > 0 {
        let fewer = paths.drop_last();
        let last = IssueRowModel { rel_path: paths.last(), ..row };
        let before = with_issues(is, row, fewer);
        let after = with_issues(is, row, paths);
        let test = same_issue(last);
        let k = first_where(before, test);
        lemma_first_where(before, test);
        assert(paths.contains(i.rel_path) <==> fewer.contains(i.rel_path) || i.rel_path
            == paths.last()) by {
            if paths.contains(i.rel_path) {
                let n = choose|n: int| 0 <= n < paths.len() && paths[n] == i.rel_path;
                if n < fewer.len() {
                    assert(fewer[n] == i.rel_path);
                }
            }
            if fewer.contains(i.rel_path) {
                let n = choose|n: int| 0 <= n < fewer.len() && fewer[n] == i.rel_path;
                assert(paths[n] == i.rel_path);
            }
            assert(paths[paths.len() - 1] == paths.last());
        }
        lemma_with_issues(is, row, fewer, i);
        if k < before.len() {
            let there = before[k];
            assert(before.contains(there));
            lemma_with_issues(is, row, fewer, there);
            if is.contains(there) {
                let n = choose|n: int| 0 <= n < is.len() && is[n] == there;
                assert(!concerns(is[n], row.source_id, row.destination_id, row.issue_kind));
            }
            assert(there == last);
            assert(after =~= before);
            assert(i == last ==> before.contains(i));
        } else {
            assert(after == before.push(last));
            if before.contains(i) {
                let n = choose|n: int| 0 <= n < before.len() && before[n] == i;
                assert(after[n] == i);
            }
            assert(after[before.len() as int] == last);
        }
    }
}

/// Replacing the problems of a destination that are of one kind leaves one of each path, with the
/// new message, cycle and time, and leaves all others as they were.
pub proof fn replaced_problems_are_the_new_ones(
    is: Seq<IssueRowModel>,
    row: IssueRowModel,
    paths: Seq<Seq<char>>,
    i: IssueRowModel,
)
    ensures
        ({
            let after = with_issues(
                is.filter(not_of_kind(row.source_id, row.destination_id, row.issue_kind)),
                row,
                paths,
            );
            if concerns(i, row.source_id, row.destination_id, row.issue_kind) {
                after.contains(i) <==> paths.contains(i.rel_path) && i.cycle_id == row.cycle_id
                    && i.message == row.message && i.updated_at == row.updated_at
            } else {
                after.contains(i) <==> is.contains(i)
            }
        }),
{
    let keep = not_of_kind(row.source_id, row.destination_id, row.issue_kind);
    let kept = is.filter(keep);
    assert forall|k: int| 0 <= k < kept.len() implies !concerns(
        #[trigger] kept[k],
        row.source_id,
        row.destination_id,
        row.issue_kind,
    ) by {
        is.lemma_filter_pred(keep, k);
    }
    lemma_with_issues(kept, row, paths, i);
    if kept.contains(i) {
        is.lemma_filter_contains_rev(keep, i);
        let k = choose|k: int| 0 <= k < kept.len() && kept[k] == i;
        is.lemma_filter_pred(keep, k);
    }
    if is.contains(i) && keep(i) {
        let k = choose|k: int| 0 <= k < is.len() && is[k] == i;
        is.lemma_filter_contains(keep, k);
    }
}

/// Whether a problem is shown for a row.
pub open spec fn shows(v: DestinationIssueViewModel, i: IssueRowModel) -> bool {
    &&& v.cycle_id == i.cycle_id
    &&& v.rel_path == i.rel_path
    &&& v.issue_kind == i.issue_kind
    &&& v.message == i.message
    &&& v.updated_at == i.updated_at
}

/// Whether a destination has a problem that is shown like this.
pub open spec fn has_problem(
    is: Seq<IssueRowModel>,
    source_id: Seq<char>,
    destination_id: Seq<char>,
    v: DestinationIssueViewModel,
) -> bool {
    exists|k: int|
        0 <= k < is.len() && (#[trigger] is[k]).source_id == source_id && is[k].destination_id
            == destination_id && shows(v, is[k])
}

/// Every problem of a destination is shown, and nothing else is.
pub proof fn problems_of_a_destination_are_shown(
    is: Seq<IssueRowModel>,
    source_id: Seq<char>,
    destination_id: Seq<char>,
    v: DestinationIssueViewModel,
)
    ensures
        shown_issues(is, source_id, destination_id).contains(v) <==> has_problem(
            is,
            source_id,
            destination_id,
            v,
        ),
    decreases is.len(),
{
    let out = shown_issues(is, source_id, destination_id);
    if is.len() > 0 {
        let fewer = is.drop_last();
        let before = shown_issues(fewer, source_id, destination_id);
        problems_of_a_destination_are_shown(fewer, source_id, destination_id, v);
        let last = is.last();
        assert(is[is.len() - 1] == last);
        let here = issue_of(source_id, destination_id)(last) && shows(v, last);
        assert(has_problem(is, source_id, destination_id, v) <==> has_problem(
            fewer,
            source_id,
            destination_id,
            v,
        ) || here) by {
            if has_problem(fewer, source_id, destination_id, v) {
                let k = choose|k: int|
                    0 <= k < fewer.len() && (#[trigger] fewer[k]).source_id == source_id
                        && fewer[k].destination_id == destination_id && shows(v, fewer[k]);
                assert(is[k] == fewer[k]);
            }
            if has_problem(is, source_id, destination_id, v) {
                let k = choose|k: int|
                    0 <= k < is.len() && (#[trigger] is[k]).source_id == source_id
                        && is[k].destination_id == destination_id && shows(v, is[k]);
                if k < fewer.len() {
                    assert(is[k] == fewer[k]);
                }
            }
        }
        if issue_of(source_id, destination_id)(last) {
            let x = shown_issue(last);
            assert(shows(v, last) <==> v == x);
            let n = first_where(before, crate::state::issues::follows(x));
            lemma_first_where(before, crate::state::issues::follows(x));
            assert(out == before.insert(n, x));
            assert(out.contains(v) <==> before.contains(v) || v == x) by {
                if before.contains(v) {
                    let k = choose|k: int| 0 <= k < before.len() && before[k] == v;
                    if k < n {
                        assert(out[k] == v);
                    } else {
                        assert(out[k + 1] == v);
                    }
                }
                assert(out[n] == x);
                if out.contains(v) {
                    let k = choose|k: int| 0 <= k < out.len() && out[k] == v;
                    if k < n {
                        assert(before[k] == v);
                    } else if k > n {
                        assert(before[k - 1] == v);
                    }
                }
            }
        }
    }
}

} // verus!
