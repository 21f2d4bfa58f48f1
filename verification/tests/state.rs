use auto_sync::clock::Moment;
use auto_sync::config::types::{
    AppConfig, DestinationConfig, LocalEnv, ScheduleConfig, ScheduleMode, SnapshotConfig,
    SourceGroupConfig, SyncMode,
};
use auto_sync::state::types::{ScanReport, State, StateError, WatcherEvent, WindowsUsnCursor};
use auto_sync::state::views::cycle_from_row;
use chrono::Utc;

fn env() -> LocalEnv {
    LocalEnv {
        hostname: "tiger".to_string(),
        host: "192.168.2.50".to_string(),
        os: "linux".to_string(),
    }
}

fn now() -> Moment {
    let t = Utc::now();
    Moment { secs: t.timestamp(), nanos: t.timestamp_subsec_nanos() }
}

fn now_text() -> String {
    Utc::now().to_rfc3339()
}

fn back(m: Moment, secs: i64) -> Moment {
    Moment { secs: m.secs - secs, nanos: m.nanos }
}

fn event(source: &str, kind: &str, path: Option<&str>) -> WatcherEvent {
    WatcherEvent {
        source_id: source.to_string(),
        raw_mask: 0,
        event_kind: kind.to_string(),
        rel_path: path.map(str::to_string),
        rescan_required: false,
    }
}

fn destination(id: &str, schedule: ScheduleConfig) -> DestinationConfig {
    DestinationConfig {
        id: id.to_string(),
        machine_id: "local".to_string(),
        path: "/t/dst".to_string(),
        enabled: true,
        schedule,
        paused: false,
        sync: None,
    }
}

fn config(destinations: Vec<DestinationConfig>) -> AppConfig {
    let mut cfg = AppConfig::initial(&env());
    cfg.source_groups = vec![SourceGroupConfig {
        id: "src_1".to_string(),
        machine_id: "local".to_string(),
        src: "/t/src".to_string(),
        add_directory: true,
        managed_by: String::new(),
        excludes: Vec::new(),
        enabled: true,
        order: 0,
        mode: SyncMode::Mirror,
        snapshot: SnapshotConfig { reconcile_interval_secs: 1, ..SnapshotConfig::default() },
        destinations,
    }];
    cfg
}

#[test]
fn restart_notice_persists_until_covered_or_dismissed() {
    let mut state = State::new();

    // An action that STARTED BEFORE the notice cannot vouch for the gap.
    let before_notice = "2026-06-15T10:00:00.000000001+00:00";
    assert!(state.raise_restart_notice("src_n", "2026-06-15T10:00:00.005+00:00"));
    let (noticed_at, _gap) = state.restart_notice("src_n").unwrap();
    assert!(
        !state.clear_restart_notice_if_covered("src_n", before_notice),
        "pre-notice action must not clear the notice"
    );

    // Raising again keeps the original notice (gap never shrinks).
    assert!(!state.raise_restart_notice("src_n", "2026-06-15T10:00:01+00:00"));
    let (still_at, _) = state.restart_notice("src_n").unwrap();
    assert_eq!(still_at, noticed_at);

    // An action started after the notice clears it.
    let after_notice = "2026-06-15T10:00:02+00:00";
    assert!(state.clear_restart_notice_if_covered("src_n", after_notice));
    assert!(state.restart_notice("src_n").is_none());

    // Manual dismissal clears unconditionally.
    assert!(state.raise_restart_notice("src_n", "2026-06-15T10:00:03+00:00"));
    state.dismiss_restart_notice("src_n");
    assert!(state.restart_notice("src_n").is_none());
}

#[test]
fn restart_notice_names_the_last_event_of_the_run_before() {
    let mut state = State::new();
    let at = Moment { secs: 1781517600, nanos: 0 };
    state.record_event(&event("src_n", "modify", Some("f")), at).unwrap();
    assert!(state.raise_restart_notice("src_n", "2026-06-16T00:00:00+00:00"));
    let (_, gap) = state.restart_notice("src_n").unwrap();
    assert_eq!(gap.as_deref(), Some("2026-06-15T10:00:00+00:00"));
}

#[test]
fn task_log_tracks_running_tasks_and_prunes_finished_ones_lazily() {
    let mut state = State::new();

    let running = state.task_start("compare", "src_a", "dst_a", &now_text()).unwrap();
    let tasks = state.recent_tasks(10);
    assert_eq!(tasks.len(), 1);
    assert_eq!(tasks[0].status, "running");
    assert!(tasks[0].ended_at.is_none(), "running task queryable live");

    state.task_finish(running, "success", "", 12, 3, 4000, &now_text());
    let tasks = state.recent_tasks(10);
    assert_eq!(tasks[0].status, "success");
    assert_eq!(tasks[0].files_synced, 12);
    assert_eq!(tasks[0].differences, 3);
    assert_eq!(tasks[0].entries_scanned, 4000);
    assert!(tasks[0].ended_at.is_some());
    assert!(tasks[0].duration_ms.is_some());

    // Lazy retention: a long-running task survives the prune even while
    // finished rows beyond the newest 100 are dropped at insert time.
    let long_running = state.task_start("sync", "src_a", "dst_a", &now_text()).unwrap();
    for i in 0..120 {
        let id = state.task_start("sync", "src_a", "dst_a", &now_text()).unwrap();
        state.task_finish(id, "success", "", i, 0, 0, &now_text());
    }
    let tasks = state.recent_tasks(200);
    assert!(tasks.len() <= 101, "finished rows capped at 100 + running");
    assert!(
        tasks.iter().any(|task| task.id == long_running),
        "running row never pruned"
    );

    // A restart sweep closes orphaned running rows.
    assert_eq!(state.abort_stale_running_tasks(&now_text()), 1);
    let tasks = state.recent_tasks(200);
    let orphan = tasks.iter().find(|task| task.id == long_running).unwrap();
    assert_eq!(orphan.status, "aborted");

    // A no-op row can be discarded entirely.
    let noop = state.task_start("sync", "src_a", "dst_a", &now_text()).unwrap();
    state.task_discard(noop);
    assert!(!state.recent_tasks(200).iter().any(|task| task.id == noop));
}

#[test]
fn tasks_are_timed_in_milliseconds() {
    let mut state = State::new();
    let id = state.task_start("sync", "s", "d", "2026-06-15T10:00:00.100+00:00").unwrap();
    state.task_finish(id, "failed", "why", 0, 0, 0, "2026-06-15T10:00:02.350+00:00");
    let task = state.task_by_id(id).unwrap();
    assert_eq!(task.duration_ms, Some(2250));
    assert_eq!(task.error, "why");
    assert!(state.task_by_id(id + 1).is_none());
    let id = state.task_start("sync", "s", "d", "whenever").unwrap();
    state.task_finish(id, "failed", "", 0, 0, 0, "2026-06-15T10:00:02+00:00");
    assert_eq!(state.task_by_id(id).unwrap().duration_ms, None);
    state.next_task = i64::MAX;
    assert_eq!(state.task_start("sync", "s", "d", "t"), Err(StateError::Full));
}

#[test]
fn realtime_does_not_advance_only_because_reconcile_interval_elapsed() {
    // Realtime destinations advance on events only; drift repair is the
    // user's explicit Full sync (which compares both trees and transfers
    // just the differences), not a background timer.
    let cfg = config(vec![destination("dst_1", ScheduleConfig::default())]);
    let mut state = State::new();
    state.ensure_config(&cfg, &now_text());
    state.ensure_open_cycle("src_1", back(now(), 10)).unwrap();
    state.upsert_destination_status("src_1", "dst_1", Some(1), "green", "verified", &now_text());

    assert!(state
        .advance_due_destination_targets(&cfg, now(), &now_text())
        .unwrap()
        .is_empty());

    state
        .record_event(&event("src_1", "usn_cursor_reconcile", None), now())
        .unwrap();
    assert!(state
        .advance_due_destination_targets(&cfg, now(), &now_text())
        .unwrap()
        .is_empty());

    state
        .record_event(&event("src_1", "modify", Some("file.txt")), now())
        .unwrap();
    assert_eq!(
        state
            .advance_due_destination_targets(&cfg, now(), &now_text())
            .unwrap()
            .len(),
        1
    );
}

#[test]
fn events_close_the_cycle_even_when_no_destination_is_due() {
    // A source whose only destination is on a far-off weekly schedule
    // must still advance its cycle when events accumulate (the UI shows
    // "latest" moving ahead of "verified"); the destination gets NO
    // target: transfer waits for the schedule.
    let far_weekday = (Utc::now() + chrono::Duration::try_days(3).unwrap())
        .format("%A")
        .to_string()
        .to_lowercase();
    let cfg = config(vec![destination(
        "dst_1",
        ScheduleConfig {
            mode: ScheduleMode::Weekly,
            time: "19:00".to_string(),
            timezone: String::new(),
            weekday: Some(far_weekday),
            sync_current_cycle_manually: false,
        },
    )]);

    let mut state = State::new();
    state.ensure_config(&cfg, &now_text());
    state.ensure_open_cycle("src_1", now()).unwrap();
    // Not a first sync: the destination has verified cycle 1 already.
    state.upsert_destination_status("src_1", "dst_1", Some(1), "green", "verified", &now_text());

    // No events: nothing closes.
    assert!(state
        .advance_due_destination_targets(&cfg, now(), &now_text())
        .unwrap()
        .is_empty());

    state
        .record_event(&event("src_1", "modify", Some("file.txt")), now())
        .unwrap();
    // Burst not quiesced yet (event just landed): still nothing closes.
    assert!(state
        .advance_due_destination_targets(&cfg, now(), &now_text())
        .unwrap()
        .is_empty());

    // Backdate the last-event marker past the quiescence window.
    state.metas[0].last_event_at = Some(back(now(), 30));

    let closed = state
        .advance_due_destination_targets(&cfg, now(), &now_text())
        .unwrap();
    assert_eq!(closed.len(), 1, "cycle closes once events quiesce");
    // The destination was NOT targeted: transfer waits for its schedule.
    let offset = state.destination_offset("src_1", "dst_1", &now_text());
    assert_eq!(offset.target_cycle_id, None);
    // The source's latest cycle advanced past the destination's verified.
    let latest = state.latest_closed_cycle_id("src_1");
    assert_eq!(latest, Some(closed[0].id));
}

#[test]
fn verified_cycle_keeps_events_for_lagging_scheduled_destinations() {
    // A verified cycle must NOT eagerly delete its events: a scheduled
    // destination accumulates them across cycles and applies the backlog
    // at its schedule time. Cleanup happens via prune_event_log once every
    // enabled destination has verified past the cycle.
    let mut state = State::new();
    let cycle_id = state.ensure_open_cycle("src_1", now()).unwrap();
    state
        .record_event(&event("src_1", "startup_mtime_scan", Some("a.txt")), now())
        .unwrap();
    state
        .record_event(&event("src_1", "modify", Some("b.txt")), now())
        .unwrap();

    state.mark_cycle_status(cycle_id, "verified");
    assert_eq!(state.cycle_events("src_1", cycle_id).len(), 2);

    // The accumulated backlog spans cycles: events after a destination's
    // last verified cycle up to (and with) its target cycle.
    let backlog = state.events_between_cycles("src_1", cycle_id - 1, cycle_id);
    assert_eq!(backlog.len(), 2);
    assert!(state.events_between_cycles("src_1", cycle_id, cycle_id).is_empty());
}

#[test]
fn prune_event_log_drops_old_cycles_but_keeps_latest_observed_at() {
    let mut state = State::new();

    let first_cycle = state.ensure_open_cycle("src_1", now()).unwrap();
    state
        .record_event(&event("src_1", "modify", Some("a.txt")), now())
        .unwrap();
    let observed = state.latest_event_observed_at("src_1");
    assert!(observed.is_some());
    state.close_current_cycle_for_source("src_1", now()).unwrap();
    let second_cycle = state.ensure_open_cycle("src_1", now()).unwrap();
    state
        .record_event(&event("src_1", "modify", Some("b.txt")), now())
        .unwrap();

    // Everything verified through the first cycle: its events can go.
    let removed = state.prune_event_log("src_1", second_cycle);
    assert_eq!(removed, 1);
    assert!(state.cycle_events("src_1", first_cycle).is_empty());
    assert_eq!(state.cycle_events("src_1", second_cycle).len(), 1);
    // The startup-gap scalar survives pruning.
    assert!(state.latest_event_observed_at("src_1").is_some());
}

#[test]
fn due_destinations_get_the_cycle_that_was_closed() {
    let mut paused = destination("dst_2", ScheduleConfig::default());
    paused.paused = true;
    let cfg = config(vec![destination("dst_1", ScheduleConfig::default()), paused]);
    let mut state = State::new();
    // The first synchronisation needs no event.
    let closed = state
        .advance_due_destination_targets(&cfg, now(), "t")
        .unwrap();
    assert_eq!(closed.len(), 1);
    assert_eq!(closed[0].status, "closed");
    assert_eq!(state.destination_target_cycle("src_1", "dst_1"), Some(closed[0].id));
    assert_eq!(state.destination_target_cycle("src_1", "dst_2"), None);
    assert!(state.source_has_target_cycle("src_1", closed[0].id));
    // While it is behind, it gets no other target.
    state.record_event(&event("src_1", "modify", Some("f")), now()).unwrap();
    assert!(state.advance_due_destination_targets(&cfg, now(), "t").unwrap().is_empty());
    assert_eq!(state.current_open_cycle_id("src_1"), Some(closed[0].id + 1));
    // Once verified, it is shown green, and the next event gives it the next cycle.
    state.upsert_destination_status(
        "src_1",
        "dst_1",
        Some(closed[0].id),
        "green",
        "verified",
        "t",
    );
    assert_eq!(state.destination_views(&cfg, "t")[0].status, "green");
    let next = state.advance_due_destination_targets(&cfg, now(), "t").unwrap();
    assert_eq!(next[0].id, closed[0].id + 1);
    let view = &state.destination_views(&cfg, "t")[0];
    assert_eq!(view.status, "red");
    assert_eq!(view.status_reason, "behind_target_cycle");
    assert_eq!(view.last_verified_cycle_id, Some(closed[0].id));
}

#[test]
fn forced_targets_leave_out_paused_destinations() {
    let mut paused = destination("dst_2", ScheduleConfig::default());
    paused.paused = true;
    let cfg = config(vec![destination("dst_1", ScheduleConfig::default()), paused]);
    let mut state = State::new();
    let all = state.force_target_all_destinations(&cfg, now(), "t").unwrap();
    assert_eq!(all.len(), 1);
    assert_eq!(state.destination_target_cycle("src_1", "dst_1"), Some(all[0].id));
    assert_eq!(state.destination_target_cycle("src_1", "dst_2"), None);
    let one = state
        .force_target_destination(&cfg, "src_1", "dst_1", now(), "t")
        .unwrap()
        .unwrap();
    assert_eq!(state.destination_target_cycle("src_1", "dst_1"), Some(one.id));
    assert!(state
        .force_target_destination(&cfg, "src_1", "dst_2", now(), "t")
        .unwrap()
        .is_none());
    assert!(state
        .force_target_destination(&cfg, "src_1", "nowhere", now(), "t")
        .unwrap()
        .is_none());
    assert!(state.force_target_source(&cfg, "nowhere", now(), "t").unwrap().is_none());
    let source = state.force_target_source(&cfg, "src_1", now(), "t").unwrap().unwrap();
    assert_eq!(source.id, one.id + 1);
    assert_eq!(state.close_due_cycles(&cfg, false, now(), "t").unwrap().len(), 0);
    assert_eq!(state.close_due_cycles(&cfg, true, now(), "t").unwrap().len(), 1);
}

#[test]
fn cycles_run_out_of_identifiers() {
    let cfg = config(vec![destination("dst_1", ScheduleConfig::default())]);
    let mut state = State::new();
    state.next_cycle = i64::MAX;
    assert_eq!(state.ensure_open_cycle("src_1", now()), Err(StateError::Full));
    assert!(state.advance_due_destination_targets(&cfg, now(), "t").is_err());
    // The destinations have rows by then.
    assert_eq!(state.offsets.len(), 1);
    assert!(state.cycles.is_empty());
    state.next_cycle = 1;
    state.next_event = i64::MAX;
    assert!(state.record_event(&event("src_1", "modify", None), now()).is_err());
}

#[test]
fn rescans_that_a_user_asked_for_are_not_taken_back() {
    let mut state = State::new();
    let id = state.ensure_open_cycle("s", now()).unwrap();
    state.mark_cycle_needs_rescan(id);
    assert!(state.cycle_by_id("s", id).unwrap().needs_full_rescan);
    state.clear_cycle_needs_rescan(id);
    assert!(!state.cycle_by_id("s", id).unwrap().needs_full_rescan);
    state.mark_cycle_manual_full_rescan(id);
    state.clear_cycle_needs_rescan(id);
    assert!(state.cycle_by_id("s", id).unwrap().needs_full_rescan);
    state.mark_open_cycle_needs_rescan("other", now()).unwrap();
    assert!(state.current_open_cycle("other").unwrap().needs_full_rescan);
    state.close_current_cycle_for_source("s", now()).unwrap();
    assert_eq!(state.closed_cycles_for_source("s").len(), 1);
}

#[test]
fn batches_of_events_are_recorded_in_order() {
    let mut state = State::new();
    state
        .record_events_batch(
            &vec![event("s", "modify", Some("b")), event("s", "modify", Some("a"))],
            now(),
        )
        .unwrap();
    let id = state.current_open_cycle_id("s").unwrap();
    assert!(state.cycle_has_events(id));
    assert!(state.cycle_has_actionable_events(id));
    let events = state.cycle_events("s", id);
    assert_eq!(events[0].rel_path.as_deref(), Some("b"));
    assert_eq!(state.event_paths_observed_since("s", back(now(), 60)), vec!["a", "b"]);
    assert!(!state.source_events_quiesced("s", now()));
    assert!(state.wake);
}

#[test]
fn issues_are_shown_newest_first() {
    let mut state = State::new();
    let paths = |p: &[&str]| -> Vec<String> { p.iter().map(|s| s.to_string()).collect() };
    state.replace_destination_issues("s", "d", 1, "old", &paths(&["z"]), "m", "t1");
    state.replace_destination_issues("s", "d", 2, "new", &paths(&["b", "a", "b"]), "m", "t2");
    let shown = state.destination_issues("s", "d");
    let names: Vec<&str> = shown.iter().map(|i| i.rel_path.as_str()).collect();
    assert_eq!(names, vec!["a", "b", "z"]);
    // A kind is replaced as a whole.
    state.replace_destination_issues("s", "d", 3, "new", &paths(&["c"]), "m", "t3");
    assert_eq!(state.destination_issues("s", "d").len(), 2);
    state.clear_destination_issues("s", "d");
    assert!(state.destination_issues("s", "d").is_empty());
}

fn report(source: &str, error: &str) -> ScanReport {
    ScanReport {
        source_id: source.to_string(),
        destination_id: "dst_1".to_string(),
        scanned_at: "then".to_string(),
        source_entries: 10,
        dst_entries: 10,
        in_sync: 4,
        to_add: 1,
        to_update: 2,
        to_delete: 3,
        type_mismatch: 4,
        metadata: 5,
        differences: Vec::new(),
        truncated: false,
        error: error.to_string(),
        method: String::new(),
    }
}

#[test]
fn reports_are_read_back_and_counted() {
    let cfg = config(vec![destination("dst_1", ScheduleConfig::default())]);
    let mut state = State::new();
    assert!(state.get_scan_report("src_1", "dst_1").is_none());
    state.put_scan_report(&report("src_1", "boom"));
    assert_eq!(state.destination_views(&cfg, "t")[0].scan_differences, None);
    state.put_scan_report(&report("src_1", ""));
    assert_eq!(state.get_scan_report("src_1", "dst_1").unwrap().to_update, 2);
    let view = &state.destination_views(&cfg, "t")[0];
    assert_eq!(view.scan_differences, Some(10));
    assert_eq!(view.scan_at.as_deref(), Some("then"));
    state.delete_scan_report("src_1", "dst_1");
    assert!(state.get_scan_report("src_1", "dst_1").is_none());
}

#[test]
fn journals_are_remembered_for_one_volume() {
    let mut state = State::new();
    state.set_windows_usn_cursor("s", "C:", 7, 100);
    assert_eq!(
        state.windows_usn_cursor("s", "C:"),
        Some(WindowsUsnCursor { journal_id: 7, next_usn: 100 })
    );
    state.set_windows_usn_cursor("s", "D:", 8, 5);
    assert_eq!(state.windows_usn_cursor("s", "C:"), None);
    assert_eq!(state.cursors.len(), 1);
}

#[test]
fn snapshots_of_removed_destinations_are_orphans() {
    let cfg = config(vec![destination("dst_1", ScheduleConfig::default())]);
    let mut state = State::new();
    state.ensure_destination_offset("src_1", "dst_1", "t");
    state.ensure_destination_offset("src_1", "gone", "t");
    state.set_destination_verified_snapshot("src_1", "dst_1", Some("snap_b".to_string()), "t");
    state.set_destination_verified_snapshot("src_1", "gone", Some("snap_a".to_string()), "t");
    state.set_destination_verified_dst_snapshot("src_1", "gone", Some("far".to_string()), "t");
    assert_eq!(state.source_referenced_snapshots("src_1"), vec!["snap_a", "snap_b"]);
    assert_eq!(state.destination_verified_dst_snapshot("src_1", "gone").as_deref(), Some("far"));
    assert_eq!(state.prune_removed_destination_offsets(&cfg), vec!["far"]);
    assert_eq!(state.destination_verified_snapshot("src_1", "dst_1").as_deref(), Some("snap_b"));
    assert_eq!(state.destination_verified_snapshot("src_1", "gone"), None);
    state.set_destination_target("src_1", "dst_1", 4, "t");
    state.clear_destination_target("src_1", "dst_1", "held", "t");
    let offset = state.destination_offset("src_1", "dst_1", "t");
    assert_eq!((offset.target_cycle_id, offset.status_reason.as_str()), (None, "held"));
    assert_eq!(state.destination_last_verified("src_1", "dst_1"), None);
}

#[test]
fn cycles_are_read_from_storage() {
    let c = cycle_from_row(
        5,
        "s".to_string(),
        "2026-06-15T10:00:00+00:00",
        Some("2026-06-15T11:00:00+00:00".to_string()),
        "closed".to_string(),
        (1, 0, 2),
    )
    .unwrap();
    assert_eq!(c.starts_at.secs, 1781517600);
    assert_eq!(c.ends_at.unwrap().secs, 1781521200);
    assert!(c.needs_full_rescan && !c.manual_full_rescan && c.manual_changed_since_rescan);
    assert!(cycle_from_row(5, "s".to_string(), "x", None, "open".to_string(), (0, 0, 0)).is_none());
    assert!(cycle_from_row(
        5,
        "s".to_string(),
        "2026-06-15T10:00:00+00:00",
        Some("x".to_string()),
        "open".to_string(),
        (0, 0, 0)
    )
    .is_none());
}

#[test]
fn bringing_the_state_in_line_again_changes_nothing() {
    let cfg = config(vec![destination("dst_1", ScheduleConfig::default())]);
    let mut state = State::new();
    state.ensure_config(&cfg, "then");
    state.set_destination_target("src_1", "dst_1", 9, "then");
    state.ensure_config(&cfg, "later");
    assert_eq!(state.offsets.len(), 1);
    assert_eq!(state.offsets[0].target_cycle_id, Some(9));
    assert_eq!(state.offsets[0].updated_at, "then");
}

#[test]
fn a_source_has_one_open_cycle() {
    let mut state = State::new();
    let first = state.ensure_open_cycle("s", now()).unwrap();
    assert_eq!(state.ensure_open_cycle("s", now()).unwrap(), first);
    let closed = state.close_current_cycle_for_source("s", now()).unwrap().unwrap();
    assert_eq!(closed.id, first);
    let open: Vec<i64> =
        state.cycles.iter().filter(|c| c.status == "open").map(|c| c.id).collect();
    assert_eq!(open, vec![first + 1]);
    assert!(state.close_current_cycle_for_source("other", now()).unwrap().is_none());
}

#[test]
fn identifiers_are_used_to_the_last() {
    let daily = ScheduleConfig { mode: ScheduleMode::Daily, ..ScheduleConfig::default() };
    let cfg = config(vec![destination("dst_1", daily)]);
    // One cycle is opened and no other one is needed.
    let mut state = State::new();
    state.next_cycle = i64::MAX - 1;
    assert!(state.ensure_open_cycles(&cfg, now()).is_ok());
    assert_eq!(state.next_cycle, i64::MAX);
    assert!(state.ensure_open_cycles(&cfg, now()).is_ok());
    assert_eq!(state.close_due_cycles(&cfg, false, now(), &now_text()).unwrap().len(), 0);
    // Closing it would take another one.
    assert!(matches!(
        state.close_due_cycles(&cfg, true, now(), &now_text()),
        Err(StateError::Full)
    ));
    assert!(matches!(
        state.force_target_all_destinations(&cfg, now(), &now_text()),
        Err(StateError::Full)
    ));
    assert!(matches!(
        state.force_target_source(&cfg, "src_1", now(), &now_text()),
        Err(StateError::Full)
    ));
    assert!(state.force_target_source(&cfg, "src_2", now(), &now_text()).unwrap().is_none());
    assert!(matches!(
        state.advance_due_destination_targets(&cfg, now(), &now_text()),
        Err(StateError::Full)
    ));
    assert!(state.current_open_cycle("src_1").is_some());
    // Two cycles are just enough to open one and close it.
    let mut state = State::new();
    state.next_cycle = i64::MAX - 2;
    assert_eq!(
        state.advance_due_destination_targets(&cfg, now(), &now_text()).unwrap().len(),
        1
    );
}

#[test]
fn batches_need_a_cycle_for_each_new_source() {
    let events = vec![
        event("src_1", "modify", Some("a")),
        event("src_1", "modify", Some("b")),
        event("src_1", "modify", Some("c")),
    ];
    let mut state = State::new();
    state.next_cycle = i64::MAX - 1;
    assert!(state.record_events_batch(&events, now()).is_ok());
    assert_eq!(state.events.len(), 3);
    assert!(state.record_events_batch(&events, now()).is_ok());
    // Another source has no cycle, and none of the batch is recorded.
    let more = vec![event("src_1", "modify", Some("d")), event("src_2", "modify", Some("e"))];
    assert!(matches!(state.record_events_batch(&more, now()), Err(StateError::Full)));
    assert_eq!(state.events.len(), 6);
}

#[test]
fn only_shown_reports_have_to_be_countable() {
    let cfg = config(vec![destination("dst_1", ScheduleConfig::default())]);
    let mut state = State::new();
    let mut huge = report("other", "");
    huge.to_add = u64::MAX;
    state.reports.push(huge.clone());
    assert!(state.can_show(&cfg));
    let mut failed = report("src_1", "broken");
    failed.to_add = u64::MAX;
    state.reports.push(failed);
    assert!(state.can_show(&cfg));
    assert_eq!(state.destination_views(&cfg, "t")[0].scan_differences, None);
    huge.source_id = "src_1".to_string();
    state.reports = vec![huge];
    assert!(!state.can_show(&cfg));
}
