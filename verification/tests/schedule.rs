use auto_sync::clock::{day_of, has_passed, is_in_calendar, millis_between, parse_db_time, parse_weekday, weekday, Moment};
use auto_sync::config::types::{ScheduleConfig, ScheduleMode, StandbyPoolConfig, WakeSchedule};
use auto_sync::scheduler::{
    boundary_among, candidate_days, cycle_is_due, due_with_boundary, next_boundary_after,
    read_schedule, BoundaryError, Slot,
};
use auto_sync::standby::{
    devices_to_spin_down, gate_for_roots, is_within_wake_window, next_wake_start_after,
    pool_covers_path, pool_is_awake, read_wake_schedule, verify_pool_mounted, wake_start_among,
    tick, window_verdict, DeviceFact, Gate, PoolAction, StandbyManager, WakeError,
};
use chrono::{Local, TimeZone};

fn schedule(mode: ScheduleMode, time: &str, weekday: Option<&str>) -> ScheduleConfig {
    ScheduleConfig {
        mode,
        time: time.to_string(),
        weekday: weekday.map(str::to_string),
        ..ScheduleConfig::default()
    }
}

// Boundaries are computed in the machine's LOCAL timezone; building the
// expectations through the same `Local` conversion keeps these tests
// correct in any timezone the suite runs in.
fn local_utc(y: i32, m: u32, d: u32, h: u32, min: u32) -> Moment {
    let t = Local
        .with_ymd_and_hms(y, m, d, h, min, 0)
        .single()
        .expect("unambiguous local time");
    Moment { secs: t.timestamp(), nanos: 0 }
}

fn shifted(m: Moment, secs: i64) -> Moment {
    Moment { secs: m.secs + secs, nanos: m.nanos }
}

#[test]
fn daily_boundary_is_the_next_occurrence_after_start() {
    let cfg = schedule(ScheduleMode::Daily, "19:00", None);
    // Start before today's slot: today's slot.
    assert_eq!(
        next_boundary_after(local_utc(2026, 6, 15, 10, 0), &cfg).unwrap(),
        local_utc(2026, 6, 15, 19, 0)
    );
    // Start after today's slot: tomorrow's slot.
    assert_eq!(
        next_boundary_after(local_utc(2026, 6, 15, 20, 0), &cfg).unwrap(),
        local_utc(2026, 6, 16, 19, 0)
    );
    // Start exactly AT the slot: strictly after, so the next day.
    assert_eq!(
        next_boundary_after(local_utc(2026, 6, 15, 19, 0), &cfg).unwrap(),
        local_utc(2026, 6, 16, 19, 0)
    );
}

#[test]
fn weekly_boundary_lands_on_the_configured_weekday() {
    let cfg = schedule(ScheduleMode::Weekly, "19:00", Some("sat"));
    // 2026-06-15 is a Monday; the next Saturday is 2026-06-20.
    assert_eq!(
        next_boundary_after(local_utc(2026, 6, 15, 10, 0), &cfg).unwrap(),
        local_utc(2026, 6, 20, 19, 0)
    );
    // Start ON Saturday past the slot: the following Saturday.
    assert_eq!(
        next_boundary_after(local_utc(2026, 6, 20, 19, 30), &cfg).unwrap(),
        local_utc(2026, 6, 27, 19, 0)
    );
    // Full weekday names accepted too.
    let cfg = schedule(ScheduleMode::Weekly, "07:30", Some("Sunday"));
    assert_eq!(
        next_boundary_after(local_utc(2026, 6, 15, 10, 0), &cfg).unwrap(),
        local_utc(2026, 6, 21, 7, 30)
    );
}

#[test]
fn realtime_boundary_is_the_start_itself() {
    let cfg = schedule(ScheduleMode::Realtime, "", None);
    let start = local_utc(2026, 6, 15, 10, 0);
    assert_eq!(next_boundary_after(start, &cfg).unwrap(), start);
    assert!(cycle_is_due(start, start, &cfg));
}

#[test]
fn cycle_is_due_only_at_or_after_the_boundary() {
    let cfg = schedule(ScheduleMode::Daily, "19:00", None);
    let start = local_utc(2026, 6, 15, 10, 0);
    let boundary = local_utc(2026, 6, 15, 19, 0);
    assert!(!cycle_is_due(start, shifted(boundary, -60), &cfg));
    assert!(cycle_is_due(start, boundary, &cfg));
    assert!(cycle_is_due(start, shifted(boundary, 60), &cfg));
}

#[test]
fn invalid_schedule_falls_back_to_one_day() {
    // An unparseable time must not wedge the cycle open forever: the
    // fallback closes it after 24h.
    let cfg = schedule(ScheduleMode::Daily, "not-a-time", None);
    let start = local_utc(2026, 6, 15, 10, 0);
    assert!(!cycle_is_due(start, shifted(start, 23 * 3600), &cfg));
    assert!(cycle_is_due(start, shifted(start, 24 * 3600), &cfg));
    // Same for an invalid weekday on a weekly schedule.
    let cfg = schedule(ScheduleMode::Weekly, "19:00", Some("caturday"));
    assert!(!cycle_is_due(start, shifted(start, 23 * 3600), &cfg));
    assert!(cycle_is_due(start, shifted(start, 24 * 3600), &cfg));
}

#[test]
fn weekday_aliases_parse_and_junk_is_rejected() {
    for (value, expected) in [
        ("mon", chrono::Weekday::Mon),
        ("Tuesday", chrono::Weekday::Tue),
        ("WED", chrono::Weekday::Wed),
        ("thu", chrono::Weekday::Thu),
        ("friday", chrono::Weekday::Fri),
        ("sat", chrono::Weekday::Sat),
        ("sunday", chrono::Weekday::Sun),
    ] {
        assert_eq!(
            parse_weekday(value).unwrap(),
            expected.num_days_from_monday(),
            "{value}"
        );
    }
    assert!(parse_weekday("caturday").is_none());
}

#[test]
fn unreadable_schedules_are_told_apart() {
    let start = local_utc(2026, 6, 15, 10, 0);
    assert!(matches!(
        next_boundary_after(start, &schedule(ScheduleMode::Daily, "25:00", None)),
        Err(BoundaryError::Time(_))
    ));
    assert!(matches!(
        next_boundary_after(start, &schedule(ScheduleMode::Weekly, "10:00", Some("x"))),
        Err(BoundaryError::Weekday)
    ));
    assert!(next_boundary_after(
        Moment { secs: i64::MAX, nanos: 0 },
        &schedule(ScheduleMode::Daily, "10:00", None)
    )
    .is_err());
    assert!(due_with_boundary(Some(start), start, start));
    assert!(!due_with_boundary(None, start, start));
}

#[test]
fn stored_times_are_read() {
    let m = parse_db_time("2026-06-15T10:00:00.250+00:00").unwrap();
    assert_eq!(m, Moment { secs: 1781517600, nanos: 250_000_000 });
    assert_eq!(parse_db_time("2026-06-15T12:00:00+02:00").unwrap().secs, 1781517600);
    assert!(parse_db_time("yesterday").is_none());
    let later = Moment { secs: m.secs + 1, nanos: 0 };
    assert_eq!(millis_between(m, later), 750);
    // The first of January of the year one is a Monday.
    assert_eq!(weekday(1), 0);
    assert_eq!(weekday(719163), 3);
}

fn wake(every: u32, weekday: &str, time: &str, anchor: &str, win: u64) -> WakeSchedule {
    WakeSchedule {
        every_weeks: every,
        weekday: weekday.to_string(),
        time: time.to_string(),
        anchor_date: anchor.to_string(),
        max_window_minutes: win,
    }
}

#[test]
fn weekly_window_opens_on_weekday_and_lasts_the_window() {
    // 2026-01-03 is a Saturday (anchor). Weekly, opens 10:00 for 12h.
    let w = wake(1, "saturday", "10:00", "2026-01-03", 12 * 60);
    // Saturday 2026-01-10 (a week later) 11:00: inside window.
    assert!(is_within_wake_window(local_utc(2026, 1, 10, 11, 0), &w).unwrap());
    // 09:59 before open: asleep.
    assert!(!is_within_wake_window(local_utc(2026, 1, 10, 9, 59), &w).unwrap());
    // 22:01 (past 10:00+12h): asleep.
    assert!(!is_within_wake_window(local_utc(2026, 1, 10, 22, 1), &w).unwrap());
    // Sunday: asleep.
    assert!(!is_within_wake_window(local_utc(2026, 1, 11, 11, 0), &w).unwrap());
}

#[test]
fn every_four_weeks_only_wakes_on_cadence_saturdays() {
    // anchor 2026-01-03 (Sat, week 0). every 4 weeks: weeks 0,4,8...
    let w = wake(4, "saturday", "10:00", "2026-01-03", 12 * 60);
    assert!(is_within_wake_window(local_utc(2026, 1, 3, 11, 0), &w).unwrap()); // week 0
    assert!(!is_within_wake_window(local_utc(2026, 1, 10, 11, 0), &w).unwrap()); // week 1
    assert!(!is_within_wake_window(local_utc(2026, 1, 17, 11, 0), &w).unwrap()); // week 2
    assert!(!is_within_wake_window(local_utc(2026, 1, 24, 11, 0), &w).unwrap()); // week 3
    assert!(is_within_wake_window(local_utc(2026, 1, 31, 11, 0), &w).unwrap()); // week 4
}

#[test]
fn next_wake_is_the_upcoming_cadence_day() {
    let w = wake(4, "saturday", "10:00", "2026-01-03", 12 * 60);
    // Thursday 2026-01-15: next cadence Saturday is 2026-01-31 (week 4).
    let next = next_wake_start_after(local_utc(2026, 1, 15, 9, 0), &w).unwrap();
    assert_eq!(next, local_utc(2026, 1, 31, 10, 0));
}

fn zfs_pool() -> StandbyPoolConfig {
    StandbyPoolConfig {
        name: "zfs".into(),
        mount_roots: vec!["/zfs".to_string()],
        enabled: true,
        wake: wake(1, "saturday", "10:00", "2026-01-03", 12 * 60),
        ..Default::default()
    }
}

#[test]
fn gate_defers_when_pool_asleep_and_passes_when_no_pool_touched() {
    let pools = vec![zfs_pool()];
    // Monday: asleep; a task writing /zfs/wx is gated.
    let g = gate_for_roots(
        &pools,
        &vec!["/opt/wx".to_string(), "/zfs/wx".to_string()],
        local_utc(2026, 1, 5, 12, 0),
        &Vec::new(),
    )
    .unwrap();
    match g {
        Some(Gate::Asleep { pool, reason }) => {
            assert_eq!(pool, "zfs");
            // The reason says when the disk wakes, in local time.
            assert!(reason.contains("2026-01-10 10:00"), "{reason}");
        }
        other => panic!("expected Asleep, got {other:?}"),
    }
    // A task entirely off the pool (/opt to /opt) is never gated.
    assert!(gate_for_roots(
        &pools,
        &vec!["/opt/a".to_string(), "/opt/b".to_string()],
        local_utc(2026, 1, 5, 12, 0),
        &Vec::new(),
    )
    .unwrap()
    .is_none());
}

#[test]
fn pool_covers_only_paths_under_its_roots() {
    let pool = StandbyPoolConfig {
        name: "zfs".into(),
        mount_roots: vec!["/zfs".to_string()],
        ..Default::default()
    };
    assert!(pool_covers_path(&pool, "/zfs"));
    assert!(pool_covers_path(&pool, "/zfs/wx/a"));
    assert!(!pool_covers_path(&pool, "/zfs_pool/x"));
    assert!(!pool_covers_path(&pool, "/opt/wx"));
}

#[test]
fn awake_pools_have_to_be_mounted() {
    let pools = vec![zfs_pool()];
    let roots = vec!["/zfs/wx".to_string()];
    let inside = local_utc(2026, 1, 10, 11, 0);
    let bare = vec![
        DeviceFact { path: "/zfs".to_string(), device: Ok(1) },
        DeviceFact { path: "/".to_string(), device: Ok(1) },
    ];
    assert!(matches!(
        gate_for_roots(&pools, &roots, inside, &bare).unwrap(),
        Some(Gate::NotMounted { .. })
    ));
    let mounted = vec![
        DeviceFact { path: "/zfs".to_string(), device: Ok(2) },
        DeviceFact { path: "/".to_string(), device: Ok(1) },
    ];
    assert!(gate_for_roots(&pools, &roots, inside, &mounted).unwrap().is_none());
    assert!(verify_pool_mounted(&pools[0], &mounted).is_ok());
    assert!(verify_pool_mounted(&pools[0], &Vec::new()).is_err());
}

#[test]
fn unreadable_wake_schedules_are_told_apart() {
    let now = local_utc(2026, 1, 10, 11, 0);
    assert!(matches!(
        is_within_wake_window(now, &wake(1, "saturday", "10:00", "someday", 60)),
        Err(WakeError::Anchor)
    ));
    assert!(matches!(
        is_within_wake_window(now, &wake(1, "caturday", "10:00", "2026-01-03", 60)),
        Err(WakeError::Weekday)
    ));
    assert!(matches!(
        is_within_wake_window(now, &wake(1, "saturday", "late", "2026-01-03", 60)),
        Err(WakeError::Time)
    ));
}

#[test]
fn pools_are_parked_once_and_not_while_busy() {
    let mut m = StandbyManager::new();
    assert!(matches!(m.step("zfs", false, false), PoolAction::Stay));
    assert!(matches!(m.step("zfs", true, false), PoolAction::Wake));
    assert!(pool_is_awake(&m, "zfs"));
    assert!(matches!(m.step("zfs", false, true), PoolAction::Stay));
    assert!(matches!(m.step("zfs", false, false), PoolAction::Park));
    assert!(matches!(m.step("zfs", false, false), PoolAction::Stay));
    assert!(!pool_is_awake(&m, "zfs"));
    let mut pool = zfs_pool();
    pool.devices = vec!["/dev/sda".to_string()];
    pool.active_spindown = true;
    assert_eq!(devices_to_spin_down(&pool), vec!["/dev/sda"]);
    pool.active_spindown = false;
    assert!(devices_to_spin_down(&pool).is_empty());
}

const BEYOND: Moment = Moment { secs: 8210266876800, nanos: 0 };

#[test]
fn schedules_fall_at_a_second_of_the_day() {
    assert_eq!(
        read_schedule(&schedule(ScheduleMode::Daily, "19:30", Some("sat"))).unwrap(),
        Slot { weekday: None, secs: 70200 }
    );
    assert_eq!(
        read_schedule(&schedule(ScheduleMode::Weekly, "00:01", Some("sat"))).unwrap(),
        Slot { weekday: Some(5), secs: 60 }
    );
    assert_eq!(
        read_schedule(&schedule(ScheduleMode::Weekly, "00:00", None)).unwrap(),
        Slot { weekday: Some(0), secs: 0 }
    );
    assert!(matches!(
        read_schedule(&schedule(ScheduleMode::Weekly, "00:00", Some("caturday"))),
        Err(BoundaryError::Weekday)
    ));
    assert!(matches!(
        read_schedule(&schedule(ScheduleMode::Daily, "24:00", None)),
        Err(BoundaryError::Time(_))
    ));
}

#[test]
fn boundary_is_the_first_candidate_after_the_start() {
    let at = |secs| Moment { secs, nanos: 0 };
    let start = at(100);
    assert_eq!(boundary_among(start, &vec![Some(at(100)), Some(at(200)), None]).unwrap(), at(200));
    // A time that does not exist ends the search.
    assert!(matches!(
        boundary_among(start, &vec![Some(at(50)), None, Some(at(200))]),
        Err(BoundaryError::Unresolved)
    ));
    assert!(matches!(boundary_among(start, &Vec::new()), Err(BoundaryError::OutOfRange)));
}

#[test]
fn weekly_candidates_lie_on_the_weekday() {
    // Day one is a Monday.
    assert_eq!(candidate_days(1, Some(5)), vec![6, 13]);
    assert_eq!(candidate_days(6, Some(5)), vec![6, 13]);
    assert_eq!(candidate_days(7, Some(5)), vec![13, 20]);
    assert_eq!(candidate_days(7, None), vec![7, 8, 9, 10]);
}

#[test]
fn moments_outside_the_calendar_have_no_local_day() {
    assert!(day_of(BEYOND).is_none());
    assert!(day_of(Moment { secs: 0, nanos: 1000000000 }).is_none());
    let noon = day_of(Moment { secs: 43200, nanos: 0 }).unwrap();
    assert!((719162..=719164).contains(&noon));
    assert!(matches!(
        next_boundary_after(BEYOND, &schedule(ScheduleMode::Daily, "19:00", None)),
        Err(BoundaryError::OutOfRange)
    ));
    // A schedule that cannot be read comes first.
    assert!(matches!(
        next_boundary_after(BEYOND, &schedule(ScheduleMode::Daily, "late", None)),
        Err(BoundaryError::Time(_))
    ));
    let wake = wake(1, "saturday", "10:00", "2026-01-03", 60);
    assert!(matches!(is_within_wake_window(BEYOND, &wake), Err(WakeError::OutOfRange)));
    assert!(matches!(next_wake_start_after(BEYOND, &wake), Err(WakeError::OutOfRange)));
}

#[test]
fn cycles_without_a_boundary_end_after_a_day() {
    let cfg = schedule(ScheduleMode::Daily, "late", None);
    let start = local_utc(2026, 6, 15, 10, 0);
    assert!(!cycle_is_due(start, shifted(start, 86399), &cfg));
    assert!(cycle_is_due(start, shifted(start, 86400), &cfg));
}

#[test]
fn wake_starts_that_are_not_found_are_told_apart() {
    let plan = read_wake_schedule(&wake(2, "saturday", "10:00", "2026-01-03", 60)).unwrap();
    assert_eq!((plan.weekday, plan.secs, plan.nanos, plan.every), (5, 36000, 0, 2));
    let at = |secs| Moment { secs, nanos: 0 };
    let today = 739621;
    assert_eq!(
        wake_start_among(at(100), &plan, today, &vec![Some(at(100)), Some(at(101))]).unwrap(),
        at(101)
    );
    assert!(matches!(
        wake_start_among(at(100), &plan, today, &vec![Some(at(99))]),
        Err(WakeError::NotFound)
    ));
    assert!(matches!(
        wake_start_among(at(100), &plan, today, &vec![None, Some(at(101))]),
        Err(WakeError::Unresolved)
    ));
    assert!(matches!(
        wake_start_among(at(100), &plan, 95745399, &Vec::new()),
        Err(WakeError::OutOfRange)
    ));
}

#[test]
fn windows_are_open_for_their_length() {
    let at = |secs| Moment { secs, nanos: 0 };
    // The latest start comes first; one in the future does not count.
    let starts = vec![Some(at(5000)), Some(at(1000))];
    assert_eq!(window_verdict(at(1000), 10, &starts), Ok(true));
    assert_eq!(window_verdict(at(1599), 10, &starts), Ok(true));
    assert_eq!(window_verdict(at(1600), 10, &starts), Ok(false));
    assert_eq!(window_verdict(at(999), 10, &starts), Ok(false));
    // A window lasts a minute at least.
    assert_eq!(window_verdict(at(1059), 0, &starts), Ok(true));
    assert_eq!(window_verdict(at(1060), 0, &starts), Ok(false));
    assert_eq!(window_verdict(at(1000), 10, &vec![None]), Err(()));
}

#[test]
fn gate_gives_the_error_of_the_first_touched_pool() {
    let now = local_utc(2026, 1, 5, 12, 0);
    let mut broken = zfs_pool();
    broken.wake = wake(1, "caturday", "10:00", "2026-01-03", 60);
    let off = vec!["/opt/a".to_string()];
    let on = vec!["/opt/a".to_string(), "/zfs/wx".to_string()];
    let pools = vec![broken, zfs_pool()];
    assert!(gate_for_roots(&pools, &off, now, &Vec::new()).unwrap().is_none());
    assert!(matches!(gate_for_roots(&pools, &on, now, &Vec::new()), Err(WakeError::Weekday)));
    let mut disabled = zfs_pool();
    disabled.enabled = false;
    disabled.wake = wake(1, "caturday", "10:00", "2026-01-03", 60);
    let pools = vec![disabled, zfs_pool()];
    assert!(matches!(
        gate_for_roots(&pools, &on, now, &Vec::new()),
        Ok(Some(Gate::Asleep { .. }))
    ));
}

#[test]
fn boundaries_are_found_up_to_the_end_of_the_calendar() {
    // Ten days before the last day: today's or tomorrow's slot.
    let start = Moment { secs: 8210266000000, nanos: 0 };
    let boundary =
        next_boundary_after(start, &schedule(ScheduleMode::Daily, "19:00", None)).unwrap();
    assert!(boundary.secs > start.secs && boundary.secs <= start.secs + 90000);
    assert_eq!(boundary.nanos, 0);
    let weekly = next_boundary_after(
        Moment { secs: 8210266000000 - 3 * 86400, nanos: 0 },
        &schedule(ScheduleMode::Weekly, "19:00", None),
    );
    assert!(matches!(weekly, Ok(_) | Err(BoundaryError::OutOfRange)));
    // On the last day no slot is left.
    assert!(matches!(
        next_boundary_after(
            Moment { secs: 8210266876799, nanos: 0 },
            &schedule(ScheduleMode::Daily, "00:00", None)
        ),
        Err(BoundaryError::OutOfRange) | Err(BoundaryError::Unresolved)
    ));
    assert_eq!(candidate_days(95745398, None), vec![95745398, 95745399]);
    assert!(candidate_days(95745399, Some(weekday(95745399 - 1))).is_empty());
}

#[test]
fn leap_seconds_are_moments() {
    let leap = Moment { secs: 1483228799, nanos: 1_500_000_000 };
    assert!(is_in_calendar(leap));
    assert!(!is_in_calendar(Moment { secs: 1483228798, nanos: 1_500_000_000 }));
    assert!(!is_in_calendar(Moment { secs: 1483228799, nanos: 2_000_000_000 }));
    assert!(is_in_calendar(Moment { secs: -1, nanos: 1_000_000_000 }));
    let boundary =
        next_boundary_after(leap, &schedule(ScheduleMode::Daily, "19:00", None)).unwrap();
    assert!(boundary.secs > leap.secs && boundary.secs <= leap.secs + 90000);
    // A day has not passed before the same time of the next day, leap second for leap second.
    assert!(!has_passed(leap, Moment { secs: leap.secs + 86400, nanos: 999_999_999 }, 86400));
    assert!(has_passed(leap, Moment { secs: leap.secs + 86400, nanos: 1_500_000_000 }, 86400));
    // The same answers as the calendar gives.
    let utc = |m: Moment| chrono::DateTime::from_timestamp(m.secs, m.nanos).unwrap();
    for (from, to) in [
        (leap, Moment { secs: leap.secs + 86401, nanos: 0 }),
        (leap, Moment { secs: leap.secs + 86402, nanos: 0 }),
        (Moment { secs: 1483142400, nanos: 300_000_000 }, leap),
        (Moment { secs: 1483142400, nanos: 600_000_000 }, leap),
        (Moment { secs: -5, nanos: 7 }, Moment { secs: 86395, nanos: 6 }),
        (Moment { secs: -5, nanos: 7 }, Moment { secs: 86395, nanos: 7 }),
    ] {
        assert_eq!(
            has_passed(from, to, 86400),
            utc(to).signed_duration_since(utc(from)) >= chrono::Duration::days(1)
        );
    }
    // A window that opens in a leap second ends as if it had opened a second later.
    let starts = vec![Some(leap)];
    assert_eq!(window_verdict(Moment { secs: leap.secs + 60, nanos: 499_999_999 }, 1, &starts), Ok(true));
    assert_eq!(window_verdict(Moment { secs: leap.secs + 60, nanos: 500_000_000 }, 1, &starts), Ok(false));
}

#[test]
fn pools_are_tended_in_order() {
    let mut broken = zfs_pool();
    broken.name = "broken".to_string();
    broken.wake = wake(1, "caturday", "10:00", "2026-01-03", 60);
    let mut off = zfs_pool();
    off.name = "off".to_string();
    off.enabled = false;
    let pools = vec![zfs_pool(), broken, off];
    let idle = vec![false, false, false];
    let mut m = StandbyManager::new();
    let inside = local_utc(2026, 1, 10, 11, 0);
    let outside = local_utc(2026, 1, 12, 11, 0);
    assert_eq!(
        tick(&mut m, &pools, inside, &idle),
        vec![PoolAction::Wake, PoolAction::Stay, PoolAction::Stay]
    );
    assert_eq!(
        tick(&mut m, &pools, outside, &vec![true, false, false]),
        vec![PoolAction::Stay, PoolAction::Stay, PoolAction::Stay]
    );
    assert_eq!(
        tick(&mut m, &pools, outside, &idle),
        vec![PoolAction::Park, PoolAction::Stay, PoolAction::Stay]
    );
    // A schedule that cannot be read counts as a closed window.
    let mut m = StandbyManager::new();
    m.step("broken", true, false);
    let windows = vec![Ok(false), Err(WakeError::Weekday), Ok(true)];
    assert_eq!(
        m.tend(&pools, &windows, &idle),
        vec![PoolAction::Stay, PoolAction::Park, PoolAction::Stay]
    );
}
