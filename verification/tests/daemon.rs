use auto_sync::clock::Moment;
use auto_sync::config::types::{
    AppConfig, DestinationConfig, LocalEnv, SourceGroupConfig, StandbyPoolConfig,
};
use auto_sync::daemon::instance::{
    acquire_single_instance_lock, listed_auto_sync_processes, lock_path, lock_pid_sidecar,
    other_auto_sync_processes, process_is_auto_sync, read_lock_pid, takeover,
    task_list_names_auto_sync, LockStep, ProcessFact, Takeover,
};
use auto_sync::daemon::relaunch::{
    join_windows_command_line, quote_windows_arg, relaunch_arguments,
};
use auto_sync::daemon::report::print_status;
use auto_sync::daemon::run::{wait_for_watcher_armed, ArmVerdict, Scheduler, Step};
use auto_sync::daemon::units::{deploy_nas, systemd_unit, web_systemd_unit, DeployStep};
use auto_sync::daemon::watch::{
    config_signature, pool_is_busy, raise_restart_notices, record_restart_gaps, work_can_run,
};
use auto_sync::state::types::State;

fn env() -> LocalEnv {
    LocalEnv {
        hostname: "tiger".to_string(),
        host: "192.168.2.50".to_string(),
        os: "linux".to_string(),
    }
}

fn config() -> AppConfig {
    let mut cfg = AppConfig::initial(&env());
    cfg.source_groups.push(SourceGroupConfig {
        id: "s".to_string(),
        src: "/zfs/src".to_string(),
        destinations: vec![DestinationConfig {
            id: "d".to_string(),
            path: "/backup".to_string(),
            ..Default::default()
        }],
        ..Default::default()
    });
    cfg
}

fn at() -> Moment {
    Moment { secs: 1781517600, nanos: 0 }
}

#[test]
fn quotes_windows_relaunch_arguments() {
    assert_eq!(
        quote_windows_arg(r#"C:\sync root\conf.toml"#),
        r#""C:\sync root\conf.toml""#
    );
    assert_eq!(
        quote_windows_arg(r#"C:\path\"quote".toml"#),
        r#""C:\path\\\"quote\".toml""#
    );
}

#[test]
fn quoting_doubles_backslashes_only_before_quotes() {
    assert_eq!(quote_windows_arg(""), "\"\"");
    assert_eq!(quote_windows_arg(r"C:\dir\"), r#""C:\dir\\""#);
    let args = relaunch_arguments(r"C:\c.toml", true, false);
    assert_eq!(args, vec!["--config", r"C:\c.toml", "--elevation-attempted", "--no-gui"]);
    assert_eq!(
        join_windows_command_line(&vec!["a".to_string(), "b c".to_string()]),
        "\"a\" \"b c\""
    );
}

#[test]
fn the_lock_lies_beside_the_configuration() {
    assert_eq!(lock_path("/opt/conf/auto_sync.toml"), "/opt/conf/.auto_sync.lock");
    assert_eq!(lock_path("auto_sync.toml"), ".auto_sync.lock");
    assert_eq!(lock_pid_sidecar("/x/.auto_sync.lock"), "/x/.auto_sync.lock.pid");
}

#[test]
fn the_other_daemon_is_stopped_and_no_other_process() {
    assert_eq!(read_lock_pid(&Some(" 42\n".to_string()), &None), Some(42));
    assert_eq!(read_lock_pid(&Some("junk".to_string()), &Some("43".to_string())), Some(43));
    assert_eq!(read_lock_pid(&None, &None), None);
    assert_eq!(takeover(Some(42), 42, true), Takeover::Leave);
    assert_eq!(takeover(Some(42), 1, true), Takeover::Stop(42));
    assert_eq!(takeover(Some(42), 1, false), Takeover::StopOthers);
    assert_eq!(takeover(None, 1, false), Takeover::StopOthers);
    assert!(process_is_auto_sync(&Some("auto_sync\n".to_string())));
    assert!(!process_is_auto_sync(&Some("auto_syncd".to_string())));
    assert!(!process_is_auto_sync(&None));
    let fact = |dir: &str, comm: &str| ProcessFact { dir: dir.to_string(), comm: Some(comm.to_string()) };
    let others = other_auto_sync_processes(
        &vec![fact("self", "auto_sync"), fact("7", "auto_sync\n"), fact("8", "bash"), fact("9", "auto_sync")],
        9,
    );
    assert_eq!(others, vec![7]);
}

#[test]
fn the_list_of_tasks_is_read() {
    let out = "\"auto_sync.exe\",\"11184\",\"Console\",\"1\",\"123,456 K\"\r\n\
               \"AUTO_SYNC.EXE\",\"5\",\"Console\",\"1\",\"1 K\"\r\n\
               \"other.exe\",\"6\",\"Console\",\"1\",\"1 K\"\r\n";
    assert_eq!(listed_auto_sync_processes(out, 5), vec![11184]);
    assert!(task_list_names_auto_sync("\"Auto_Sync.exe\""));
    assert!(!task_list_names_auto_sync("INFO: No tasks"));
}

#[test]
fn the_lock_is_tried_until_it_is_given_up() {
    assert_eq!(acquire_single_instance_lock(0, true), LockStep::Hold);
    assert_eq!(acquire_single_instance_lock(0, false), LockStep::TakeOver);
    assert_eq!(acquire_single_instance_lock(1, false), LockStep::Retry);
    assert_eq!(acquire_single_instance_lock(24, false), LockStep::Retry);
    assert_eq!(acquire_single_instance_lock(25, true), LockStep::Hold);
    assert_eq!(acquire_single_instance_lock(25, false), LockStep::Refuse);
}

#[test]
fn units_name_the_installation() {
    let unit = systemd_unit("/opt/auto_sync");
    assert!(unit.contains("WorkingDirectory=/opt/auto_sync\n"));
    assert!(unit.contains(
        "ExecStart=/opt/auto_sync/bin/auto_syncd --config /opt/auto_sync/conf/auto_sync.toml\n"
    ));
    assert!(web_systemd_unit("/opt/a").contains("ExecStart=/opt/a/bin/auto_sync_web --config "));
    let steps = deploy_nas("conf/auto_sync.toml", "nas", 10022, "root", "/opt/a");
    assert_eq!(steps.len(), 13);
    match &steps[0] {
        DeployStep::Run(program, args) => {
            assert_eq!(program, "ssh");
            assert_eq!(
                args,
                &vec!["-p", "10022", "root@nas", "mkdir -p /opt/a/bin /opt/a/conf /opt/a/logs /opt/a/conf/state"]
            );
        }
        other => panic!("{other:?}"),
    }
    assert!(matches!(&steps[1], DeployStep::Need(p) if p == "bin/auto_syncd"));
}

#[test]
fn the_watcher_is_restarted_only_for_its_own_fields() {
    let cfg = config();
    assert_eq!(
        config_signature(&cfg),
        "conf/state/auto_sync.sqlite\ns|local|/zfs/src|true|true|d:true"
    );
    let mut other = cfg.clone();
    other.app.close_to_tray = false;
    other.machines[0].alias_name = "x".to_string();
    other.source_groups[0].destinations[0].path = "/elsewhere".to_string();
    assert_eq!(config_signature(&cfg), config_signature(&other));
    other.source_groups[0].src = "/new".to_string();
    assert_ne!(config_signature(&cfg), config_signature(&other));
}

#[test]
fn the_loop_goes_through_its_steps() {
    let mut state = State::new();
    let task = state.task_start("sync", "s", "d", "t").unwrap();
    let (mut run, aborted) = Scheduler::start(config(), &mut state, at(), "t").unwrap();
    assert_eq!(aborted, 1);
    assert_eq!(state.task_by_id(task).unwrap().status, "aborted");
    assert!(state.current_open_cycle("s").is_some());
    let mut seen: Vec<Step> = Vec::new();
    for _ in 0..8 {
        seen.push(run.step);
        if run.step == Step::Reload {
            run.on_reload(None);
        } else {
            run.on_done(0, false);
        }
    }
    assert_eq!(
        seen,
        vec![
            Step::StartWatcher,
            Step::RaiseNotices,
            Step::Reload,
            Step::Advance,
            Step::Sync,
            Step::Log,
            Step::Rest,
            Step::Reload
        ]
    );
    // A change of a source restarts the watcher.
    let mut changed = config();
    changed.source_groups[0].enabled = false;
    run.step = Step::Reload;
    run.on_reload(Some(changed));
    assert_eq!(run.step, Step::RestartWatcher);
    run.on_done(0, false);
    assert_eq!(run.step, Step::RecordGaps);
    // The state is logged again only after the interval.
    run.step = Step::Sync;
    run.on_done(299_999, false);
    assert_eq!(run.step, Step::Rest);
    run.step = Step::Sync;
    run.on_done(300_000, false);
    assert_eq!(run.step, Step::Log);
    run.on_done(300_000, true);
    run.on_done(300_000, true);
    assert_eq!(run.step, Step::Stop);
    assert_eq!(run.advance(&mut state, at(), "t").unwrap().len(), 0);
}

#[test]
fn waiting_for_the_watcher_ends() {
    assert_eq!(wait_for_watcher_armed(0, false, false), ArmVerdict::Wait);
    assert_eq!(wait_for_watcher_armed(0, true, false), ArmVerdict::GoOn);
    assert_eq!(wait_for_watcher_armed(0, false, true), ArmVerdict::GoOn);
    assert_eq!(wait_for_watcher_armed(900_000, false, false), ArmVerdict::GiveUp);
}

#[test]
fn gaps_are_recorded_where_the_watcher_misses_them() {
    let cfg = config();
    let mut state = State::new();
    record_restart_gaps(&mut state, &cfg, &vec![true], true, at());
    assert!(state.events.is_empty());
    record_restart_gaps(&mut state, &cfg, &vec![true], false, at());
    assert_eq!(state.events[0].event_kind, "watcher_restart_gap");
    assert!(state.current_open_cycle("s").unwrap().needs_full_rescan);
    raise_restart_notices(&mut state, &cfg, &vec![false], false, "t");
    assert!(state.restart_notice("s").is_none());
    raise_restart_notices(&mut state, &cfg, &vec![true], false, "t");
    assert!(state.restart_notice("s").is_some());
}

#[test]
fn pools_stay_awake_for_work_that_can_run() {
    let mut cfg = config();
    cfg.standby_pools.push(StandbyPoolConfig {
        name: "zfs".to_string(),
        mount_roots: vec!["/zfs".to_string()],
        ..Default::default()
    });
    let mut state = State::new();
    let can = vec![vec![true]];
    assert!(!pool_is_busy(&state, &cfg, "zfs", false, &can));
    assert!(pool_is_busy(&state, &cfg, "zfs", true, &can));
    state.set_destination_target("s", "d", 3, "t");
    assert!(pool_is_busy(&state, &cfg, "zfs", false, &can));
    assert!(!pool_is_busy(&state, &cfg, "zfs", false, &vec![vec![false]]));
    assert!(!pool_is_busy(&state, &cfg, "other", false, &can));
    state.upsert_destination_status("s", "d", Some(3), "green", "verified", "t");
    assert!(!pool_is_busy(&state, &cfg, "zfs", false, &can));
    assert!(work_can_run(&cfg.standby_pools, "/a", "/b", at(), &Vec::new()));
}

#[test]
fn the_table_of_destinations_is_aligned() {
    assert_eq!(print_status(&Vec::new()), vec!["no destinations configured"]);
    let cfg = config();
    let mut state = State::new();
    state.ensure_config(&cfg, "t");
    let lines = print_status(&state.destination_views(&cfg, "t"));
    assert_eq!(
        lines[0],
        format!(
            "{:<18} {:<18} {:<7} {:<12} {:<12} {}",
            "SOURCE", "DESTINATION", "STATUS", "LATEST", "VERIFIED", "REASON"
        )
    );
    assert_eq!(
        lines[1],
        format!("{:<18} {:<18} {:<7} {:<12} {:<12} {}", "s", "d", "red", "-", "-", "not_verified")
    );
}
