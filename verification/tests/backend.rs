use auto_sync::backend::browse::{
    browse_paths_inner, default_path_for_os, normalize_browse_dir, path_to_open, BrowsePlan,
    FoundEntry, PlaceKind,
};
use auto_sync::backend::changes::{
    preserve_current_machines, reject_locked_source_path_changes, reset_changed_destination_offsets,
};
use auto_sync::backend::delegation::{
    delegated_groups_for_machine, delegation_for, machines_to_tell, remote_source_machines,
    take_delegation,
};
use auto_sync::backend::overview::{
    machine_label, machines_to_ask, merge_remote_source_statuses, offline_views_for_source,
};
use auto_sync::backend::service::{Backend, Site};
use auto_sync::backend::sync::{SyncAction, SyncRun};
use auto_sync::backend::types::{
    BackendError, BuildInfo, DelegatedSourceGroupsRequest, SyncRequestMode,
};
use auto_sync::config::clean::clean_config_for_save;
use auto_sync::config::types::{
    AppConfig, DestinationConfig, LocalEnv, MachineConfig, ScheduleConfig, SnapshotConfig,
    SourceGroupConfig, SyncMode,
};
use auto_sync::machines::types::{MachineHealth, Probes};
use auto_sync::state::types::State;

fn env() -> LocalEnv {
    LocalEnv {
        hostname: "tiger".to_string(),
        host: "192.168.2.50".to_string(),
        os: "linux".to_string(),
    }
}

fn site() -> Site {
    Site {
        env: env(),
        probes: Probes { answered: Vec::new(), ssh_banners: Vec::new(), process_user: String::new() },
        mark: "0badcafe".to_string(),
        version: "0.1.0".to_string(),
        kinds: Vec::new(),
    }
}

fn machine(id: &str, host: &str) -> MachineConfig {
    MachineConfig {
        id: id.to_string(),
        alias_name: String::new(),
        name: id.to_string(),
        host: host.to_string(),
        port: 18765,
        ssh_user: "root".to_string(),
        ssh_port: 10022,
        os: "linux".to_string(),
        install_dir: "/opt/auto_sync".to_string(),
        enabled: true,
        manual: true,
    }
}

fn destination(id: &str, machine_id: &str, path: &str) -> DestinationConfig {
    DestinationConfig {
        id: id.to_string(),
        machine_id: machine_id.to_string(),
        path: path.to_string(),
        enabled: true,
        paused: false,
        schedule: ScheduleConfig::default(),
        sync: None,
    }
}

fn source(id: &str, machine_id: &str, src: &str, destinations: Vec<DestinationConfig>) -> SourceGroupConfig {
    SourceGroupConfig {
        id: id.to_string(),
        machine_id: machine_id.to_string(),
        src: src.to_string(),
        add_directory: false,
        managed_by: String::new(),
        excludes: Vec::new(),
        enabled: true,
        order: 0,
        mode: SyncMode::Mirror,
        snapshot: SnapshotConfig::default(),
        destinations,
    }
}

#[test]
fn preserves_disk_machines_when_saving_stale_config() {
    let mut stale = AppConfig::initial(&env());
    stale.machines.push(machine("windows", "192.168.3.7"));

    let mut current = stale.clone();
    current.machines.retain(|machine| machine.id != "windows");

    let merged = preserve_current_machines(&stale, &Some(current));
    assert!(!merged.machines.iter().any(|machine| machine.id == "windows"));
    assert_eq!(preserve_current_machines(&stale, &None).machines.len(), 2);
}

#[test]
fn delegated_groups_execute_on_source_machine_as_local() {
    let mut cfg = AppConfig::initial(&env());
    let mut nas = machine("nas", "192.0.2.20");
    nas.alias_name = "nas".to_string();
    cfg.machines.push(nas);
    cfg.source_groups.push(source(
        "src_nas",
        "nas",
        "/zfs",
        vec![destination("dst_nas", "nas", "/zfs_pool")],
    ));

    let groups = delegated_groups_for_machine(&cfg, "nas", "controller-1", &env()).unwrap();

    assert_eq!(groups.len(), 1);
    assert_eq!(groups[0].machine_id, "local");
    assert_eq!(groups[0].managed_by, "controller-1");
    assert_eq!(groups[0].destinations[0].machine_id, "local");

    let unknown = delegated_groups_for_machine(&cfg, "moon", "controller-1", &env()).unwrap_err();
    assert_eq!(unknown.message(), "unknown source machine: moon");
    assert_eq!(machines_to_tell(&None, &cfg), vec!["nas"]);
    let (asked, request) = delegation_for(&cfg, "nas", "controller-1", &env()).unwrap();
    assert_eq!(asked.host, "192.0.2.20");
    assert_eq!(request.source_groups.len(), 1);
    assert_eq!(remote_source_machines(&cfg, &env()).len(), 1);
}

#[test]
fn delegated_groups_are_saved_to_remote_config() {
    let initial = AppConfig::initial(&env());
    let mut backend = Backend::new("conf/auto_sync.toml".to_string(), 18765);
    let delegated = source(
        "src_from_controller",
        "local",
        "/zfs",
        vec![destination("dst_local", "local", "/zfs_pool")],
    );

    let saved = backend
        .apply_delegated_source_groups(
            &initial,
            &DelegatedSourceGroupsRequest {
                controller_id: "controller-1".to_string(),
                machines: Vec::new(),
                source_groups: vec![delegated],
            },
            &site(),
        )
        .unwrap();

    let source = saved
        .source_groups
        .iter()
        .find(|source| source.id == "src_from_controller")
        .unwrap();
    assert_eq!(source.managed_by, "controller-1");
    assert_eq!(source.machine_id, "local");
    assert_eq!(source.src, "/zfs");

    // What the same controller tells next replaces it.
    let next = take_delegation(
        &saved,
        &DelegatedSourceGroupsRequest {
            controller_id: "controller-1".to_string(),
            machines: vec![machine("nas", "192.0.2.20"), machine("local", "192.0.2.99")],
            source_groups: Vec::new(),
        },
    );
    assert!(next.source_groups.is_empty());
    assert!(next.machines.iter().any(|m| m.id == "nas"));
    assert!(!next.machines.iter().any(|m| m.host == "192.0.2.99"));
}

#[test]
fn rejects_source_path_change_after_destination_exists() {
    let mut current = AppConfig::initial(&env());
    current.source_groups.push(source(
        "src_1",
        "local",
        "/t/src",
        vec![destination("dst_1", "local", "/t/dst")],
    ));
    let mut next = current.clone();
    next.source_groups[0].src = "/t/other_src".to_string();

    let err = reject_locked_source_path_changes(&current, &next, &env()).unwrap_err();
    assert!(err.message().contains("source path is locked"));
    // A trailing separator is the same path; a source without destinations can be moved.
    next.source_groups[0].src = "/t/src/".to_string();
    assert!(reject_locked_source_path_changes(&current, &next, &env()).is_ok());
    current.source_groups[0].destinations.clear();
    next.source_groups[0].src = "/t/other_src".to_string();
    assert!(reject_locked_source_path_changes(&current, &next, &env()).is_ok());
}

#[test]
fn resets_destination_offset_when_destination_path_changes() {
    let mut current = AppConfig::initial(&env());
    current.source_groups.push(source(
        "src_1",
        "local",
        "/t/src",
        vec![destination("dst_1", "local", "/t/dst_a")],
    ));

    let mut state = State::new();
    state.ensure_config(&current, "t");
    state.set_destination_target("src_1", "dst_1", 7, "t");
    state.upsert_destination_status("src_1", "dst_1", Some(7), "green", "verified", "t");

    let mut next = current.clone();
    next.source_groups[0].destinations[0].path = "/t/dst_b".to_string();
    reset_changed_destination_offsets(
        &mut state,
        &clean_config_for_save(&current, &env()),
        &clean_config_for_save(&next, &env()),
        "t",
    );

    let offset = state.destination_offset("src_1", "dst_1", "t");
    assert_eq!(offset.target_cycle_id, None);
    assert_eq!(offset.last_completed_cycle_id, None);
    assert_eq!(offset.last_verified_cycle_id, None);
    assert_eq!(offset.status, "red");
    assert_eq!(offset.status_reason, "destination_path_changed");
}

#[test]
fn saving_keeps_machines_and_resets_moved_destinations() {
    let mut backend = Backend::new("c.toml".to_string(), 18765);
    let mut stored = AppConfig::initial(&env());
    stored.machines.push(machine("nas", "192.0.2.20"));
    stored.source_groups.push(source(
        "src_1",
        "local",
        "/t/src",
        vec![destination("dst_1", "local", "/t/dst_a")],
    ));
    let mut next = stored.clone();
    next.machines.clear();
    next.source_groups[0].destinations[0].path = "/t/dst_b".to_string();
    let saved = backend.save_config(&Some(stored.clone()), &next, &site()).unwrap();
    assert!(saved.machines.iter().any(|m| m.id == "nas"));
    let mut state = State::new();
    state.upsert_destination_status("src_1", "dst_1", Some(3), "green", "verified", "t");
    backend.config_saved(&mut state, &Some(stored.clone()), &saved, "t", &site());
    assert_eq!(state.destination_last_verified("src_1", "dst_1"), None);
    next.source_groups[0].src = "/t/elsewhere".to_string();
    assert!(matches!(
        backend.save_config(&Some(stored), &next, &site()),
        Err(BackendError::SourceLocked(id)) if id == "src_1"
    ));
    next.source_groups[0].destinations[0].path = "/t/elsewhere/inside".to_string();
    assert!(matches!(backend.save_config(&None, &next, &site()), Err(BackendError::Config(_))));
}

#[test]
fn machines_are_added_and_removed() {
    let mut backend = Backend::new("c.toml".to_string(), 18765);
    assert_eq!(backend.config_path(), "c.toml");
    assert_eq!(backend.port(), 18765);
    let cfg = backend.get_config(None, &site()).unwrap().0;
    let cfg = backend.add_machine(cfg, machine("nas", "192.0.2.20"), &site()).unwrap();
    let mut renamed = machine("nas", "192.0.2.21");
    renamed.name = "other".to_string();
    let cfg = backend.add_machine(cfg, renamed, &site()).unwrap();
    assert_eq!(cfg.machines.iter().filter(|m| m.id == "nas").count(), 1);
    assert_eq!(cfg.machines.iter().find(|m| m.id == "nas").unwrap().host, "192.0.2.21");
    assert!(matches!(
        backend.remove_machine(cfg.clone(), "local", &site()),
        Err(BackendError::LocalMachine)
    ));
    let cfg = backend.remove_machine(cfg, "nas", &site()).unwrap();
    assert!(!cfg.machines.iter().any(|m| m.id == "nas"));
}

#[test]
fn found_machines_are_remembered_for_a_while() {
    let mut backend = Backend::new("c.toml".to_string(), 18765);
    let cfg = AppConfig::initial(&env());
    assert!(backend.machines().is_none());
    assert!(backend.discover_machines(0).is_none());
    let found = vec![MachineHealth {
        id: "lan_x".to_string(),
        alias_name: String::new(),
        name: "x".to_string(),
        host: "203.0.113.9".to_string(),
        port: 18765,
        ssh_user: String::new(),
        ssh_port: 22,
        os: "linux".to_string(),
        install_dir: String::new(),
        version: "0.1.0".to_string(),
    }];
    let status = backend.refresh_machine_cache(&cfg, &found, 1000, &site());
    assert!(status.machines.iter().any(|m| m.host == "203.0.113.9"));
    assert_eq!(backend.machines().unwrap().total, status.total);
    assert!(backend.discover_machines(5999).is_some());
    assert!(backend.discover_machines(6000).is_none());
    backend.clear_machine_cache();
    assert!(backend.machines().is_none());
    let health = backend.health(&cfg, &site());
    assert_eq!(health.version, "0.1.0");
    assert!(health.id.ends_with("0badcafe"));
}

fn remote_config() -> AppConfig {
    let mut cfg = AppConfig::initial(&env());
    cfg.machines.push(machine("nas", "192.0.2.20"));
    cfg.source_groups.push(source("here", "local", "/a", vec![destination("d", "local", "/b")]));
    cfg.source_groups.push(source("there", "nas", "/zfs", vec![destination("d", "nas", "/p")]));
    cfg.source_groups.push(source("nowhere", "moon", "/x", vec![destination("d", "moon", "/y")]));
    cfg
}

#[test]
fn other_machines_answer_for_their_sources() {
    let cfg = remote_config();
    let backend = Backend::new("c.toml".to_string(), 1);
    let mut state = State::new();
    let asked = machines_to_ask(&cfg, &env());
    assert!(asked[0].is_none());
    assert_eq!(asked[1].as_ref().unwrap().id, "nas");
    assert!(asked[2].is_none());
    // No answer.
    let silent = backend.status(&cfg, &mut state, &vec![None, None, None], "t", &site());
    let reasons: Vec<(&str, &str)> = silent
        .iter()
        .map(|v| (v.source_id.as_str(), v.status_reason.as_str()))
        .collect();
    assert_eq!(
        reasons,
        vec![
            ("here", "not_verified"),
            ("there", "source_machine_offline"),
            ("nowhere", "unknown_source_machine")
        ]
    );
    // An answer without the source.
    let missing = merge_remote_source_statuses(&cfg, &Vec::new(), &vec![None, Some(Vec::new())], &env());
    assert_eq!(missing[0].status_reason, "remote_status_missing");
    // An answer with it.
    let mut views = offline_views_for_source(&cfg.source_groups[1], "verified");
    views[0].status = "green".to_string();
    let merged = merge_remote_source_statuses(&cfg, &Vec::new(), &vec![None, Some(views)], &env());
    assert_eq!(merged[0].status, "green");
}

#[test]
fn requests_ask_all_machines_before_telling_one() {
    let mut cfg = remote_config();
    cfg.machines.push(machine("moon", "192.0.2.30"));
    let backend = Backend::new("c.toml".to_string(), 1);
    assert!(matches!(backend.sync_now(&cfg, true, &site()), Err(BackendError::Busy)));
    let mut run: SyncRun = backend.sync_now(&cfg, false, &site()).unwrap();
    let mut steps: Vec<String> = Vec::new();
    loop {
        match run.action() {
            SyncAction::Ask(m) => {
                steps.push(format!("ask {}", m.id));
                run.on_status(Some(false)).unwrap();
            }
            SyncAction::Tell(m) => {
                steps.push(format!("tell {} {}", m.id, run.request.target()));
                run.on_taken();
            }
            SyncAction::Run => {
                steps.push("run".to_string());
                run.on_run();
            }
            SyncAction::Finish => break,
        }
    }
    assert_eq!(
        steps,
        vec!["ask nas", "ask moon", "tell nas /api/sync-now", "tell moon /api/sync-now", "run"]
    );
    let mut busy = backend.sync_now(&cfg, false, &site()).unwrap();
    assert_eq!(
        busy.on_status(Some(true)).unwrap_err().message(),
        "sync already in progress on nas"
    );
    assert_eq!(
        busy.on_status(None).unwrap_err().message(),
        "failed to query sync status from nas"
    );
}

#[test]
fn requests_for_one_source_go_where_it_is() {
    let cfg = remote_config();
    let backend = Backend::new("c.toml".to_string(), 1);
    let there = backend
        .sync_destination_now(&cfg, "there", "d", SyncRequestMode::ChangedSince, &site())
        .unwrap();
    assert!(matches!(there.action(), SyncAction::Ask(m) if m.id == "nas"));
    assert_eq!(there.request.target(), "/api/sync-destination-now");
    assert!(format!("{:?}", there.request).contains("changed_since"));
    let here = backend.sync_source_now(&cfg, "here", &site()).unwrap();
    assert!(matches!(here.action(), SyncAction::Run));
    assert_eq!(
        backend.sync_source_now(&cfg, "nowhere", &site()).unwrap_err().message(),
        "unknown source machine: moon"
    );
}

#[test]
fn browsing_goes_where_the_paths_are() {
    let cfg = remote_config();
    let backend = Backend::new("c.toml".to_string(), 1);
    assert!(matches!(
        backend.browse_paths(&cfg, None, None, &site()),
        Ok(BrowsePlan::Here(p)) if p == "/"
    ));
    match backend.browse_paths(&cfg, Some("/a b".to_string()), Some("nas".to_string()), &site()) {
        Ok(BrowsePlan::Ask(m, target)) => {
            assert_eq!(m.id, "nas");
            assert_eq!(target, "/api/browse-paths?path=%2Fa%20b");
        }
        other => panic!("{other:?}"),
    }
    assert_eq!(
        backend
            .browse_paths(&cfg, None, Some("mars".to_string()), &site())
            .unwrap_err()
            .message(),
        "unknown machine: mars"
    );
    assert_eq!(default_path_for_os("Windows"), "C:\\");
    assert_eq!(default_path_for_os("linux"), "/");
}

#[test]
fn directories_are_listed_first() {
    let entry = |name: &str, is_dir: bool, is_file: bool| FoundEntry {
        name: name.to_string(),
        path: format!("/d/{name}"),
        is_dir,
        is_file,
    };
    let listing = browse_paths_inner(
        "/d",
        &vec![
            entry("z", false, true),
            entry("socket", false, false),
            entry("b", true, false),
            entry("a", false, true),
        ],
    );
    let names: Vec<(&str, &str)> = listing
        .entries
        .iter()
        .map(|e| (e.name.as_str(), e.kind.as_str()))
        .collect();
    assert_eq!(names, vec![("b", "dir"), ("a", "file"), ("z", "file")]);
    assert_eq!(listing.parent.as_deref(), Some("/"));
    assert_eq!(path_to_open(""), "/");
    assert_eq!(normalize_browse_dir("/d/f", PlaceKind::File("/d/f".to_string())).unwrap(), "/d");
    assert_eq!(normalize_browse_dir("/d", PlaceKind::Directory("/d".to_string())).unwrap(), "/d");
    assert_eq!(
        normalize_browse_dir("/q", PlaceKind::Missing).unwrap_err().message(),
        "failed to open path /q"
    );
    assert_eq!(
        normalize_browse_dir("/q", PlaceKind::Other("/q".to_string())).unwrap_err().message(),
        "not a browsable path: /q"
    );
    assert_eq!(
        normalize_browse_dir("/", PlaceKind::File("/".to_string())).unwrap_err().message(),
        "path has no parent: /"
    );
}

#[test]
fn machines_are_labelled_by_the_best_name() {
    let mut m = machine("id", "host");
    m.name = "name".to_string();
    m.alias_name = " alias ".to_string();
    assert_eq!(machine_label(&m), "alias");
    m.alias_name.clear();
    assert_eq!(machine_label(&m), "name");
    m.name.clear();
    assert_eq!(machine_label(&m), "host");
    m.host.clear();
    assert_eq!(machine_label(&m), "id");
}

#[test]
fn builds_may_be_unknown() {
    let backend = Backend::new("c.toml".to_string(), 1);
    let build = BuildInfo::current(Some("abc".to_string()), None);
    let status = backend.runtime_status(true, None, None, build);
    assert!(status.syncing);
    assert_eq!(status.build.commit, "abc");
    assert_eq!(status.build.commit_time_beijing, "unknown");
}
