use auto_sync::config::clean::{clean_config_for_save, clean_machines, normalized_machines};
use auto_sync::config::host::{
    config_candidates, default_gui_config_path, local_hostname, preferred_local_host,
    resolve_config_path, whoami_user,
};
use auto_sync::config::identity::{clean_id, machine_matches_reference, parse_port_text};
use auto_sync::config::locality::{config_warnings, machine_is_local, machine_is_self};
use auto_sync::config::schedule_time::parse_schedule_time;
use auto_sync::config::types::{
    AppConfig, DeployTarget, DestinationConfig, LocalEnv, MachineConfig, ScheduleConfig,
    SnapshotConfig, SourceGroupConfig, SyncMode,
};
use auto_sync::config::validate::{
    load_or_create_config, prepare_config_for_save, validate_exclude_path, PathKind,
};

fn env() -> LocalEnv {
    LocalEnv {
        hostname: "tiger".to_string(),
        host: "192.168.2.50".to_string(),
        os: "linux".to_string(),
    }
}

fn destination(id: &str, path: &str) -> DestinationConfig {
    DestinationConfig {
        id: id.to_string(),
        machine_id: "local".to_string(),
        path: path.to_string(),
        enabled: true,
        schedule: ScheduleConfig::default(),
        paused: false,
        sync: None,
    }
}

fn source(id: &str, src: &str, destinations: Vec<DestinationConfig>) -> SourceGroupConfig {
    SourceGroupConfig {
        id: id.to_string(),
        machine_id: "local".to_string(),
        src: src.to_string(),
        add_directory: true,
        managed_by: String::new(),
        excludes: Vec::new(),
        enabled: true,
        order: 0,
        mode: SyncMode::Mirror,
        snapshot: SnapshotConfig::default(),
        destinations,
    }
}

fn machine(id: &str, alias: &str, name: &str, host: &str) -> MachineConfig {
    MachineConfig {
        id: id.to_string(),
        alias_name: alias.to_string(),
        name: name.to_string(),
        host: host.to_string(),
        port: 18765,
        ssh_user: "root".to_string(),
        ssh_port: 22,
        os: "linux".to_string(),
        install_dir: "/opt/auto_sync".to_string(),
        enabled: true,
        manual: true,
    }
}

#[test]
fn parses_valid_schedule_time() {
    assert_eq!(parse_schedule_time("02:03").unwrap(), (2, 3, 0));
    assert_eq!(parse_schedule_time("02:03:00").unwrap(), (2, 3, 0));
}

#[test]
fn rejects_invalid_schedule_time() {
    assert!(parse_schedule_time("25:00").is_err());
    assert!(parse_schedule_time("02:00:01").is_err());
    assert!(parse_schedule_time("02").is_err());
}

#[test]
fn rejects_destination_inside_source() {
    let mut cfg = AppConfig::initial(&env());
    cfg.source_groups
        .push(source("main", "/data/src", vec![destination("bad", "/data/src/backup")]));
    assert!(cfg.validate(&env(), &Vec::new()).is_err());
}

#[test]
fn rejects_existing_directory_source_to_file_destination() {
    let mut cfg = AppConfig::initial(&env());
    cfg.source_groups
        .push(source("main", "/tmp/t/src", vec![destination("bad", "/tmp/t/dst-file")]));
    let kinds = vec![
        PathKind { path: "/tmp/t/src".to_string(), directory: true },
        PathKind { path: "/tmp/t/dst-file".to_string(), directory: false },
    ];
    assert!(cfg.validate(&env(), &kinds).is_err());
    assert!(cfg.validate(&env(), &Vec::new()).is_ok());
}

#[test]
fn clean_config_for_save_drops_empty_sources_and_destinations() {
    let mut cfg = AppConfig::initial(&env());
    let mut first = source(
        "src_1",
        " /data/src ",
        vec![
            destination("dst_1", " /data/dst "),
            destination("dst_2", ""),
            destination("dst_3", "/data/dst"),
        ],
    );
    first.excludes = vec![
        " log ".to_string(),
        "cache/tmp".to_string(),
        "log".to_string(),
        String::new(),
    ];
    cfg.source_groups.push(first);
    cfg.source_groups
        .push(source("src_2", "", vec![destination("dst_1", "/unused")]));

    let cleaned = clean_config_for_save(&cfg, &env());

    assert_eq!(cleaned.source_groups.len(), 1);
    assert_eq!(cleaned.source_groups[0].src, "/data/src");
    assert_eq!(
        cleaned.source_groups[0].excludes,
        vec!["log".to_string(), "cache/tmp".to_string()]
    );
    assert_eq!(cleaned.source_groups[0].destinations.len(), 1);
    assert_eq!(cleaned.source_groups[0].destinations[0].path, "/data/dst");
}

#[test]
fn clean_config_for_save_replaces_local_name_placeholders() {
    for placeholder in ["This machine", "local"] {
        let mut cfg = AppConfig::initial(&env());
        cfg.machines[0].name = placeholder.to_string();

        let cleaned = clean_config_for_save(&cfg, &env());

        assert_eq!(
            cleaned.machines[0].name,
            local_hostname(&vec![Some("tiger".to_string())])
        );
    }
}

#[test]
fn clean_config_for_save_merges_legacy_deploy_targets_into_machines() {
    let mut cfg = AppConfig::initial(&env());
    cfg.machines.clear();
    cfg.deploy.targets.push(DeployTarget {
        id: "nas".to_string(),
        host: "192.0.2.10".to_string(),
        port: 10022,
        user: "root".to_string(),
        install_dir: "/opt/auto_sync".to_string(),
    });

    let cleaned = clean_config_for_save(&cfg, &env());

    let nas = cleaned
        .machines
        .iter()
        .find(|machine| machine.id == "nas")
        .unwrap();
    assert_eq!(nas.host, "192.0.2.10");
    assert_eq!(nas.port, 18765);
    assert_eq!(nas.ssh_user, "root");
    assert_eq!(nas.ssh_port, 10022);
    assert_eq!(nas.install_dir, "/opt/auto_sync");
}

#[test]
fn rejects_duplicate_machine_ids() {
    let mut cfg = AppConfig::initial(&env());
    cfg.machines.push(machine("nas", "nas_a", "nas-a", "192.0.2.10"));
    cfg.machines.push(machine(" nas ", "nas_b", "nas-b", "192.0.2.11"));

    let err = cfg.validate(&env(), &Vec::new()).unwrap_err();
    assert!(err.message.contains("duplicate machine id: nas"));
}

#[test]
fn save_config_rejects_duplicate_machine_ids_before_cleaning() {
    let mut cfg = AppConfig::initial(&env());
    cfg.machines.push(machine("local", "", "another local", "192.0.2.20"));

    let err = prepare_config_for_save(&cfg, &env(), &Vec::new()).unwrap_err();
    assert!(err.message.contains("duplicate machine id: local"));
}

#[test]
fn cleaned_configurations_are_accepted_again() {
    let mut cfg = AppConfig::initial(&env());
    cfg.source_groups
        .push(source("main", " /data/src ", vec![destination("d", "/backup")]));
    let saved = prepare_config_for_save(&cfg, &env(), &Vec::new()).unwrap();
    assert!(saved.validate(&env(), &Vec::new()).is_ok());
    let (loaded, new) = load_or_create_config(Some(saved), &env(), &Vec::new()).unwrap();
    assert!(!new);
    assert_eq!(loaded.source_groups[0].src, "/data/src");
    let (created, new) = load_or_create_config(None, &env(), &Vec::new()).unwrap();
    assert!(new);
    assert_eq!(created.app.port, 18765);
    assert_eq!(created.machines[0].id, "local");
}

#[test]
fn legacy_port_texts_are_read() {
    assert_eq!(parse_port_text("0.0.0.0:18766").unwrap(), 18766);
    assert_eq!(parse_port_text("18767").unwrap(), 18767);
    assert_eq!(
        parse_port_text(" host:port ").unwrap_err(),
        format!("invalid port host:port: {}", "port".parse::<u16>().unwrap_err())
    );
    assert_eq!(
        parse_port_text("70000").unwrap_err(),
        format!("invalid port 70000: {}", "70000".parse::<u16>().unwrap_err())
    );
    assert_eq!(parse_port_text(" ").unwrap(), 18765);
    assert_eq!(parse_port_text("[::]: +80 ").unwrap(), 80);
}

#[test]
fn ids_are_cleaned_once() {
    assert_eq!(clean_id(" a b/c "), clean_id(&clean_id(" a b/c ")));
    assert_eq!(clean_id("a.b"), "a_b");
}

#[test]
fn references_mean_alias_id_or_host() {
    let m = machine("nas", "Storage", "n", "10.0.0.9");
    assert!(machine_matches_reference(&m, "storage"));
    assert!(machine_matches_reference(&m, "NAS"));
    assert!(machine_matches_reference(&m, " 10.0.0.9 "));
    assert!(!machine_matches_reference(&m, ""));
    assert!(machine_matches_reference(&machine("local", "", "", ""), ""));
}

#[test]
fn this_machine_is_recognised() {
    let mut cfg = AppConfig::initial(&env());
    cfg.machines.push(machine("me", "", "me", "192.168.2.50"));
    cfg.machines.push(machine("nas", "", "nas", "10.0.0.9"));
    assert!(machine_is_local(&cfg, "", &env()));
    assert!(!machine_is_local(&cfg, "nas", &env()));
    assert!(machine_is_self(&cfg, &cfg.machines[1], &env()));
    assert!(!machine_is_self(&cfg, &cfg.machines[2], &env()));
    assert!(config_warnings(&AppConfig::initial(&env()), &env()).is_empty());
}

#[test]
fn exclude_paths_stay_inside_the_source() {
    assert!(validate_exclude_path("s", "a/b").is_ok());
    assert!(validate_exclude_path("s", "/a").is_err());
    assert!(validate_exclude_path("s", "a/../b").is_err());
}

#[test]
fn hosts_and_users_are_chosen() {
    assert_eq!(
        local_hostname(&vec![None, Some("  ".to_string()), Some(" tiger ".to_string())]),
        "tiger"
    );
    assert_eq!(
        preferred_local_host("192.168.2.", &Some("192.168.2.7".to_string()), &None),
        "192.168.2.7"
    );
    assert_eq!(whoami_user("DOMAIN\\joe\r\n"), Some("joe".to_string()));
    assert_eq!(whoami_user("  "), None);
}

#[test]
fn configuration_paths_are_resolved() {
    let candidates = config_candidates(&Some("/opt/auto_sync/bin/auto_sync".to_string()));
    assert_eq!(candidates[0], "conf/auto_sync.toml");
    assert!(candidates.contains(&"/opt/auto_sync/conf/auto_sync.toml".to_string()));
    let none = vec![false; candidates.len()];
    assert_eq!(resolve_config_path(Some("x.toml"), &candidates, &none), "x.toml");
    assert_eq!(resolve_config_path(None, &candidates, &none), candidates[0]);
    assert_eq!(
        default_gui_config_path(&Some("/opt/auto_sync/bin/gui".to_string())),
        "/opt/auto_sync/conf/auto_sync.toml"
    );
    assert_eq!(default_gui_config_path(&Some("/opt/gui".to_string())), "/opt/conf/auto_sync.toml");
    assert_eq!(default_gui_config_path(&None), "conf/auto_sync.toml");
}

#[test]
fn machines_are_kept_once_and_in_order() {
    let mut cfg = AppConfig::initial(&env());
    let mut gap = machine(" b c ", "", " ", " ");
    gap.port = 0;
    gap.ssh_port = 0;
    gap.install_dir = String::new();
    cfg.machines = vec![
        gap,
        machine("local", "", "This machine", "127.0.0.1"),
        machine("a", "", "A", "192.168.2.3"),
        machine("b_c", "", "second", "192.168.2.4"),
        machine("  ", "", "none", "192.168.2.5"),
        machine("a", "", "again", "192.168.2.6"),
    ];
    let once = normalized_machines(&cfg, &env());
    let ids: Vec<&str> = once.iter().map(|m| m.id.as_str()).collect();
    assert_eq!(ids, vec!["local", "b_c", "a"]);
    assert_eq!(once[0].name, "tiger");
    assert_eq!(once[0].host, "192.168.2.50");
    assert_eq!(once[1].name, "b_c");
    assert_eq!(once[1].host, "192.168.2.50");
    assert_eq!((once[1].port, once[1].ssh_port), (18765, 22));
    assert_eq!(once[1].install_dir, "/opt/auto_sync");
    assert_eq!(once[2].name, "A");
    // Cleaning again changes nothing.
    let twice = clean_machines(&once, &env());
    assert_eq!(format!("{twice:?}"), format!("{once:?}"));
}
