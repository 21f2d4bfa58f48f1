use auto_sync::config::types::{AppConfig, LocalEnv, MachineConfig};
use auto_sync::machines::discovery::{
    add_discovered, discovery_machine_id, discovery_targets, exe_path_hash,
    machine_matches_discovery_id, machine_matches_health, machines_share_lan, same_private_ipv4_lan,
};
use auto_sync::machines::lookup::{
    configure_peer_token, encode_query_component, find_machine, machine_id_from_path, peer_token,
    PeerToken,
};
use auto_sync::machines::ssh::{detect_ssh_port, is_ssh_banner};
use auto_sync::machines::status::{local_health, machine_status, merge_discovered};
use auto_sync::machines::types::{Endpoint, MachineHealth, Probes};

fn env() -> LocalEnv {
    LocalEnv {
        hostname: "tiger".to_string(),
        host: "192.168.2.50".to_string(),
        os: "linux".to_string(),
    }
}

fn silent() -> Probes {
    Probes { answered: Vec::new(), ssh_banners: Vec::new(), process_user: String::new() }
}

fn health(id: &str, name: &str, host: &str, user: &str, ssh_port: u16) -> MachineHealth {
    MachineHealth {
        id: id.to_string(),
        alias_name: String::new(),
        name: name.to_string(),
        host: host.to_string(),
        port: 18765,
        ssh_user: user.to_string(),
        ssh_port,
        os: "linux".to_string(),
        install_dir: String::new(),
        version: "0.1.0".to_string(),
    }
}

fn machine(id: &str, alias: &str, name: &str, host: &str, user: &str, ssh_port: u16) -> MachineConfig {
    MachineConfig {
        id: id.to_string(),
        alias_name: alias.to_string(),
        name: name.to_string(),
        host: host.to_string(),
        port: 18765,
        ssh_user: user.to_string(),
        ssh_port,
        os: "linux".to_string(),
        install_dir: "/opt/auto_sync".to_string(),
        enabled: true,
        manual: true,
    }
}

#[test]
fn merge_discovered_keeps_multiple_local_ids_by_host() {
    let cfg = AppConfig::initial(&env());
    let mark = exe_path_hash("/opt/auto_sync/bin/auto_sync");
    let status = merge_discovered(
        &cfg,
        &vec![
            health("local", "This machine", "203.0.113.10", "root", 10022),
            health("local", "This machine", "203.0.113.11", "Administrator", 2222),
        ],
        &env(),
        &silent(),
        &mark,
    );

    assert!(status.machines.iter().any(|machine| {
        machine.id.starts_with("lan_203_0_113_10_18765_")
            && machine.id.len() == "lan_203_0_113_10_18765_".len() + 8
            && machine.name == "203.0.113.10"
            && machine.discovered
            && machine.ssh_user == "root"
            && machine.ssh_port == 10022
    }));
    assert!(status.machines.iter().any(|machine| {
        machine.id.starts_with("lan_203_0_113_11_18765_")
            && machine.id.len() == "lan_203_0_113_11_18765_".len() + 8
            && machine.name == "203.0.113.11"
            && machine.discovered
            && machine.ssh_user == "Administrator"
            && machine.ssh_port == 2222
    }));
}

#[test]
fn local_health_uses_network_discovery_id() {
    let mut cfg = AppConfig::initial(&env());
    cfg.machines[0].host = "192.168.2.166".to_string();
    let mut windows = machine("windows", "", "windows", "192.168.2.166", "Administrator", 2222);
    windows.os = "windows".to_string();
    cfg.machines.push(windows);
    let mark = exe_path_hash("/opt/auto_sync/bin/auto_sync");
    let health = local_health(&cfg, 18765, &env(), &silent(), &mark, "0.1.0");

    assert!(health.id.starts_with("lan_192_168_2_166_18765_"));
    assert_eq!(health.id.len(), "lan_192_168_2_166_18765_".len() + 8);
    assert_eq!(health.host, "192.168.2.166");
    assert_eq!(health.ssh_user, "Administrator");
    assert_eq!(health.ssh_port, 2222);
}

#[test]
fn detects_local_ssh_port_from_banner() {
    let port: u16 = 40022;
    let banners = vec![Endpoint { host: "127.0.0.1".to_string(), port }];
    let detected = detect_ssh_port(&vec!["127.0.0.1".to_string()], &vec![port, 22], &banners);
    assert_eq!(detected, Some(port));
    assert_eq!(detect_ssh_port(&vec!["10.0.0.1".to_string()], &vec![port, 22], &banners), None);
}

#[test]
fn same_private_ipv4_lan_uses_private_24s_only() {
    assert!(same_private_ipv4_lan("192.168.2.10", "192.168.2.247"));
    assert!(same_private_ipv4_lan("10.0.4.10", "10.0.4.11"));
    assert!(!same_private_ipv4_lan("192.168.2.10", "192.168.3.10"));
    assert!(!same_private_ipv4_lan("203.0.113.10", "203.0.113.11"));
    assert!(!same_private_ipv4_lan("nas.local", "192.168.2.247"));
}

#[test]
fn machine_status_prefers_local_for_duplicate_endpoint() {
    let mut cfg = AppConfig::initial(&env());
    let local_host = MachineConfig::local(&env()).host;
    cfg.machines.push(machine("nas", "", "nas", &local_host, "root", 10022));

    let status = machine_status(&cfg, &env(), &silent());
    let matches: Vec<_> = status
        .machines
        .iter()
        .filter(|machine| machine.host == local_host && machine.port == 18765)
        .collect();

    assert_eq!(matches.len(), 1);
    assert_eq!(matches[0].id, "local");
    assert!(matches[0].online);
    assert_eq!(matches[0].ssh_user, "root");
    assert_eq!(matches[0].ssh_port, 10022);
}

#[test]
fn merge_discovered_marks_existing_endpoint_online() {
    let mut cfg = AppConfig::initial(&env());
    let mut nas = MachineConfig::local(&env());
    nas.id = "nas".to_string();
    nas.alias_name = "nas".to_string();
    nas.name = "nas".to_string();
    nas.host = "203.0.113.10".to_string();
    nas.port = 18765;
    nas.os = "linux".to_string();
    nas.manual = false;
    cfg.machines.push(nas);

    let mut found = health("local", "This machine", "203.0.113.99", "root", 10022);
    found.alias_name = "nas".to_string();
    let status = merge_discovered(&cfg, &vec![found], &env(), &silent(), "00000000");

    let matches: Vec<_> = status
        .machines
        .iter()
        .filter(|machine| machine.alias_name == "nas")
        .collect();
    assert_eq!(matches.len(), 1);
    assert_eq!(matches[0].id, "nas");
    assert_eq!(matches[0].host, "203.0.113.10");
    assert!(matches[0].online);
    assert_eq!(matches[0].ssh_user, "root");
    assert_eq!(matches[0].ssh_port, 10022);
    assert!(matches[0].discovered);
}

#[test]
fn find_machine_prefers_alias_then_id_then_host() {
    let mut cfg = AppConfig::initial(&env());
    cfg.machines.push(machine(
        "lan_203_0_113_10_18765_abcd1234",
        "nas",
        "Reported Host",
        "203.0.113.10",
        "root",
        10022,
    ));

    assert_eq!(find_machine(&cfg, "nas", &env()).unwrap().host, "203.0.113.10");
    assert_eq!(
        find_machine(&cfg, "lan_203_0_113_10_18765_abcd1234", &env())
            .unwrap()
            .alias_name,
        "nas"
    );
    assert_eq!(find_machine(&cfg, "203.0.113.10", &env()).unwrap().alias_name, "nas");
}

#[test]
fn merge_discovered_preserves_manual_machine_edits() {
    let mut cfg = AppConfig::initial(&env());
    cfg.machines
        .push(machine("manual_peer", "", "Manual Name", "203.0.113.30", "manual", 2222));

    let status = merge_discovered(
        &cfg,
        &vec![health("lan_peer", "Auto Name", "203.0.113.30", "root", 10022)],
        &env(),
        &silent(),
        "00000000",
    );

    let peer = status
        .machines
        .iter()
        .find(|machine| machine.id == "manual_peer")
        .unwrap();
    assert!(peer.online);
    assert_eq!(peer.name, "Manual Name");
    assert_eq!(peer.ssh_user, "manual");
    assert_eq!(peer.ssh_port, 2222);
}

#[test]
fn discovered_ids_stay_distinct() {
    let cfg = AppConfig::initial(&env());
    let status = merge_discovered(
        &cfg,
        &vec![
            health("a b", "one", "203.0.113.1", "", 22),
            health("a_b", "two", "203.0.113.2", "", 22),
        ],
        &env(),
        &silent(),
        "00000000",
    );
    for i in 0..status.machines.len() {
        for j in 0..i {
            assert_ne!(status.machines[i].id, status.machines[j].id);
        }
    }
    assert_eq!(status.total, status.machines.len());
}

#[test]
fn discovery_ids_name_their_machine() {
    // The mark is the beginning of a hash of the path of the program.
    let mark = exe_path_hash("/opt/auto_sync/bin/auto_sync");
    assert_eq!(mark.len(), 8);
    assert!(mark.chars().all(|c| c.is_ascii_hexdigit()));
    assert_ne!(mark, exe_path_hash("/opt/other"));
    let id = discovery_machine_id("192.0.2.166", 18765, &mark);
    assert_eq!(id, format!("lan_192_0_2_166_18765_{mark}"));
    assert!(machine_matches_discovery_id(&machine("w", "", "", "192.0.2.166", "", 22), &id));
    assert!(!machine_matches_discovery_id(&machine("w", "", "", "192.0.2.167", "", 22), &id));
}

#[test]
fn machines_on_one_lan_are_recognised() {
    let a = machine("a", "", "", "192.168.2.1", "", 22);
    let b = machine("b", "", "", "192.168.2.2", "", 22);
    let c = machine("c", "", "", "203.0.113.2", "", 22);
    assert!(machines_share_lan(&a, &b, &None));
    assert!(!machines_share_lan(&a, &c, &None));
}

#[test]
fn answers_are_kept_once() {
    let mut found = Vec::new();
    add_discovered(&mut found, health("x", "x", "203.0.113.1", "", 22));
    add_discovered(&mut found, health("x", "x", "203.0.113.1", "", 22));
    assert_eq!(found.len(), 1);
    assert!(discovery_targets("192.168.2.7").contains(&(192, 168, 2, 255)));
}

#[test]
fn query_components_are_escaped() {
    assert_eq!(encode_query_component("a-b_c.d~9"), "a-b_c.d~9");
    assert_eq!(encode_query_component("/a b"), "%2Fa%20b");
    assert_eq!(encode_query_component("\u{e9}"), "%C3%A9");
}

#[test]
fn requests_name_this_machine_by_default() {
    assert_eq!(machine_id_from_path(None), "local");
    assert_eq!(machine_id_from_path(Some("  ")), "local");
    assert_eq!(machine_id_from_path(Some(" nas ")), "nas");
}

#[test]
fn peer_tokens_are_remembered() {
    let mut slot = PeerToken::new();
    configure_peer_token(&mut slot, "secret");
    assert_eq!(peer_token(&slot), "secret");
}

#[test]
fn answers_match_machines_by_alias_id_or_endpoint() {
    let m = machine("nas", "Storage", "n", "203.0.113.10", "", 22);
    let mut h = health("other", "x", "203.0.113.99", "", 22);
    assert!(!machine_matches_health(&m, &h));
    h.alias_name = "storage".to_string();
    assert!(machine_matches_health(&m, &h));
    h.alias_name.clear();
    h.id = "NAS".to_string();
    assert!(machine_matches_health(&m, &h));
    h.id = "local".to_string();
    assert!(!machine_matches_health(&m, &h));
    h.host = "203.0.113.10".to_string();
    assert!(machine_matches_health(&m, &h));
}

#[test]
fn ssh_servers_are_known_by_their_first_bytes() {
    assert!(is_ssh_banner(&b"SSH-".to_vec()));
    assert!(!is_ssh_banner(&b"SSH".to_vec()));
    assert!(!is_ssh_banner(&b"ssh-".to_vec()));
    assert!(!is_ssh_banner(&b"SSH-2".to_vec()));
    assert!(!is_ssh_banner(&Vec::new()));
    assert_eq!(peer_token(&PeerToken::new()), "");
}

#[test]
fn merging_keeps_the_configured_machines_first() {
    let mut cfg = AppConfig::initial(&env());
    let mut nas = MachineConfig::local(&env());
    nas.id = "nas".to_string();
    nas.host = "203.0.113.20".to_string();
    nas.manual = true;
    cfg.machines.push(nas);
    let known = machine_status(&cfg, &env(), &silent());
    let found = vec![
        health("x", "X", "203.0.113.21", "root", 22),
        health("nas", "NAS", "203.0.113.99", "root", 22),
        health("x", "X again", "203.0.113.21", "root", 22),
        health("local", "other", "203.0.113.22", "root", 22),
    ];
    let merged = merge_discovered(&cfg, &found, &env(), &silent(), "00000000");
    for (a, b) in known.machines.iter().zip(&merged.machines) {
        assert_eq!((&a.id, &a.host, a.port), (&b.id, &b.host, b.port));
    }
    assert_eq!(merged.total, merged.machines.len());
    assert_eq!(merged.total, known.total + 2);
    assert_eq!(merged.online, merged.machines.iter().filter(|m| m.online).count());
    assert!(merged.machines[known.total..].iter().all(|m| m.discovered && m.online && !m.manual));
    let mut ids: Vec<&str> = merged.machines.iter().map(|m| m.id.as_str()).collect();
    ids.sort();
    ids.dedup();
    assert_eq!(ids.len(), merged.total);
    assert!(merged.machines.iter().any(|m| m.id == "nas" && m.online));
}
