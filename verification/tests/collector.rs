use auto_sync::collector::archive::{
    archive_paths, cleanup_command, listed_names, parse_snapshots, plan_archive, plan_child,
    snapshot_command, ChildPlan, SqliteSnapshot,
};
use auto_sync::collector::browse::{browse, browse_command, CollectorBrowseRequest};
use auto_sync::collector::deploy::{
    aws_hostname, deploy_env, deploy_ready, env_host_suffix, is_ipv4, no_script_line,
    prepare_ss_client_conf, script_verdict, ssh_tool_places, substitute_ss_server, written_line,
    CollectedConf, DeployTools, SubstituteError,
};
use auto_sync::collector::lines::{
    cleanup_line, git_init_line, git_prefix, heading, ignore_line, lfs_line, list_command,
    manifest_line, part_line, perms_failed_line, perms_recorded_line, scp_line,
    snapshot_copy_line, snapshot_line, tar_line,
};
use auto_sync::collector::names::{
    hex_decode, hex_encode, prune_name_manifest_roots, safe_windows_component,
    stored_rel_for_linux_path, HexError, NameManifest, NameManifestEntry, UpwardEntry,
};
use auto_sync::collector::perms::{parse_perm_line, perm_record_path, perms_body, records_in};
use auto_sync::collector::place::{
    archived_place, deploy_files, dir_probe_command, directories_among, kind_command, place_entry, pull_path,
    record_host_perms, resolve_ssh_tool, script_command, script_place, EntryKind, PullPlace,
    ScriptPlace,
};
use auto_sync::collector::pull::{
    collect_targets, count_run_paths, finish_run, remote_path_kind, run, run_host,
    CollectorRunState, PullAction, PullHost, RemotePathKind,
};
use auto_sync::collector::remote::{
    expand_tilde, find_prune_clause, has_exclude_under, is_excluded, join_remote, local_rel_path,
    normalize_excludes, path_is_under_root, remote_parent, remote_parent_components,
    remote_tar_path, shell_quote, tar_exclude_patterns, SshConn,
};
use auto_sync::collector::repo::{
    commit_args, has_changes, is_part_of, large_file_size, prefixed_lines,
    track_large_files_with_lfs, EntryPlan, GitignoreEditor,
};
use auto_sync::config::types::{CollectorConfig, CollectorHost};

fn strings(items: &[&str]) -> Vec<String> {
    items.iter().map(|s| s.to_string()).collect()
}

fn empty_manifest() -> NameManifest {
    NameManifest { version: 1, entries: Vec::new() }
}

#[test]
fn remote_parent_components_reconstructs_structure() {
    assert_eq!(
        remote_parent_components("/usr/local/shadowsocks").unwrap(),
        vec!["usr", "local"]
    );
    assert_eq!(
        remote_parent_components("/etc").unwrap(),
        Vec::<String>::new()
    );
    assert_eq!(remote_parent_components("/a/b/c/").unwrap(), vec!["a", "b"]);
}

#[test]
fn remote_parent_components_rejects_escapes() {
    assert!(remote_parent_components("/").is_err());
    assert!(remote_parent_components("/a/../b").is_err());
}

#[test]
fn remote_tar_path_sanitizes_archive_entries() {
    assert_eq!(
        remote_tar_path("/etc/config/dhcp").unwrap(),
        "etc/config/dhcp"
    );
    assert_eq!(remote_tar_path("/usr/local/bin/").unwrap(), "usr/local/bin");
    assert!(remote_tar_path("/").is_err());
    assert!(remote_tar_path("/a/../b").is_err());
    assert_eq!(
        local_rel_path("etc/config/dhcp"),
        std::path::PathBuf::from("etc").join("config").join("dhcp").to_string_lossy()
    );
}

#[test]
fn tar_exclude_patterns_exclude_only_paths_under_archived_roots() {
    let patterns = tar_exclude_patterns(
        &vec!["usr/local/blog".to_string()],
        &vec![
            "/usr/local/blog/logs/".to_string(),
            "/usr/local/blog/.backup-worktree".to_string(),
            "/root/.ssh".to_string(),
            "/usr/local/tbox/log".to_string(),
        ],
    );
    assert_eq!(
        patterns,
        vec![
            "usr/local/blog/logs",
            "usr/local/blog/logs/*",
            "usr/local/blog/.backup-worktree",
            "usr/local/blog/.backup-worktree/*",
        ]
    );
}

#[test]
fn linux_name_manifest_keeps_safe_utf8_names_plain() {
    let mut manifest = empty_manifest();
    let stored = stored_rel_for_linux_path(
        &"root/.halo2/attachments/upload/微信图片.png".as_bytes().to_vec(),
        &mut manifest,
    )
    .unwrap()
    .unwrap();
    assert_eq!(stored, "root/.halo2/attachments/upload/微信图片.png");
    assert!(manifest.entries.is_empty());
}

#[test]
fn linux_name_manifest_encodes_windows_unsafe_components() {
    let mut manifest = empty_manifest();
    let stored = stored_rel_for_linux_path(&b"root/upload/bad:name.png".to_vec(), &mut manifest)
        .unwrap()
        .unwrap();
    assert!(stored.starts_with("root/upload/.auto_sync_name/"));
    assert_eq!(manifest.entries.len(), 1);
    assert_eq!(manifest.entries[0].stored_rel, stored);
    assert_eq!(
        hex_decode(&manifest.entries[0].original_rel_hex).unwrap(),
        b"root/upload/bad:name.png"
    );
}

#[test]
fn linux_name_manifest_encodes_non_utf8_components() {
    let mut manifest = empty_manifest();
    let stored = stored_rel_for_linux_path(&b"root/upload/\xff.png".to_vec(), &mut manifest)
        .unwrap()
        .unwrap();
    assert!(stored.starts_with("root/upload/.auto_sync_name/"));
    assert_eq!(manifest.entries.len(), 1);
    assert_eq!(
        hex_decode(&manifest.entries[0].original_rel_hex).unwrap(),
        b"root/upload/\xff.png"
    );
}

#[test]
fn remote_navigation_helpers() {
    assert_eq!(join_remote("/", "etc"), "/etc");
    assert_eq!(join_remote("/usr/local", "bin"), "/usr/local/bin");
    assert_eq!(remote_parent("/"), None);
    assert_eq!(remote_parent("/etc"), Some("/".to_string()));
    assert_eq!(
        remote_parent("/usr/local/bin"),
        Some("/usr/local".to_string())
    );
}

#[test]
fn exclude_matching() {
    let ex = normalize_excludes(&vec![
        "/usr/local/blog/logs/".to_string(),
        "/usr/local/blog/.backup-worktree".to_string(),
    ]);
    assert!(is_excluded("/usr/local/blog/logs", &ex));
    assert!(is_excluded("/usr/local/blog/logs/app.log", &ex));
    assert!(is_excluded("/usr/local/blog/.backup-worktree", &ex));
    assert!(!is_excluded("/usr/local/blog", &ex));
    assert!(!is_excluded("/usr/local/blog/logsX", &ex)); // not a path boundary
    assert!(!is_excluded("/usr/local/blog/src", &ex));
    // the parent dir contains excludes, so it must be pulled selectively
    assert!(has_exclude_under("/usr/local/blog", &ex));
    assert!(!has_exclude_under("/usr/local/tbox", &ex));
    assert!(!has_exclude_under("/usr/local/blog/logs", &ex));
}

#[test]
fn parse_perm_line_handles_stat_and_ls() {
    // stat -c '%a %n' (mode already octal)
    assert_eq!(
        parse_perm_line("755 /usr/local/shadowsocks/bin"),
        Some(("755".to_string(), "/usr/local/shadowsocks/bin".to_string()))
    );
    assert_eq!(
        parse_perm_line("644 /etc/config/dhcp"),
        Some(("644".to_string(), "/etc/config/dhcp".to_string()))
    );
    assert_eq!(parse_perm_line("4755 /bin/su").unwrap().0, "4755");
    // ls -ldn fallback (symbolic)
    let dir = "drwxr-xr-x    2 0        0             4096 Jun 30 21:40 /usr/local/shadowsocks/bin";
    assert_eq!(
        parse_perm_line(dir),
        Some(("755".to_string(), "/usr/local/shadowsocks/bin".to_string()))
    );
    let key = "-rw-------    1 0 0 100 Jan 1 00:00 /root/.ssh/id_ed25519";
    assert_eq!(
        parse_perm_line(key),
        Some(("600".to_string(), "/root/.ssh/id_ed25519".to_string()))
    );
    let suid = "-rwsr-xr-x 1 0 0 1 Jan 1 00:00 /bin/su";
    assert_eq!(parse_perm_line(suid).unwrap().0, "4755");
    let sticky = "drwxrwxrwt 2 0 0 1 Jan 1 00:00 /tmp";
    assert_eq!(parse_perm_line(sticky).unwrap().0, "1777");
    assert_eq!(parse_perm_line("garbage"), None);
}

#[test]
fn perm_record_path_handles_modes_and_symlinks() {
    assert_eq!(
        perm_record_path("755 /usr/local/bin/tool"),
        Some("/usr/local/bin/tool".to_string())
    );
    assert_eq!(
        perm_record_path("symlink Li4vc2hhcmVkL3RhcmdldA== /usr/local/bin/tool link"),
        Some("/usr/local/bin/tool link".to_string())
    );
    assert_eq!(
        perm_record_path("symlink Li4vc2hhcmVkL3RhcmdldA== relative"),
        None
    );
    assert_eq!(perm_record_path("symlink missing-path"), None);
}

#[test]
fn ss_server_substitution_is_family_matched() {
    let conf = r#"{
  "servers": [
    { "server": "2406:da18:c4a:2281::1", "server_port": 443, "disabled": true },
    { "server": "54.179.191.126", "server_port": 443, "disabled": false }
  ]
}"#;
    // IPv4 aws: only the IPv4 entry changes.
    let out = substitute_ss_server(conf, "203.0.113.9").unwrap();
    let v: serde_json::Value = serde_json::from_str(&out).unwrap();
    assert_eq!(v["servers"][0]["server"], "2406:da18:c4a:2281::1");
    assert_eq!(v["servers"][1]["server"], "203.0.113.9");

    // IPv6 aws: only the IPv6 entry changes.
    let out6 = substitute_ss_server(conf, "2001:db8::2").unwrap();
    let v6: serde_json::Value = serde_json::from_str(&out6).unwrap();
    assert_eq!(v6["servers"][0]["server"], "2001:db8::2");
    assert_eq!(v6["servers"][1]["server"], "54.179.191.126");

    assert!(is_ipv4("54.179.191.126"));
    assert!(!is_ipv4("2001:db8::2"));
    assert!(!is_ipv4("256.1.1.1"));
    assert!(!is_ipv4("example.com"));
}

#[test]
fn ss_server_substitution_refuses_what_it_cannot_do() {
    assert!(matches!(
        substitute_ss_server("{}", "example.com"),
        Err(SubstituteError::NoAddress(_))
    ));
    assert!(matches!(
        substitute_ss_server("not json", "203.0.113.9"),
        Err(SubstituteError::NotJson)
    ));
    assert!(matches!(
        substitute_ss_server("{\"servers\":[{\"server\":\"::1\"}]}", "203.0.113.9"),
        Err(SubstituteError::NoEntry(true))
    ));
    // Everything else of the document stays.
    let out = substitute_ss_server(
        "{\"servers\":[{\"server\":\"1.2.3.4\",\"server_port\":443}],\"local_port\":1080}",
        "5.6.7.8",
    )
    .unwrap();
    let v: serde_json::Value = serde_json::from_str(&out).unwrap();
    assert_eq!(v["servers"][0]["server_port"], 443);
    assert_eq!(v["local_port"], 1080);
    assert!(out.contains('\n'));
}

#[test]
fn shell_quote_escapes_single_quotes() {
    assert_eq!(shell_quote("/a b"), "'/a b'");
    assert_eq!(shell_quote("it's"), "'it'\\''s'");
}

#[test]
fn ssh_dest_builds_user_at_host() {
    let host = CollectorHost {
        hostname: "1.2.3.4".to_string(),
        user: "root".to_string(),
        ..Default::default()
    };
    assert_eq!(SshConn::from_host(&host).dest(), "root@1.2.3.4");
    let no_user = CollectorHost {
        hostname: "h".to_string(),
        ..Default::default()
    };
    assert_eq!(SshConn::from_host(&no_user).dest(), "h");
}

#[test]
fn legacy_split_parts_are_removed() {
    assert!(is_part_of("blob.bin.autosplit.000", "blob.bin"));
    assert!(is_part_of("blob.bin.autosplit.001", "blob.bin"));
    assert!(!is_part_of("blob.bin", "blob.bin"));
    assert!(matches!(
        track_large_files_with_lfs("blob.bin.autosplit.000", true, 5, 50),
        EntryPlan::RemovePart
    ));
}

#[test]
fn gitignore_editor_removes_anchored_path() {
    let mut editor = GitignoreEditor::load(Some("/aws/usr/local/big.bin\n/other/path\n"));
    editor.remove("aws/usr/local/big.bin");
    let body = editor.save().unwrap();
    assert_eq!(body.matches("/aws/usr/local/big.bin").count(), 0);
    assert!(body.contains("/other/path"));
}

#[test]
fn unchanged_gitignore_is_not_written() {
    let mut editor = GitignoreEditor::load(Some("/other/path\n"));
    editor.remove("aws/usr/local/big.bin");
    assert!(editor.save().is_none());
    assert!(GitignoreEditor::load(None).save().is_none());
}

#[test]
fn large_files_are_tracked_at_the_threshold() {
    assert_eq!(large_file_size(1), 1024 * 1024);
    assert!(matches!(
        track_large_files_with_lfs("big.bin", true, 1024 * 1024, 1),
        EntryPlan::Track
    ));
    assert!(matches!(
        track_large_files_with_lfs("big.bin", true, 1024 * 1024 - 1, 1),
        EntryPlan::Leave
    ));
    assert!(matches!(track_large_files_with_lfs("dir", false, 1 << 40, 1), EntryPlan::Leave));
}

#[test]
fn hex_is_read_back() {
    let bytes: Vec<u8> = (0..=255).collect();
    let text = hex_encode(&bytes);
    assert_eq!(&text[..6], "000102");
    assert_eq!(hex_decode(&text).unwrap(), bytes);
    assert_eq!(hex_decode("FF").unwrap(), vec![255]);
    assert!(matches!(hex_decode("abc"), Err(HexError::OddLength)));
    assert!(matches!(hex_decode("zz"), Err(HexError::BadDigit)));
}

#[test]
fn unsafe_windows_names_are_recognised() {
    assert_eq!(safe_windows_component(&b"ok.txt".to_vec()), Some("ok.txt".to_string()));
    for bad in ["CON", "nul.txt", "a:b", "trailing.", "trailing ", "a*b", "com1"] {
        assert_eq!(safe_windows_component(&bad.as_bytes().to_vec()), None, "{bad}");
    }
    assert_eq!(safe_windows_component(&vec![0xff]), None);
}

#[test]
fn encoded_names_depend_on_the_name() {
    let mut manifest = empty_manifest();
    let a = stored_rel_for_linux_path(&b"d/a:b".to_vec(), &mut manifest).unwrap().unwrap();
    let b = stored_rel_for_linux_path(&b"d/a:c".to_vec(), &mut manifest).unwrap().unwrap();
    assert_ne!(a, b);
    assert_eq!(manifest.entries.len(), 2);
    // The stored name is made of a hash of the original.
    let expected = blake3::hash(b"a:b").to_hex().to_string();
    assert!(a.contains(&expected[..16]), "{a}");
    assert!(matches!(
        stored_rel_for_linux_path(&b"d/../x".to_vec(), &mut manifest),
        Err(UpwardEntry)
    ));
}

#[test]
fn manifest_roots_are_pruned() {
    let mut manifest = empty_manifest();
    manifest.entries.push(NameManifestEntry {
        stored_rel: "etc/x".to_string(),
        original_rel_hex: hex_encode(&b"etc/a:b".to_vec()),
    });
    manifest.entries.push(NameManifestEntry {
        stored_rel: "var/x".to_string(),
        original_rel_hex: hex_encode(&b"var/a:b".to_vec()),
    });
    prune_name_manifest_roots(&mut manifest, &strings(&["etc"]));
    assert_eq!(manifest.entries.len(), 1);
    assert_eq!(manifest.entries[0].stored_rel, "var/x");
}

#[test]
fn permissions_are_collected_without_excluded_paths() {
    let out = records_in("755 /a/b\n644 /a/c/x\nnoise\n", &strings(&["/a/c"]));
    assert_eq!(out, vec!["755 /a/b"]);
    let (body, n) = perms_body(&strings(&["755 /a/b", "644 /z"]));
    assert_eq!(n, 2);
    assert!(body.contains("755 /a/b\n"));
}

#[test]
fn archives_leave_out_excluded_paths() {
    let rels = archive_paths(&strings(&["/etc/config", "/root/x"])).unwrap();
    assert_eq!(rels, vec!["etc/config", "root/x"]);
    assert!(archive_paths(&strings(&["/a/../b"])).is_err());
    let plan = plan_archive(&rels, &strings(&["/etc/config/secret"]), &Vec::new());
    assert!(plan.command.contains("etc/config"));
    let (path, child) = plan_child("/etc", "config", &strings(&["/etc/config/secret"]));
    assert_eq!(path, "/etc/config");
    assert!(matches!(child, ChildPlan::Descend));
    assert!(matches!(plan_child("/etc", "x", &strings(&["/etc/x"])).1, ChildPlan::Skip));
    assert!(matches!(plan_child("/etc", "y", &strings(&["/etc/x"])).1, ChildPlan::Copy));
    assert_eq!(listed_names("a\n\n./b\r\n").len() >= 1, true);
    assert!(cleanup_command(&Vec::new()).is_none());
    assert!(parse_snapshots("").is_empty());
    assert!(snapshot_command(&strings(&["/data"])).contains("/data"));
}

#[test]
fn browsing_lists_directories_first() {
    let req = CollectorBrowseRequest {
        hostname: " h ".to_string(),
        user: String::new(),
        port: 0,
        identity_file: String::new(),
        path: "  ".to_string(),
    };
    let (path, command) = browse_command(&req).unwrap();
    assert_eq!(path, "/");
    assert!(command.starts_with("cd -- '/' "));
    let listing = browse("/etc", "zebra\nconf/\napt/\nalpha\n");
    let names: Vec<&str> = listing.entries.iter().map(|e| e.name.as_str()).collect();
    assert_eq!(names, vec!["apt", "conf", "alpha", "zebra"]);
    assert_eq!(listing.entries[0].path, "/etc/apt");
    assert_eq!(listing.parent, Some("/".to_string()));
    let nobody = CollectorBrowseRequest {
        hostname: " ".to_string(),
        user: String::new(),
        port: 0,
        identity_file: String::new(),
        path: String::new(),
    };
    assert_eq!(browse_command(&nobody).unwrap_err(), "no hostname to connect to");
}

#[test]
fn pulling_a_host_accounts_for_every_path() {
    let host = CollectorHost {
        name: "h".to_string(),
        hostname: "h".to_string(),
        root: "/srv/h".to_string(),
        paths: strings(&["/a", "/b"]),
        ..Default::default()
    };
    let mut state = CollectorRunState::default();
    let mut pull = PullHost::start(&host, &mut state, "t");
    let mut pulled: Vec<String> = Vec::new();
    let failures;
    loop {
        match pull.action() {
            PullAction::Connect => pull.on_connect(None, &mut state, "t"),
            PullAction::Classify(p) => {
                let kind = if p == "/a" { Ok(RemotePathKind::File) } else { Err("gone".to_string()) };
                pull.on_kind(kind, &mut state, "t")
            }
            PullAction::PullTar(p) | PullAction::PullFile(p) => {
                pulled.push(p);
                pull.on_pull(None, &mut state, "t")
            }
            PullAction::RecordPerms => pull.on_perms(None, &mut state, "t"),
            PullAction::Finished(n) => {
                failures = n;
                break;
            }
        }
    }
    assert_eq!(pulled, vec!["/a"]);
    assert_eq!(failures, 1);
    assert_eq!(state.succeeded_files, 1);
    assert_eq!(state.failed_files, 1);
}

#[test]
fn runs_choose_their_hosts() {
    let mut cfg = CollectorConfig::default();
    assert_eq!(run(&cfg).unwrap_err(), "no enabled hosts to pull from");
    cfg.hosts.push(CollectorHost {
        hostname: "a".to_string(),
        paths: strings(&["/x", "/y"]),
        enabled: true,
        ..Default::default()
    });
    cfg.hosts.push(CollectorHost { hostname: "b".to_string(), enabled: false, ..Default::default() });
    assert_eq!(run(&cfg).unwrap_err(), "git repository directory is not set");
    cfg.git_dir = "/srv/repo".to_string();
    assert_eq!(run(&cfg).unwrap(), vec![0]);
    assert_eq!(count_run_paths(&cfg, &vec![0]), 2);
    assert!(run_host(&cfg, 5).is_err());
    assert_eq!(collect_targets(&cfg.hosts[0]), vec!["/x", "/y"]);
}

#[test]
fn a_run_that_fails_is_recorded() {
    let mut state = CollectorRunState::default();
    state.running = true;
    state.started_epoch_ms = Some(1000);
    finish_run(Err("boom".to_string()), &mut state, "t", "then", 3500);
    assert!(!state.running);
    assert_eq!(state.ok, Some(false));
    assert_eq!(state.duration_ms, Some(2500));
    let mut state = CollectorRunState::default();
    finish_run(Ok(0), &mut state, "t", "then", 1);
    assert_eq!(state.ok, Some(true));
}

#[test]
fn kinds_of_remote_paths_are_read() {
    assert!(matches!(remote_path_kind("file\n"), Ok(RemotePathKind::File)));
    assert!(matches!(remote_path_kind("dir"), Ok(RemotePathKind::Dir)));
    assert!(remote_path_kind("what").is_err());
}

#[test]
fn deploy_scripts_get_their_environment() {
    assert_eq!(env_host_suffix("my-host.1"), "MY_HOST_1");
    let host = CollectorHost {
        name: "r1".to_string(),
        hostname: "10.0.0.1".to_string(),
        root: "/srv/r1".to_string(),
        deploy_script: "echo hi".to_string(),
        ..Default::default()
    };
    let tools = DeployTools {
        ssh: "ssh".to_string(),
        scp: "scp".to_string(),
        home: "/root".to_string(),
        perms_file: None,
        ss_conf: None,
    };
    let vars = deploy_env(&host, &vec![host.clone()], &tools);
    assert!(vars.iter().any(|v| v.value == "10.0.0.1"));
    assert!(deploy_ready(&host).unwrap());
    assert!(script_verdict(&Ok(true)).1 == 0);
    assert!(script_verdict(&Err("x".to_string())).1 > 0);
    assert_eq!(
        aws_hostname(&vec![CollectorHost {
            name: "aws".to_string(),
            hostname: "203.0.113.9".to_string(),
            ..Default::default()
        }]),
        Some("203.0.113.9".to_string())
    );
    assert!(!ssh_tool_places("/opt/bin", "ssh").is_empty());
}

#[test]
fn commits_are_made_of_changes() {
    assert!(has_changes(" M a\n"));
    assert!(!has_changes("\n"));
    assert!(commit_args("", "msg").contains(&"msg".to_string()));
    assert_eq!(prefixed_lines("a\n\nb\nc\n", "> ", 2).len(), 2);
}

#[test]
fn prune_clauses_and_tildes() {
    assert_eq!(expand_tilde("~/x", "/root"), "/root/x");
    assert_eq!(expand_tilde("/x", "/root"), "/x");
    assert_eq!(find_prune_clause("/a", &Vec::new()), "");
    assert!(path_is_under_root("a/b", "a"));
    assert!(!path_is_under_root("ab", "a"));
}

#[test]
fn pulled_paths_are_rebuilt_under_the_root() {
    match pull_path("/srv/aws", "/usr/local/x", &Vec::new()).unwrap() {
        PullPlace::Whole(dir) => assert_eq!(dir, "/srv/aws/usr/local"),
        other => panic!("{other:?}"),
    }
    match pull_path("/srv/aws", "/usr/local", &strings(&["/usr/local/x"])).unwrap() {
        PullPlace::Pieces(dir) => assert_eq!(dir, "/srv/aws/usr/local"),
        other => panic!("{other:?}"),
    }
    assert!(pull_path("/srv", "/a/../b", &Vec::new()).is_err());
    assert_eq!(archived_place("/srv", "etc/x"), "/srv/etc/x");
    let mut manifest = empty_manifest();
    assert_eq!(
        place_entry("/srv", &b"./etc/x".to_vec(), EntryKind::File, &mut manifest).unwrap(),
        Some("/srv/etc/x".to_string())
    );
    assert_eq!(
        place_entry("/srv", &b"etc/fifo".to_vec(), EntryKind::Other, &mut manifest).unwrap(),
        None
    );
    assert_eq!(place_entry("/srv", &b"./".to_vec(), EntryKind::Directory, &mut manifest).unwrap(), None);
    assert!(place_entry("/srv", &b"../x".to_vec(), EntryKind::File, &mut manifest).is_err());
}

#[test]
fn deploying_finds_its_files() {
    let mut host = CollectorHost {
        name: "My Host".to_string(),
        deploy_script: "echo".to_string(),
        ..Default::default()
    };
    match script_place(&host, "/tmp") {
        ScriptPlace::Written(path, text) => {
            assert_eq!(path, "/tmp/auto_sync_deploy_my_host.ps1");
            assert_eq!(text, "echo");
        }
        other => panic!("{other:?}"),
    }
    host.deploy_script_path = " /opt/d.ps1 ".to_string();
    assert!(matches!(script_place(&host, "/tmp"), ScriptPlace::Existing(p) if p == "/opt/d.ps1"));
    assert_eq!(script_command(true, "x").0, "powershell");
    assert_eq!(script_command(false, "x").1, vec!["-NoProfile", "-NonInteractive", "-File", "x"]);
    let (perms, conf, copy) = deploy_files("/srv/r", "My Host", "/tmp");
    assert_eq!(perms, "/srv/r/.auto_sync_perms");
    assert_eq!(conf, "/srv/r/usr/local/shadowsocks/conf/shadowsocks-client.json");
    assert_eq!(copy, "/tmp/auto_sync_ss_client_my_host.json");
    let places = ssh_tool_places("/opt", "ssh");
    assert_eq!(resolve_ssh_tool(&places, &vec![false, true, true], "ssh"), places[1]);
    assert_eq!(resolve_ssh_tool(&places, &Vec::new(), "ssh"), "ssh");
}

#[test]
fn directories_are_told_from_answers() {
    assert!(kind_command("/a b").starts_with("if [ -L '/a b' ]; then if [ -d '/a b' ]; then echo dir;"));
    assert_eq!(dir_probe_command("etc"), "cd / && [ -d 'etc' ] && echo yes || true");
    assert_eq!(
        directories_among(
            &strings(&["a", "b", "c"]),
            &vec![Some("yes\n".to_string()), None, Some(String::new())]
        ),
        vec!["a"]
    );
    assert_eq!(record_host_perms(&strings(&["/a", "/b/c"]), &strings(&["/b"])), vec!["/a"]);
}

#[test]
fn ss_server_substitution_reaches_every_entry_of_the_family() {
    let mut entries = Vec::new();
    for i in 0..12 {
        entries.push(format!("{{\"server\":\"10.0.0.{i}\"}}"));
    }
    entries[3] = "{\"server\":\"2001:db8::2\"}".to_string();
    entries[4] = "{\"other\":\"10.0.0.4\"}".to_string();
    entries[5] = "{\"server\":5}".to_string();
    entries[6] = "[\"server\"]".to_string();
    let conf = format!("{{\"servers\":[{}],\"server\":\"10.1.1.1\"}}", entries.join(","));
    let out = substitute_ss_server(&conf, " 203.0.113.9 ").unwrap();
    let v: serde_json::Value = serde_json::from_str(&out).unwrap();
    for i in [0, 1, 2, 7, 8, 9, 10, 11] {
        assert_eq!(v["servers"][i]["server"], "203.0.113.9");
    }
    assert_eq!(v["servers"][3]["server"], "2001:db8::2");
    assert_eq!(v["servers"][4]["other"], "10.0.0.4");
    assert_eq!(v["servers"][5]["server"], 5);
    assert_eq!(v["servers"][6][0], "server");
    // Only the entries of the array are servers.
    assert_eq!(v["server"], "10.1.1.1");
    for conf in ["{\"servers\":{\"0\":{\"server\":\"10.0.0.1\"}}}", "[]", "{\"servers\":[]}"] {
        assert!(matches!(
            substitute_ss_server(conf, "203.0.113.9"),
            Err(SubstituteError::NoEntry(true))
        ));
    }
}

#[test]
fn collecting_is_logged_line_by_line() {
    assert_eq!(git_init_line("/r"), "git init /r");
    assert_eq!(tar_line(2, "root@h", "/r"), "  tar 2 path(s) from root@h -> /r");
    assert_eq!(manifest_line(0), None);
    assert_eq!(
        manifest_line(3).unwrap(),
        "  name manifest: encoded 3 Linux byte-name path(s)"
    );
    let snapshot = SqliteSnapshot {
        source_rel: "opt/x/data/auto_sync.sqlite".to_string(),
        remote_tmp: "/tmp/w/1.sqlite".to_string(),
    };
    assert_eq!(
        snapshot_line(&snapshot),
        "  sqlite snapshot /opt/x/data/auto_sync.sqlite -> /tmp/w/1.sqlite"
    );
    assert_eq!(
        snapshot_copy_line("h", &snapshot, "/r/db"),
        "  sqlite snapshot h:/tmp/w/1.sqlite -> /r/db"
    );
    assert_eq!(cleanup_line(None), "  sqlite snapshot cleanup: removed remote temp files");
    assert_eq!(
        cleanup_line(Some("no route")),
        "  sqlite snapshot cleanup: could not remove remote temp files: no route"
    );
    assert_eq!(perms_failed_line("/etc", "no route"), "  perms: /etc: no route");
    assert_eq!(perms_recorded_line(12), "  perms: recorded 12 entries");
    assert_eq!(scp_line("h", "/etc/x", "/r/etc"), "  scp h:/etc/x -> /r/etc");
    assert_eq!(ignore_line("/etc/x"), "  ignore /etc/x (excluded)");
    assert_eq!(part_line("/r/a.autosplit.1"), "  removed legacy split part /r/a.autosplit.1");
    assert_eq!(lfs_line("a.bin", 3 * 1024 * 1024 + 5), "  lfs track a.bin (3 MiB)");
    assert_eq!(git_prefix("push"), "  git push | ");
    assert_eq!(list_command("/a b"), "cd -- '/a b' 2>/dev/null && ls -A1 2>/dev/null");
}

#[test]
fn work_on_a_host_is_announced() {
    let host = CollectorHost {
        name: "nas".to_string(),
        hostname: "1.2.3.4".to_string(),
        root: "/r".to_string(),
        paths: vec!["/etc".to_string(), "/opt".to_string()],
        ..CollectorHost::default()
    };
    let mut state = CollectorRunState::default();
    let mut pull = PullHost::start(&host, &mut state, "t");
    assert_eq!(heading(&pull), None);
    pull.on_connect(None, &mut state, "t");
    assert_eq!(heading(&pull).unwrap(), "2 path(s) from nas");
    pull.on_kind(Ok(RemotePathKind::SymlinkFile), &mut state, "t");
    assert_eq!(heading(&pull), None);
    pull.on_kind(Ok(RemotePathKind::Dir), &mut state, "t");
    assert_eq!(heading(&pull).unwrap(), "1 symlink file(s) from nas");
    pull.on_pull(None, &mut state, "t");
    assert_eq!(heading(&pull).unwrap(), "1 folder(s) from nas");
    pull.on_pull(None, &mut state, "t");
    assert_eq!(heading(&pull), None);
}

#[test]
fn client_configurations_are_prepared_or_left() {
    let aws = vec![CollectorHost {
        name: " AWS ".to_string(),
        hostname: "203.0.113.9".to_string(),
        ..CollectorHost::default()
    }];
    let none: Vec<CollectorHost> = Vec::new();
    let text = CollectedConf::Text("{\"servers\":[{\"server\":\"1.2.3.4\"}]}".to_string());
    let unread = CollectedConf::Unreadable("denied".to_string());
    let missing = prepare_ss_client_conf("/c", &CollectedConf::Missing, &aws);
    assert!(missing.text.is_none() && missing.line.is_none());
    let left = prepare_ss_client_conf("/c", &unread, &none);
    assert!(left.text.is_none());
    assert_eq!(
        left.line.unwrap(),
        "shadowsocks conf present but no 'aws' host — leaving server address unchanged"
    );
    assert_eq!(
        prepare_ss_client_conf("/c", &unread, &aws).line.unwrap(),
        "could not read /c: denied"
    );
    let done = prepare_ss_client_conf("/c", &text, &aws);
    assert!(done.text.unwrap().contains("203.0.113.9"));
    let line = done.line.unwrap();
    assert_eq!(line, "shadowsocks server address -> 203.0.113.9 (IPv4)");
    assert_eq!(written_line(&line, None), line);
    assert_eq!(written_line(&line, Some("full")), "could not write substituted conf: full");
    let bad = prepare_ss_client_conf("/c", &CollectedConf::Text("{}".to_string()), &aws);
    assert!(bad.text.is_none());
    assert_eq!(
        bad.line.unwrap(),
        "shadowsocks server substitution skipped: no IPv4 server entry found in the shadowsocks config"
    );
    assert_eq!(no_script_line(), "no deploy script for this host — nothing to do");
}
