use auto_sync::cancel::{
    active_kinds, add_synced_files, begin, begin_target, begin_targets, check, current_target,
    current_token, end_op, enter, error_is_cancelled, kind_target_active, leave, request,
    synced_files, target_for, CancelState, TokenSlot,
};
use auto_sync::config::types::{AppConfig, LocalEnv, MachineConfig, SourceGroupConfig};
use auto_sync::peer_notify::{
    controller_machine, mark_local_change, note_remote_change, push_to_controllers, status_epoch,
    take_changed, NotifyState,
};
use auto_sync::progress::{
    begin_transfer, configure_progress_file, current_scan_progress, current_transfer_progress,
    enter_compare_context, ewma_speed, in_compare_context, leave_compare_context, record_transfer,
    start_scan, start_transfer, stored_is_stale, CompareContext, Progress, Shown,
    TransferProgressState,
};
use auto_sync::signal::{
    mark_watcher_armed, notify_scheduler, reset_watcher_armed, wait_for_activity,
    wait_watcher_armed, ArmedWait, Signals,
};
use auto_sync::status::{check_destination_online, check_file_destination_online, PlaceFact};
use auto_sync::storage::{
    block_name_rotational, combine_verdicts, medium_rotational, medium_script, medium_source, mount_for_path, parse_zpool_devices,
    path_is_rotational, rotational_of_devices, unescape_mount_field, BlockFact, MediumSource,
};

fn env() -> LocalEnv {
    LocalEnv {
        hostname: "tiger".to_string(),
        host: "192.168.2.50".to_string(),
        os: "linux".to_string(),
    }
}

fn slot() -> TokenSlot {
    TokenSlot { current: None }
}

#[test]
fn check_passes_without_operation_and_fails_after_request() {
    let mut state = CancelState::new();
    let mut slot = slot();
    assert!(check(&state, &slot).is_ok());
    let guard = begin(&mut state, &mut slot, "test-kind-basic");
    assert!(check(&state, &slot).is_ok());
    assert_eq!(request(&mut state, Some("test-kind-basic"), None), 1);
    let err = check(&state, &slot).unwrap_err();
    assert!(error_is_cancelled(&vec![err]));
    end_op(&mut state, &mut slot, guard);
    assert!(check(&state, &slot).is_ok(), "token uninstalled after guard drop");
}

#[test]
fn request_by_kind_only_hits_matching_operations() {
    let mut state = CancelState::new();
    let mut slot = slot();
    let _outer = begin(&mut state, &mut slot, "test-kind-outer");
    let inner = begin(&mut state, &mut slot, "test-kind-inner");
    let inner_token = current_token(&slot);
    end_op(&mut state, &mut slot, inner);
    // Inner guard dropped: its kind is no longer registered.
    assert_eq!(request(&mut state, Some("test-kind-inner"), None), 0);
    let entered = enter(&mut slot, inner_token);
    assert!(check(&state, &slot).is_ok());
    leave(&mut slot, entered);
    assert!(check(&state, &slot).is_ok(), "outer op untouched by other-kind cancel");
    assert_eq!(request(&mut state, Some("test-kind-outer"), None), 1);
    assert!(check(&state, &slot).is_err(), "outer token restored and cancelled");
}

#[test]
fn targeted_request_is_strict_and_multi_target_ops_match_any_of_theirs() {
    let mut state = CancelState::new();
    let mut slot = slot();
    let _scoped =
        begin_target(&mut state, &mut slot, "test-kind-target", Some(target_for("srcA", "dst1")));
    assert_eq!(
        current_target(&slot).as_deref(),
        Some("srcA|dst1"),
        "single-target op exposes its target on the thread"
    );
    // A different destination's targeted cancel must not touch it...
    assert_eq!(
        request(&mut state, Some("test-kind-target"), Some("srcB|dst1")),
        0,
        "strict matching: other targets and unscoped-op fallbacks are out"
    );
    assert!(check(&state, &slot).is_ok());
    // ...while its own target does.
    assert_eq!(request(&mut state, Some("test-kind-target"), Some("srcA|dst1")), 1);
    assert!(check(&state, &slot).is_err());

    let _pass = begin_targets(
        &mut state,
        &mut slot,
        "test-kind-multi",
        vec![target_for("srcC", "dst1"), target_for("srcC", "dst2")],
    );
    assert_eq!(
        current_target(&slot),
        None,
        "multi-target op has no single attribution target"
    );
    assert_eq!(request(&mut state, Some("test-kind-multi"), Some("srcC|dst2")), 1);
    assert!(check(&state, &slot).is_err(), "any listed target cancels the whole op");
}

#[test]
fn worker_threads_see_cancellation_through_entered_token() {
    let mut state = CancelState::new();
    let mut own = slot();
    let _op = begin(&mut state, &mut own, "test-kind-worker");
    request(&mut state, Some("test-kind-worker"), None);
    let token = current_token(&own);
    let mut worker = slot();
    let entered = enter(&mut worker, token);
    assert!(check(&state, &worker).is_err());
    leave(&mut worker, entered);
    assert!(check(&state, &worker).is_ok());
}

#[test]
fn operations_count_their_files() {
    let mut state = CancelState::new();
    let mut slot = slot();
    assert_eq!(synced_files(&state, &slot), 0);
    let guard = begin_target(&mut state, &mut slot, "sync", Some(target_for("s", "d")));
    add_synced_files(&mut state, &slot, 3);
    add_synced_files(&mut state, &slot, 4);
    assert_eq!(synced_files(&state, &slot), 7);
    assert!(kind_target_active(&state, "sync", "s|d"));
    assert!(!kind_target_active(&state, "compare", "s|d"));
    assert_eq!(active_kinds(&state), vec!["sync"]);
    // A second request finds nothing new to signal beyond the same operation.
    assert_eq!(request(&mut state, None, None), 1);
    assert_eq!(request(&mut state, None, None), 1);
    end_op(&mut state, &mut slot, guard);
    assert!(active_kinds(&state).is_empty());
}

#[test]
fn local_change_records_source_and_bumps_epoch_remote_bumps_only_epoch() {
    let mut state = NotifyState::new();
    let epoch_before = status_epoch(&state);
    mark_local_change(&mut state, "src_test_notify");
    assert_eq!(status_epoch(&state), epoch_before + 1);
    assert!(state.changed.contains(&"src_test_notify".to_string()));

    note_remote_change(&mut state);
    assert_eq!(status_epoch(&state), epoch_before + 2);

    assert_eq!(take_changed(&mut state), vec!["src_test_notify"]);
    assert!(state.changed.is_empty());
}

#[test]
fn controller_resolution_matches_discovery_id_and_skips_local_sources() {
    let mut cfg = AppConfig::initial(&env());
    // TEST-NET address: must not collide with this machine, which is left out.
    cfg.machines.push(MachineConfig {
        id: "Windows".to_string(),
        alias_name: "Windows".to_string(),
        name: "DESKTOP".to_string(),
        host: "192.0.2.166".to_string(),
        port: 18765,
        ssh_user: "tiger".to_string(),
        ssh_port: 10022,
        os: "windows".to_string(),
        install_dir: "D:\\code\\auto_sync".to_string(),
        enabled: true,
        manual: true,
    });

    // The controller's discovery id embeds its sanitized host and port.
    let controller =
        controller_machine(&cfg, "lan_192_0_2_166_18765_18ead87d", &env()).expect("resolved");
    assert_eq!(controller.id, "Windows");

    // Plain machine-id references still work.
    assert!(controller_machine(&cfg, "Windows", &env()).is_some());

    // Locally created sources have no controller: nothing to push.
    assert!(controller_machine(&cfg, "", &env()).is_none());
    assert!(controller_machine(&cfg, "unknown-machine", &env()).is_none());

    // A change is pushed to the machine that manages the source.
    cfg.source_groups.push(SourceGroupConfig {
        id: "s".to_string(),
        managed_by: "Windows".to_string(),
        ..Default::default()
    });
    let told = push_to_controllers(&cfg, &vec!["s".to_string()], &env());
    assert_eq!(told.len(), 1);
    assert_eq!(told[0].id, "Windows");
    assert!(push_to_controllers(&cfg, &vec!["other".to_string()], &env()).is_empty());
}

#[test]
fn transfer_speed_ewma_uses_first_sample_directly() {
    assert_eq!(ewma_speed(0, 1_000), 1_000);
}

#[test]
fn transfer_speed_ewma_smooths_new_samples() {
    assert_eq!(ewma_speed(1_000, 2_000), 1_350);
    assert_eq!(ewma_speed(2_000, 1_000), 1_650);
}

#[test]
fn transfer_speed_can_be_sampled_when_status_is_read_later() {
    let now: u128 = 10_000_000_000;
    let five_secs: u128 = 5_000_000_000;
    let mut state = TransferProgressState {
        token: 1,
        destination_id: "dst".to_string(),
        destination_path: "/dst".to_string(),
        rel_path: "file.bin".to_string(),
        transferred_bytes: 10_000,
        total_bytes: 20_000,
        bytes_per_sec: 0,
        last_bytes: 0,
        started_at: now - five_secs,
        last_sample_at: now - five_secs,
        updated_at: now,
        updated_at_ms: 0,
    };

    assert!(state.sample_speed(now, false));
    assert_eq!(state.bytes_per_sec, 2_000);
    assert_eq!(state.last_bytes, 10_000);
}

#[test]
fn progress_is_shown_until_it_is_stale() {
    let mut p = Progress::new();
    let (guard, shown) = start_transfer(&mut p, "d", "/d", "f", 100, 250, 0, 0);
    assert_eq!(shown.transferred_bytes, 100, "never more than the total");
    assert!(matches!(current_transfer_progress(&mut p, 1, 1), Shown::Live(_, _)));
    assert!(guard.finish(&mut p));
    assert!(!guard.finish(&mut p));
    assert!(stored_is_stale(0, 9_000));
    assert!(!stored_is_stale(0, 1_000));
    let (transfers, scans) = configure_progress_file("conf/state/auto_sync.sqlite");
    assert_eq!(transfers, "conf/state/runtime_progress.json");
    assert_eq!(scans, "conf/state/runtime_scan.json");
}

#[test]
fn watcher_armed_handshake_blocks_then_releases() {
    let mut s = Signals::new();
    reset_watcher_armed(&mut s);
    assert_eq!(wait_watcher_armed(&s, 0, 50), ArmedWait::Wait(50), "not armed yet");
    assert_eq!(wait_watcher_armed(&s, 50, 50), ArmedWait::TimedOut, "not armed yet: wait times out");
    mark_watcher_armed(&mut s);
    assert_eq!(wait_watcher_armed(&s, 0, 5_000), ArmedWait::Armed, "returns immediately once armed");
    mark_watcher_armed(&mut s);
    assert_eq!(wait_watcher_armed(&s, 0, 0), ArmedWait::Armed);
}

#[test]
fn pending_notification_wakes_immediately() {
    let mut s = Signals::new();
    notify_scheduler(&mut s);
    assert!(wait_for_activity(&mut s));
    // Flag consumed: the next wait times out.
    assert!(!wait_for_activity(&mut s));
}

#[test]
fn mount_for_path_prefers_longest_prefix() {
    let mounts = "\
/dev/sda1 / ext4 rw 0 0
zfs_pool/data /zfs_pool zfs rw 0 0
zfs_pool/data/deep /zfs_pool/deep zfs rw 0 0
";
    let (device, fstype) = mount_for_path(mounts, "/zfs_pool/deep/file").expect("mount");
    assert_eq!(device, "zfs_pool/data/deep");
    assert_eq!(fstype, "zfs");
    let (device, fstype) = mount_for_path(mounts, "/etc/hosts").expect("mount");
    assert_eq!(device, "/dev/sda1");
    assert_eq!(fstype, "ext4");
    assert!(matches!(medium_source(mounts, "/zfs_pool/x"), MediumSource::Pool(p) if p == "zfs_pool"));
    assert!(matches!(medium_source(mounts, "/etc"), MediumSource::Device(_)));
}

#[test]
fn mount_field_octal_escapes_decode() {
    assert_eq!(unescape_mount_field("/mnt/my\\040disk"), "/mnt/my disk");
    assert_eq!(unescape_mount_field("/plain"), "/plain");
}

#[test]
fn zpool_vdev_devices_parse() {
    // The HDD spare and cache device must NOT count: only data vdevs
    // decide whether parallel small-file writes are safe.
    let output = "\
zfs_pool\t10.9T\t5.06T\t5.81T\t-\t-\t5%\t46%\t1.00x\tONLINE\t-
\tmirror-0\t10.9T\t5.06T\t5.81T\t-\t-\t5%\t46.4%\t-\tONLINE
\t\t/dev/sda1\t10.9T\t-\t-\t-\t-\t-\t-\t-\tONLINE
\t\t/dev/sdb1\t10.9T\t-\t-\t-\t-\t-\t-\t-\tONLINE
cache\t-\t-\t-\t-\t-\t-\t-\t-\t-
\t/dev/nvme1n1\t512G\t-\t-\t-\t-\t-\t-\t-\tONLINE
spare\t-\t-\t-\t-\t-\t-\t-\t-\t-
\t/dev/sdz1\t10.9T\t-\t-\t-\t-\t-\t-\t-\tAVAIL
";
    assert_eq!(
        parse_zpool_devices(output),
        vec!["/dev/sda1".to_string(), "/dev/sdb1".to_string()]
    );
}

#[test]
fn stacked_devices_are_as_slow_as_their_slowest() {
    assert_eq!(combine_verdicts(&vec![Some(false), Some(true)]), Some(true));
    assert_eq!(combine_verdicts(&vec![Some(false), Some(false)]), Some(false));
    assert_eq!(combine_verdicts(&vec![Some(false), None]), None);
    assert_eq!(rotational_of_devices(&Vec::new(), &Vec::new()), None);
    let facts = vec![
        BlockFact { name: "md0".to_string(), slaves: vec!["sda1".to_string()], queue: None, parent: None },
        BlockFact {
            name: "sda1".to_string(),
            slaves: Vec::new(),
            queue: None,
            parent: Some("sda".to_string()),
        },
        BlockFact { name: "sda".to_string(), slaves: Vec::new(), queue: Some("1\n".to_string()), parent: None },
    ];
    assert_eq!(block_name_rotational(&facts, "md0", 4), Some(true));
    let mut known = Vec::new();
    assert_eq!(path_is_rotational(&mut known, "/a", Some(true)), Some(true));
    assert_eq!(path_is_rotational(&mut known, "/a", Some(false)), Some(true), "remembered");
}

#[test]
fn windows_names_the_medium_of_a_drive() {
    assert_eq!(medium_rotational("SSD\r\n"), Some(false));
    assert_eq!(medium_rotational("HDD"), Some(true));
    assert_eq!(medium_rotational("Unspecified"), None);
    assert_eq!(
        medium_script('D'),
        "(Get-PhysicalDisk -DeviceNumber (Get-Partition -DriveLetter D).DiskNumber).MediaType"
    );
}

#[test]
fn destinations_are_probed_where_they_can_be_written() {
    let dir = PlaceFact { exists: true, is_dir: true };
    let file = PlaceFact { exists: true, is_dir: false };
    let none = PlaceFact { exists: false, is_dir: false };
    assert_eq!(check_destination_online("/d/x", dir, none), Ok("/d/x".to_string()));
    assert_eq!(check_destination_online("/d/x", none, dir), Ok("/d".to_string()));
    assert_eq!(
        check_destination_online("/d/x", file, dir),
        Err("destination path is not a directory: /d/x".to_string())
    );
    assert_eq!(
        check_destination_online("/d/x", none, none),
        Err("destination path does not exist: /d/x".to_string())
    );
    assert_eq!(check_file_destination_online("/d/x", file), Ok("/d".to_string()));
    assert!(check_file_destination_online("/d/x", dir).is_err());
    assert!(check_file_destination_online("/", none).is_err());
}

#[test]
fn scans_name_what_they_are_for() {
    let mut p = Progress::new();
    let mut context = CompareContext { active: false };
    let (sync_scan, shown) = start_scan(&mut p, "/a", &context, 0, 0);
    assert_eq!(shown.kind, "sync");
    assert!(sync_scan.finish(&mut p));
    let guard = enter_compare_context(&mut context);
    assert!(in_compare_context(&context));
    let (scan, shown) = start_scan(&mut p, "/a", &context, 0, 0);
    assert_eq!(shown.kind, "compare");
    leave_compare_context(&mut context, guard);
    assert!(!in_compare_context(&context));
    scan.update(&mut p, "/a/b", 5, 1, 1);
    match current_scan_progress(&mut p, 2) {
        Shown::Live(view, _) => assert_eq!(view.root_path, "/a"),
        other => panic!("{other:?}"),
    }
    // Progress that was not updated for a while is no longer shown.
    assert!(matches!(current_scan_progress(&mut p, 20_000_000_000), Shown::Stored(_)));
}

#[test]
fn transfers_add_up() {
    let mut p = Progress::new();
    let (guard, _) = begin_transfer(&mut p, "d", "/d", 100, 0, 0);
    record_transfer(&mut p, "f", 40, 1, 1);
    record_transfer(&mut p, "g", 80, 2, 2);
    match current_transfer_progress(&mut p, 3, 3) {
        Shown::Live(view, _) => {
            assert_eq!(view.rel_path, "g");
            assert_eq!(view.transferred_bytes, 100, "never more than the total");
        }
        other => panic!("{other:?}"),
    }
    assert!(guard.finish(&mut p));
    assert!(matches!(current_transfer_progress(&mut p, 4, 4), Shown::Stored(_)));
}
