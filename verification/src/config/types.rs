//! The configuration and its defaults.
//!
//! Paths are held as text. Each type has a model over mathematical values, which the contracts
//! speak of.

use crate::text::{
    eq_ignore_ascii_case, is_blank, opt_view, same_ignoring_case, trim, trimmed, views,
};
use vstd::prelude::*;

verus! {

pub const DEFAULT_TCP_CONNECTION_POOL_SIZE: usize = 100;

pub const DEFAULT_TRANSFER_TIMEOUT_SECS: u64 = 120;

pub const DEFAULT_MAX_PARALLEL_TRANSFERS: usize = 16;

pub const DEFAULT_MODIFY_WINDOW_SECS: u64 = 1;

/// The port that machines listen on unless they are told otherwise.
pub const DEFAULT_PORT: u16 = 18765;

/// When a destination is brought up to date.
#[derive(Debug, Clone, Copy, PartialEq, Eq, Structural)]
pub enum ScheduleMode {
    Realtime,
    Daily,
    Weekly,
}

/// How snapshots of a source are taken.
#[derive(Debug, Clone, Copy, PartialEq, Eq, Structural)]
pub enum SnapshotBackend {
    Auto,
    Manifest,
    Zfs,
}

/// What synchronising a source means.
#[derive(Debug, Clone, Copy, PartialEq, Eq, Structural)]
pub enum SyncMode {
    Mirror,
}

/// How files are compared and transferred.
#[derive(Debug, Clone, Copy, PartialEq, Eq, Structural)]
pub struct NativeSyncConfig {
    pub mirror: bool,
    pub checksum: bool,
    pub debug_logs: bool,
    pub transfer_timeout_secs: u64,
    pub bwlimit_kbps: u64,
    /// Files transferred at once to a destination; zero leaves the choice to the engine.
    pub max_parallel_transfers: usize,
    /// Files of equal size whose times differ by at most this many seconds count as equal.
    pub modify_window_secs: u64,
    pub zfs_diff: bool,
    pub fsync: bool,
    /// Days that a deleted entry stays in the trash; zero keeps it for ever.
    pub trash_keep_days: u64,
}

/// When a destination is brought up to date.
#[derive(Debug)]
pub struct ScheduleConfig {
    pub mode: ScheduleMode,
    /// Local time of day, `HH:MM`.
    pub time: String,
    pub timezone: String,
    pub weekday: Option<String>,
    pub sync_current_cycle_manually: bool,
}

/// The model of a `ScheduleConfig`.
pub struct ScheduleConfigModel {
    pub mode: ScheduleMode,
    pub time: Seq<char>,
    pub timezone: Seq<char>,
    pub weekday: Option<Seq<char>>,
    pub sync_current_cycle_manually: bool,
}

impl View for ScheduleConfig {
    type V = ScheduleConfigModel;

    open spec fn view(&self) -> ScheduleConfigModel {
        ScheduleConfigModel {
            mode: self.mode,
            time: self.time@,
            timezone: self.timezone@,
            weekday: opt_view(self.weekday),
            sync_current_cycle_manually: self.sync_current_cycle_manually,
        }
    }
}

impl Clone for ScheduleConfig {
    fn clone(&self) -> (r: ScheduleConfig)
        ensures
            r@ == self@,
    {
        ScheduleConfig {
            mode: self.mode,
            time: self.time.clone(),
            timezone: self.timezone.clone(),
            weekday: clone_opt_string(&self.weekday),
            sync_current_cycle_manually: self.sync_current_cycle_manually,
        }
    }
}

/// When a standby pool is allowed to be awake: the window opens at the given weekday and time of
/// every `every_weeks`-th week counted from `anchor_date`.
#[derive(Debug)]
pub struct WakeSchedule {
    /// At least one; zero counts as one.
    pub every_weeks: u32,
    pub weekday: String,
    /// Local time of day, `HH:MM`.
    pub time: String,
    /// The day, `YYYY-MM-DD`, that week zero is counted from.
    pub anchor_date: String,
    /// How long the pool stays awake at most, even if work is left.
    pub max_window_minutes: u64,
}

/// The model of a `WakeSchedule`.
pub struct WakeScheduleModel {
    pub every_weeks: u32,
    pub weekday: Seq<char>,
    pub time: Seq<char>,
    pub anchor_date: Seq<char>,
    pub max_window_minutes: u64,
}

impl View for WakeSchedule {
    type V = WakeScheduleModel;

    open spec fn view(&self) -> WakeScheduleModel {
        WakeScheduleModel {
            every_weeks: self.every_weeks,
            weekday: self.weekday@,
            time: self.time@,
            anchor_date: self.anchor_date@,
            max_window_minutes: self.max_window_minutes,
        }
    }
}

impl Clone for WakeSchedule {
    fn clone(&self) -> (r: WakeSchedule)
        ensures
            r@ == self@,
    {
        WakeSchedule {
            every_weeks: self.every_weeks,
            weekday: self.weekday.clone(),
            time: self.time.clone(),
            anchor_date: self.anchor_date.clone(),
            max_window_minutes: self.max_window_minutes,
        }
    }
}

/// A set of disks that stay parked and spin up only on a schedule.
#[derive(Debug)]
pub struct StandbyPoolConfig {
    pub name: String,
    /// A task is held back when its source or destination lies at or under one of these.
    pub mount_roots: Vec<String>,
    /// Block devices to spin down when the window closes.
    pub devices: Vec<String>,
    pub enabled: bool,
    /// Spin the devices down at window close, instead of only holding tasks back.
    pub active_spindown: bool,
    pub wake: WakeSchedule,
}

/// The model of a `StandbyPoolConfig`.
pub struct StandbyPoolConfigModel {
    pub name: Seq<char>,
    pub mount_roots: Seq<Seq<char>>,
    pub devices: Seq<Seq<char>>,
    pub enabled: bool,
    pub active_spindown: bool,
    pub wake: WakeScheduleModel,
}

impl View for StandbyPoolConfig {
    type V = StandbyPoolConfigModel;

    open spec fn view(&self) -> StandbyPoolConfigModel {
        StandbyPoolConfigModel {
            name: self.name@,
            mount_roots: views(self.mount_roots@),
            devices: views(self.devices@),
            enabled: self.enabled,
            active_spindown: self.active_spindown,
            wake: self.wake@,
        }
    }
}

impl Clone for StandbyPoolConfig {
    fn clone(&self) -> (r: StandbyPoolConfig)
        ensures
            r@ == self@,
    {
        StandbyPoolConfig {
            name: self.name.clone(),
            mount_roots: clone_strings(&self.mount_roots),
            devices: clone_strings(&self.devices),
            enabled: self.enabled,
            active_spindown: self.active_spindown,
            wake: self.wake.clone(),
        }
    }
}

/// A host that files are collected from.
#[derive(Debug)]
pub struct CollectorHost {
    /// Label; the host name where blank.
    pub name: String,
    /// An alias of the ssh configuration, or a destination that ssh takes.
    pub ssh: String,
    /// Address, or an alias of the ssh configuration.
    pub hostname: String,
    pub user: String,
    /// Zero leaves the port to ssh.
    pub port: u16,
    pub identity_file: String,
    pub password: String,
    /// Local directory under which remote paths are reconstructed.
    pub root: String,
    /// Absolute remote paths to pull.
    pub paths: Vec<String>,
    /// Names or patterns that are not pulled.
    pub exclude: Vec<String>,
    /// What is run on a host that lacks the server for copies; blank where nothing is.
    pub install_cmd: String,
    pub deploy_script: String,
    pub deploy_script_path: String,
    pub enabled: bool,
}

/// The model of a `CollectorHost`.
pub struct CollectorHostModel {
    pub name: Seq<char>,
    pub ssh: Seq<char>,
    pub hostname: Seq<char>,
    pub user: Seq<char>,
    pub port: u16,
    pub identity_file: Seq<char>,
    pub password: Seq<char>,
    pub root: Seq<char>,
    pub paths: Seq<Seq<char>>,
    pub exclude: Seq<Seq<char>>,
    pub install_cmd: Seq<char>,
    pub deploy_script: Seq<char>,
    pub deploy_script_path: Seq<char>,
    pub enabled: bool,
}

impl View for CollectorHost {
    type V = CollectorHostModel;

    open spec fn view(&self) -> CollectorHostModel {
        CollectorHostModel {
            name: self.name@,
            ssh: self.ssh@,
            hostname: self.hostname@,
            user: self.user@,
            port: self.port,
            identity_file: self.identity_file@,
            password: self.password@,
            root: self.root@,
            paths: views(self.paths@),
            exclude: views(self.exclude@),
            install_cmd: self.install_cmd@,
            deploy_script: self.deploy_script@,
            deploy_script_path: self.deploy_script_path@,
            enabled: self.enabled,
        }
    }
}

impl Clone for CollectorHost {
    fn clone(&self) -> (r: CollectorHost)
        ensures
            r@ == self@,
    {
        CollectorHost {
            name: self.name.clone(),
            ssh: self.ssh.clone(),
            hostname: self.hostname.clone(),
            user: self.user.clone(),
            port: self.port,
            identity_file: self.identity_file.clone(),
            password: self.password.clone(),
            root: self.root.clone(),
            paths: clone_strings(&self.paths),
            exclude: clone_strings(&self.exclude),
            install_cmd: self.install_cmd.clone(),
            deploy_script: self.deploy_script.clone(),
            deploy_script_path: self.deploy_script_path.clone(),
            enabled: self.enabled,
        }
    }
}

/// What is collected, from where, and the repository that it is committed into.
#[derive(Debug)]
pub struct CollectorConfig {
    pub git_dir: String,
    pub ssh_config_path: String,
    pub ssh_config: String,
    /// Files of at least this many MiB are kept out of plain commits; zero disables that.
    pub split_threshold_mb: u64,
    pub auto_commit_push: bool,
    pub hosts: Vec<CollectorHost>,
}

/// The model of a `CollectorConfig`.
pub struct CollectorConfigModel {
    pub git_dir: Seq<char>,
    pub ssh_config_path: Seq<char>,
    pub ssh_config: Seq<char>,
    pub split_threshold_mb: u64,
    pub auto_commit_push: bool,
    pub hosts: Seq<CollectorHostModel>,
}

impl View for CollectorConfig {
    type V = CollectorConfigModel;

    open spec fn view(&self) -> CollectorConfigModel {
        CollectorConfigModel {
            git_dir: self.git_dir@,
            ssh_config_path: self.ssh_config_path@,
            ssh_config: self.ssh_config@,
            split_threshold_mb: self.split_threshold_mb,
            auto_commit_push: self.auto_commit_push,
            hosts: views(self.hosts@),
        }
    }
}

impl Clone for CollectorConfig {
    fn clone(&self) -> (r: CollectorConfig)
        ensures
            r@ == self@,
    {
        CollectorConfig {
            git_dir: self.git_dir.clone(),
            ssh_config_path: self.ssh_config_path.clone(),
            ssh_config: self.ssh_config.clone(),
            split_threshold_mb: self.split_threshold_mb,
            auto_commit_push: self.auto_commit_push,
            hosts: clone_collector_hosts(&self.hosts),
        }
    }
}

/// How snapshots of a source are taken.
#[derive(Debug)]
pub struct SnapshotConfig {
    pub backend: SnapshotBackend,
    pub dataset: Option<String>,
    pub path_in_dataset: Option<String>,
    pub prefix: String,
    pub reconcile_interval_secs: u64,
    pub keep_extra_cycles: usize,
}

/// The model of a `SnapshotConfig`.
pub struct SnapshotConfigModel {
    pub backend: SnapshotBackend,
    pub dataset: Option<Seq<char>>,
    pub path_in_dataset: Option<Seq<char>>,
    pub prefix: Seq<char>,
    pub reconcile_interval_secs: u64,
    pub keep_extra_cycles: usize,
}

impl View for SnapshotConfig {
    type V = SnapshotConfigModel;

    open spec fn view(&self) -> SnapshotConfigModel {
        SnapshotConfigModel {
            backend: self.backend,
            dataset: opt_view(self.dataset),
            path_in_dataset: opt_view(self.path_in_dataset),
            prefix: self.prefix@,
            reconcile_interval_secs: self.reconcile_interval_secs,
            keep_extra_cycles: self.keep_extra_cycles,
        }
    }
}

impl Clone for SnapshotConfig {
    fn clone(&self) -> (r: SnapshotConfig)
        ensures
            r@ == self@,
    {
        SnapshotConfig {
            backend: self.backend,
            dataset: clone_opt_string(&self.dataset),
            path_in_dataset: clone_opt_string(&self.path_in_dataset),
            prefix: self.prefix.clone(),
            reconcile_interval_secs: self.reconcile_interval_secs,
            keep_extra_cycles: self.keep_extra_cycles,
        }
    }
}

/// A place that a source is mirrored to.
#[derive(Debug)]
pub struct DestinationConfig {
    pub id: String,
    pub machine_id: String,
    pub path: String,
    pub enabled: bool,
    /// A paused destination keeps its pending work but receives none.
    pub paused: bool,
    pub schedule: ScheduleConfig,
    /// Settings that replace those of the application.
    pub sync: Option<NativeSyncConfig>,
}

/// The model of a `DestinationConfig`.
pub struct DestinationConfigModel {
    pub id: Seq<char>,
    pub machine_id: Seq<char>,
    pub path: Seq<char>,
    pub enabled: bool,
    pub paused: bool,
    pub schedule: ScheduleConfigModel,
    pub sync: Option<NativeSyncConfig>,
}

impl View for DestinationConfig {
    type V = DestinationConfigModel;

    open spec fn view(&self) -> DestinationConfigModel {
        DestinationConfigModel {
            id: self.id@,
            machine_id: self.machine_id@,
            path: self.path@,
            enabled: self.enabled,
            paused: self.paused,
            schedule: self.schedule@,
            sync: self.sync,
        }
    }
}

impl Clone for DestinationConfig {
    fn clone(&self) -> (r: DestinationConfig)
        ensures
            r@ == self@,
    {
        DestinationConfig {
            id: self.id.clone(),
            machine_id: self.machine_id.clone(),
            path: self.path.clone(),
            enabled: self.enabled,
            paused: self.paused,
            schedule: self.schedule.clone(),
            sync: self.sync,
        }
    }
}

/// A source tree and its destinations.
#[derive(Debug)]
pub struct SourceGroupConfig {
    pub id: String,
    pub machine_id: String,
    pub src: String,
    pub add_directory: bool,
    /// The machine that manages this source from afar; empty where none does.
    pub managed_by: String,
    pub excludes: Vec<String>,
    pub enabled: bool,
    /// Display order; cosmetic.
    pub order: i64,
    pub mode: SyncMode,
    pub snapshot: SnapshotConfig,
    pub destinations: Vec<DestinationConfig>,
}

/// The model of a `SourceGroupConfig`.
pub struct SourceGroupConfigModel {
    pub id: Seq<char>,
    pub machine_id: Seq<char>,
    pub src: Seq<char>,
    pub add_directory: bool,
    pub managed_by: Seq<char>,
    pub excludes: Seq<Seq<char>>,
    pub enabled: bool,
    pub order: i64,
    pub mode: SyncMode,
    pub snapshot: SnapshotConfigModel,
    pub destinations: Seq<DestinationConfigModel>,
}

impl View for SourceGroupConfig {
    type V = SourceGroupConfigModel;

    open spec fn view(&self) -> SourceGroupConfigModel {
        SourceGroupConfigModel {
            id: self.id@,
            machine_id: self.machine_id@,
            src: self.src@,
            add_directory: self.add_directory,
            managed_by: self.managed_by@,
            excludes: views(self.excludes@),
            enabled: self.enabled,
            order: self.order,
            mode: self.mode,
            snapshot: self.snapshot@,
            destinations: views(self.destinations@),
        }
    }
}

impl Clone for SourceGroupConfig {
    fn clone(&self) -> (r: SourceGroupConfig)
        ensures
            r@ == self@,
    {
        SourceGroupConfig {
            id: self.id.clone(),
            machine_id: self.machine_id.clone(),
            src: self.src.clone(),
            add_directory: self.add_directory,
            managed_by: self.managed_by.clone(),
            excludes: clone_strings(&self.excludes),
            enabled: self.enabled,
            order: self.order,
            mode: self.mode,
            snapshot: self.snapshot.clone(),
            destinations: clone_destination_configs(&self.destinations),
        }
    }
}

/// A machine that takes part.
#[derive(Debug)]
pub struct MachineConfig {
    pub id: String,
    pub alias_name: String,
    pub name: String,
    pub host: String,
    pub port: u16,
    pub ssh_user: String,
    pub ssh_port: u16,
    pub os: String,
    pub install_dir: String,
    pub enabled: bool,
    pub manual: bool,
}

/// The model of a `MachineConfig`.
pub struct MachineConfigModel {
    pub id: Seq<char>,
    pub alias_name: Seq<char>,
    pub name: Seq<char>,
    pub host: Seq<char>,
    pub port: u16,
    pub ssh_user: Seq<char>,
    pub ssh_port: u16,
    pub os: Seq<char>,
    pub install_dir: Seq<char>,
    pub enabled: bool,
    pub manual: bool,
}

impl View for MachineConfig {
    type V = MachineConfigModel;

    open spec fn view(&self) -> MachineConfigModel {
        MachineConfigModel {
            id: self.id@,
            alias_name: self.alias_name@,
            name: self.name@,
            host: self.host@,
            port: self.port,
            ssh_user: self.ssh_user@,
            ssh_port: self.ssh_port,
            os: self.os@,
            install_dir: self.install_dir@,
            enabled: self.enabled,
            manual: self.manual,
        }
    }
}

impl Clone for MachineConfig {
    fn clone(&self) -> (r: MachineConfig)
        ensures
            r@ == self@,
    {
        MachineConfig {
            id: self.id.clone(),
            alias_name: self.alias_name.clone(),
            name: self.name.clone(),
            host: self.host.clone(),
            port: self.port,
            ssh_user: self.ssh_user.clone(),
            ssh_port: self.ssh_port,
            os: self.os.clone(),
            install_dir: self.install_dir.clone(),
            enabled: self.enabled,
            manual: self.manual,
        }
    }
}

/// A machine in the form of older configurations.
#[derive(Debug)]
pub struct DeployTarget {
    pub id: String,
    pub host: String,
    pub port: u16,
    pub user: String,
    pub install_dir: String,
}

/// The model of a `DeployTarget`.
pub struct DeployTargetModel {
    pub id: Seq<char>,
    pub host: Seq<char>,
    pub port: u16,
    pub user: Seq<char>,
    pub install_dir: Seq<char>,
}

impl View for DeployTarget {
    type V = DeployTargetModel;

    open spec fn view(&self) -> DeployTargetModel {
        DeployTargetModel {
            id: self.id@,
            host: self.host@,
            port: self.port,
            user: self.user@,
            install_dir: self.install_dir@,
        }
    }
}

impl Clone for DeployTarget {
    fn clone(&self) -> (r: DeployTarget)
        ensures
            r@ == self@,
    {
        DeployTarget {
            id: self.id.clone(),
            host: self.host.clone(),
            port: self.port,
            user: self.user.clone(),
            install_dir: self.install_dir.clone(),
        }
    }
}

/// Machines in the form of older configurations.
#[derive(Debug)]
pub struct DeployConfig {
    pub targets: Vec<DeployTarget>,
}

/// The model of a `DeployConfig`.
pub struct DeployConfigModel {
    pub targets: Seq<DeployTargetModel>,
}

impl View for DeployConfig {
    type V = DeployConfigModel;

    open spec fn view(&self) -> DeployConfigModel {
        DeployConfigModel {
            targets: views(self.targets@),
        }
    }
}

impl Clone for DeployConfig {
    fn clone(&self) -> (r: DeployConfig)
        ensures
            r@ == self@,
    {
        DeployConfig {
            targets: clone_deploy_targets(&self.targets),
        }
    }
}

/// Settings of the application itself.
#[derive(Debug)]
pub struct AppSection {
    pub data_db: String,
    pub log_dir: String,
    pub status_log_interval_secs: u64,
    pub port: u16,
    pub tcp_connection_pool_size: usize,
    /// Shared secret of the peers; empty where they trust the network.
    pub peer_token: String,
    /// Prefix, with a trailing dot, of the address that faces the network; empty for the default.
    pub preferred_subnet: String,
    pub sync: NativeSyncConfig,
    pub autostart: bool,
    pub close_to_tray: bool,
}

/// The model of a `AppSection`.
pub struct AppSectionModel {
    pub data_db: Seq<char>,
    pub log_dir: Seq<char>,
    pub status_log_interval_secs: u64,
    pub port: u16,
    pub tcp_connection_pool_size: usize,
    pub peer_token: Seq<char>,
    pub preferred_subnet: Seq<char>,
    pub sync: NativeSyncConfig,
    pub autostart: bool,
    pub close_to_tray: bool,
}

impl View for AppSection {
    type V = AppSectionModel;

    open spec fn view(&self) -> AppSectionModel {
        AppSectionModel {
            data_db: self.data_db@,
            log_dir: self.log_dir@,
            status_log_interval_secs: self.status_log_interval_secs,
            port: self.port,
            tcp_connection_pool_size: self.tcp_connection_pool_size,
            peer_token: self.peer_token@,
            preferred_subnet: self.preferred_subnet@,
            sync: self.sync,
            autostart: self.autostart,
            close_to_tray: self.close_to_tray,
        }
    }
}

impl Clone for AppSection {
    fn clone(&self) -> (r: AppSection)
        ensures
            r@ == self@,
    {
        AppSection {
            data_db: self.data_db.clone(),
            log_dir: self.log_dir.clone(),
            status_log_interval_secs: self.status_log_interval_secs,
            port: self.port,
            tcp_connection_pool_size: self.tcp_connection_pool_size,
            peer_token: self.peer_token.clone(),
            preferred_subnet: self.preferred_subnet.clone(),
            sync: self.sync,
            autostart: self.autostart,
            close_to_tray: self.close_to_tray,
        }
    }
}

/// The whole configuration.
#[derive(Debug)]
pub struct AppConfig {
    pub app: AppSection,
    pub machines: Vec<MachineConfig>,
    pub source_groups: Vec<SourceGroupConfig>,
    pub standby_pools: Vec<StandbyPoolConfig>,
    pub deploy: DeployConfig,
}

/// The model of a `AppConfig`.
pub struct AppConfigModel {
    pub app: AppSectionModel,
    pub machines: Seq<MachineConfigModel>,
    pub source_groups: Seq<SourceGroupConfigModel>,
    pub standby_pools: Seq<StandbyPoolConfigModel>,
    pub deploy: DeployConfigModel,
}

impl View for AppConfig {
    type V = AppConfigModel;

    open spec fn view(&self) -> AppConfigModel {
        AppConfigModel {
            app: self.app@,
            machines: views(self.machines@),
            source_groups: views(self.source_groups@),
            standby_pools: views(self.standby_pools@),
            deploy: self.deploy@,
        }
    }
}

impl Clone for AppConfig {
    fn clone(&self) -> (r: AppConfig)
        ensures
            r@ == self@,
    {
        AppConfig {
            app: self.app.clone(),
            machines: clone_machine_configs(&self.machines),
            source_groups: clone_source_group_configs(&self.source_groups),
            standby_pools: clone_standby_pool_configs(&self.standby_pools),
            deploy: self.deploy.clone(),
        }
    }
}

/// What the configuration rules need to know of the machine that they run on.
#[derive(Debug)]
pub struct LocalEnv {
    /// The name of this host, or a placeholder where it is unknown.
    pub hostname: String,
    /// The address under which peers reach this host.
    pub host: String,
    /// The operating system, in lower case.
    pub os: String,
}

/// The model of a `LocalEnv`.
pub struct LocalEnvModel {
    pub hostname: Seq<char>,
    pub host: Seq<char>,
    pub os: Seq<char>,
}

impl View for LocalEnv {
    type V = LocalEnvModel;

    open spec fn view(&self) -> LocalEnvModel {
        LocalEnvModel {
            hostname: self.hostname@,
            host: self.host@,
            os: self.os@,
        }
    }
}

impl Clone for LocalEnv {
    fn clone(&self) -> (r: LocalEnv)
        ensures
            r@ == self@,
    {
        LocalEnv {
            hostname: self.hostname.clone(),
            host: self.host.clone(),
            os: self.os.clone(),
        }
    }
}

/// A copy of an optional value.
pub fn clone_opt_string(o: &Option<String>) -> (r: Option<String>)
    ensures
        opt_view(r) == opt_view(*o),
{
    match o {
        Some(v) => Some(v.clone()),
        None => None,
    }
}

/// A copy of a list.
pub fn clone_collector_hosts(v: &Vec<CollectorHost>) -> (r: Vec<CollectorHost>)
    ensures
        views(r@) == views(v@),
{
    let mut r: Vec<CollectorHost> = Vec::new();
    for i in 0..v.len()
        invariant
            r.len() == i,
            forall|j: int| 0 <= j < i ==> (#[trigger] r@[j])@ == v@[j]@,
    {
        let item = v[i].clone();
        r.push(item);
    }
    proof {
        assert(views(r@) =~= views(v@));
    }
    r
}

/// A copy of a list.
pub fn clone_deploy_targets(v: &Vec<DeployTarget>) -> (r: Vec<DeployTarget>)
    ensures
        views(r@) == views(v@),
{
    let mut r: Vec<DeployTarget> = Vec::new();
    for i in 0..v.len()
        invariant
            r.len() == i,
            forall|j: int| 0 <= j < i ==> (#[trigger] r@[j])@ == v@[j]@,
    {
        let item = v[i].clone();
        r.push(item);
    }
    proof {
        assert(views(r@) =~= views(v@));
    }
    r
}

/// A copy of a list.
pub fn clone_destination_configs(v: &Vec<DestinationConfig>) -> (r: Vec<DestinationConfig>)
    ensures
        views(r@) == views(v@),
{
    let mut r: Vec<DestinationConfig> = Vec::new();
    for i in 0..v.len()
        invariant
            r.len() == i,
            forall|j: int| 0 <= j < i ==> (#[trigger] r@[j])@ == v@[j]@,
    {
        let item = v[i].clone();
        r.push(item);
    }
    proof {
        assert(views(r@) =~= views(v@));
    }
    r
}

/// A copy of a list.
pub fn clone_machine_configs(v: &Vec<MachineConfig>) -> (r: Vec<MachineConfig>)
    ensures
        views(r@) == views(v@),
{
    let mut r: Vec<MachineConfig> = Vec::new();
    for i in 0..v.len()
        invariant
            r.len() == i,
            forall|j: int| 0 <= j < i ==> (#[trigger] r@[j])@ == v@[j]@,
    {
        let item = v[i].clone();
        r.push(item);
    }
    proof {
        assert(views(r@) =~= views(v@));
    }
    r
}

/// A copy of a list.
pub fn clone_source_group_configs(v: &Vec<SourceGroupConfig>) -> (r: Vec<SourceGroupConfig>)
    ensures
        views(r@) == views(v@),
{
    let mut r: Vec<SourceGroupConfig> = Vec::new();
    for i in 0..v.len()
        invariant
            r.len() == i,
            forall|j: int| 0 <= j < i ==> (#[trigger] r@[j])@ == v@[j]@,
    {
        let item = v[i].clone();
        r.push(item);
    }
    proof {
        assert(views(r@) =~= views(v@));
    }
    r
}

/// A copy of a list.
pub fn clone_standby_pool_configs(v: &Vec<StandbyPoolConfig>) -> (r: Vec<StandbyPoolConfig>)
    ensures
        views(r@) == views(v@),
{
    let mut r: Vec<StandbyPoolConfig> = Vec::new();
    for i in 0..v.len()
        invariant
            r.len() == i,
            forall|j: int| 0 <= j < i ==> (#[trigger] r@[j])@ == v@[j]@,
    {
        let item = v[i].clone();
        r.push(item);
    }
    proof {
        assert(views(r@) =~= views(v@));
    }
    r
}

/// A copy of a list.
pub fn clone_strings(v: &Vec<String>) -> (r: Vec<String>)
    ensures
        views(r@) == views(v@),
{
    let mut r: Vec<String> = Vec::new();
    for i in 0..v.len()
        invariant
            r.len() == i,
            forall|j: int| 0 <= j < i ==> (#[trigger] r@[j])@ == v@[j]@,
    {
        let item = v[i].clone();
        r.push(item);
    }
    proof {
        assert(views(r@) =~= views(v@));
    }
    r
}

/// The settings that are used unless others are given.
pub open spec fn default_sync() -> NativeSyncConfig {
    NativeSyncConfig {
        mirror: true,
        checksum: false,
        debug_logs: false,
        transfer_timeout_secs: DEFAULT_TRANSFER_TIMEOUT_SECS,
        bwlimit_kbps: 0,
        max_parallel_transfers: DEFAULT_MAX_PARALLEL_TRANSFERS,
        modify_window_secs: DEFAULT_MODIFY_WINDOW_SECS,
        zfs_diff: true,
        fsync: true,
        trash_keep_days: 30,
    }
}

impl Default for NativeSyncConfig {
    fn default() -> (r: NativeSyncConfig)
        ensures
            r == default_sync(),
    {
        NativeSyncConfig {
            mirror: true,
            checksum: false,
            debug_logs: false,
            transfer_timeout_secs: DEFAULT_TRANSFER_TIMEOUT_SECS,
            bwlimit_kbps: 0,
            max_parallel_transfers: DEFAULT_MAX_PARALLEL_TRANSFERS,
            modify_window_secs: DEFAULT_MODIFY_WINDOW_SECS,
            zfs_diff: true,
            fsync: true,
            trash_keep_days: 30,
        }
    }
}

impl Default for ScheduleMode {
    fn default() -> (r: ScheduleMode)
        ensures
            r == ScheduleMode::Realtime,
    {
        ScheduleMode::Realtime
    }
}

impl Default for SnapshotBackend {
    fn default() -> (r: SnapshotBackend)
        ensures
            r == SnapshotBackend::Auto,
    {
        SnapshotBackend::Auto
    }
}

impl Default for SyncMode {
    fn default() -> (r: SyncMode)
        ensures
            r == SyncMode::Mirror,
    {
        SyncMode::Mirror
    }
}

impl Default for ScheduleConfig {
    fn default() -> (r: ScheduleConfig)
        ensures
            r@ == (ScheduleConfigModel {
                mode: ScheduleMode::Realtime,
                time: "19:00"@,
                timezone: "local"@,
                weekday: Some("monday"@),
                sync_current_cycle_manually: false,
            }),
    {
        ScheduleConfig {
            mode: ScheduleMode::Realtime,
            time: "19:00".to_string(),
            timezone: "local".to_string(),
            weekday: Some("monday".to_string()),
            sync_current_cycle_manually: false,
        }
    }
}

impl Default for WakeSchedule {
    fn default() -> (r: WakeSchedule)
        ensures
            r@ == (WakeScheduleModel {
                every_weeks: 1,
                weekday: "saturday"@,
                time: "10:00"@,
                anchor_date: "2026-01-03"@,
                max_window_minutes: 720,
            }),
    {
        WakeSchedule {
            every_weeks: 1,
            weekday: "saturday".to_string(),
            time: "10:00".to_string(),
            anchor_date: "2026-01-03".to_string(),
            max_window_minutes: 720,
        }
    }
}

impl Default for StandbyPoolConfig {
    fn default() -> (r: StandbyPoolConfig)
        ensures
            r@.name == Seq::<char>::empty(),
            r@.mount_roots == Seq::<Seq<char>>::empty(),
            r@.devices == Seq::<Seq<char>>::empty(),
            r@.enabled && !r@.active_spindown,
            r@.wake.every_weeks == 1 && r@.wake.max_window_minutes == 720,
            r@.wake.weekday == "saturday"@ && r@.wake.time == "10:00"@,
            r@.wake.anchor_date == "2026-01-03"@,
    {
        StandbyPoolConfig {
            name: String::new(),
            mount_roots: Vec::new(),
            devices: Vec::new(),
            enabled: true,
            active_spindown: false,
            wake: WakeSchedule::default(),
        }
    }
}

impl Default for SnapshotConfig {
    fn default() -> (r: SnapshotConfig)
        ensures
            r@ == (SnapshotConfigModel {
                backend: SnapshotBackend::Auto,
                dataset: None,
                path_in_dataset: None,
                prefix: "auto_sync"@,
                reconcile_interval_secs: 900,
                keep_extra_cycles: 2,
            }),
    {
        SnapshotConfig {
            backend: SnapshotBackend::Auto,
            dataset: None,
            path_in_dataset: None,
            prefix: "auto_sync".to_string(),
            reconcile_interval_secs: 900,
            keep_extra_cycles: 2,
        }
    }
}

impl Default for DestinationConfig {
    fn default() -> (r: DestinationConfig)
        ensures
            r@.id == Seq::<char>::empty(),
            r@.machine_id == "local"@,
            r@.path == Seq::<char>::empty(),
            r@.enabled && !r@.paused,
            r@.schedule.mode == ScheduleMode::Realtime && r@.schedule.time == "19:00"@,
            r@.schedule.timezone == "local"@ && r@.schedule.weekday == Some("monday"@),
            !r@.schedule.sync_current_cycle_manually,
            r@.sync is None,
    {
        DestinationConfig {
            id: String::new(),
            machine_id: "local".to_string(),
            path: String::new(),
            enabled: true,
            paused: false,
            schedule: ScheduleConfig::default(),
            sync: None,
        }
    }
}

impl Default for SourceGroupConfig {
    fn default() -> (r: SourceGroupConfig)
        ensures
            r@.id == Seq::<char>::empty(),
            r@.machine_id == "local"@,
            r@.src == Seq::<char>::empty(),
            r@.add_directory && r@.enabled && r@.order == 0 && r@.mode == SyncMode::Mirror,
            r@.managed_by == Seq::<char>::empty(),
            r@.excludes == Seq::<Seq<char>>::empty(),
            r@.snapshot.backend == SnapshotBackend::Auto && r@.snapshot.prefix == "auto_sync"@,
            r@.snapshot.dataset is None && r@.snapshot.path_in_dataset is None,
            r@.snapshot.reconcile_interval_secs == 900 && r@.snapshot.keep_extra_cycles == 2,
            r@.destinations == Seq::<DestinationConfigModel>::empty(),
    {
        SourceGroupConfig {
            id: String::new(),
            machine_id: "local".to_string(),
            src: String::new(),
            add_directory: true,
            managed_by: String::new(),
            excludes: Vec::new(),
            enabled: true,
            order: 0,
            mode: SyncMode::Mirror,
            snapshot: SnapshotConfig::default(),
            destinations: Vec::new(),
        }
    }
}

impl Default for DeployTarget {
    fn default() -> (r: DeployTarget)
        ensures
            r@ == (DeployTargetModel {
                id: Seq::empty(),
                host: Seq::empty(),
                port: 22,
                user: "root"@,
                install_dir: "/opt/auto_sync"@,
            }),
    {
        let r = DeployTarget {
            id: String::new(),
            host: String::new(),
            port: 22,
            user: "root".to_string(),
            install_dir: "/opt/auto_sync".to_string(),
        };
        proof {
            assert(r.id@ =~= Seq::<char>::empty());
            assert(r.host@ =~= Seq::<char>::empty());
        }
        r
    }
}

impl Default for CollectorHost {
    fn default() -> (r: CollectorHost)
        ensures
            r@.ssh.len() == 0 && r@.install_cmd.len() == 0,
            r@.name.len() == 0 && r@.hostname.len() == 0 && r@.user.len() == 0 && r@.port == 0,
            r@.identity_file.len() == 0 && r@.password.len() == 0 && r@.root.len() == 0,
            r@.paths.len() == 0 && r@.exclude.len() == 0,
            r@.deploy_script.len() == 0 && r@.deploy_script_path.len() == 0,
            r@.enabled,
    {
        CollectorHost {
            name: String::new(),
            ssh: String::new(),
            hostname: String::new(),
            user: String::new(),
            port: 0,
            identity_file: String::new(),
            password: String::new(),
            root: String::new(),
            paths: Vec::new(),
            exclude: Vec::new(),
            install_cmd: String::new(),
            deploy_script: String::new(),
            deploy_script_path: String::new(),
            enabled: true,
        }
    }
}

impl Default for CollectorConfig {
    fn default() -> (r: CollectorConfig)
        ensures
            r@.git_dir == Seq::<char>::empty(),
            r@.ssh_config_path == Seq::<char>::empty(),
            r@.ssh_config == Seq::<char>::empty(),
            r@.split_threshold_mb == 95,
            r@.auto_commit_push,
            r@.hosts == Seq::<CollectorHostModel>::empty(),
    {
        CollectorConfig {
            git_dir: String::new(),
            ssh_config_path: String::new(),
            ssh_config: String::new(),
            split_threshold_mb: 95,
            auto_commit_push: true,
            hosts: Vec::new(),
        }
    }
}

impl CollectorConfig {
    /// Whether nothing has been configured.
    pub fn is_empty(&self) -> (r: bool)
        ensures
            r == (self@.git_dir.len() == 0 && self@.ssh_config_path.len() == 0 && trimmed(
                self@.ssh_config,
            ).len() == 0 && self@.hosts.len() == 0),
    {
        is_blank(self.git_dir.as_str()) && is_blank(self.ssh_config_path.as_str()) && is_blank(
            trim(self.ssh_config.as_str()).as_str(),
        ) && self.hosts.len() == 0
    }
}

/// The port that machines listen on unless they are told otherwise.
pub fn default_machine_port() -> (r: u16)
    ensures
        r == DEFAULT_PORT,
{
    DEFAULT_PORT
}

/// Where the program is installed unless told otherwise.
pub open spec fn default_install_dir(os: Seq<char>) -> Seq<char> {
    if same_ignoring_case(os, "windows"@) {
        "C:/auto_sync"@
    } else {
        "/opt/auto_sync"@
    }
}

/// Where the program is installed unless told otherwise.
pub fn default_install_dir_for_os(os: &str) -> (r: String)
    ensures
        r@ == default_install_dir(os@),
{
    if eq_ignore_ascii_case(os, "windows") {
        "C:/auto_sync".to_string()
    } else {
        "/opt/auto_sync".to_string()
    }
}

/// The entry of the machine that the rules run on, before anything was configured.
pub open spec fn local_machine(env: LocalEnvModel) -> MachineConfigModel {
    MachineConfigModel {
        id: "local"@,
        alias_name: Seq::empty(),
        name: env.hostname,
        host: env.host,
        port: DEFAULT_PORT,
        ssh_user: Seq::empty(),
        ssh_port: 22,
        os: env.os,
        install_dir: default_install_dir(env.os),
        enabled: true,
        manual: true,
    }
}

impl MachineConfig {
    /// The entry of the machine that the rules run on, before anything was configured.
    pub fn local(env: &LocalEnv) -> (r: MachineConfig)
        ensures
            r@ == local_machine(env@),
    {
        let r = MachineConfig {
            id: "local".to_string(),
            alias_name: String::new(),
            name: env.hostname.clone(),
            host: env.host.clone(),
            port: default_machine_port(),
            ssh_user: String::new(),
            ssh_port: 22,
            os: env.os.clone(),
            install_dir: default_install_dir_for_os(env.os.as_str()),
            enabled: true,
            manual: true,
        };
        proof {
            assert(r.alias_name@ =~= Seq::<char>::empty());
            assert(r.ssh_user@ =~= Seq::<char>::empty());
        }
        r
    }
}

/// The settings that are used unless others are given.
pub open spec fn standard_section() -> AppSectionModel {
    AppSectionModel {
        data_db: "conf/state/auto_sync.sqlite"@,
        log_dir: "logs"@,
        status_log_interval_secs: 300,
        port: DEFAULT_PORT,
        tcp_connection_pool_size: DEFAULT_TCP_CONNECTION_POOL_SIZE,
        peer_token: Seq::empty(),
        preferred_subnet: Seq::empty(),
        sync: default_sync(),
        autostart: true,
        close_to_tray: true,
    }
}

/// The configuration of a machine that has none yet: itself, and nothing to do.
pub open spec fn initial_config(env: LocalEnvModel) -> AppConfigModel {
    AppConfigModel {
        app: standard_section(),
        machines: seq![local_machine(env)],
        source_groups: Seq::empty(),
        standby_pools: Seq::empty(),
        deploy: DeployConfigModel { targets: Seq::empty() },
    }
}

impl AppSection {
    /// The settings that are used unless others are given.
    pub fn standard() -> (r: AppSection)
        ensures
            r@ == standard_section(),
    {
        let r = AppSection {
            data_db: "conf/state/auto_sync.sqlite".to_string(),
            log_dir: "logs".to_string(),
            status_log_interval_secs: 300,
            port: DEFAULT_PORT,
            tcp_connection_pool_size: DEFAULT_TCP_CONNECTION_POOL_SIZE,
            peer_token: String::new(),
            preferred_subnet: String::new(),
            sync: NativeSyncConfig::default(),
            autostart: true,
            close_to_tray: true,
        };
        proof {
            assert(r.peer_token@ =~= Seq::<char>::empty());
            assert(r.preferred_subnet@ =~= Seq::<char>::empty());
        }
        r
    }
}

impl AppConfig {
    /// The configuration of a machine that has none yet: itself, and nothing to do.
    pub fn initial(env: &LocalEnv) -> (r: AppConfig)
        ensures
            r@ == initial_config(env@),
    {
        let mut machines: Vec<MachineConfig> = Vec::new();
        machines.push(MachineConfig::local(env));
        proof {
            assert(views(machines@) =~= seq![local_machine(env@)]);
        }
        let r = AppConfig {
            app: AppSection::standard(),
            machines,
            source_groups: Vec::new(),
            standby_pools: Vec::new(),
            deploy: DeployConfig { targets: Vec::new() },
        };
        proof {
            assert(views(r.source_groups@) =~= Seq::<SourceGroupConfigModel>::empty());
            assert(views(r.standby_pools@) =~= Seq::<StandbyPoolConfigModel>::empty());
            assert(views(r.deploy.targets@) =~= Seq::<DeployTargetModel>::empty());
        }
        r
    }
}

} // verus!
