//! What the backend is asked and what it answers.

use crate::config::types::{
    MachineConfig, MachineConfigModel, SourceGroupConfig, SourceGroupConfigModel,
};
use crate::config::validate::{ConfigError, ConfigErrorModel};
use crate::progress::{
    ScanProgressView, ScanProgressViewModel, TransferProgressView, TransferProgressViewModel,
};
use crate::text::{opt_view, views};
use vstd::prelude::*;

verus! {

/// What a controlling machine asks another to synchronise.
#[derive(Debug)]
pub struct DelegatedSourceGroupsRequest {
    pub controller_id: String,
    pub machines: Vec<MachineConfig>,
    pub source_groups: Vec<SourceGroupConfig>,
}

/// The model of a `DelegatedSourceGroupsRequest`.
pub struct DelegatedSourceGroupsRequestModel {
    pub controller_id: Seq<char>,
    pub machines: Seq<MachineConfigModel>,
    pub source_groups: Seq<SourceGroupConfigModel>,
}

impl View for DelegatedSourceGroupsRequest {
    type V = DelegatedSourceGroupsRequestModel;

    open spec fn view(&self) -> DelegatedSourceGroupsRequestModel {
        DelegatedSourceGroupsRequestModel {
            controller_id: self.controller_id@,
            machines: views(self.machines@),
            source_groups: views(self.source_groups@),
        }
    }
}

/// Which build is running.
#[derive(Debug)]
pub struct BuildInfo {
    pub commit: String,
    pub commit_time_beijing: String,
}

/// The model of a `BuildInfo`.
pub struct BuildInfoModel {
    pub commit: Seq<char>,
    pub commit_time_beijing: Seq<char>,
}

impl View for BuildInfo {
    type V = BuildInfoModel;

    open spec fn view(&self) -> BuildInfoModel {
        BuildInfoModel {
            commit: self.commit@,
            commit_time_beijing: self.commit_time_beijing@,
        }
    }
}

/// What the daemon is doing.
#[derive(Debug)]
pub struct RuntimeStatus {
    pub syncing: bool,
    pub transfer: Option<TransferProgressView>,
    pub scan: Option<ScanProgressView>,
    pub build: BuildInfo,
}

/// The model of a `RuntimeStatus`.
pub struct RuntimeStatusModel {
    pub syncing: bool,
    pub transfer: Option<TransferProgressViewModel>,
    pub scan: Option<ScanProgressViewModel>,
    pub build: BuildInfoModel,
}

impl View for RuntimeStatus {
    type V = RuntimeStatusModel;

    open spec fn view(&self) -> RuntimeStatusModel {
        RuntimeStatusModel {
            syncing: self.syncing,
            transfer: opt_view(self.transfer),
            scan: opt_view(self.scan),
            build: self.build@,
        }
    }
}

/// An entry of a directory.
#[derive(Debug)]
pub struct BrowseEntry {
    pub name: String,
    pub path: String,
    /// `dir` or `file`.
    pub kind: String,
}

/// The model of a `BrowseEntry`.
pub struct BrowseEntryModel {
    pub name: Seq<char>,
    pub path: Seq<char>,
    pub kind: Seq<char>,
}

impl View for BrowseEntry {
    type V = BrowseEntryModel;

    open spec fn view(&self) -> BrowseEntryModel {
        BrowseEntryModel {
            name: self.name@,
            path: self.path@,
            kind: self.kind@,
        }
    }
}

/// The entries of a directory.
#[derive(Debug)]
pub struct BrowseResponse {
    pub path: String,
    pub parent: Option<String>,
    pub entries: Vec<BrowseEntry>,
}

/// The model of a `BrowseResponse`.
pub struct BrowseResponseModel {
    pub path: Seq<char>,
    pub parent: Option<Seq<char>>,
    pub entries: Seq<BrowseEntryModel>,
}

impl View for BrowseResponse {
    type V = BrowseResponseModel;

    open spec fn view(&self) -> BrowseResponseModel {
        BrowseResponseModel {
            path: self.path@,
            parent: opt_view(self.parent),
            entries: views(self.entries@),
        }
    }
}

/// How much a destination is to be synchronised.
#[derive(Debug, Clone, Copy, PartialEq, Eq, Structural)]
pub enum SyncRequestMode {
    Incremental,
    Full,
    ChangedSince,
}

/// The word for a mode in a request.
pub open spec fn mode_word(mode: SyncRequestMode) -> Seq<char> {
    match mode {
        SyncRequestMode::Incremental => "incremental"@,
        SyncRequestMode::Full => "full"@,
        SyncRequestMode::ChangedSince => "changed_since"@,
    }
}

/// The word for a mode in a request.
pub fn sync_request_mode_wire_value(mode: SyncRequestMode) -> (r: String)
    ensures
        r@ == mode_word(mode),
{
    match mode {
        SyncRequestMode::Incremental => "incremental".to_string(),
        SyncRequestMode::Full => "full".to_string(),
        SyncRequestMode::ChangedSince => "changed_since".to_string(),
    }
}

/// What was recorded of the build, or that it is not known.
pub open spec fn known_or(value: Option<Seq<char>>) -> Seq<char> {
    match value {
        Some(v) => v,
        None => "unknown"@,
    }
}

impl BuildInfo {
    /// Which build is running, from what was recorded when it was built.
    pub fn current(commit: Option<String>, time: Option<String>) -> (r: BuildInfo)
        ensures
            r@.commit == known_or(opt_view(commit)),
            r@.commit_time_beijing == known_or(opt_view(time)),
    {
        BuildInfo {
            commit: match commit {
                Some(v) => v,
                None => "unknown".to_string(),
            },
            commit_time_beijing: match time {
                Some(v) => v,
                None => "unknown".to_string(),
            },
        }
    }
}

/// Why the backend refuses a request.
#[derive(Debug)]
pub enum BackendError {
    /// The configuration breaks a rule.
    Config(ConfigError),
    /// This machine cannot be deleted.
    LocalMachine,
    /// The path of a source cannot be changed once it has a destination.
    SourceLocked(String),
    /// The machine of a source is not known.
    UnknownSourceMachine(String),
    /// A machine is not known.
    UnknownMachine(String),
    /// This machine is synchronising.
    Busy,
    /// A machine is synchronising.
    RemoteBusy(String),
    /// A machine did not say whether it is synchronising.
    NoStatus(String),
    /// A machine did not take a request.
    NotTaken(String),
    /// A path is neither a directory nor a file.
    NotBrowsable(String),
    /// A path cannot be opened.
    NotOpened(String),
    /// A file is in no directory.
    NoParent(String),
}

/// The model of a `BackendError`.
pub enum BackendErrorModel {
    Config(ConfigErrorModel),
    LocalMachine,
    SourceLocked(Seq<char>),
    UnknownSourceMachine(Seq<char>),
    UnknownMachine(Seq<char>),
    Busy,
    RemoteBusy(Seq<char>),
    NoStatus(Seq<char>),
    NotTaken(Seq<char>),
    NotBrowsable(Seq<char>),
    NotOpened(Seq<char>),
    NoParent(Seq<char>),
}

impl View for BackendError {
    type V = BackendErrorModel;

    open spec fn view(&self) -> BackendErrorModel {
        match self {
            BackendError::Config(e) => BackendErrorModel::Config(e@),
            BackendError::LocalMachine => BackendErrorModel::LocalMachine,
            BackendError::SourceLocked(s) => BackendErrorModel::SourceLocked(s@),
            BackendError::UnknownSourceMachine(s) => BackendErrorModel::UnknownSourceMachine(s@),
            BackendError::UnknownMachine(s) => BackendErrorModel::UnknownMachine(s@),
            BackendError::Busy => BackendErrorModel::Busy,
            BackendError::RemoteBusy(s) => BackendErrorModel::RemoteBusy(s@),
            BackendError::NoStatus(s) => BackendErrorModel::NoStatus(s@),
            BackendError::NotTaken(s) => BackendErrorModel::NotTaken(s@),
            BackendError::NotBrowsable(s) => BackendErrorModel::NotBrowsable(s@),
            BackendError::NotOpened(s) => BackendErrorModel::NotOpened(s@),
            BackendError::NoParent(s) => BackendErrorModel::NoParent(s@),
        }
    }
}

/// The text of an error.
pub open spec fn error_text(e: BackendErrorModel) -> Seq<char> {
    match e {
        BackendErrorModel::Config(c) => c.message,
        BackendErrorModel::LocalMachine => "local machine cannot be deleted"@,
        BackendErrorModel::SourceLocked(s) =>
            "source path is locked after adding a destination: "@ + s,
        BackendErrorModel::UnknownSourceMachine(s) => "unknown source machine: "@ + s,
        BackendErrorModel::UnknownMachine(s) => "unknown machine: "@ + s,
        BackendErrorModel::Busy => "sync already in progress"@,
        BackendErrorModel::RemoteBusy(s) => "sync already in progress on "@ + s,
        BackendErrorModel::NoStatus(s) => "failed to query sync status from "@ + s,
        BackendErrorModel::NotTaken(s) => "failed to push source groups to "@ + s,
        BackendErrorModel::NotBrowsable(s) => "not a browsable path: "@ + s,
        BackendErrorModel::NotOpened(s) => "failed to open path "@ + s,
        BackendErrorModel::NoParent(s) => "path has no parent: "@ + s,
    }
}

/// Two texts, one behind the other.
fn joined(a: &str, b: &str) -> (r: String)
    ensures
        r@ == a@ + b@,
{
    let mut r = a.to_string();
    r.append(b);
    r
}

impl BackendError {
    /// The text of the error.
    pub fn message(&self) -> (r: String)
        ensures
            r@ == error_text(self@),
    {
        match self {
            BackendError::Config(e) => e.message.clone(),
            BackendError::LocalMachine => "local machine cannot be deleted".to_string(),
            BackendError::SourceLocked(s) => joined(
                "source path is locked after adding a destination: ",
                s.as_str(),
            ),
            BackendError::UnknownSourceMachine(s) => joined(
                "unknown source machine: ",
                s.as_str(),
            ),
            BackendError::UnknownMachine(s) => joined("unknown machine: ", s.as_str()),
            BackendError::Busy => "sync already in progress".to_string(),
            BackendError::RemoteBusy(s) => joined("sync already in progress on ", s.as_str()),
            BackendError::NoStatus(s) => joined("failed to query sync status from ", s.as_str()),
            BackendError::NotTaken(s) => joined("failed to push source groups to ", s.as_str()),
            BackendError::NotBrowsable(s) => joined("not a browsable path: ", s.as_str()),
            BackendError::NotOpened(s) => joined("failed to open path ", s.as_str()),
            BackendError::NoParent(s) => joined("path has no parent: ", s.as_str()),
        }
    }
}

} // verus!
