//! The rows that the state of synchronisation is made of.

use crate::clock::Moment;
use crate::config::types::clone_opt_string;
use crate::text::{opt_view, views};
use vstd::prelude::*;

verus! {

/// A span of time of a source: its events are synchronised together.
#[derive(Debug)]
pub struct Cycle {
    pub id: i64,
    pub source_id: String,
    pub starts_at: Moment,
    pub ends_at: Option<Moment>,
    /// `open` until the cycle is closed.
    pub status: String,
    pub needs_full_rescan: bool,
    pub manual_full_rescan: bool,
    pub manual_changed_since_rescan: bool,
}

/// The model of a `Cycle`.
pub struct CycleModel {
    pub id: i64,
    pub source_id: Seq<char>,
    pub starts_at: Moment,
    pub ends_at: Option<Moment>,
    pub status: Seq<char>,
    pub needs_full_rescan: bool,
    pub manual_full_rescan: bool,
    pub manual_changed_since_rescan: bool,
}

impl View for Cycle {
    type V = CycleModel;

    open spec fn view(&self) -> CycleModel {
        CycleModel {
            id: self.id,
            source_id: self.source_id@,
            starts_at: self.starts_at,
            ends_at: self.ends_at,
            status: self.status@,
            needs_full_rescan: self.needs_full_rescan,
            manual_full_rescan: self.manual_full_rescan,
            manual_changed_since_rescan: self.manual_changed_since_rescan,
        }
    }
}

impl Clone for Cycle {
    fn clone(&self) -> (r: Cycle)
        ensures
            r@ == self@,
    {
        Cycle {
            id: self.id,
            source_id: self.source_id.clone(),
            starts_at: self.starts_at,
            ends_at: self.ends_at,
            status: self.status.clone(),
            needs_full_rescan: self.needs_full_rescan,
            manual_full_rescan: self.manual_full_rescan,
            manual_changed_since_rescan: self.manual_changed_since_rescan,
        }
    }
}

/// An event that a watcher recorded.
#[derive(Debug)]
pub struct EventRow {
    pub event_id: i64,
    pub source_id: String,
    pub cycle_id: i64,
    pub observed_at: Moment,
    pub raw_mask: u64,
    pub event_kind: String,
    pub rel_path: Option<String>,
    pub rescan_required: bool,
}

/// The model of a `EventRow`.
pub struct EventRowModel {
    pub event_id: i64,
    pub source_id: Seq<char>,
    pub cycle_id: i64,
    pub observed_at: Moment,
    pub raw_mask: u64,
    pub event_kind: Seq<char>,
    pub rel_path: Option<Seq<char>>,
    pub rescan_required: bool,
}

impl View for EventRow {
    type V = EventRowModel;

    open spec fn view(&self) -> EventRowModel {
        EventRowModel {
            event_id: self.event_id,
            source_id: self.source_id@,
            cycle_id: self.cycle_id,
            observed_at: self.observed_at,
            raw_mask: self.raw_mask,
            event_kind: self.event_kind@,
            rel_path: opt_view(self.rel_path),
            rescan_required: self.rescan_required,
        }
    }
}

impl Clone for EventRow {
    fn clone(&self) -> (r: EventRow)
        ensures
            r@ == self@,
    {
        EventRow {
            event_id: self.event_id,
            source_id: self.source_id.clone(),
            cycle_id: self.cycle_id,
            observed_at: self.observed_at,
            raw_mask: self.raw_mask,
            event_kind: self.event_kind.clone(),
            rel_path: clone_opt_string(&self.rel_path),
            rescan_required: self.rescan_required,
        }
    }
}

/// An event of a cycle.
#[derive(Debug)]
pub struct CycleEvent {
    pub event_id: i64,
    pub event_kind: String,
    pub rel_path: Option<String>,
    pub rescan_required: bool,
}

/// The model of a `CycleEvent`.
pub struct CycleEventModel {
    pub event_id: i64,
    pub event_kind: Seq<char>,
    pub rel_path: Option<Seq<char>>,
    pub rescan_required: bool,
}

impl View for CycleEvent {
    type V = CycleEventModel;

    open spec fn view(&self) -> CycleEventModel {
        CycleEventModel {
            event_id: self.event_id,
            event_kind: self.event_kind@,
            rel_path: opt_view(self.rel_path),
            rescan_required: self.rescan_required,
        }
    }
}

impl Clone for CycleEvent {
    fn clone(&self) -> (r: CycleEvent)
        ensures
            r@ == self@,
    {
        CycleEvent {
            event_id: self.event_id,
            event_kind: self.event_kind.clone(),
            rel_path: clone_opt_string(&self.rel_path),
            rescan_required: self.rescan_required,
        }
    }
}

/// An event that is to be recorded.
#[derive(Debug)]
pub struct WatcherEvent {
    pub source_id: String,
    pub raw_mask: u64,
    pub event_kind: String,
    pub rel_path: Option<String>,
    pub rescan_required: bool,
}

/// The model of a `WatcherEvent`.
pub struct WatcherEventModel {
    pub source_id: Seq<char>,
    pub raw_mask: u64,
    pub event_kind: Seq<char>,
    pub rel_path: Option<Seq<char>>,
    pub rescan_required: bool,
}

impl View for WatcherEvent {
    type V = WatcherEventModel;

    open spec fn view(&self) -> WatcherEventModel {
        WatcherEventModel {
            source_id: self.source_id@,
            raw_mask: self.raw_mask,
            event_kind: self.event_kind@,
            rel_path: opt_view(self.rel_path),
            rescan_required: self.rescan_required,
        }
    }
}

impl Clone for WatcherEvent {
    fn clone(&self) -> (r: WatcherEvent)
        ensures
            r@ == self@,
    {
        WatcherEvent {
            source_id: self.source_id.clone(),
            raw_mask: self.raw_mask,
            event_kind: self.event_kind.clone(),
            rel_path: clone_opt_string(&self.rel_path),
            rescan_required: self.rescan_required,
        }
    }
}

/// How far a destination has come.
#[derive(Debug)]
pub struct OffsetRow {
    pub source_id: String,
    pub destination_id: String,
    /// The cycle that the destination is to reach.
    pub target_cycle_id: Option<i64>,
    pub last_completed_cycle_id: Option<i64>,
    /// The last cycle that the destination was verified to have reached.
    pub last_verified_cycle_id: Option<i64>,
    pub status: String,
    pub status_reason: String,
    pub updated_at: String,
    pub verified_snapshot: Option<String>,
    pub verified_dst_snapshot: Option<String>,
}

/// The model of a `OffsetRow`.
pub struct OffsetRowModel {
    pub source_id: Seq<char>,
    pub destination_id: Seq<char>,
    pub target_cycle_id: Option<i64>,
    pub last_completed_cycle_id: Option<i64>,
    pub last_verified_cycle_id: Option<i64>,
    pub status: Seq<char>,
    pub status_reason: Seq<char>,
    pub updated_at: Seq<char>,
    pub verified_snapshot: Option<Seq<char>>,
    pub verified_dst_snapshot: Option<Seq<char>>,
}

impl View for OffsetRow {
    type V = OffsetRowModel;

    open spec fn view(&self) -> OffsetRowModel {
        OffsetRowModel {
            source_id: self.source_id@,
            destination_id: self.destination_id@,
            target_cycle_id: self.target_cycle_id,
            last_completed_cycle_id: self.last_completed_cycle_id,
            last_verified_cycle_id: self.last_verified_cycle_id,
            status: self.status@,
            status_reason: self.status_reason@,
            updated_at: self.updated_at@,
            verified_snapshot: opt_view(self.verified_snapshot),
            verified_dst_snapshot: opt_view(self.verified_dst_snapshot),
        }
    }
}

impl Clone for OffsetRow {
    fn clone(&self) -> (r: OffsetRow)
        ensures
            r@ == self@,
    {
        OffsetRow {
            source_id: self.source_id.clone(),
            destination_id: self.destination_id.clone(),
            target_cycle_id: self.target_cycle_id,
            last_completed_cycle_id: self.last_completed_cycle_id,
            last_verified_cycle_id: self.last_verified_cycle_id,
            status: self.status.clone(),
            status_reason: self.status_reason.clone(),
            updated_at: self.updated_at.clone(),
            verified_snapshot: clone_opt_string(&self.verified_snapshot),
            verified_dst_snapshot: clone_opt_string(&self.verified_dst_snapshot),
        }
    }
}

/// How far a destination has come, as it is read.
#[derive(Debug)]
pub struct DestinationOffset {
    pub target_cycle_id: Option<i64>,
    pub last_completed_cycle_id: Option<i64>,
    pub last_verified_cycle_id: Option<i64>,
    pub status: String,
    pub status_reason: String,
    pub updated_at: String,
}

/// The model of a `DestinationOffset`.
pub struct DestinationOffsetModel {
    pub target_cycle_id: Option<i64>,
    pub last_completed_cycle_id: Option<i64>,
    pub last_verified_cycle_id: Option<i64>,
    pub status: Seq<char>,
    pub status_reason: Seq<char>,
    pub updated_at: Seq<char>,
}

impl View for DestinationOffset {
    type V = DestinationOffsetModel;

    open spec fn view(&self) -> DestinationOffsetModel {
        DestinationOffsetModel {
            target_cycle_id: self.target_cycle_id,
            last_completed_cycle_id: self.last_completed_cycle_id,
            last_verified_cycle_id: self.last_verified_cycle_id,
            status: self.status@,
            status_reason: self.status_reason@,
            updated_at: self.updated_at@,
        }
    }
}

impl Clone for DestinationOffset {
    fn clone(&self) -> (r: DestinationOffset)
        ensures
            r@ == self@,
    {
        DestinationOffset {
            target_cycle_id: self.target_cycle_id,
            last_completed_cycle_id: self.last_completed_cycle_id,
            last_verified_cycle_id: self.last_verified_cycle_id,
            status: self.status.clone(),
            status_reason: self.status_reason.clone(),
            updated_at: self.updated_at.clone(),
        }
    }
}

/// A path of a destination that has a problem.
#[derive(Debug)]
pub struct IssueRow {
    pub source_id: String,
    pub destination_id: String,
    pub cycle_id: Option<i64>,
    pub rel_path: String,
    pub issue_kind: String,
    pub message: String,
    pub updated_at: String,
}

/// The model of a `IssueRow`.
pub struct IssueRowModel {
    pub source_id: Seq<char>,
    pub destination_id: Seq<char>,
    pub cycle_id: Option<i64>,
    pub rel_path: Seq<char>,
    pub issue_kind: Seq<char>,
    pub message: Seq<char>,
    pub updated_at: Seq<char>,
}

impl View for IssueRow {
    type V = IssueRowModel;

    open spec fn view(&self) -> IssueRowModel {
        IssueRowModel {
            source_id: self.source_id@,
            destination_id: self.destination_id@,
            cycle_id: self.cycle_id,
            rel_path: self.rel_path@,
            issue_kind: self.issue_kind@,
            message: self.message@,
            updated_at: self.updated_at@,
        }
    }
}

impl Clone for IssueRow {
    fn clone(&self) -> (r: IssueRow)
        ensures
            r@ == self@,
    {
        IssueRow {
            source_id: self.source_id.clone(),
            destination_id: self.destination_id.clone(),
            cycle_id: self.cycle_id,
            rel_path: self.rel_path.clone(),
            issue_kind: self.issue_kind.clone(),
            message: self.message.clone(),
            updated_at: self.updated_at.clone(),
        }
    }
}

/// A path of a destination that has a problem, as it is shown.
#[derive(Debug)]
pub struct DestinationIssueView {
    pub cycle_id: Option<i64>,
    pub rel_path: String,
    pub issue_kind: String,
    pub message: String,
    pub updated_at: String,
}

/// The model of a `DestinationIssueView`.
pub struct DestinationIssueViewModel {
    pub cycle_id: Option<i64>,
    pub rel_path: Seq<char>,
    pub issue_kind: Seq<char>,
    pub message: Seq<char>,
    pub updated_at: Seq<char>,
}

impl View for DestinationIssueView {
    type V = DestinationIssueViewModel;

    open spec fn view(&self) -> DestinationIssueViewModel {
        DestinationIssueViewModel {
            cycle_id: self.cycle_id,
            rel_path: self.rel_path@,
            issue_kind: self.issue_kind@,
            message: self.message@,
            updated_at: self.updated_at@,
        }
    }
}

impl Clone for DestinationIssueView {
    fn clone(&self) -> (r: DestinationIssueView)
        ensures
            r@ == self@,
    {
        DestinationIssueView {
            cycle_id: self.cycle_id,
            rel_path: self.rel_path.clone(),
            issue_kind: self.issue_kind.clone(),
            message: self.message.clone(),
            updated_at: self.updated_at.clone(),
        }
    }
}

/// What is remembered of a source besides its cycles.
#[derive(Debug)]
pub struct MetaRow {
    pub source_id: String,
    pub last_event_at: Option<Moment>,
    /// When a restart left a gap that nothing has covered yet.
    pub restart_notice_at: Option<String>,
    /// When the gap began, where that is known.
    pub restart_gap_started: Option<String>,
}

/// The model of a `MetaRow`.
pub struct MetaRowModel {
    pub source_id: Seq<char>,
    pub last_event_at: Option<Moment>,
    pub restart_notice_at: Option<Seq<char>>,
    pub restart_gap_started: Option<Seq<char>>,
}

impl View for MetaRow {
    type V = MetaRowModel;

    open spec fn view(&self) -> MetaRowModel {
        MetaRowModel {
            source_id: self.source_id@,
            last_event_at: self.last_event_at,
            restart_notice_at: opt_view(self.restart_notice_at),
            restart_gap_started: opt_view(self.restart_gap_started),
        }
    }
}

impl Clone for MetaRow {
    fn clone(&self) -> (r: MetaRow)
        ensures
            r@ == self@,
    {
        MetaRow {
            source_id: self.source_id.clone(),
            last_event_at: self.last_event_at,
            restart_notice_at: clone_opt_string(&self.restart_notice_at),
            restart_gap_started: clone_opt_string(&self.restart_gap_started),
        }
    }
}

/// A task that is under way or has ended.
#[derive(Debug)]
pub struct TaskLogEntry {
    pub id: i64,
    pub kind: String,
    pub source_id: String,
    pub destination_id: String,
    pub started_at: String,
    pub ended_at: Option<String>,
    pub duration_ms: Option<i64>,
    pub status: String,
    pub error: String,
    pub files_synced: u64,
    pub differences: u64,
    pub entries_scanned: u64,
}

/// The model of a `TaskLogEntry`.
pub struct TaskLogEntryModel {
    pub id: i64,
    pub kind: Seq<char>,
    pub source_id: Seq<char>,
    pub destination_id: Seq<char>,
    pub started_at: Seq<char>,
    pub ended_at: Option<Seq<char>>,
    pub duration_ms: Option<i64>,
    pub status: Seq<char>,
    pub error: Seq<char>,
    pub files_synced: u64,
    pub differences: u64,
    pub entries_scanned: u64,
}

impl View for TaskLogEntry {
    type V = TaskLogEntryModel;

    open spec fn view(&self) -> TaskLogEntryModel {
        TaskLogEntryModel {
            id: self.id,
            kind: self.kind@,
            source_id: self.source_id@,
            destination_id: self.destination_id@,
            started_at: self.started_at@,
            ended_at: opt_view(self.ended_at),
            duration_ms: self.duration_ms,
            status: self.status@,
            error: self.error@,
            files_synced: self.files_synced,
            differences: self.differences,
            entries_scanned: self.entries_scanned,
        }
    }
}

impl Clone for TaskLogEntry {
    fn clone(&self) -> (r: TaskLogEntry)
        ensures
            r@ == self@,
    {
        TaskLogEntry {
            id: self.id,
            kind: self.kind.clone(),
            source_id: self.source_id.clone(),
            destination_id: self.destination_id.clone(),
            started_at: self.started_at.clone(),
            ended_at: clone_opt_string(&self.ended_at),
            duration_ms: self.duration_ms,
            status: self.status.clone(),
            error: self.error.clone(),
            files_synced: self.files_synced,
            differences: self.differences,
            entries_scanned: self.entries_scanned,
        }
    }
}

/// A path that differs between a source and a destination.
#[derive(Debug)]
pub struct ScanDiffEntry {
    pub rel_path: String,
    pub kind: String,
    pub file_type: String,
}

/// The model of a `ScanDiffEntry`.
pub struct ScanDiffEntryModel {
    pub rel_path: Seq<char>,
    pub kind: Seq<char>,
    pub file_type: Seq<char>,
}

impl View for ScanDiffEntry {
    type V = ScanDiffEntryModel;

    open spec fn view(&self) -> ScanDiffEntryModel {
        ScanDiffEntryModel {
            rel_path: self.rel_path@,
            kind: self.kind@,
            file_type: self.file_type@,
        }
    }
}

impl Clone for ScanDiffEntry {
    fn clone(&self) -> (r: ScanDiffEntry)
        ensures
            r@ == self@,
    {
        ScanDiffEntry {
            rel_path: self.rel_path.clone(),
            kind: self.kind.clone(),
            file_type: self.file_type.clone(),
        }
    }
}

/// How a source and a destination differ.
#[derive(Debug)]
pub struct ScanReport {
    pub source_id: String,
    pub destination_id: String,
    pub scanned_at: String,
    pub source_entries: u64,
    pub dst_entries: u64,
    pub in_sync: u64,
    pub to_add: u64,
    pub to_update: u64,
    pub to_delete: u64,
    pub type_mismatch: u64,
    /// Files of equal content whose permissions differ.
    pub metadata: u64,
    /// A sample of the differences.
    pub differences: Vec<ScanDiffEntry>,
    pub truncated: bool,
    /// Why the comparison failed; empty where it did not.
    pub error: String,
    pub method: String,
}

/// The model of a `ScanReport`.
pub struct ScanReportModel {
    pub source_id: Seq<char>,
    pub destination_id: Seq<char>,
    pub scanned_at: Seq<char>,
    pub source_entries: u64,
    pub dst_entries: u64,
    pub in_sync: u64,
    pub to_add: u64,
    pub to_update: u64,
    pub to_delete: u64,
    pub type_mismatch: u64,
    pub metadata: u64,
    pub differences: Seq<ScanDiffEntryModel>,
    pub truncated: bool,
    pub error: Seq<char>,
    pub method: Seq<char>,
}

impl View for ScanReport {
    type V = ScanReportModel;

    open spec fn view(&self) -> ScanReportModel {
        ScanReportModel {
            source_id: self.source_id@,
            destination_id: self.destination_id@,
            scanned_at: self.scanned_at@,
            source_entries: self.source_entries,
            dst_entries: self.dst_entries,
            in_sync: self.in_sync,
            to_add: self.to_add,
            to_update: self.to_update,
            to_delete: self.to_delete,
            type_mismatch: self.type_mismatch,
            metadata: self.metadata,
            differences: views(self.differences@),
            truncated: self.truncated,
            error: self.error@,
            method: self.method@,
        }
    }
}

impl Clone for ScanReport {
    fn clone(&self) -> (r: ScanReport)
        ensures
            r@ == self@,
    {
        ScanReport {
            source_id: self.source_id.clone(),
            destination_id: self.destination_id.clone(),
            scanned_at: self.scanned_at.clone(),
            source_entries: self.source_entries,
            dst_entries: self.dst_entries,
            in_sync: self.in_sync,
            to_add: self.to_add,
            to_update: self.to_update,
            to_delete: self.to_delete,
            type_mismatch: self.type_mismatch,
            metadata: self.metadata,
            differences: clone_scan_diff_entrys(&self.differences),
            truncated: self.truncated,
            error: self.error.clone(),
            method: self.method.clone(),
        }
    }
}

/// An entry of a tree.
#[derive(Debug)]
pub struct SnapshotEntry {
    pub rel_path: String,
    pub file_type: String,
    pub size: i64,
    pub mtime_ns: i64,
    pub mode: u32,
    pub hash: Option<String>,
}

/// The model of a `SnapshotEntry`.
pub struct SnapshotEntryModel {
    pub rel_path: Seq<char>,
    pub file_type: Seq<char>,
    pub size: i64,
    pub mtime_ns: i64,
    pub mode: u32,
    pub hash: Option<Seq<char>>,
}

impl View for SnapshotEntry {
    type V = SnapshotEntryModel;

    open spec fn view(&self) -> SnapshotEntryModel {
        SnapshotEntryModel {
            rel_path: self.rel_path@,
            file_type: self.file_type@,
            size: self.size,
            mtime_ns: self.mtime_ns,
            mode: self.mode,
            hash: opt_view(self.hash),
        }
    }
}

impl Clone for SnapshotEntry {
    fn clone(&self) -> (r: SnapshotEntry)
        ensures
            r@ == self@,
    {
        SnapshotEntry {
            rel_path: self.rel_path.clone(),
            file_type: self.file_type.clone(),
            size: self.size,
            mtime_ns: self.mtime_ns,
            mode: self.mode,
            hash: clone_opt_string(&self.hash),
        }
    }
}

/// A destination as it is shown.
#[derive(Debug)]
pub struct DestinationView {
    pub source_id: String,
    pub destination_id: String,
    pub path: String,
    pub enabled: bool,
    pub latest_closed_cycle_id: Option<i64>,
    pub target_cycle_id: Option<i64>,
    pub last_verified_cycle_id: Option<i64>,
    pub last_completed_cycle_id: Option<i64>,
    pub status: String,
    pub status_reason: String,
    pub updated_at: Option<String>,
    pub issues: Vec<DestinationIssueView>,
    /// What the last comparison found, where it succeeded.
    pub scan_differences: Option<u64>,
    pub scan_at: Option<String>,
    pub restart_notice_at: Option<String>,
    pub restart_gap_started: Option<String>,
}

/// The model of a `DestinationView`.
pub struct DestinationViewModel {
    pub source_id: Seq<char>,
    pub destination_id: Seq<char>,
    pub path: Seq<char>,
    pub enabled: bool,
    pub latest_closed_cycle_id: Option<i64>,
    pub target_cycle_id: Option<i64>,
    pub last_verified_cycle_id: Option<i64>,
    pub last_completed_cycle_id: Option<i64>,
    pub status: Seq<char>,
    pub status_reason: Seq<char>,
    pub updated_at: Option<Seq<char>>,
    pub issues: Seq<DestinationIssueViewModel>,
    pub scan_differences: Option<u64>,
    pub scan_at: Option<Seq<char>>,
    pub restart_notice_at: Option<Seq<char>>,
    pub restart_gap_started: Option<Seq<char>>,
}

impl View for DestinationView {
    type V = DestinationViewModel;

    open spec fn view(&self) -> DestinationViewModel {
        DestinationViewModel {
            source_id: self.source_id@,
            destination_id: self.destination_id@,
            path: self.path@,
            enabled: self.enabled,
            latest_closed_cycle_id: self.latest_closed_cycle_id,
            target_cycle_id: self.target_cycle_id,
            last_verified_cycle_id: self.last_verified_cycle_id,
            last_completed_cycle_id: self.last_completed_cycle_id,
            status: self.status@,
            status_reason: self.status_reason@,
            updated_at: opt_view(self.updated_at),
            issues: views(self.issues@),
            scan_differences: self.scan_differences,
            scan_at: opt_view(self.scan_at),
            restart_notice_at: opt_view(self.restart_notice_at),
            restart_gap_started: opt_view(self.restart_gap_started),
        }
    }
}

impl Clone for DestinationView {
    fn clone(&self) -> (r: DestinationView)
        ensures
            r@ == self@,
    {
        DestinationView {
            source_id: self.source_id.clone(),
            destination_id: self.destination_id.clone(),
            path: self.path.clone(),
            enabled: self.enabled,
            latest_closed_cycle_id: self.latest_closed_cycle_id,
            target_cycle_id: self.target_cycle_id,
            last_verified_cycle_id: self.last_verified_cycle_id,
            last_completed_cycle_id: self.last_completed_cycle_id,
            status: self.status.clone(),
            status_reason: self.status_reason.clone(),
            updated_at: clone_opt_string(&self.updated_at),
            issues: clone_destination_issue_views(&self.issues),
            scan_differences: self.scan_differences,
            scan_at: clone_opt_string(&self.scan_at),
            restart_notice_at: clone_opt_string(&self.restart_notice_at),
            restart_gap_started: clone_opt_string(&self.restart_gap_started),
        }
    }
}

/// Where a journal of a volume was read up to.
#[derive(Debug)]
pub struct UsnRow {
    pub source_id: String,
    pub volume: String,
    pub journal_id: u64,
    pub next_usn: i64,
}

/// The model of a `UsnRow`.
pub struct UsnRowModel {
    pub source_id: Seq<char>,
    pub volume: Seq<char>,
    pub journal_id: u64,
    pub next_usn: i64,
}

impl View for UsnRow {
    type V = UsnRowModel;

    open spec fn view(&self) -> UsnRowModel {
        UsnRowModel {
            source_id: self.source_id@,
            volume: self.volume@,
            journal_id: self.journal_id,
            next_usn: self.next_usn,
        }
    }
}

impl Clone for UsnRow {
    fn clone(&self) -> (r: UsnRow)
        ensures
            r@ == self@,
    {
        UsnRow {
            source_id: self.source_id.clone(),
            volume: self.volume.clone(),
            journal_id: self.journal_id,
            next_usn: self.next_usn,
        }
    }
}

/// A copy of a list.
pub fn clone_destination_issue_views(v: &Vec<DestinationIssueView>) -> (r: Vec<DestinationIssueView>)
    ensures
        views(r@) == views(v@),
{
    let mut r: Vec<DestinationIssueView> = Vec::new();
    for i in 0..v.len()
        invariant
            r.len() == i,
            forall|j: int| 0 <= j < i ==> (#[trigger] r@[j])@ == v@[j]@,
    {
        let item = v[i].clone();
        r.push(item);
    }
    proof {
        assert(views(r@) =~= views(v@));
    }
    r
}

/// A copy of a list.
pub fn clone_scan_diff_entrys(v: &Vec<ScanDiffEntry>) -> (r: Vec<ScanDiffEntry>)
    ensures
        views(r@) == views(v@),
{
    let mut r: Vec<ScanDiffEntry> = Vec::new();
    for i in 0..v.len()
        invariant
            r.len() == i,
            forall|j: int| 0 <= j < i ==> (#[trigger] r@[j])@ == v@[j]@,
    {
        let item = v[i].clone();
        r.push(item);
    }
    proof {
        assert(views(r@) =~= views(v@));
    }
    r
}

/// Where a journal of a volume was read up to, as it is read.
#[derive(Debug, Clone, Copy, PartialEq, Eq, Structural)]
pub struct WindowsUsnCursor {
    pub journal_id: u64,
    pub next_usn: i64,
}

/// Why a change of the state failed.
#[derive(Debug, Clone, Copy, PartialEq, Eq, Structural)]
pub enum StateError {
    /// All identifiers of a table have been used.
    Full,
}

/// The state of synchronisation.
#[derive(Debug)]
pub struct State {
    pub cycles: Vec<Cycle>,
    pub next_cycle: i64,
    pub events: Vec<EventRow>,
    pub next_event: i64,
    pub offsets: Vec<OffsetRow>,
    pub issues: Vec<IssueRow>,
    pub metas: Vec<MetaRow>,
    pub tasks: Vec<TaskLogEntry>,
    pub next_task: i64,
    pub reports: Vec<ScanReport>,
    pub cursors: Vec<UsnRow>,
    /// Sources whose state has changed, in the order of the changes.
    pub changes: Vec<String>,
    /// Whether the scheduler is to be woken.
    pub wake: bool,
}

/// The model of a `State`.
pub struct StateModel {
    pub cycles: Seq<CycleModel>,
    pub next_cycle: int,
    pub events: Seq<EventRowModel>,
    pub next_event: int,
    pub offsets: Seq<OffsetRowModel>,
    pub issues: Seq<IssueRowModel>,
    pub metas: Seq<MetaRowModel>,
    pub tasks: Seq<TaskLogEntryModel>,
    pub next_task: int,
    pub reports: Seq<ScanReportModel>,
    pub cursors: Seq<UsnRowModel>,
    pub changes: Seq<Seq<char>>,
    pub wake: bool,
}

impl View for State {
    type V = StateModel;

    open spec fn view(&self) -> StateModel {
        StateModel {
            cycles: views(self.cycles@),
            next_cycle: self.next_cycle as int,
            events: views(self.events@),
            next_event: self.next_event as int,
            offsets: views(self.offsets@),
            issues: views(self.issues@),
            metas: views(self.metas@),
            tasks: views(self.tasks@),
            next_task: self.next_task as int,
            reports: views(self.reports@),
            cursors: views(self.cursors@),
            changes: views(self.changes@),
            wake: self.wake,
        }
    }
}

/// A state in which nothing has happened.
pub open spec fn empty_state() -> StateModel {
    StateModel {
        cycles: Seq::empty(),
        next_cycle: 1,
        events: Seq::empty(),
        next_event: 1,
        offsets: Seq::empty(),
        issues: Seq::empty(),
        metas: Seq::empty(),
        tasks: Seq::empty(),
        next_task: 1,
        reports: Seq::empty(),
        cursors: Seq::empty(),
        changes: Seq::empty(),
        wake: false,
    }
}

impl State {
    /// A state in which nothing has happened.
    pub fn new() -> (r: State)
        ensures
            r@ == empty_state(),
    {
        let r = State {
            cycles: Vec::new(),
            next_cycle: 1,
            events: Vec::new(),
            next_event: 1,
            offsets: Vec::new(),
            issues: Vec::new(),
            metas: Vec::new(),
            tasks: Vec::new(),
            next_task: 1,
            reports: Vec::new(),
            cursors: Vec::new(),
            changes: Vec::new(),
            wake: false,
        };
        proof {
            assert(views(r.cycles@) =~= Seq::<CycleModel>::empty());
            assert(views(r.events@) =~= Seq::<EventRowModel>::empty());
            assert(views(r.offsets@) =~= Seq::<OffsetRowModel>::empty());
            assert(views(r.issues@) =~= Seq::<IssueRowModel>::empty());
            assert(views(r.metas@) =~= Seq::<MetaRowModel>::empty());
            assert(views(r.tasks@) =~= Seq::<TaskLogEntryModel>::empty());
            assert(views(r.reports@) =~= Seq::<ScanReportModel>::empty());
            assert(views(r.cursors@) =~= Seq::<UsnRowModel>::empty());
            assert(views(r.changes@) =~= Seq::<Seq<char>>::empty());
        }
        r
    }

    /// Notes that the state of a source has changed.
    pub fn note_change(&mut self, source_id: &str)
        ensures
            final(self)@ == (StateModel {
                changes: old(self)@.changes.push(source_id@),
                ..old(self)@
            }),
    {
        self.changes.push(source_id.to_string());
        proof {
            assert(views(self.changes@) =~= old(self)@.changes.push(source_id@));
        }
    }
}

} // verus!
