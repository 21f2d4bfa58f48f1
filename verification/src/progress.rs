//! The progress of transfers and scans, and the speed that is shown of a transfer.
//!
//! Times are handed in. The views that are to be stored in a file are handed out.

use crate::text::{is_blank, opt_view};
use crate::config::host::{parent, parent_of};
use crate::paths::{join_path, joined_path};
use vstd::prelude::*;

verus! {

/// Nanoseconds in a millisecond.
pub const NANOS_PER_MILLI: u128 = 1000000;

/// Nanoseconds in a second.
pub const NANOS_PER_SEC: u128 = 1000000000;

/// After so many nanoseconds without an update, progress is no longer shown.
pub const STALE_AFTER: u128 = 8000000000;

/// After so many milliseconds, stored progress is no longer shown.
pub const STALE_AFTER_MS: u128 = 8000;

/// The least time between two samples of the speed, in nanoseconds.
pub const SPEED_SAMPLE_INTERVAL: u128 = 250000000;

/// The share of a new sample in the speed, in percent.
pub const EWMA_NEW_SAMPLE_PERCENT: u64 = 35;

/// A transfer as it is shown.
#[derive(Debug)]
pub struct TransferProgressView {
    pub destination_id: String,
    pub destination_path: String,
    pub rel_path: String,
    pub transferred_bytes: u64,
    pub total_bytes: u64,
    pub bytes_per_sec: u64,
    pub updated_at_ms: u128,
}

/// The model of a `TransferProgressView`.
pub struct TransferProgressViewModel {
    pub destination_id: Seq<char>,
    pub destination_path: Seq<char>,
    pub rel_path: Seq<char>,
    pub transferred_bytes: u64,
    pub total_bytes: u64,
    pub bytes_per_sec: u64,
    pub updated_at_ms: u128,
}

impl View for TransferProgressView {
    type V = TransferProgressViewModel;

    open spec fn view(&self) -> TransferProgressViewModel {
        TransferProgressViewModel {
            destination_id: self.destination_id@,
            destination_path: self.destination_path@,
            rel_path: self.rel_path@,
            transferred_bytes: self.transferred_bytes,
            total_bytes: self.total_bytes,
            bytes_per_sec: self.bytes_per_sec,
            updated_at_ms: self.updated_at_ms,
        }
    }
}

impl Clone for TransferProgressView {
    fn clone(&self) -> (r: TransferProgressView)
        ensures
            r@ == self@,
    {
        TransferProgressView {
            destination_id: self.destination_id.clone(),
            destination_path: self.destination_path.clone(),
            rel_path: self.rel_path.clone(),
            transferred_bytes: self.transferred_bytes,
            total_bytes: self.total_bytes,
            bytes_per_sec: self.bytes_per_sec,
            updated_at_ms: self.updated_at_ms,
        }
    }
}

/// A scan as it is shown.
#[derive(Debug)]
pub struct ScanProgressView {
    pub root_path: String,
    pub current_path: String,
    pub entries_seen: u64,
    pub updated_at_ms: u128,
    /// `sync` or `compare`.
    pub kind: String,
}

/// The model of a `ScanProgressView`.
pub struct ScanProgressViewModel {
    pub root_path: Seq<char>,
    pub current_path: Seq<char>,
    pub entries_seen: u64,
    pub updated_at_ms: u128,
    pub kind: Seq<char>,
}

impl View for ScanProgressView {
    type V = ScanProgressViewModel;

    open spec fn view(&self) -> ScanProgressViewModel {
        ScanProgressViewModel {
            root_path: self.root_path@,
            current_path: self.current_path@,
            entries_seen: self.entries_seen,
            updated_at_ms: self.updated_at_ms,
            kind: self.kind@,
        }
    }
}

impl Clone for ScanProgressView {
    fn clone(&self) -> (r: ScanProgressView)
        ensures
            r@ == self@,
    {
        ScanProgressView {
            root_path: self.root_path.clone(),
            current_path: self.current_path.clone(),
            entries_seen: self.entries_seen,
            updated_at_ms: self.updated_at_ms,
            kind: self.kind.clone(),
        }
    }
}

/// A transfer that is under way. Instants are nanoseconds of a clock that never goes back.
#[derive(Debug)]
pub struct TransferProgressState {
    pub token: u64,
    pub destination_id: String,
    pub destination_path: String,
    pub rel_path: String,
    pub transferred_bytes: u64,
    pub total_bytes: u64,
    pub bytes_per_sec: u64,
    /// Bytes at the last sample.
    pub last_bytes: u64,
    pub started_at: u128,
    pub last_sample_at: u128,
    pub updated_at: u128,
    pub updated_at_ms: u128,
}

/// The model of a `TransferProgressState`.
pub struct TransferProgressStateModel {
    pub token: u64,
    pub destination_id: Seq<char>,
    pub destination_path: Seq<char>,
    pub rel_path: Seq<char>,
    pub transferred_bytes: u64,
    pub total_bytes: u64,
    pub bytes_per_sec: u64,
    pub last_bytes: u64,
    pub started_at: u128,
    pub last_sample_at: u128,
    pub updated_at: u128,
    pub updated_at_ms: u128,
}

impl View for TransferProgressState {
    type V = TransferProgressStateModel;

    open spec fn view(&self) -> TransferProgressStateModel {
        TransferProgressStateModel {
            token: self.token,
            destination_id: self.destination_id@,
            destination_path: self.destination_path@,
            rel_path: self.rel_path@,
            transferred_bytes: self.transferred_bytes,
            total_bytes: self.total_bytes,
            bytes_per_sec: self.bytes_per_sec,
            last_bytes: self.last_bytes,
            started_at: self.started_at,
            last_sample_at: self.last_sample_at,
            updated_at: self.updated_at,
            updated_at_ms: self.updated_at_ms,
        }
    }
}

impl Clone for TransferProgressState {
    fn clone(&self) -> (r: TransferProgressState)
        ensures
            r@ == self@,
    {
        TransferProgressState {
            token: self.token,
            destination_id: self.destination_id.clone(),
            destination_path: self.destination_path.clone(),
            rel_path: self.rel_path.clone(),
            transferred_bytes: self.transferred_bytes,
            total_bytes: self.total_bytes,
            bytes_per_sec: self.bytes_per_sec,
            last_bytes: self.last_bytes,
            started_at: self.started_at,
            last_sample_at: self.last_sample_at,
            updated_at: self.updated_at,
            updated_at_ms: self.updated_at_ms,
        }
    }
}

/// A scan that is under way. Instants are nanoseconds of a clock that never goes back.
#[derive(Debug)]
pub struct ScanProgressState {
    pub token: u64,
    pub root_path: String,
    pub current_path: String,
    pub entries_seen: u64,
    pub updated_at: u128,
    pub last_write_at: u128,
    pub updated_at_ms: u128,
    pub kind: String,
}

/// The model of a `ScanProgressState`.
pub struct ScanProgressStateModel {
    pub token: u64,
    pub root_path: Seq<char>,
    pub current_path: Seq<char>,
    pub entries_seen: u64,
    pub updated_at: u128,
    pub last_write_at: u128,
    pub updated_at_ms: u128,
    pub kind: Seq<char>,
}

impl View for ScanProgressState {
    type V = ScanProgressStateModel;

    open spec fn view(&self) -> ScanProgressStateModel {
        ScanProgressStateModel {
            token: self.token,
            root_path: self.root_path@,
            current_path: self.current_path@,
            entries_seen: self.entries_seen,
            updated_at: self.updated_at,
            last_write_at: self.last_write_at,
            updated_at_ms: self.updated_at_ms,
            kind: self.kind@,
        }
    }
}

impl Clone for ScanProgressState {
    fn clone(&self) -> (r: ScanProgressState)
        ensures
            r@ == self@,
    {
        ScanProgressState {
            token: self.token,
            root_path: self.root_path.clone(),
            current_path: self.current_path.clone(),
            entries_seen: self.entries_seen,
            updated_at: self.updated_at,
            last_write_at: self.last_write_at,
            updated_at_ms: self.updated_at_ms,
            kind: self.kind.clone(),
        }
    }
}

/// What is under way.
#[derive(Debug)]
pub struct Progress {
    pub transfer: Option<TransferProgressState>,
    pub scan: Option<ScanProgressState>,
    pub next_token: u64,
}

impl Progress {
    /// Nothing under way.
    pub fn new() -> (r: Progress)
        ensures
            r.transfer is None,
            r.scan is None,
            r.next_token == 1,
    {
        Progress { transfer: None, scan: None, next_token: 1 }
    }
}

/// Identifies a transfer by its token.
#[derive(Debug, Clone, Copy, PartialEq, Eq, Structural)]
pub struct TransferProgressGuard {
    pub token: u64,
}

/// Identifies a scan by its token.
#[derive(Debug, Clone, Copy, PartialEq, Eq, Structural)]
pub struct ScanProgressGuard {
    pub token: u64,
}

/// Whether the work of a thread is a comparison.
#[derive(Debug, Clone, Copy, PartialEq, Eq, Structural)]
pub struct CompareContext {
    pub active: bool,
}

/// Restores what the work of a thread was before.
#[derive(Debug, Clone, Copy, PartialEq, Eq, Structural)]
pub struct CompareContextGuard {
    pub previous: bool,
}

/// Marks the work of a thread as a comparison.
pub fn enter_compare_context(context: &mut CompareContext) -> (guard: CompareContextGuard)
    ensures
        final(context).active,
        guard.previous == old(context).active,
{
    let previous = context.active;
    context.active = true;
    CompareContextGuard { previous }
}

/// Restores what the work of a thread was before.
pub fn leave_compare_context(context: &mut CompareContext, guard: CompareContextGuard)
    ensures
        final(context).active == guard.previous,
{
    context.active = guard.previous;
}

/// Whether the work of a thread is a comparison.
pub fn in_compare_context(context: &CompareContext) -> (r: bool)
    ensures
        r == context.active,
{
    context.active
}

/// The smaller of two numbers.
pub open spec fn smaller(a: u64, b: u64) -> u64 {
    if a <= b {
        a
    } else {
        b
    }
}

/// The smaller of two numbers.
fn min_of(a: u64, b: u64) -> (r: u64)
    ensures
        r == smaller(a, b),
{
    if a <= b {
        a
    } else {
        b
    }
}

/// The time between two instants; zero where the second is not later.
pub open spec fn since(now: u128, then: u128) -> u128 {
    if now >= then {
        (now - then) as u128
    } else {
        0
    }
}

/// The time between two instants.
fn elapsed(now: u128, then_at: u128) -> (r: u128)
    ensures
        r == since(now, then_at),
{
    if now >= then_at {
        now - then_at
    } else {
        0
    }
}

/// A smoothed speed: the first sample counts fully, later ones by their share.
pub open spec fn smoothed(previous: u64, sample: u64) -> u64 {
    if previous == 0 {
        sample
    } else {
        ((previous * (100 - EWMA_NEW_SAMPLE_PERCENT) + sample * EWMA_NEW_SAMPLE_PERCENT)
            / 100) as u64
    }
}

/// A smoothed speed.
pub fn ewma_speed(previous: u64, sample: u64) -> (r: u64)
    ensures
        r == smoothed(previous, sample),
{
    if previous == 0 {
        return sample;
    }
    let sum: u128 = (previous as u128) * 65 + (sample as u128) * 35;
    (sum / 100) as u64
}

/// A smoothed speed lies between the previous one and the sample.
pub proof fn smoothing_stays_between(previous: u64, sample: u64)
    requires
        previous != 0,
    ensures
        smaller(previous, sample) <= smoothed(previous, sample),
        smoothed(previous, sample) <= previous || smoothed(previous, sample) <= sample,
{
}

/// Bytes per second over some nanoseconds, at least a millisecond; the number wraps around.
pub open spec fn sampled_speed(bytes: u64, nanos: u128) -> u64 {
    let millis = if nanos / NANOS_PER_MILLI == 0 {
        1
    } else {
        nanos / NANOS_PER_MILLI
    };
    (((bytes * 1000) / (millis as int)) % 0x1_0000_0000_0000_0000) as u64
}

/// Whether a sample is taken: enough time has passed, or it is forced, and bytes have arrived.
pub open spec fn takes_sample(s: TransferProgressStateModel, now: u128, force: bool) -> bool {
    (force || since(now, s.last_sample_at) >= SPEED_SAMPLE_INTERVAL) && s.transferred_bytes
        > s.last_bytes
}

/// A transfer after its speed was sampled, where it was.
pub open spec fn sampled(s: TransferProgressStateModel, now: u128, force: bool) ->
    TransferProgressStateModel {
    if takes_sample(s, now, force) {
        TransferProgressStateModel {
            bytes_per_sec: smoothed(
                s.bytes_per_sec,
                sampled_speed(
                    (s.transferred_bytes - s.last_bytes) as u64,
                    since(now, s.last_sample_at),
                ),
            ),
            last_bytes: s.transferred_bytes,
            last_sample_at: now,
            ..s
        }
    } else {
        s
    }
}

/// A transfer as it is shown: before the first sample, its speed is the average since its start.
pub open spec fn shown_transfer(s: TransferProgressStateModel, now: u128) ->
    TransferProgressViewModel {
    let secs = if since(now, s.started_at) / NANOS_PER_SEC == 0 {
        1
    } else {
        since(now, s.started_at) / NANOS_PER_SEC
    };
    TransferProgressViewModel {
        destination_id: s.destination_id,
        destination_path: s.destination_path,
        rel_path: s.rel_path,
        transferred_bytes: s.transferred_bytes,
        total_bytes: s.total_bytes,
        bytes_per_sec: if s.bytes_per_sec == 0 && s.transferred_bytes > 0 {
            (s.transferred_bytes as int / secs as int) as u64
        } else {
            s.bytes_per_sec
        },
        updated_at_ms: s.updated_at_ms,
    }
}

/// A scan as it is shown.
pub open spec fn shown_scan(s: ScanProgressStateModel) -> ScanProgressViewModel {
    ScanProgressViewModel {
        root_path: s.root_path,
        current_path: s.current_path,
        entries_seen: s.entries_seen,
        updated_at_ms: s.updated_at_ms,
        kind: s.kind,
    }
}

impl TransferProgressState {
    /// Samples the speed, and says whether a sample was taken.
    pub fn sample_speed(&mut self, now: u128, force: bool) -> (taken: bool)
        ensures
            taken == takes_sample(old(self)@, now, force),
            final(self)@ == sampled(old(self)@, now, force),
    {
        let passed = elapsed(now, self.last_sample_at);
        if !force && passed < SPEED_SAMPLE_INTERVAL {
            return false;
        }
        if self.transferred_bytes <= self.last_bytes {
            return false;
        }
        let delta: u64 = self.transferred_bytes - self.last_bytes;
        let whole: u128 = passed / NANOS_PER_MILLI;
        let millis: u128 = if whole == 0 {
            1
        } else {
            whole
        };
        let speed: u128 = (delta as u128) * 1000 / millis;
        let sample: u64 = (speed % 0x1_0000_0000_0000_0000) as u64;
        self.bytes_per_sec = ewma_speed(self.bytes_per_sec, sample);
        self.last_bytes = self.transferred_bytes;
        self.last_sample_at = now;
        true
    }

    /// The transfer as it is shown.
    pub fn shown(&self, now: u128) -> (r: TransferProgressView)
        ensures
            r@ == shown_transfer(self@, now),
    {
        let whole: u128 = elapsed(now, self.started_at) / NANOS_PER_SEC;
        let secs: u128 = if whole == 0 {
            1
        } else {
            whole
        };
        let bytes_per_sec: u64 = if self.bytes_per_sec == 0 && self.transferred_bytes > 0 {
            proof {
                assert(0 <= self.transferred_bytes as int / secs as int
                    <= self.transferred_bytes) by (nonlinear_arith)
                    requires
                        secs >= 1,
                        self.transferred_bytes >= 0,
                ;
            }
            ((self.transferred_bytes as u128) / secs) as u64
        } else {
            self.bytes_per_sec
        };
        TransferProgressView {
            destination_id: self.destination_id.clone(),
            destination_path: self.destination_path.clone(),
            rel_path: self.rel_path.clone(),
            transferred_bytes: self.transferred_bytes,
            total_bytes: self.total_bytes,
            bytes_per_sec,
            updated_at_ms: self.updated_at_ms,
        }
    }
}

impl ScanProgressState {
    /// The scan as it is shown.
    pub fn shown(&self) -> (r: ScanProgressView)
        ensures
            r@ == shown_scan(self@),
    {
        ScanProgressView {
            root_path: self.root_path.clone(),
            current_path: self.current_path.clone(),
            entries_seen: self.entries_seen,
            updated_at_ms: self.updated_at_ms,
            kind: self.kind.clone(),
        }
    }
}

/// A transfer at its start.
pub open spec fn fresh_transfer(
    token: u64,
    destination_id: Seq<char>,
    destination_path: Seq<char>,
    rel_path: Seq<char>,
    total_bytes: u64,
    transferred_bytes: u64,
    now: u128,
    now_ms: u128,
) -> TransferProgressStateModel {
    TransferProgressStateModel {
        token,
        destination_id,
        destination_path,
        rel_path,
        transferred_bytes,
        total_bytes,
        bytes_per_sec: 0,
        last_bytes: transferred_bytes,
        started_at: now,
        last_sample_at: now,
        updated_at: now,
        updated_at_ms: now_ms,
    }
}

/// Starts the transfer of one file, and gives the view to store.
pub fn start_transfer(
    p: &mut Progress,
    destination_id: &str,
    destination_path: &str,
    rel_path: &str,
    total_bytes: u64,
    transferred_bytes: u64,
    now: u128,
    now_ms: u128,
) -> (r: (TransferProgressGuard, TransferProgressView))
    ensures
        r.0.token == old(p).next_token,
        final(p).next_token == old(p).next_token.wrapping_add(1),
        final(p).scan == old(p).scan,
        opt_view(final(p).transfer) == Some(
            fresh_transfer(
                r.0.token,
                destination_id@,
                destination_path@,
                rel_path@,
                total_bytes,
                smaller(transferred_bytes, total_bytes),
                now,
                now_ms,
            ),
        ),
        r.1@ == shown_transfer(opt_view(final(p).transfer)->0, now),
{
    let token: u64 = p.next_token;
    p.next_token = token.wrapping_add(1);
    let bytes: u64 = min_of(transferred_bytes, total_bytes);
    let state = TransferProgressState {
        token,
        destination_id: destination_id.to_string(),
        destination_path: destination_path.to_string(),
        rel_path: rel_path.to_string(),
        transferred_bytes: bytes,
        total_bytes,
        bytes_per_sec: 0,
        last_bytes: bytes,
        started_at: now,
        last_sample_at: now,
        updated_at: now,
        updated_at_ms: now_ms,
    };
    let shown = state.shown(now);
    p.transfer = Some(state);
    (TransferProgressGuard { token }, shown)
}

/// Starts a transfer of many files whose bytes are added up, and gives the view to store.
pub fn begin_transfer(
    p: &mut Progress,
    destination_id: &str,
    destination_path: &str,
    total_bytes: u64,
    now: u128,
    now_ms: u128,
) -> (r: (TransferProgressGuard, TransferProgressView))
    ensures
        r.0.token == old(p).next_token,
        final(p).next_token == old(p).next_token.wrapping_add(1),
        final(p).scan == old(p).scan,
        opt_view(final(p).transfer) == Some(
            fresh_transfer(
                r.0.token,
                destination_id@,
                destination_path@,
                Seq::empty(),
                total_bytes,
                0,
                now,
                now_ms,
            ),
        ),
        r.1@ == shown_transfer(opt_view(final(p).transfer)->0, now),
{
    proof {
        reveal_strlit("");
        assert(""@ =~= Seq::<char>::empty());
    }
    start_transfer(p, destination_id, destination_path, "", total_bytes, 0, now, now_ms)
}

/// Starts a scan, and gives the view to store.
pub fn start_scan(
    p: &mut Progress,
    root_path: &str,
    context: &CompareContext,
    now: u128,
    now_ms: u128,
) -> (r: (ScanProgressGuard, ScanProgressView))
    ensures
        r.0.token == old(p).next_token,
        final(p).next_token == old(p).next_token.wrapping_add(1),
        final(p).transfer == old(p).transfer,
        opt_view(final(p).scan) == Some(
            (ScanProgressStateModel {
                token: r.0.token,
                root_path: root_path@,
                current_path: root_path@,
                entries_seen: 0,
                updated_at: now,
                last_write_at: now,
                updated_at_ms: now_ms,
                kind: if context.active {
                    "compare"@
                } else {
                    "sync"@
                },
            }),
        ),
        r.1@ == shown_scan(opt_view(final(p).scan)->0),
{
    let token: u64 = p.next_token;
    p.next_token = token.wrapping_add(1);
    let kind: String = if context.active {
        "compare".to_string()
    } else {
        "sync".to_string()
    };
    let state = ScanProgressState {
        token,
        root_path: root_path.to_string(),
        current_path: root_path.to_string(),
        entries_seen: 0,
        updated_at: now,
        last_write_at: now,
        updated_at_ms: now_ms,
        kind,
    };
    let shown = state.shown();
    p.scan = Some(state);
    (ScanProgressGuard { token }, shown)
}

/// A transfer after so many of its bytes were transferred.
pub open spec fn updated_transfer(
    s: TransferProgressStateModel,
    transferred_bytes: u64,
    now: u128,
    now_ms: u128,
) -> TransferProgressStateModel {
    let t = sampled(
        TransferProgressStateModel {
            transferred_bytes: smaller(transferred_bytes, s.total_bytes),
            ..s
        },
        now,
        transferred_bytes >= s.total_bytes,
    );
    TransferProgressStateModel { updated_at: now, updated_at_ms: now_ms, ..t }
}

/// Whether a transfer with this token is under way.
pub open spec fn transfer_is(p: Progress, token: u64) -> bool {
    p.transfer is Some && p.transfer->0.token == token
}

/// Whether a scan with this token is under way.
pub open spec fn scan_is(p: Progress, token: u64) -> bool {
    p.scan is Some && p.scan->0.token == token
}

impl TransferProgressGuard {
    /// Takes how many bytes were transferred, and gives the view to store. Nothing happens once
    /// another transfer has taken over.
    pub fn update(&self, p: &mut Progress, transferred_bytes: u64, now: u128, now_ms: u128) -> (r:
        Option<TransferProgressView>)
        ensures
            final(p).scan == old(p).scan,
            final(p).next_token == old(p).next_token,
            !transfer_is(*old(p), self.token) ==> r is None && *final(p) == *old(p),
            transfer_is(*old(p), self.token) ==> opt_view(final(p).transfer) == Some(
                updated_transfer(
                    opt_view(old(p).transfer)->0,
                    transferred_bytes,
                    now,
                    now_ms,
                ),
            ) && opt_view(r) == Some(shown_transfer(opt_view(final(p).transfer)->0, now)),
    {
        match &p.transfer {
            Some(s) => {
                if s.token != self.token {
                    return None;
                }
                let mut t = s.clone();
                t.transferred_bytes = min_of(transferred_bytes, t.total_bytes);
                let all = transferred_bytes >= t.total_bytes;
                t.sample_speed(now, all);
                t.updated_at = now;
                t.updated_at_ms = now_ms;
                let shown = t.shown(now);
                p.transfer = Some(t);
                Some(shown)
            },
            None => None,
        }
    }

    /// Ends the transfer, and says whether the stored view is to be removed. Nothing happens once
    /// another transfer has taken over.
    pub fn finish(&self, p: &mut Progress) -> (cleared: bool)
        ensures
            cleared == transfer_is(*old(p), self.token),
            cleared ==> final(p).transfer is None && final(p).scan == old(p).scan
                && final(p).next_token == old(p).next_token,
            !cleared ==> *final(p) == *old(p),
    {
        match &p.transfer {
            Some(s) => {
                if s.token != self.token {
                    return false;
                }
                p.transfer = None;
                true
            },
            None => false,
        }
    }
}

/// A scan after so many entries; it is stored at most four times a second.
pub open spec fn updated_scan(
    s: ScanProgressStateModel,
    current_path: Seq<char>,
    entries_seen: u64,
    now: u128,
    now_ms: u128,
) -> ScanProgressStateModel {
    ScanProgressStateModel {
        current_path,
        entries_seen,
        updated_at: now,
        updated_at_ms: now_ms,
        last_write_at: if since(now, s.last_write_at) >= SPEED_SAMPLE_INTERVAL {
            now
        } else {
            s.last_write_at
        },
        ..s
    }
}

impl ScanProgressGuard {
    /// Takes how far the scan has come, and gives the view to store, where it is to be stored.
    /// Nothing happens once another scan has taken over.
    pub fn update(
        &self,
        p: &mut Progress,
        current_path: &str,
        entries_seen: u64,
        now: u128,
        now_ms: u128,
    ) -> (r: Option<ScanProgressView>)
        ensures
            final(p).transfer == old(p).transfer,
            final(p).next_token == old(p).next_token,
            !scan_is(*old(p), self.token) ==> r is None && *final(p) == *old(p),
            scan_is(*old(p), self.token) ==> opt_view(final(p).scan) == Some(
                updated_scan(
                    opt_view(old(p).scan)->0,
                    current_path@,
                    entries_seen,
                    now,
                    now_ms,
                ),
            ) && opt_view(r) == (if since(now, old(p).scan->0.last_write_at)
                >= SPEED_SAMPLE_INTERVAL {
                Some(shown_scan(opt_view(final(p).scan)->0))
            } else {
                None
            }),
    {
        match &p.scan {
            Some(s) => {
                if s.token != self.token {
                    return None;
                }
                let mut t = s.clone();
                t.current_path = current_path.to_string();
                t.entries_seen = entries_seen;
                t.updated_at = now;
                t.updated_at_ms = now_ms;
                let stores = elapsed(now, t.last_write_at) >= SPEED_SAMPLE_INTERVAL;
                let mut shown: Option<ScanProgressView> = None;
                if stores {
                    t.last_write_at = now;
                    shown = Some(t.shown());
                }
                p.scan = Some(t);
                shown
            },
            None => None,
        }
    }

    /// Ends the scan, and says whether the stored view is to be removed.
    pub fn finish(&self, p: &mut Progress) -> (cleared: bool)
        ensures
            cleared == scan_is(*old(p), self.token),
            cleared ==> final(p).scan is None && final(p).transfer == old(p).transfer
                && final(p).next_token == old(p).next_token,
            !cleared ==> *final(p) == *old(p),
    {
        match &p.scan {
            Some(s) => {
                if s.token != self.token {
                    return false;
                }
                p.scan = None;
                true
            },
            None => false,
        }
    }
}

/// The bytes of a transfer after more were added: never more than the total, where that is known.
pub open spec fn added_bytes(s: TransferProgressStateModel, added: u64) -> u64 {
    let sum = s.transferred_bytes.saturating_add(added);
    if s.total_bytes > 0 {
        smaller(sum, s.total_bytes)
    } else {
        sum
    }
}

/// A transfer of many files after bytes of one of them were added.
pub open spec fn recorded_transfer(
    s: TransferProgressStateModel,
    rel_path: Seq<char>,
    added: u64,
    now: u128,
    now_ms: u128,
) -> TransferProgressStateModel {
    TransferProgressStateModel {
        transferred_bytes: added_bytes(s, added),
        rel_path: if rel_path.len() == 0 {
            s.rel_path
        } else {
            rel_path
        },
        updated_at: now,
        updated_at_ms: now_ms,
        ..s
    }
}

/// Adds transferred bytes to the transfer that is under way, and gives the view to store, where it
/// is to be stored. Nothing happens without a transfer.
pub fn record_transfer(p: &mut Progress, rel_path: &str, added: u64, now: u128, now_ms: u128) -> (r:
    Option<TransferProgressView>)
    ensures
        final(p).scan == old(p).scan,
        final(p).next_token == old(p).next_token,
        old(p).transfer is None ==> r is None && final(p).transfer is None,
        old(p).transfer is Some ==> ({
            let s = recorded_transfer(
                opt_view(old(p).transfer)->0,
                rel_path@,
                added,
                now,
                now_ms,
            );
            &&& opt_view(final(p).transfer) == Some(sampled(s, now, false))
            &&& opt_view(r) == (if takes_sample(s, now, false) {
                Some(shown_transfer(sampled(s, now, false), now))
            } else {
                None
            })
        }),
{
    match &p.transfer {
        Some(s) => {
            let mut t = s.clone();
            let sum: u64 = t.transferred_bytes.saturating_add(added);
            t.transferred_bytes = if t.total_bytes > 0 {
                min_of(sum, t.total_bytes)
            } else {
                sum
            };
            if !is_blank(rel_path) {
                t.rel_path = rel_path.to_string();
            }
            t.updated_at = now;
            t.updated_at_ms = now_ms;
            let mut shown: Option<TransferProgressView> = None;
            if t.sample_speed(now, false) {
                shown = Some(t.shown(now));
            }
            p.transfer = Some(t);
            shown
        },
        None => None,
    }
}

/// Where the progress to show comes from.
#[derive(Debug)]
pub enum Shown<T> {
    /// From what is under way; the view is to be stored if so marked.
    Live(T, bool),
    /// From the stored view, which is to be removed first if so marked.
    Stored(bool),
}

/// A transfer after it was looked at: its speed may be sampled.
pub open spec fn looked_at(s: TransferProgressStateModel, now: u128, now_ms: u128) ->
    TransferProgressStateModel {
    if takes_sample(s, now, false) {
        TransferProgressStateModel {
            updated_at: now,
            updated_at_ms: now_ms,
            ..sampled(s, now, false)
        }
    } else {
        s
    }
}

/// The transfer to show. One that was not updated for long is forgotten.
pub fn current_transfer_progress(p: &mut Progress, now: u128, now_ms: u128) -> (r: Shown<
    TransferProgressView,
>)
    ensures
        final(p).scan == old(p).scan,
        final(p).next_token == old(p).next_token,
        old(p).transfer is None ==> r == Shown::<TransferProgressView>::Stored(false)
            && final(p).transfer is None,
        old(p).transfer is Some && since(now, old(p).transfer->0.updated_at) > STALE_AFTER ==> r
            == Shown::<TransferProgressView>::Stored(true) && final(p).transfer is None,
        old(p).transfer is Some && since(now, old(p).transfer->0.updated_at) <= STALE_AFTER ==> ({
            let s = opt_view(old(p).transfer)->0;
            &&& opt_view(final(p).transfer) == Some(looked_at(s, now, now_ms))
            &&& r is Live
            &&& r->Live_0@ == shown_transfer(looked_at(s, now, now_ms), now)
            &&& r->Live_1 == takes_sample(s, now, false)
        }),
{
    match &p.transfer {
        Some(s) => {
            if elapsed(now, s.updated_at) > STALE_AFTER {
                p.transfer = None;
                return Shown::Stored(true);
            }
            let mut t = s.clone();
            let taken = t.sample_speed(now, false);
            if taken {
                t.updated_at = now;
                t.updated_at_ms = now_ms;
            }
            let shown = t.shown(now);
            p.transfer = Some(t);
            Shown::Live(shown, taken)
        },
        None => Shown::Stored(false),
    }
}

/// The scan to show. One that was not updated for long is forgotten.
pub fn current_scan_progress(p: &mut Progress, now: u128) -> (r: Shown<ScanProgressView>)
    ensures
        final(p).transfer == old(p).transfer,
        final(p).next_token == old(p).next_token,
        old(p).scan is None ==> r == Shown::<ScanProgressView>::Stored(false) && final(p).scan is None,
        old(p).scan is Some && since(now, old(p).scan->0.updated_at) > STALE_AFTER ==> r == Shown::<
            ScanProgressView,
        >::Stored(true) && final(p).scan is None,
        old(p).scan is Some && since(now, old(p).scan->0.updated_at) <= STALE_AFTER ==> final(p).scan == old(p).scan && r is Live && r->Live_0@ == shown_scan(opt_view(old(p).scan)->0)
            && !r->Live_1,
{
    match &p.scan {
        Some(s) => {
            if elapsed(now, s.updated_at) > STALE_AFTER {
                p.scan = None;
                return Shown::Stored(true);
            }
            Shown::Live(s.shown(), false)
        },
        None => Shown::Stored(false),
    }
}

/// Whether a stored view is too old to be shown.
pub fn stored_is_stale(updated_at_ms: u128, now_ms: u128) -> (r: bool)
    ensures
        r == (since(now_ms, updated_at_ms) > STALE_AFTER_MS),
{
    elapsed(now_ms, updated_at_ms) > STALE_AFTER_MS
}

/// An update never shows more bytes than the transfer has in all, and shows all of them at the
/// end.
pub proof fn transfers_stay_within_their_total(
    s: TransferProgressStateModel,
    transferred_bytes: u64,
    now: u128,
    now_ms: u128,
)
    ensures
        updated_transfer(s, transferred_bytes, now, now_ms).transferred_bytes <= s.total_bytes,
        transferred_bytes >= s.total_bytes ==> updated_transfer(
            s,
            transferred_bytes,
            now,
            now_ms,
        ).transferred_bytes == s.total_bytes,
{
}

/// The directory of the state, which progress is stored in.
pub open spec fn state_dir(data_db: Seq<char>) -> Seq<char> {
    match parent(data_db) {
        Some(dir) => dir,
        None => "."@,
    }
}

/// Where transfers and comparisons are stored for other processes to see.
pub fn configure_progress_file(data_db: &str) -> (r: (String, String))
    ensures
        r.0@ == joined_path(state_dir(data_db@), "runtime_progress.json"@),
        r.1@ == joined_path(state_dir(data_db@), "runtime_scan.json"@),
{
    let dir = match parent_of(data_db) {
        Some(d) => d,
        None => ".".to_string(),
    };
    (
        join_path(dir.as_str(), "runtime_progress.json"),
        join_path(dir.as_str(), "runtime_scan.json"),
    )
}

/// A later sample counts for thirty-five of a hundred, and what came before for the rest; the first
/// one counts for all.
pub proof fn samples_count_by_their_share(previous: u64, sample: u64)
    ensures
        previous == 0 ==> smoothed(previous, sample) == sample,
        previous != 0 ==> 100 * smoothed(previous, sample) <= 65 * previous + 35 * sample < 100 * (
        smoothed(previous, sample) + 1),
{
}

/// The speed over some whole milliseconds is the number of bytes in a second, rounded down.
pub proof fn speeds_are_bytes_in_a_second(bytes: u64, millis: u64)
    requires
        millis > 0,
        bytes * 1000 <= u64::MAX,
    ensures
        ({
            let speed = sampled_speed(bytes, (millis * 1000000) as u128);
            speed * millis <= bytes * 1000 < (speed + 1) * millis
        }),
{
    let nanos: u128 = (millis * 1000000) as u128;
    assert(nanos == millis * 1000000);
    assert(nanos / 1000000 == millis);
    let q = (bytes * 1000) / (millis as int);
    vstd::arithmetic::div_mod::lemma_fundamental_div_mod(bytes * 1000, millis as int);
    vstd::arithmetic::div_mod::lemma_mod_bound(bytes * 1000, millis as int);
    assert(0 <= q <= bytes * 1000) by (nonlinear_arith)
        requires
            q == (bytes * 1000) / (millis as int),
            millis > 0,
            bytes >= 0,
    ;
    assert(sampled_speed(bytes, nanos) == q);
    assert(q * millis == millis * q) by (nonlinear_arith);
    assert((q + 1) * millis == millis * q + millis) by (nonlinear_arith);
}

/// An update says how many bytes have arrived, and when; which file it is and how much of it there
/// is in all stay. The speed changes only when a quarter of a second has passed or the file is
/// complete.
pub proof fn updates_say_how_much_has_arrived(
    s: TransferProgressStateModel,
    transferred_bytes: u64,
    now: u128,
    now_ms: u128,
)
    requires
        transferred_bytes <= s.total_bytes,
    ensures
        ({
            let r = updated_transfer(s, transferred_bytes, now, now_ms);
            &&& r.transferred_bytes == transferred_bytes
            &&& r.total_bytes == s.total_bytes
            &&& r.token == s.token
            &&& r.destination_id == s.destination_id
            &&& r.destination_path == s.destination_path
            &&& r.rel_path == s.rel_path
            &&& r.started_at == s.started_at
            &&& r.updated_at == now
            &&& r.updated_at_ms == now_ms
            &&& transferred_bytes < s.total_bytes && s.last_sample_at <= now && now
                - s.last_sample_at < 250000000 ==> r.bytes_per_sec == s.bytes_per_sec
            &&& transferred_bytes <= s.last_bytes ==> r.bytes_per_sec == s.bytes_per_sec
        }),
{
}

/// Bytes that are added to a transfer of many files come on top of those that have arrived, up to
/// the total where that is known; the file is the one that was named.
pub proof fn added_bytes_come_on_top(
    s: TransferProgressStateModel,
    rel_path: Seq<char>,
    added: u64,
    now: u128,
    now_ms: u128,
)
    requires
        s.transferred_bytes + added <= u64::MAX,
    ensures
        ({
            let r = recorded_transfer(s, rel_path, added, now, now_ms);
            let sum = s.transferred_bytes + added;
            &&& s.total_bytes == 0 || sum <= s.total_bytes ==> r.transferred_bytes == sum
            &&& 0 < s.total_bytes < sum ==> r.transferred_bytes == s.total_bytes
            &&& rel_path.len() > 0 ==> r.rel_path == rel_path
            &&& rel_path.len() == 0 ==> r.rel_path == s.rel_path
            &&& r.total_bytes == s.total_bytes
            &&& r.token == s.token
            &&& r.updated_at_ms == now_ms
        }),
{
}

/// What is shown of a transfer is what is known of it; before the first sample its speed is what has
/// arrived so far by the seconds since the start.
pub proof fn transfers_are_shown_as_they_are(s: TransferProgressStateModel, secs: u64)
    requires
        secs > 0,
        s.started_at + secs * 1000000000 <= u128::MAX,
    ensures
        ({
            let v = shown_transfer(s, (s.started_at + secs * 1000000000) as u128);
            &&& v.destination_id == s.destination_id
            &&& v.destination_path == s.destination_path
            &&& v.rel_path == s.rel_path
            &&& v.transferred_bytes == s.transferred_bytes
            &&& v.total_bytes == s.total_bytes
            &&& v.updated_at_ms == s.updated_at_ms
            &&& s.bytes_per_sec != 0 ==> v.bytes_per_sec == s.bytes_per_sec
            &&& s.bytes_per_sec == 0 && s.transferred_bytes > 0 ==> v.bytes_per_sec
                == s.transferred_bytes as int / secs as int
            &&& s.transferred_bytes == 0 ==> v.bytes_per_sec == s.bytes_per_sec
        }),
{
    let now = (s.started_at + secs * 1000000000) as u128;
    assert(since(now, s.started_at) == secs * 1000000000);
    assert((secs * 1000000000) / 1000000000 == secs);
    if s.transferred_bytes > 0 {
        let q = s.transferred_bytes as int / secs as int;
        assert(0 <= q <= s.transferred_bytes) by (nonlinear_arith)
            requires
                q == s.transferred_bytes as int / secs as int,
                secs > 0,
        ;
    }
}

} // verus!
