//! Destinations as they are shown, and rows as they are read from storage.

use crate::clock::{parse_db_time, stored_moment, Moment};
use crate::config::types::{
    clone_opt_string, AppConfig, DestinationConfigModel, SourceGroupConfigModel,
};
use crate::seqs::{first_item, last_item};
use crate::state::cycles::not_open_of;
use crate::state::issues::shown_issues;
use crate::state::notices::notice_of;
use crate::state::offsets::row_or_blank;
use crate::state::reports::report_on;
use crate::state::targets::is_behind;
use crate::state::types::{
    Cycle, CycleModel, DestinationView, DestinationViewModel, OffsetRowModel, ScanReportModel,
    State, StateModel,
};
use crate::text::{is_blank, opt_view, same, views};
use vstd::prelude::*;

verus! {

/// The status that is shown: green only where the target was reached.
pub open spec fn shown_status(row: OffsetRowModel) -> Seq<char> {
    if row.status == "green"@ && row.target_cycle_id is Some && !is_behind(row) {
        "green"@
    } else if row.status == "yellow"@ {
        "yellow"@
    } else {
        "red"@
    }
}

/// The reason that is shown: a destination that is behind says so, unless there is a better reason.
pub open spec fn shown_reason(row: OffsetRowModel) -> Seq<char> {
    if is_behind(row) && (row.status_reason == "not_verified"@ || row.status_reason
        == "pending_target_cycle"@ || row.status_reason == "verified"@) {
        "behind_target_cycle"@
    } else {
        row.status_reason
    }
}

/// The number of differences of a report.
pub open spec fn difference_count(r: ScanReportModel) -> int {
    r.to_add + r.to_update + r.to_delete + r.type_mismatch
}

/// Whether the number of differences that is shown of a destination, if one is, can be written down.
pub open spec fn difference_fits(
    st: StateModel,
    source_id: Seq<char>,
    destination_id: Seq<char>,
) -> bool {
    first_item(st.reports, report_on(source_id, destination_id)) matches Some(r) ==> r.error.len()
        == 0 ==> difference_count(r) <= u64::MAX
}

/// Whether the numbers of differences that are shown of the destinations of sources can be written
/// down.
pub open spec fn differences_fit(st: StateModel, ss: Seq<SourceGroupConfigModel>) -> bool {
    forall|i: int, j: int|
        #![trigger ss[i].destinations[j]]
        0 <= i < ss.len() && 0 <= j < ss[i].destinations.len() ==> difference_fits(
            st,
            ss[i].id,
            ss[i].destinations[j].id,
        )
}

/// A destination as it is shown.
pub open spec fn destination_view(
    st: StateModel,
    s: SourceGroupConfigModel,
    d: DestinationConfigModel,
    now: Seq<char>,
) -> DestinationViewModel {
    let row = row_or_blank(st.offsets, s.id, d.id, now);
    let notice = notice_of(st, s.id);
    let report = first_item(st.reports, report_on(s.id, d.id));
    let compared = report is Some && report->0.error.len() == 0;
    DestinationViewModel {
        source_id: s.id,
        destination_id: d.id,
        path: d.path,
        enabled: d.enabled,
        latest_closed_cycle_id: match last_item(st.cycles, not_open_of(s.id)) {
            Some(c) => Some(c.id),
            None => None,
        },
        target_cycle_id: row.target_cycle_id,
        last_verified_cycle_id: row.last_verified_cycle_id,
        last_completed_cycle_id: row.last_completed_cycle_id,
        status: shown_status(row),
        status_reason: shown_reason(row),
        updated_at: Some(row.updated_at),
        issues: shown_issues(st.issues, s.id, d.id),
        scan_differences: if compared {
            Some(difference_count(report->0) as u64)
        } else {
            None
        },
        scan_at: if compared {
            Some(report->0.scanned_at)
        } else {
            None
        },
        restart_notice_at: match notice {
            Some(n) => Some(n.0),
            None => None,
        },
        restart_gap_started: match notice {
            Some(n) => n.1,
            None => None,
        },
    }
}

/// The destinations of a source among the first, as they are shown.
pub open spec fn source_views(
    st: StateModel,
    s: SourceGroupConfigModel,
    now: Seq<char>,
    n: int,
) -> Seq<DestinationViewModel> {
    Seq::new(n as nat, |j: int| destination_view(st, s, s.destinations[j], now))
}

/// The destinations of sources, as they are shown.
pub open spec fn all_views(
    st: StateModel,
    ss: Seq<SourceGroupConfigModel>,
    now: Seq<char>,
) -> Seq<DestinationViewModel>
    decreases ss.len(),
{
    if ss.len() == 0 {
        Seq::empty()
    } else {
        all_views(st, ss.drop_last(), now) + source_views(
            st,
            ss.last(),
            now,
            ss.last().destinations.len() as int,
        )
    }
}

impl State {
    /// The destinations of a configuration, as they are shown.
    pub fn destination_views(&self, cfg: &AppConfig, now: &str) -> (out: Vec<DestinationView>)
        requires
            differences_fit(self@, cfg@.source_groups),
        ensures
            views(out@) == all_views(self@, cfg@.source_groups, now@),
    {
        let ghost ss = cfg@.source_groups;
        let mut out: Vec<DestinationView> = Vec::new();
        proof {
            assert(ss.take(0) =~= Seq::empty());
            assert(views(out@) =~= Seq::<DestinationViewModel>::empty());
        }
        for i in 0..cfg.source_groups.len()
            invariant
                ss == cfg@.source_groups,
                differences_fit(self@, ss),
                ss == views(cfg.source_groups@),
                views(out@) == all_views(self@, ss.take(i as int), now@),
        {
            let s = &cfg.source_groups[i];
            let sid = s.id.as_str();
            let ghost earlier = views(out@);
            proof {
                assert(ss[i as int] == s@);
                assert(ss.take(i + 1).drop_last() =~= ss.take(i as int));
                assert(earlier + source_views(self@, s@, now@, 0) =~= earlier);
            }
            let latest = self.latest_closed_cycle_id(sid);
            let (notice_at, gap): (Option<String>, Option<String>) = match self.restart_notice(sid) {
                Some((at, gap)) => (Some(at), gap),
                None => (None, None),
            };
            for j in 0..s.destinations.len()
                invariant
                    0 <= i < ss.len(),
                    ss[i as int] == s@,
                    differences_fit(self@, ss),
                    sid@ == s@.id,
                    latest == (match last_item(self@.cycles, not_open_of(s@.id)) {
                        Some(c) => Some(c.id),
                        None => None,
                    }),
                    opt_view(notice_at) == (match notice_of(self@, s@.id) {
                        Some(n) => Some(n.0),
                        None => None,
                    }),
                    opt_view(gap) == (match notice_of(self@, s@.id) {
                        Some(n) => n.1,
                        None => None,
                    }),
                    views(out@) == earlier + source_views(self@, s@, now@, j as int),
            {
                let d = &s.destinations[j];
                let did = d.id.as_str();
                let ghost was = views(out@);
                proof {
                    assert(s@.destinations[j as int] == d@);
                    assert(ss[i as int].destinations[j as int] == d@);
                }
                let offset = self.destination_offset(sid, did, now);
                let ghost row = row_or_blank(self@.offsets, s@.id, d@.id, now@);
                let behind = match offset.target_cycle_id {
                    Some(target) => match offset.last_verified_cycle_id {
                        Some(verified) => verified < target,
                        None => true,
                    },
                    None => false,
                };
                proof {
                    assert(behind == is_behind(row));
                }
                let status = if same(offset.status.as_str(), "green")
                    && offset.target_cycle_id.is_some() && !behind {
                    "green".to_string()
                } else if same(offset.status.as_str(), "yellow") {
                    "yellow".to_string()
                } else {
                    "red".to_string()
                };
                let reason = offset.status_reason.as_str();
                let status_reason = if behind && (same(reason, "not_verified") || same(
                    reason,
                    "pending_target_cycle",
                ) || same(reason, "verified")) {
                    "behind_target_cycle".to_string()
                } else {
                    reason.to_string()
                };
                let (scan_differences, scan_at) = self.last_comparison(sid, did);
                let view = DestinationView {
                    source_id: s.id.clone(),
                    destination_id: d.id.clone(),
                    path: d.path.clone(),
                    enabled: d.enabled,
                    latest_closed_cycle_id: latest,
                    target_cycle_id: offset.target_cycle_id,
                    last_verified_cycle_id: offset.last_verified_cycle_id,
                    last_completed_cycle_id: offset.last_completed_cycle_id,
                    status,
                    status_reason,
                    updated_at: Some(offset.updated_at),
                    issues: self.destination_issues(sid, did),
                    scan_differences,
                    scan_at,
                    restart_notice_at: clone_opt_string(&notice_at),
                    restart_gap_started: clone_opt_string(&gap),
                };
                let ghost vv = view@;
                out.push(view);
                proof {
                    assert(views(out@) =~= was.push(vv));
                    assert(vv == destination_view(self@, s@, d@, now@));
                    assert(was.push(vv) =~= earlier + source_views(self@, s@, now@, j + 1));
                }
            }
        }
        proof {
            assert(ss.take(ss.len() as int) =~= ss);
        }
        out
    }

    /// Whether the numbers of differences that are shown of the destinations of a configuration can be
    /// written down.
    pub fn can_show(&self, cfg: &AppConfig) -> (r: bool)
        ensures
            r == differences_fit(self@, cfg@.source_groups),
    {
        let ghost ss = cfg@.source_groups;
        for i in 0..cfg.source_groups.len()
            invariant
                ss == views(cfg.source_groups@),
                ss == cfg@.source_groups,
                forall|k: int, j: int|
                    #![trigger ss[k].destinations[j]]
                    0 <= k < i && 0 <= j < ss[k].destinations.len() ==> difference_fits(
                        self@,
                        ss[k].id,
                        ss[k].destinations[j].id,
                    ),
        {
            let s = &cfg.source_groups[i];
            proof {
                assert(ss[i as int] == s@);
            }
            for j in 0..s.destinations.len()
                invariant
                    0 <= i < ss.len(),
                    ss == cfg@.source_groups,
                    ss[i as int] == s@,
                    forall|k: int|
                        0 <= k < j ==> difference_fits(
                            self@,
                            s@.id,
                            (#[trigger] s@.destinations[k]).id,
                        ),
            {
                proof {
                    assert(s@.destinations[j as int] == s.destinations@[j as int]@);
                }
                if !self.can_count(s.id.as_str(), s.destinations[j].id.as_str()) {
                    proof {
                        assert(ss[i as int].destinations[j as int] == s@.destinations[j as int]);
                    }
                    return false;
                }
            }
        }
        true
    }

    /// Whether the number of differences that is shown of a destination can be written down.
    fn can_count(&self, source_id: &str, destination_id: &str) -> (r: bool)
        ensures
            r == difference_fits(self@, source_id@, destination_id@),
    {
        match self.get_scan_report(source_id, destination_id) {
            Some(report) => {
                let total: u128 = (report.to_add as u128) + (report.to_update as u128) + (
                report.to_delete as u128) + (report.type_mismatch as u128);
                !is_blank(report.error.as_str()) || total <= u64::MAX as u128
            },
            None => true,
        }
    }

    /// How many differences the last comparison of a destination found and when, unless it failed.
    fn last_comparison(&self, source_id: &str, destination_id: &str) -> (r: (
        Option<u64>,
        Option<String>,
    ))
        requires
            difference_fits(self@, source_id@, destination_id@),
        ensures
            ({
                let report = first_item(self@.reports, report_on(source_id@, destination_id@));
                let compared = report is Some && report->0.error.len() == 0;
                &&& r.0 == (if compared {
                    Some(difference_count(report->0) as u64)
                } else {
                    None
                })
                &&& opt_view(r.1) == (if compared {
                    Some(report->0.scanned_at)
                } else {
                    None
                })
            }),
    {
        match self.get_scan_report(source_id, destination_id) {
            Some(report) => {
                if same(report.error.as_str(), "") {
                    proof {
                        reveal_strlit("");
                    }
                    let total: u64 = report.to_add + report.to_update + report.to_delete
                        + report.type_mismatch;
                    (Some(total), Some(report.scanned_at))
                } else {
                    proof {
                        reveal_strlit("");
                        assert(report@.error.len() == 0 ==> report@.error =~= ""@);
                    }
                    (None, None)
                }
            },
            None => (None, None),
        }
    }
}

/// A cycle as it is read from storage, with its moments as texts and its flags as numbers; nothing
/// where a text gives no moment.
pub open spec fn read_cycle(
    id: i64,
    source_id: Seq<char>,
    starts_at: Seq<char>,
    ends_at: Option<Seq<char>>,
    status: Seq<char>,
    flags: (i64, i64, i64),
) -> Option<CycleModel> {
    let start = stored_moment(starts_at);
    let end = match ends_at {
        Some(t) => stored_moment(t),
        None => None,
    };
    if start is Some && (ends_at is Some ==> end is Some) {
        Some(
            CycleModel {
                id,
                source_id,
                starts_at: start->0,
                ends_at: end,
                status,
                needs_full_rescan: flags.0 != 0,
                manual_full_rescan: flags.1 != 0,
                manual_changed_since_rescan: flags.2 != 0,
            },
        )
    } else {
        None
    }
}

/// A cycle as it is read from storage.
pub fn cycle_from_row(
    id: i64,
    source_id: String,
    starts_at: &str,
    ends_at: Option<String>,
    status: String,
    flags: (i64, i64, i64),
) -> (r: Option<Cycle>)
    ensures
        opt_view(r) == read_cycle(id, source_id@, starts_at@, opt_view(ends_at), status@, flags),
{
    let start: Moment = match parse_db_time(starts_at) {
        Some(m) => m,
        None => {
            return None;
        },
    };
    let end: Option<Moment> = match &ends_at {
        Some(text) => match parse_db_time(text.as_str()) {
            Some(m) => Some(m),
            None => {
                return None;
            },
        },
        None => None,
    };
    Some(
        Cycle {
            id,
            source_id,
            starts_at: start,
            ends_at: end,
            status,
            needs_full_rescan: flags.0 != 0,
            manual_full_rescan: flags.1 != 0,
            manual_changed_since_rescan: flags.2 != 0,
        },
    )
}

/// A destination that is shown green has reached its target.
pub proof fn green_means_verified(
    st: StateModel,
    s: SourceGroupConfigModel,
    d: DestinationConfigModel,
    now: Seq<char>,
)
    requires
        destination_view(st, s, d, now).status == "green"@,
    ensures
        ({
            let v = destination_view(st, s, d, now);
            v.target_cycle_id is Some && v.last_verified_cycle_id is Some
                && v.last_verified_cycle_id->0 >= v.target_cycle_id->0
        }),
{
    reveal_strlit("green");
    reveal_strlit("yellow");
    reveal_strlit("red");
    assert("green"@.len() == 5 && "yellow"@.len() == 6 && "red"@.len() == 3);
}

} // verus!
