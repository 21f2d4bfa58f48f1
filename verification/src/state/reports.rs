//! Reports of comparisons, and where journals were read up to.

use crate::seqs::{first_item, first_where, lemma_first_where, lemma_first_where_is};
use crate::state::types::{
    ScanReport, ScanReportModel, State, StateModel, UsnRow, UsnRowModel, WindowsUsnCursor,
};
use crate::text::{opt_view, same, views};
use vstd::prelude::*;

verus! {

/// The test for the report on a destination.
pub open spec fn report_on(source_id: Seq<char>, destination_id: Seq<char>) -> spec_fn(
    ScanReportModel,
) -> bool {
    |r: ScanReportModel| r.source_id == source_id && r.destination_id == destination_id
}

/// The test for reports on other destinations.
pub open spec fn report_on_other(source_id: Seq<char>, destination_id: Seq<char>) -> spec_fn(
    ScanReportModel,
) -> bool {
    |r: ScanReportModel| !(r.source_id == source_id && r.destination_id == destination_id)
}

/// The reports with the one on its destination replaced, or added where there was none.
pub open spec fn with_report(rs: Seq<ScanReportModel>, report: ScanReportModel) -> Seq<
    ScanReportModel,
> {
    let k = first_where(rs, report_on(report.source_id, report.destination_id));
    if k < rs.len() {
        rs.update(k, report)
    } else {
        rs.push(report)
    }
}

/// The test for the journal of a source.
pub open spec fn journal_of(source_id: Seq<char>) -> spec_fn(UsnRowModel) -> bool {
    |r: UsnRowModel| r.source_id == source_id
}

/// The test for the journal of a source on a volume.
pub open spec fn journal_on(source_id: Seq<char>, volume: Seq<char>) -> spec_fn(
    UsnRowModel,
) -> bool {
    |r: UsnRowModel| r.source_id == source_id && r.volume == volume
}

/// The journals with that of a source replaced, or added where there was none.
pub open spec fn with_journal(rs: Seq<UsnRowModel>, row: UsnRowModel) -> Seq<UsnRowModel> {
    let k = first_where(rs, journal_of(row.source_id));
    if k < rs.len() {
        rs.update(k, row)
    } else {
        rs.push(row)
    }
}

impl State {
    /// The index of the report on a destination, or the number of reports.
    fn find_report(&self, source_id: &str, destination_id: &str) -> (r: usize)
        ensures
            r == first_where(self@.reports, report_on(source_id@, destination_id@)),
            r <= self.reports.len(),
    {
        let ghost rs = self@.reports;
        let ghost test = report_on(source_id@, destination_id@);
        for i in 0..self.reports.len()
            invariant
                rs == views(self.reports@),
                rs == self@.reports,
                test == report_on(source_id@, destination_id@),
                forall|j: int| 0 <= j < i ==> !test(#[trigger] rs[j]),
        {
            proof {
                assert(rs[i as int] == self.reports@[i as int]@);
            }
            if same(self.reports[i].source_id.as_str(), source_id) && same(
                self.reports[i].destination_id.as_str(),
                destination_id,
            ) {
                proof {
                    lemma_first_where_is(rs, test, i as int);
                }
                return i;
            }
        }
        proof {
            lemma_first_where_is(rs, test, rs.len() as int);
        }
        self.reports.len()
    }

    /// Keeps a report, in place of an earlier one on the same destination.
    pub fn put_scan_report(&mut self, report: &ScanReport)
        ensures
            final(self)@ == (StateModel {
                reports: with_report(old(self)@.reports, report@),
                ..old(self)@
            }),
    {
        let ghost rs = self@.reports;
        let k = self.find_report(report.source_id.as_str(), report.destination_id.as_str());
        if k < self.reports.len() {
            self.reports.set(k, report.clone());
            proof {
                assert(self@.reports =~= rs.update(k as int, report@));
            }
        } else {
            self.reports.push(report.clone());
            proof {
                assert(self@.reports =~= rs.push(report@));
            }
        }
    }

    /// The report on a destination.
    pub fn get_scan_report(&self, source_id: &str, destination_id: &str) -> (r: Option<ScanReport>)
        ensures
            opt_view(r) == first_item(self@.reports, report_on(source_id@, destination_id@)),
    {
        let k = self.find_report(source_id, destination_id);
        if k < self.reports.len() {
            proof {
                assert(self@.reports[k as int] == self.reports@[k as int]@);
            }
            Some(self.reports[k].clone())
        } else {
            None
        }
    }

    /// Drops the report on a destination.
    pub fn delete_scan_report(&mut self, source_id: &str, destination_id: &str)
        ensures
            final(self)@ == (StateModel {
                reports: old(self)@.reports.filter(report_on_other(source_id@, destination_id@)),
                ..old(self)@
            }),
    {
        let ghost all = self@.reports;
        let ghost keep = report_on_other(source_id@, destination_id@);
        let n: usize = self.reports.len();
        let mut kept: Vec<ScanReport> = Vec::new();
        proof {
            assert(views(kept@) =~= all.take(0).filter(keep));
        }
        for i in 0..n
            invariant
                n == self.reports.len(),
                *self == *old(self),
                all == views(self.reports@),
                keep == report_on_other(source_id@, destination_id@),
                views(kept@) == all.take(i as int).filter(keep),
        {
            let r = &self.reports[i];
            let ghost was = views(kept@);
            proof {
                assert(all[i as int] == r@);
                assert(all.take(i + 1) =~= all.take(i as int).push(r@));
                all.take(i as int).lemma_filter_push(r@, keep);
            }
            if !(same(r.source_id.as_str(), source_id) && same(
                r.destination_id.as_str(),
                destination_id,
            )) {
                kept.push(r.clone());
                proof {
                    assert(views(kept@) =~= was.push(r@));
                }
            }
        }
        proof {
            assert(all.take(all.len() as int) =~= all);
        }
        self.reports = kept;
    }

    /// Where the journal of a source on a volume was read up to.
    pub fn windows_usn_cursor(&self, source_id: &str, volume: &str) -> (r: Option<WindowsUsnCursor>)
        ensures
            r == (match first_item(self@.cursors, journal_on(source_id@, volume@)) {
                Some(row) => Some(
                    WindowsUsnCursor { journal_id: row.journal_id, next_usn: row.next_usn },
                ),
                None => None,
            }),
    {
        let ghost rs = self@.cursors;
        let ghost test = journal_on(source_id@, volume@);
        for i in 0..self.cursors.len()
            invariant
                rs == views(self.cursors@),
                rs == self@.cursors,
                test == journal_on(source_id@, volume@),
                forall|j: int| 0 <= j < i ==> !test(#[trigger] rs[j]),
        {
            let row = &self.cursors[i];
            proof {
                assert(rs[i as int] == row@);
            }
            if same(row.source_id.as_str(), source_id) && same(row.volume.as_str(), volume) {
                proof {
                    lemma_first_where_is(rs, test, i as int);
                }
                return Some(
                    WindowsUsnCursor { journal_id: row.journal_id, next_usn: row.next_usn },
                );
            }
        }
        proof {
            lemma_first_where_is(rs, test, rs.len() as int);
        }
        None
    }

    /// Records where the journal of a source was read up to; a source has one volume.
    pub fn set_windows_usn_cursor(
        &mut self,
        source_id: &str,
        volume: &str,
        journal_id: u64,
        next_usn: i64,
    )
        ensures
            final(self)@ == (StateModel {
                cursors: with_journal(
                    old(self)@.cursors,
                    UsnRowModel { source_id: source_id@, volume: volume@, journal_id, next_usn },
                ),
                ..old(self)@
            }),
    {
        let ghost rs = self@.cursors;
        let ghost test = journal_of(source_id@);
        let row = UsnRow {
            source_id: source_id.to_string(),
            volume: volume.to_string(),
            journal_id,
            next_usn,
        };
        let ghost rv = row@;
        let mut k: usize = 0;
        while k < self.cursors.len() && !same(self.cursors[k].source_id.as_str(), source_id)
            invariant
                k <= self.cursors.len(),
                *self == *old(self),
                rs == views(self.cursors@),
                test == journal_of(source_id@),
                forall|j: int| 0 <= j < k ==> !test(#[trigger] rs[j]),
            decreases self.cursors.len() - k,
        {
            proof {
                assert(rs[k as int] == self.cursors@[k as int]@);
            }
            k = k + 1;
        }
        proof {
            if k < rs.len() {
                assert(rs[k as int] == self.cursors@[k as int]@);
            }
            lemma_first_where_is(rs, test, k as int);
        }
        if k < self.cursors.len() {
            self.cursors.set(k, row);
            proof {
                assert(self@.cursors =~= rs.update(k as int, rv));
            }
        } else {
            self.cursors.push(row);
            proof {
                assert(self@.cursors =~= rs.push(rv));
            }
        }
    }
}

/// A report that was kept is read back.
pub proof fn kept_report_is_read_back(rs: Seq<ScanReportModel>, report: ScanReportModel)
    ensures
        first_item(
            with_report(rs, report),
            report_on(report.source_id, report.destination_id),
        ) == Some(report),
{
    let test = report_on(report.source_id, report.destination_id);
    let k = first_where(rs, test);
    lemma_first_where(rs, test);
    let now = with_report(rs, report);
    assert forall|j: int| 0 <= j < k implies !test(#[trigger] now[j]) by {
        assert(!test(rs[j]));
    }
    lemma_first_where_is(now, test, k);
}

/// Whether no source has two journals.
pub open spec fn one_journal_each(rs: Seq<UsnRowModel>) -> bool {
    forall|i: int, j: int|
        0 <= i < j < rs.len() ==> (#[trigger] rs[i]).source_id != (#[trigger] rs[j]).source_id
}

/// Where a journal was recorded to be read up to is read back, for its volume and no other; no
/// source comes to have two journals.
pub proof fn recorded_journal_is_read_back(
    rs: Seq<UsnRowModel>,
    row: UsnRowModel,
    volume: Seq<char>,
)
    requires
        one_journal_each(rs),
    ensures
        one_journal_each(with_journal(rs, row)),
        first_item(with_journal(rs, row), journal_on(row.source_id, volume)) == (if volume
            == row.volume {
            Some(row)
        } else {
            None
        }),
{
    let test = journal_of(row.source_id);
    let k = first_where(rs, test);
    lemma_first_where(rs, test);
    let now = with_journal(rs, row);
    assert forall|i: int, j: int| 0 <= i < j < now.len() implies (#[trigger] now[i]).source_id != (
    #[trigger] now[j]).source_id by {
        if j == rs.len() {
            assert(!test(rs[i]));
        } else {
            assert(rs[i].source_id != rs[j].source_id);
        }
    }
    let on = journal_on(row.source_id, volume);
    assert(now[k] == row);
    assert forall|j: int| 0 <= j < now.len() && j != k implies !on(#[trigger] now[j]) by {
        if j < k {
            assert(now[j].source_id != now[k].source_id);
        } else {
            assert(now[k].source_id != now[j].source_id);
        }
    }
    if volume == row.volume {
        lemma_first_where_is(now, on, k);
    } else {
        lemma_first_where_is(now, on, now.len() as int);
    }
}

} // verus!
