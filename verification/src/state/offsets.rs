//! How far destinations have come.

use crate::config::types::{AppConfig, AppConfigModel, SourceGroupConfig, SourceGroupConfigModel};
use crate::seqs::{first_item, first_where, lemma_first_where, lemma_first_where_is};
use crate::sorted::{insert_sorted, sorted_set};
use crate::state::types::{
    DestinationOffset, DestinationOffsetModel, IssueRow, IssueRowModel, OffsetRow, OffsetRowModel,
    State, StateModel,
};
use crate::text::{opt_view, same, views};
use vstd::prelude::*;

verus! {

/// The test for the row of a destination.
pub open spec fn row_of(source_id: Seq<char>, destination_id: Seq<char>) -> spec_fn(
    OffsetRowModel,
) -> bool {
    |r: OffsetRowModel| r.source_id == source_id && r.destination_id == destination_id
}

/// The row of a destination, where there is one.
pub open spec fn offset_row(
    rows: Seq<OffsetRowModel>,
    source_id: Seq<char>,
    destination_id: Seq<char>,
) -> Option<OffsetRowModel> {
    first_item(rows, row_of(source_id, destination_id))
}

/// The rows after that of a destination was replaced, or added where there was none.
pub open spec fn with_offset_row(rows: Seq<OffsetRowModel>, row: OffsetRowModel) -> Seq<
    OffsetRowModel,
> {
    let k = first_where(rows, row_of(row.source_id, row.destination_id));
    if k < rows.len() {
        rows.update(k, row)
    } else {
        rows.push(row)
    }
}

/// The row of a destination of which nothing is known.
pub open spec fn blank_row(
    source_id: Seq<char>,
    destination_id: Seq<char>,
    reason: Seq<char>,
    now: Seq<char>,
) -> OffsetRowModel {
    OffsetRowModel {
        source_id,
        destination_id,
        target_cycle_id: None,
        last_completed_cycle_id: None,
        last_verified_cycle_id: None,
        status: "red"@,
        status_reason: reason,
        updated_at: now,
        verified_snapshot: None,
        verified_dst_snapshot: None,
    }
}

/// The row of a destination, or a blank one.
pub open spec fn row_or_blank(
    rows: Seq<OffsetRowModel>,
    source_id: Seq<char>,
    destination_id: Seq<char>,
    now: Seq<char>,
) -> OffsetRowModel {
    match offset_row(rows, source_id, destination_id) {
        Some(r) => r,
        None => blank_row(source_id, destination_id, "not_verified"@, now),
    }
}

/// A row as it is read.
pub open spec fn read_offset(r: OffsetRowModel) -> DestinationOffsetModel {
    DestinationOffsetModel {
        target_cycle_id: r.target_cycle_id,
        last_completed_cycle_id: r.last_completed_cycle_id,
        last_verified_cycle_id: r.last_verified_cycle_id,
        status: r.status,
        status_reason: r.status_reason,
        updated_at: r.updated_at,
    }
}

/// The test for problems of other destinations.
pub open spec fn other_issue(source_id: Seq<char>, destination_id: Seq<char>) -> spec_fn(
    IssueRowModel,
) -> bool {
    |i: IssueRowModel| !(i.source_id == source_id && i.destination_id == destination_id)
}

/// The state without the problems of a destination.
pub open spec fn issues_cleared(
    st: StateModel,
    source_id: Seq<char>,
    destination_id: Seq<char>,
) -> StateModel {
    StateModel { issues: st.issues.filter(other_issue(source_id, destination_id)), ..st }
}

/// The state with the row of a destination replaced.
pub open spec fn row_put(st: StateModel, row: OffsetRowModel) -> StateModel {
    StateModel { offsets: with_offset_row(st.offsets, row), ..st }
}

/// The state with a change of a source noted.
pub open spec fn change_noted(st: StateModel, source_id: Seq<char>) -> StateModel {
    StateModel { changes: st.changes.push(source_id), ..st }
}

/// The state in which there is a row for a destination.
pub open spec fn row_ensured(
    st: StateModel,
    source_id: Seq<char>,
    destination_id: Seq<char>,
    now: Seq<char>,
) -> StateModel {
    if offset_row(st.offsets, source_id, destination_id) is Some {
        st
    } else {
        row_put(st, blank_row(source_id, destination_id, "not_verified"@, now))
    }
}

/// The state after a destination was given a target: it is behind until it was verified there.
pub open spec fn target_set(
    st: StateModel,
    source_id: Seq<char>,
    destination_id: Seq<char>,
    target: i64,
    now: Seq<char>,
) -> StateModel {
    let cleared = issues_cleared(st, source_id, destination_id);
    let row = row_or_blank(cleared.offsets, source_id, destination_id, now);
    change_noted(
        row_put(
            cleared,
            OffsetRowModel {
                target_cycle_id: Some(target),
                status: "red"@,
                status_reason: "pending_target_cycle"@,
                updated_at: now,
                ..row
            },
        ),
        source_id,
    )
}

/// The state after the target of a destination was dropped; what was verified stays.
pub open spec fn target_cleared(
    st: StateModel,
    source_id: Seq<char>,
    destination_id: Seq<char>,
    reason: Seq<char>,
    now: Seq<char>,
) -> StateModel {
    change_noted(
        match offset_row(st.offsets, source_id, destination_id) {
            Some(row) => row_put(
                st,
                OffsetRowModel {
                    target_cycle_id: None,
                    status: "red"@,
                    status_reason: reason,
                    updated_at: now,
                    ..row
                },
            ),
            None => st,
        },
        source_id,
    )
}

/// The state after all that was known of a destination was forgotten.
pub open spec fn offset_reset(
    st: StateModel,
    source_id: Seq<char>,
    destination_id: Seq<char>,
    reason: Seq<char>,
    now: Seq<char>,
) -> StateModel {
    row_put(
        issues_cleared(st, source_id, destination_id),
        blank_row(source_id, destination_id, reason, now),
    )
}

/// The second value where there is one, else the first.
pub open spec fn newer(old_value: Option<i64>, new_value: Option<i64>) -> Option<i64> {
    if new_value is Some {
        new_value
    } else {
        old_value
    }
}

/// The state after the status of a destination was set; a cycle is recorded only where one is
/// given.
pub open spec fn status_put(
    st: StateModel,
    source_id: Seq<char>,
    destination_id: Seq<char>,
    verified: Option<i64>,
    status: Seq<char>,
    reason: Seq<char>,
    now: Seq<char>,
) -> StateModel {
    let row = row_or_blank(st.offsets, source_id, destination_id, now);
    change_noted(
        row_put(
            st,
            OffsetRowModel {
                last_completed_cycle_id: newer(row.last_completed_cycle_id, verified),
                last_verified_cycle_id: newer(row.last_verified_cycle_id, verified),
                status,
                status_reason: reason,
                updated_at: now,
                ..row
            },
        ),
        source_id,
    )
}

/// Whether a configuration knows a destination.
pub open spec fn knows_destination(
    cfg: AppConfigModel,
    source_id: Seq<char>,
    destination_id: Seq<char>,
) -> bool {
    exists|i: int|
        0 <= i < cfg.source_groups.len() && (#[trigger] cfg.source_groups[i]).id == source_id
            && has_destination(cfg.source_groups[i], destination_id)
}

/// Whether a source has a destination.
pub open spec fn has_destination(s: SourceGroupConfigModel, destination_id: Seq<char>) -> bool {
    exists|j: int|
        0 <= j < s.destinations.len() && (#[trigger] s.destinations[j]).id == destination_id
}

/// The test for rows of destinations that the configuration knows.
pub open spec fn known_row(cfg: AppConfigModel) -> spec_fn(OffsetRowModel) -> bool {
    |r: OffsetRowModel| knows_destination(cfg, r.source_id, r.destination_id)
}

/// The snapshot of a destination that the configuration does not know.
pub open spec fn orphan_snapshot(cfg: AppConfigModel) -> spec_fn(OffsetRowModel) -> Option<
    Seq<char>,
> {
    |r: OffsetRowModel|
        if knows_destination(cfg, r.source_id, r.destination_id) {
            None
        } else {
            r.verified_dst_snapshot
        }
}

/// The snapshot that a destination of a source was verified against.
pub open spec fn referenced(source_id: Seq<char>) -> spec_fn(OffsetRowModel) -> Option<Seq<char>> {
    |r: OffsetRowModel|
        if r.source_id == source_id {
            r.verified_snapshot
        } else {
            None
        }
}

impl State {
    /// The index of the row of a destination, or the number of rows.
    fn find_offset(&self, source_id: &str, destination_id: &str) -> (r: usize)
        ensures
            r == first_where(self@.offsets, row_of(source_id@, destination_id@)),
            r <= self.offsets.len(),
    {
        let ghost rs = self@.offsets;
        let ghost test = row_of(source_id@, destination_id@);
        for i in 0..self.offsets.len()
            invariant
                rs == views(self.offsets@),
                rs == self@.offsets,
                test == row_of(source_id@, destination_id@),
                forall|j: int| 0 <= j < i ==> !test(#[trigger] rs[j]),
        {
            proof {
                assert(rs[i as int] == self.offsets@[i as int]@);
            }
            if same(self.offsets[i].source_id.as_str(), source_id) && same(
                self.offsets[i].destination_id.as_str(),
                destination_id,
            ) {
                proof {
                    lemma_first_where_is(rs, test, i as int);
                }
                return i;
            }
        }
        proof {
            lemma_first_where_is(rs, test, rs.len() as int);
        }
        self.offsets.len()
    }

    /// The row of a destination, where there is one.
    fn get_offset(&self, source_id: &str, destination_id: &str) -> (r: Option<OffsetRow>)
        ensures
            opt_view(r) == offset_row(self@.offsets, source_id@, destination_id@),
            r is Some ==> r->0@.source_id == source_id@ && r->0@.destination_id == destination_id@,
    {
        let k = self.find_offset(source_id, destination_id);
        proof {
            lemma_first_where(self@.offsets, row_of(source_id@, destination_id@));
        }
        if k < self.offsets.len() {
            proof {
                assert(self@.offsets[k as int] == self.offsets@[k as int]@);
            }
            Some(self.offsets[k].clone())
        } else {
            None
        }
    }

    /// The row of a destination of which nothing is known.
    fn new_row(source_id: &str, destination_id: &str, reason: &str, now: &str) -> (r: OffsetRow)
        ensures
            r@ == blank_row(source_id@, destination_id@, reason@, now@),
    {
        OffsetRow {
            source_id: source_id.to_string(),
            destination_id: destination_id.to_string(),
            target_cycle_id: None,
            last_completed_cycle_id: None,
            last_verified_cycle_id: None,
            status: "red".to_string(),
            status_reason: reason.to_string(),
            updated_at: now.to_string(),
            verified_snapshot: None,
            verified_dst_snapshot: None,
        }
    }

    /// The row of a destination, or a blank one.
    fn offset_or_blank(&self, source_id: &str, destination_id: &str, now: &str) -> (r: OffsetRow)
        ensures
            r@ == row_or_blank(self@.offsets, source_id@, destination_id@, now@),
            r@.source_id == source_id@,
            r@.destination_id == destination_id@,
    {
        match self.get_offset(source_id, destination_id) {
            Some(row) => row,
            None => State::new_row(source_id, destination_id, "not_verified", now),
        }
    }

    /// Replaces the row of a destination, or adds it.
    fn put_offset(&mut self, row: OffsetRow)
        ensures
            final(self)@ == row_put(old(self)@, row@),
    {
        let ghost rs = self@.offsets;
        let ghost rv = row@;
        let k = self.find_offset(row.source_id.as_str(), row.destination_id.as_str());
        if k < self.offsets.len() {
            self.offsets.set(k, row);
            proof {
                assert(self@.offsets =~= rs.update(k as int, rv));
            }
        } else {
            self.offsets.push(row);
            proof {
                assert(self@.offsets =~= rs.push(rv));
            }
        }
    }

    /// How far a destination has come.
    pub fn destination_offset(&self, source_id: &str, destination_id: &str, now: &str) -> (r:
        DestinationOffset)
        ensures
            r@ == read_offset(row_or_blank(self@.offsets, source_id@, destination_id@, now@)),
    {
        let row = self.offset_or_blank(source_id, destination_id, now);
        DestinationOffset {
            target_cycle_id: row.target_cycle_id,
            last_completed_cycle_id: row.last_completed_cycle_id,
            last_verified_cycle_id: row.last_verified_cycle_id,
            status: row.status,
            status_reason: row.status_reason,
            updated_at: row.updated_at,
        }
    }

    /// The cycle that a destination is to reach.
    pub fn destination_target_cycle(&self, source_id: &str, destination_id: &str) -> (r: Option<i64>)
        ensures
            r == (match offset_row(self@.offsets, source_id@, destination_id@) {
                Some(row) => row.target_cycle_id,
                None => None,
            }),
    {
        match self.get_offset(source_id, destination_id) {
            Some(row) => row.target_cycle_id,
            None => None,
        }
    }

    /// The last cycle that a destination was verified to have reached.
    pub fn destination_last_verified(&self, source_id: &str, destination_id: &str) -> (r: Option<
        i64,
    >)
        ensures
            r == (match offset_row(self@.offsets, source_id@, destination_id@) {
                Some(row) => row.last_verified_cycle_id,
                None => None,
            }),
    {
        match self.get_offset(source_id, destination_id) {
            Some(row) => row.last_verified_cycle_id,
            None => None,
        }
    }

    /// The snapshot of the source that a destination was last verified against.
    pub fn destination_verified_snapshot(&self, source_id: &str, destination_id: &str) -> (r: Option<
        String,
    >)
        ensures
            opt_view(r) == (match offset_row(self@.offsets, source_id@, destination_id@) {
                Some(row) => row.verified_snapshot,
                None => None,
            }),
    {
        match self.get_offset(source_id, destination_id) {
            Some(row) => row.verified_snapshot,
            None => None,
        }
    }

    /// The snapshot of the destination that was taken when it was last verified.
    pub fn destination_verified_dst_snapshot(&self, source_id: &str, destination_id: &str) -> (r:
        Option<String>)
        ensures
            opt_view(r) == (match offset_row(self@.offsets, source_id@, destination_id@) {
                Some(row) => row.verified_dst_snapshot,
                None => None,
            }),
    {
        match self.get_offset(source_id, destination_id) {
            Some(row) => row.verified_dst_snapshot,
            None => None,
        }
    }

    /// Records the snapshot of the source that a destination was verified against; nothing happens
    /// without a row.
    pub fn set_destination_verified_snapshot(
        &mut self,
        source_id: &str,
        destination_id: &str,
        snapshot: Option<String>,
        now: &str,
    )
        ensures
            final(self)@ == (match offset_row(old(self)@.offsets, source_id@, destination_id@) {
                Some(row) => row_put(
                    old(self)@,
                    (OffsetRowModel {
                        verified_snapshot: opt_view(snapshot),
                        updated_at: now@,
                        ..row
                    }),
                ),
                None => old(self)@,
            }),
    {
        match self.get_offset(source_id, destination_id) {
            Some(row) => {
                let mut row = row;
                row.verified_snapshot = snapshot;
                row.updated_at = now.to_string();
                self.put_offset(row);
            },
            None => {},
        }
    }

    /// Records the snapshot of the destination that was taken when it was verified; nothing happens
    /// without a row.
    pub fn set_destination_verified_dst_snapshot(
        &mut self,
        source_id: &str,
        destination_id: &str,
        snapshot: Option<String>,
        now: &str,
    )
        ensures
            final(self)@ == (match offset_row(old(self)@.offsets, source_id@, destination_id@) {
                Some(row) => row_put(
                    old(self)@,
                    (OffsetRowModel {
                        verified_dst_snapshot: opt_view(snapshot),
                        updated_at: now@,
                        ..row
                    }),
                ),
                None => old(self)@,
            }),
    {
        match self.get_offset(source_id, destination_id) {
            Some(row) => {
                let mut row = row;
                row.verified_dst_snapshot = snapshot;
                row.updated_at = now.to_string();
                self.put_offset(row);
            },
            None => {},
        }
    }

    /// Makes sure that there is a row for a destination.
    pub fn ensure_destination_offset(&mut self, source_id: &str, destination_id: &str, now: &str)
        ensures
            final(self)@ == row_ensured(old(self)@, source_id@, destination_id@, now@),
    {
        match self.get_offset(source_id, destination_id) {
            Some(_) => {},
            None => {
                let row = State::new_row(source_id, destination_id, "not_verified", now);
                self.put_offset(row);
            },
        }
    }

    /// Forgets the problems of a destination.
    pub fn clear_destination_issues(&mut self, source_id: &str, destination_id: &str)
        ensures
            final(self)@ == issues_cleared(old(self)@, source_id@, destination_id@),
    {
        let ghost all = self@.issues;
        let ghost keep = other_issue(source_id@, destination_id@);
        let n: usize = self.issues.len();
        let mut kept: Vec<IssueRow> = Vec::new();
        proof {
            assert(views(kept@) =~= all.take(0).filter(keep));
        }
        for i in 0..n
            invariant
                n == self.issues.len(),
                *self == *old(self),
                all == views(self.issues@),
                keep == other_issue(source_id@, destination_id@),
                views(kept@) == all.take(i as int).filter(keep),
        {
            let issue = &self.issues[i];
            let ghost was = views(kept@);
            proof {
                assert(all[i as int] == issue@);
                assert(all.take(i + 1) =~= all.take(i as int).push(issue@));
                all.take(i as int).lemma_filter_push(issue@, keep);
            }
            if !(same(issue.source_id.as_str(), source_id) && same(
                issue.destination_id.as_str(),
                destination_id,
            )) {
                kept.push(issue.clone());
                proof {
                    assert(views(kept@) =~= was.push(issue@));
                }
            }
        }
        proof {
            assert(all.take(all.len() as int) =~= all);
        }
        self.issues = kept;
    }

    /// Gives a destination a target.
    pub fn set_destination_target(
        &mut self,
        source_id: &str,
        destination_id: &str,
        target_cycle_id: i64,
        now: &str,
    )
        ensures
            final(self)@ == target_set(
                old(self)@,
                source_id@,
                destination_id@,
                target_cycle_id,
                now@,
            ),
    {
        self.clear_destination_issues(source_id, destination_id);
        let mut row = self.offset_or_blank(source_id, destination_id, now);
        row.target_cycle_id = Some(target_cycle_id);
        row.status = "red".to_string();
        row.status_reason = "pending_target_cycle".to_string();
        row.updated_at = now.to_string();
        self.put_offset(row);
        self.note_change(source_id);
    }

    /// Drops the target of a destination; what was verified stays.
    pub fn clear_destination_target(
        &mut self,
        source_id: &str,
        destination_id: &str,
        reason: &str,
        now: &str,
    )
        ensures
            final(self)@ == target_cleared(
                old(self)@,
                source_id@,
                destination_id@,
                reason@,
                now@,
            ),
    {
        match self.get_offset(source_id, destination_id) {
            Some(row) => {
                let mut row = row;
                row.target_cycle_id = None;
                row.status = "red".to_string();
                row.status_reason = reason.to_string();
                row.updated_at = now.to_string();
                self.put_offset(row);
            },
            None => {},
        }
        self.note_change(source_id);
    }

    /// Forgets all that was known of a destination.
    pub fn reset_destination_offset(
        &mut self,
        source_id: &str,
        destination_id: &str,
        reason: &str,
        now: &str,
    )
        ensures
            final(self)@ == offset_reset(old(self)@, source_id@, destination_id@, reason@, now@),
    {
        self.clear_destination_issues(source_id, destination_id);
        let row = State::new_row(source_id, destination_id, reason, now);
        self.put_offset(row);
    }

    /// Sets the status of a destination; a cycle is recorded only where one is given.
    pub fn upsert_destination_status(
        &mut self,
        source_id: &str,
        destination_id: &str,
        last_verified_cycle_id: Option<i64>,
        status: &str,
        reason: &str,
        now: &str,
    )
        ensures
            final(self)@ == status_put(
                old(self)@,
                source_id@,
                destination_id@,
                last_verified_cycle_id,
                status@,
                reason@,
                now@,
            ),
    {
        let mut row = self.offset_or_blank(source_id, destination_id, now);
        match last_verified_cycle_id {
            Some(id) => {
                row.last_completed_cycle_id = Some(id);
                row.last_verified_cycle_id = Some(id);
            },
            None => {},
        }
        row.status = status.to_string();
        row.status_reason = reason.to_string();
        row.updated_at = now.to_string();
        self.put_offset(row);
        self.note_change(source_id);
    }

    /// Whether a destination of a source has a cycle as its target.
    pub fn source_has_target_cycle(&self, source_id: &str, cycle_id: i64) -> (r: bool)
        ensures
            r == exists|i: int|
                0 <= i < self@.offsets.len() && (#[trigger] self@.offsets[i]).source_id
                    == source_id@ && self@.offsets[i].target_cycle_id == Some(cycle_id),
    {
        for i in 0..self.offsets.len()
            invariant
                forall|j: int|
                    0 <= j < i ==> !((#[trigger] self@.offsets[j]).source_id == source_id@
                        && self@.offsets[j].target_cycle_id == Some(cycle_id)),
        {
            proof {
                assert(self@.offsets[i as int] == self.offsets@[i as int]@);
            }
            let is_target = match self.offsets[i].target_cycle_id {
                Some(t) => t == cycle_id,
                None => false,
            };
            if is_target && same(self.offsets[i].source_id.as_str(), source_id) {
                return true;
            }
        }
        false
    }

    /// The snapshots that destinations of a source were verified against, sorted and without
    /// repeats: they must not be removed.
    pub fn source_referenced_snapshots(&self, source_id: &str) -> (out: Vec<String>)
        ensures
            views(out@) == sorted_set(self@.offsets.filter_map(referenced(source_id@))),
    {
        let ghost rs = self@.offsets;
        let ghost f = referenced(source_id@);
        let mut out: Vec<String> = Vec::new();
        proof {
            assert(rs.take(0) =~= Seq::empty());
            assert(rs.take(0).filter_map(f) =~= Seq::<Seq<char>>::empty());
            assert(views(out@) =~= sorted_set(rs.take(0).filter_map(f)));
        }
        for i in 0..self.offsets.len()
            invariant
                rs == views(self.offsets@),
                f == referenced(source_id@),
                views(out@) == sorted_set(rs.take(i as int).filter_map(f)),
        {
            let row = &self.offsets[i];
            let ghost before = rs.take(i as int).filter_map(f);
            proof {
                assert(rs[i as int] == row@);
                rs.lemma_filter_map_take_succ(f, i as int);
            }
            let mut name: Option<String> = None;
            if same(row.source_id.as_str(), source_id) {
                name = crate::config::types::clone_opt_string(&row.verified_snapshot);
            }
            proof {
                assert(opt_view(name) == f(row@));
            }
            match name {
                Some(n) => {
                    proof {
                        assert(rs.take(i + 1).filter_map(f) =~= before.push(n@));
                        assert(before.push(n@).drop_last() =~= before);
                    }
                    insert_sorted(&mut out, n);
                },
                None => {
                    proof {
                        assert(rs.take(i + 1).filter_map(f) =~= before);
                    }
                },
            }
        }
        proof {
            assert(rs.take(rs.len() as int) =~= rs);
        }
        out
    }

    /// Forgets destinations that the configuration does not know, whether or not they are switched
    /// on, and gives the snapshots that were taken on them.
    pub fn prune_removed_destination_offsets(&mut self, cfg: &AppConfig) -> (orphans: Vec<String>)
        ensures
            final(self)@ == (StateModel {
                offsets: old(self)@.offsets.filter(known_row(cfg@)),
                ..old(self)@
            }),
            views(orphans@) == old(self)@.offsets.filter_map(orphan_snapshot(cfg@)),
    {
        let ghost rs = self@.offsets;
        let ghost keep = known_row(cfg@);
        let ghost f = orphan_snapshot(cfg@);
        let n: usize = self.offsets.len();
        let mut kept: Vec<OffsetRow> = Vec::new();
        let mut orphans: Vec<String> = Vec::new();
        proof {
            assert(rs.take(0) =~= Seq::empty());
            assert(views(kept@) =~= rs.take(0).filter(keep));
            assert(views(orphans@) =~= rs.take(0).filter_map(f));
        }
        for i in 0..n
            invariant
                n == self.offsets.len(),
                *self == *old(self),
                rs == views(self.offsets@),
                keep == known_row(cfg@),
                f == orphan_snapshot(cfg@),
                views(kept@) == rs.take(i as int).filter(keep),
                views(orphans@) == rs.take(i as int).filter_map(f),
        {
            let row = &self.offsets[i];
            let ghost was = views(kept@);
            let ghost before = views(orphans@);
            proof {
                assert(rs[i as int] == row@);
                assert(rs.take(i + 1) =~= rs.take(i as int).push(row@));
                rs.take(i as int).lemma_filter_push(row@, keep);
                rs.lemma_filter_map_take_succ(f, i as int);
            }
            if config_knows(cfg, row.source_id.as_str(), row.destination_id.as_str()) {
                kept.push(row.clone());
                proof {
                    assert(f(row@) is None);
                    assert(views(kept@) =~= was.push(row@));
                    assert(rs.take(i + 1).filter_map(f) =~= before);
                }
            } else {
                match &row.verified_dst_snapshot {
                    Some(name) => {
                        orphans.push(name.clone());
                        proof {
                            assert(f(row@) == Some(name@));
                            assert(views(orphans@) =~= before.push(name@));
                            assert(rs.take(i + 1).filter_map(f) =~= before.push(name@));
                        }
                    },
                    None => {
                        proof {
                            assert(f(row@) is None);
                            assert(rs.take(i + 1).filter_map(f) =~= before);
                        }
                    },
                }
            }
        }
        proof {
            assert(rs.take(rs.len() as int) =~= rs);
        }
        self.offsets = kept;
        orphans
    }
}

/// Whether a configuration knows a destination.
fn config_knows(cfg: &AppConfig, source_id: &str, destination_id: &str) -> (r: bool)
    ensures
        r == knows_destination(cfg@, source_id@, destination_id@),
{
    for i in 0..cfg.source_groups.len()
        invariant
            forall|k: int|
                0 <= k < i ==> !((#[trigger] cfg@.source_groups[k]).id == source_id@
                    && has_destination(cfg@.source_groups[k], destination_id@)),
    {
        proof {
            assert(cfg@.source_groups[i as int] == cfg.source_groups@[i as int]@);
        }
        if same(cfg.source_groups[i].id.as_str(), source_id) && source_has(
            &cfg.source_groups[i],
            destination_id,
        ) {
            return true;
        }
    }
    false
}

/// Whether a source has a destination.
fn source_has(s: &SourceGroupConfig, destination_id: &str) -> (r: bool)
    ensures
        r == has_destination(s@, destination_id@),
{
    for j in 0..s.destinations.len()
        invariant
            forall|k: int| 0 <= k < j ==> (#[trigger] s@.destinations[k]).id != destination_id@,
    {
        proof {
            assert(s@.destinations[j as int] == s.destinations@[j as int]@);
        }
        if same(s.destinations[j].id.as_str(), destination_id) {
            return true;
        }
    }
    false
}

/// The row that was put is the row that is found, and no other destination's row changes.
pub proof fn put_row_is_found(
    rows: Seq<OffsetRowModel>,
    row: OffsetRowModel,
    source_id: Seq<char>,
    destination_id: Seq<char>,
)
    ensures
        offset_row(with_offset_row(rows, row), row.source_id, row.destination_id) == Some(row),
        (source_id != row.source_id || destination_id != row.destination_id) ==> offset_row(
            with_offset_row(rows, row),
            source_id,
            destination_id,
        ) == offset_row(rows, source_id, destination_id),
{
    let test = row_of(row.source_id, row.destination_id);
    let k = first_where(rows, test);
    lemma_first_where(rows, test);
    let now = with_offset_row(rows, row);
    assert forall|j: int| 0 <= j < k implies !test(#[trigger] now[j]) by {
        assert(now[j] == rows[j]);
    }
    lemma_first_where_is(now, test, k);
    if source_id != row.source_id || destination_id != row.destination_id {
        let other = row_of(source_id, destination_id);
        let m = first_where(rows, other);
        lemma_first_where(rows, other);
        if m < rows.len() {
            assert(m != k);
            assert forall|j: int| 0 <= j < m implies !other(#[trigger] now[j]) by {
                assert(!other(rows[j]));
            }
            lemma_first_where_is(now, other, m);
        } else {
            assert forall|j: int| 0 <= j < now.len() implies !other(#[trigger] now[j]) by {
                if j < rows.len() {
                    assert(!other(rows[j]));
                }
            }
            lemma_first_where_is(now, other, now.len() as int);
        }
    }
}

/// Setting a target gives the destination that target and keeps what was verified; dropping it
/// keeps what was verified too.
pub proof fn targets_keep_what_was_verified(
    st: StateModel,
    source_id: Seq<char>,
    destination_id: Seq<char>,
    target: i64,
    reason: Seq<char>,
    now: Seq<char>,
)
    requires
        offset_row(st.offsets, source_id, destination_id) is Some,
    ensures
        ({
            let row = offset_row(st.offsets, source_id, destination_id)->0;
            let set = offset_row(
                target_set(st, source_id, destination_id, target, now).offsets,
                source_id,
                destination_id,
            );
            let dropped = offset_row(
                target_cleared(st, source_id, destination_id, reason, now).offsets,
                source_id,
                destination_id,
            );
            &&& set is Some && set->0.target_cycle_id == Some(target)
            &&& set->0.last_verified_cycle_id == row.last_verified_cycle_id
            &&& dropped is Some && dropped->0.target_cycle_id is None
            &&& dropped->0.last_verified_cycle_id == row.last_verified_cycle_id
        }),
{
    let row = offset_row(st.offsets, source_id, destination_id)->0;
    lemma_first_where(st.offsets, row_of(source_id, destination_id));
    put_row_is_found(
        st.offsets,
        OffsetRowModel {
            target_cycle_id: Some(target),
            status: "red"@,
            status_reason: "pending_target_cycle"@,
            updated_at: now,
            ..row
        },
        source_id,
        destination_id,
    );
    put_row_is_found(
        st.offsets,
        OffsetRowModel {
            target_cycle_id: None,
            status: "red"@,
            status_reason: reason,
            updated_at: now,
            ..row
        },
        source_id,
        destination_id,
    );
}

} // verus!
