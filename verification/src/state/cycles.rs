//! Cycles and events.

use crate::clock::Moment;
use crate::seqs::{
    changed_where, first_item, last_item, last_where, lemma_first_where_is, lemma_last_where,
    lemma_last_where_is,
};
use crate::state::types::{Cycle, CycleModel, State, StateError, StateModel};
use crate::text::{opt_view, same, views};
use vstd::prelude::*;

verus! {

/// No identifier follows this one.
pub const LAST_ID: i64 = 0x7fff_ffff_ffff_ffff;

/// How long a source has to be quiet before a cycle without a target is closed, in seconds.
pub const QUIESCENCE_SECS: u64 = 10;

/// The test for open cycles of a source.
pub open spec fn open_of(source_id: Seq<char>) -> spec_fn(CycleModel) -> bool {
    |c: CycleModel| c.source_id == source_id && c.status == "open"@
}

/// The open cycle of a source.
pub open spec fn open_cycle(st: StateModel, source_id: Seq<char>) -> Option<CycleModel> {
    last_item(st.cycles, open_of(source_id))
}

/// A cycle that has just been opened.
pub open spec fn fresh_cycle(id: int, source_id: Seq<char>, at: Moment) -> CycleModel {
    CycleModel {
        id: id as i64,
        source_id,
        starts_at: at,
        ends_at: None,
        status: "open"@,
        needs_full_rescan: false,
        manual_full_rescan: false,
        manual_changed_since_rescan: false,
    }
}

/// Whether a cycle can be opened for a source: there is one, or there are identifiers left.
pub open spec fn can_open(st: StateModel, source_id: Seq<char>) -> bool {
    open_cycle(st, source_id) is Some || st.next_cycle < LAST_ID
}

/// The state in which a source has an open cycle.
pub open spec fn opened(st: StateModel, source_id: Seq<char>, at: Moment) -> StateModel {
    if open_cycle(st, source_id) is Some {
        st
    } else {
        StateModel {
            cycles: st.cycles.push(fresh_cycle(st.next_cycle, source_id, at)),
            next_cycle: st.next_cycle + 1,
            ..st
        }
    }
}

/// The test for the open cycle with an identifier.
pub open spec fn open_with_id(id: i64) -> spec_fn(CycleModel) -> bool {
    |c: CycleModel| c.id == id && c.status == "open"@
}

/// Closing a cycle.
pub open spec fn closing(at: Moment) -> spec_fn(CycleModel) -> CycleModel {
    |c: CycleModel| CycleModel { status: "closed"@, ends_at: Some(at), ..c }
}

/// The state after the open cycle of a source was closed and another one opened.
pub open spec fn reopened(st: StateModel, source_id: Seq<char>, at: Moment) -> StateModel {
    match open_cycle(st, source_id) {
        None => st,
        Some(c) => opened(
            StateModel {
                cycles: changed_where(st.cycles, open_with_id(c.id), closing(at)),
                ..st
            },
            source_id,
            at,
        ),
    }
}

/// The state after the open cycle of a source was closed and another one opened, with the change
/// noted.
pub open spec fn closed_state(st: StateModel, source_id: Seq<char>, at: Moment) -> StateModel {
    match open_cycle(st, source_id) {
        None => st,
        Some(_) => {
            let next = reopened(st, source_id, at);
            StateModel { changes: next.changes.push(source_id), ..next }
        },
    }
}

/// Whether a source has an open cycle with another identifier.
pub open spec fn other_open(st: StateModel, source_id: Seq<char>, id: i64) -> bool {
    exists|i: int|
        0 <= i < st.cycles.len() && open_of(source_id)(#[trigger] st.cycles[i]) && st.cycles[i].id
            != id
}

/// Whether the open cycle of a source can be closed: another one is open, or there are identifiers
/// left.
pub open spec fn can_close(st: StateModel, source_id: Seq<char>) -> bool {
    match open_cycle(st, source_id) {
        None => true,
        Some(c) => st.next_cycle < LAST_ID || other_open(st, source_id, c.id),
    }
}

/// Whether the identifiers of the cycles that were opened are ones that there are.
pub open spec fn fits(st: StateModel) -> bool {
    st.next_cycle <= LAST_ID
}

/// Cycles of which the same are open have the same last open one.
proof fn lemma_same_open(a: Seq<CycleModel>, b: Seq<CycleModel>, source_id: Seq<char>)
    requires
        a.len() == b.len(),
        forall|i: int|
            0 <= i < a.len() ==> open_of(source_id)(#[trigger] a[i]) == open_of(source_id)(b[i]),
    ensures
        last_where(a, open_of(source_id)) == last_where(b, open_of(source_id)),
{
    let test = open_of(source_id);
    lemma_last_where(a, test);
    let k = last_where(a, test);
    assert forall|j: int| k < j < b.len() implies !test(#[trigger] b[j]) by {
        assert(!test(a[j]));
    }
    lemma_last_where_is(b, test, k);
}

/// What a request for a full scan does to the open cycles: the source has one, and all others have
/// one as before.
pub proof fn lemma_marking_opens(
    st: StateModel,
    source_id: Seq<char>,
    now: Moment,
    other: Seq<char>,
)
    ensures
        open_cycle(rescan_marked(st, source_id, now), other) is Some == (open_cycle(st, other) is Some
            || other == source_id),
        rescan_marked(st, source_id, now).next_cycle == opened(st, source_id, now).next_cycle,
{
    let o = opened(st, source_id, now);
    let r = rescan_marked(st, source_id, now);
    lemma_opening_opens(st, source_id, now, other);
    lemma_same_open(o.cycles, r.cycles, other);
}

/// What opening does to the open cycles: the source has one, and all others have one as before.
pub proof fn lemma_opening_opens(
    st: StateModel,
    source_id: Seq<char>,
    at: Moment,
    other: Seq<char>,
)
    ensures
        open_cycle(opened(st, source_id, at), other) is Some == (open_cycle(st, other) is Some
            || other == source_id),
{
    let o = opened(st, source_id, at);
    lemma_opened_has_open(st, source_id, at);
    if open_cycle(st, source_id) is None && other != source_id {
        let test = open_of(other);
        let k = last_where(st.cycles, test);
        lemma_last_where(st.cycles, test);
        assert forall|j: int| k < j < o.cycles.len() implies !test(#[trigger] o.cycles[j]) by {
            if j < st.cycles.len() {
                assert(o.cycles[j] == st.cycles[j]);
            }
        }
        if k >= 0 {
            assert(o.cycles[k] == st.cycles[k]);
        }
        lemma_last_where_is(o.cycles, test, k);
    }
}

/// Closing takes an identifier unless another cycle of the source is open; it can be done just where
/// the identifiers suffice.
pub proof fn lemma_closing_fits(st: StateModel, source_id: Seq<char>, at: Moment)
    requires
        fits(st),
    ensures
        can_close(st, source_id) == fits(reopened(st, source_id, at)),
        st.next_cycle <= reopened(st, source_id, at).next_cycle <= st.next_cycle + 1,
        closed_state(st, source_id, at).next_cycle == reopened(st, source_id, at).next_cycle,
{
    if open_cycle(st, source_id) is Some {
        lemma_shut(st, source_id, at);
    }
}

/// Once the open cycle of a source is closed, the source has an open one if another one was.
proof fn lemma_shut(st: StateModel, source_id: Seq<char>, at: Moment)
    requires
        open_cycle(st, source_id) is Some,
    ensures
        ({
            let c = open_cycle(st, source_id)->0;
            let shut = StateModel {
                cycles: changed_where(st.cycles, open_with_id(c.id), closing(at)),
                ..st
            };
            open_cycle(shut, source_id) is Some == other_open(st, source_id, c.id)
        }),
{
    let test = open_of(source_id);
    let c = open_cycle(st, source_id)->0;
    let shut = changed_where(st.cycles, open_with_id(c.id), closing(at));
    reveal_strlit("open");
    reveal_strlit("closed");
    assert("closed"@.len() != "open"@.len());
    lemma_last_where(shut, test);
    let k = last_where(shut, test);
    if k >= 0 {
        assert(test(shut[k]));
        assert(test(st.cycles[k]) && st.cycles[k].id != c.id);
    }
    if other_open(st, source_id, c.id) {
        let i = choose|i: int|
            0 <= i < st.cycles.len() && test(#[trigger] st.cycles[i]) && st.cycles[i].id != c.id;
        assert(test(shut[i]));
    }
}

/// The test for cycles of a source that are closed but not done.
pub open spec fn pending_of(source_id: Seq<char>) -> spec_fn(CycleModel) -> bool {
    |c: CycleModel|
        c.source_id == source_id && (c.status == "closed"@ || c.status == "planning"@ || c.status
            == "syncing"@ || c.status == "failed"@)
}

/// The test for cycles of a source that are not open.
pub open spec fn not_open_of(source_id: Seq<char>) -> spec_fn(CycleModel) -> bool {
    |c: CycleModel| c.source_id == source_id && c.status != "open"@
}

impl State {
    /// The index of the open cycle of a source.
    fn find_open(&self, source_id: &str) -> (r: Option<usize>)
        ensures
            (match r {
                Some(i) => i as int,
                None => -1,
            }) == last_where(self@.cycles, open_of(source_id@)),
            r is Some ==> r->0 < self.cycles.len(),
    {
        let ghost cs = self@.cycles;
        let ghost test = open_of(source_id@);
        let mut i: usize = self.cycles.len();
        while i > 0
            invariant
                i <= self.cycles.len(),
                cs == views(self.cycles@),
                test == open_of(source_id@),
                cs == self@.cycles,
                forall|j: int| i <= j < cs.len() ==> !test(#[trigger] cs[j]),
            decreases i,
        {
            proof {
                assert(cs[i - 1] == self.cycles@[i - 1]@);
            }
            if same(self.cycles[i - 1].status.as_str(), "open") && same(
                self.cycles[i - 1].source_id.as_str(),
                source_id,
            ) {
                proof {
                    lemma_last_where_is(cs, test, i - 1);
                }
                return Some(i - 1);
            }
            i = i - 1;
        }
        proof {
            lemma_last_where_is(cs, test, -1);
        }
        None
    }

    /// The open cycle of a source.
    pub fn current_open_cycle(&self, source_id: &str) -> (r: Option<Cycle>)
        ensures
            opt_view(r) == open_cycle(self@, source_id@),
    {
        match self.find_open(source_id) {
            Some(i) => {
                proof {
                    assert(self@.cycles[i as int] == self.cycles@[i as int]@);
                }
                Some(self.cycles[i].clone())
            },
            None => None,
        }
    }

    /// The identifier of the open cycle of a source.
    pub fn current_open_cycle_id(&self, source_id: &str) -> (r: Option<i64>)
        ensures
            r == (match open_cycle(self@, source_id@) {
                Some(c) => Some(c.id),
                None => None,
            }),
    {
        match self.find_open(source_id) {
            Some(i) => {
                proof {
                    assert(self@.cycles[i as int] == self.cycles@[i as int]@);
                }
                Some(self.cycles[i].id)
            },
            None => None,
        }
    }

    /// Gives a source an open cycle, unless it has one.
    pub fn ensure_open_cycle(&mut self, source_id: &str, starts_at: Moment) -> (r: Result<
        i64,
        StateError,
    >)
        ensures
            r is Ok == can_open(old(self)@, source_id@),
            r is Ok ==> final(self)@ == opened(old(self)@, source_id@, starts_at),
            r is Ok ==> open_cycle(final(self)@, source_id@) is Some && r->Ok_0 == open_cycle(
                final(self)@,
                source_id@,
            )->0.id,
            r is Err ==> *final(self) == *old(self),
    {
        match self.current_open_cycle_id(source_id) {
            Some(id) => {
                return Ok(id);
            },
            None => {},
        }
        if self.next_cycle >= LAST_ID {
            return Err(StateError::Full);
        }
        let id: i64 = self.next_cycle;
        let cycle = Cycle {
            id,
            source_id: source_id.to_string(),
            starts_at,
            ends_at: None,
            status: "open".to_string(),
            needs_full_rescan: false,
            manual_full_rescan: false,
            manual_changed_since_rescan: false,
        };
        let ghost cv = cycle@;
        self.cycles.push(cycle);
        self.next_cycle = id + 1;
        proof {
            assert(views(self.cycles@) =~= old(self)@.cycles.push(cv));
            lemma_last_where_is(
                self@.cycles,
                open_of(source_id@),
                old(self)@.cycles.len() as int,
            );
        }
        Ok(id)
    }

    /// Makes a change to the cycles with an identifier that it applies to.
    fn change_cycles(&mut self, id: i64, change: &CycleChange)
        ensures
            final(self)@ == with_change(old(self)@, id, change@),
    {
        let ghost cs = self@.cycles;
        let n: usize = self.cycles.len();
        for i in 0..n
            invariant
                n == self.cycles.len(),
                cs == old(self)@.cycles,
                cs.len() == n,
                self@ == (StateModel { cycles: self@.cycles, ..old(self)@ }),
                forall|j: int|
                    0 <= j < i ==> (#[trigger] self.cycles@[j])@ == (if applies(id, change@)(cs[j]) {
                        making(change@)(cs[j])
                    } else {
                        cs[j]
                    }),
                forall|j: int| i <= j < n ==> (#[trigger] self.cycles@[j])@ == cs[j],
        {
            let c = &self.cycles[i];
            let hit = c.id == id && (match change {
                CycleChange::Close(_) => same(c.status.as_str(), "open"),
                CycleChange::ClearRescan => !c.manual_full_rescan,
                _ => true,
            });
            proof {
                assert(hit == applies(id, change@)(cs[i as int]));
            }
            if hit {
                let mut c = self.cycles[i].clone();
                match change {
                    CycleChange::Close(at) => {
                        c.status = "closed".to_string();
                        c.ends_at = Some(*at);
                    },
                    CycleChange::Status(status) => {
                        c.status = status.clone();
                    },
                    CycleChange::Rescan => {
                        c.needs_full_rescan = true;
                    },
                    CycleChange::ManualRescan => {
                        c.needs_full_rescan = true;
                        c.manual_full_rescan = true;
                    },
                    CycleChange::ClearRescan => {
                        c.needs_full_rescan = false;
                    },
                }
                proof {
                    assert(c@ == making(change@)(cs[i as int]));
                }
                self.cycles.set(i, c);
            }
        }
        proof {
            assert(self@.cycles =~= changed_where(cs, applies(id, change@), making(change@)));
        }
    }

    /// Whether a source has an open cycle with another identifier.
    fn has_other_open(&self, source_id: &str, id: i64) -> (r: bool)
        ensures
            r == other_open(self@, source_id@, id),
    {
        let ghost cs = self@.cycles;
        let ghost test = open_of(source_id@);
        for i in 0..self.cycles.len()
            invariant
                cs == views(self.cycles@),
                cs == self@.cycles,
                test == open_of(source_id@),
                forall|j: int| 0 <= j < i ==> !(test(#[trigger] cs[j]) && cs[j].id != id),
        {
            let c = &self.cycles[i];
            proof {
                assert(cs[i as int] == c@);
            }
            if c.id != id && same(c.status.as_str(), "open") && same(
                c.source_id.as_str(),
                source_id,
            ) {
                proof {
                    assert(test(cs[i as int]));
                }
                return true;
            }
        }
        false
    }

    /// Closes the open cycle of a source and opens another one, without noting a change; gives the
    /// closed cycle.
    pub fn reopen(&mut self, source_id: &str, now: Moment) -> (r: Result<
        Option<Cycle>,
        StateError,
    >)
        ensures
            r is Ok == can_close(old(self)@, source_id@),
            r is Err ==> *final(self) == *old(self),
            r is Ok ==> final(self)@ == reopened(old(self)@, source_id@, now),
            r is Ok ==> opt_view(r->Ok_0) == (match open_cycle(old(self)@, source_id@) {
                Some(c) => Some(closing(now)(c)),
                None => None,
            }),
    {
        let cycle = match self.current_open_cycle(source_id) {
            Some(c) => c,
            None => {
                return Ok(None);
            },
        };
        if self.next_cycle >= LAST_ID && !self.has_other_open(source_id, cycle.id) {
            return Err(StateError::Full);
        }
        self.change_cycles(cycle.id, &CycleChange::Close(now));
        proof {
            lemma_shut(old(self)@, source_id@, now);
            let m = ChangeModel::Close(now);
            assert(changed_where(old(self)@.cycles, applies(cycle.id, m), making(m))
                =~= changed_where(old(self)@.cycles, open_with_id(cycle.id), closing(now)));
        }
        let _ = self.ensure_open_cycle(source_id, now);
        let mut closed = cycle;
        closed.status = "closed".to_string();
        closed.ends_at = Some(now);
        Ok(Some(closed))
    }

    /// Closes the open cycle of a source and opens another one; gives the closed cycle.
    pub fn close_current_cycle_for_source(&mut self, source_id: &str, now: Moment) -> (r: Result<
        Option<Cycle>,
        StateError,
    >)
        ensures
            r is Ok == can_close(old(self)@, source_id@),
            r is Err ==> *final(self) == *old(self),
            r is Ok ==> final(self)@ == closed_state(old(self)@, source_id@, now),
            r is Ok ==> opt_view(r->Ok_0) == (match open_cycle(old(self)@, source_id@) {
                Some(c) => Some(closing(now)(c)),
                None => None,
            }),
    {
        match self.reopen(source_id, now) {
            Ok(Some(closed)) => {
                self.note_change(source_id);
                Ok(Some(closed))
            },
            Ok(None) => Ok(None),
            Err(e) => Err(e),
        }
    }

    /// The cycles of a source that are closed but not done, in order.
    pub fn closed_cycles_for_source(&self, source_id: &str) -> (out: Vec<Cycle>)
        ensures
            views(out@) == self@.cycles.filter(pending_of(source_id@)),
    {
        let ghost cs = self@.cycles;
        let ghost test = pending_of(source_id@);
        let mut out: Vec<Cycle> = Vec::new();
        proof {
            assert(views(out@) =~= cs.take(0).filter(test));
        }
        for i in 0..self.cycles.len()
            invariant
                cs == views(self.cycles@),
                test == pending_of(source_id@),
                views(out@) == cs.take(i as int).filter(test),
        {
            let c = &self.cycles[i];
            let ghost was = views(out@);
            proof {
                assert(cs[i as int] == c@);
                assert(cs.take(i + 1) =~= cs.take(i as int).push(c@));
                cs.take(i as int).lemma_filter_push(c@, test);
            }
            let status = c.status.as_str();
            if same(c.source_id.as_str(), source_id) && (same(status, "closed") || same(
                status,
                "planning",
            ) || same(status, "syncing") || same(status, "failed")) {
                out.push(c.clone());
                proof {
                    assert(views(out@) =~= was.push(c@));
                }
            }
        }
        proof {
            assert(cs.take(cs.len() as int) =~= cs);
        }
        out
    }

    /// The identifier of the last cycle of a source that is not open.
    pub fn latest_closed_cycle_id(&self, source_id: &str) -> (r: Option<i64>)
        ensures
            r == (match last_item(self@.cycles, not_open_of(source_id@)) {
                Some(c) => Some(c.id),
                None => None,
            }),
    {
        let ghost cs = self@.cycles;
        let ghost test = not_open_of(source_id@);
        let mut i: usize = self.cycles.len();
        while i > 0
            invariant
                i <= self.cycles.len(),
                cs == views(self.cycles@),
                cs == self@.cycles,
                test == not_open_of(source_id@),
                forall|j: int| i <= j < cs.len() ==> !test(#[trigger] cs[j]),
            decreases i,
        {
            let c = &self.cycles[i - 1];
            proof {
                assert(cs[i - 1] == c@);
            }
            if same(c.source_id.as_str(), source_id) && !same(c.status.as_str(), "open") {
                proof {
                    lemma_last_where_is(cs, test, i - 1);
                }
                return Some(c.id);
            }
            i = i - 1;
        }
        proof {
            lemma_last_where_is(cs, test, -1);
        }
        None
    }

    /// The cycle of a source with an identifier.
    pub fn cycle_by_id(&self, source_id: &str, cycle_id: i64) -> (r: Option<Cycle>)
        ensures
            opt_view(r) == first_item(self@.cycles, of_source_with_id(source_id@, cycle_id)),
    {
        let ghost cs = self@.cycles;
        let ghost test = of_source_with_id(source_id@, cycle_id);
        for i in 0..self.cycles.len()
            invariant
                cs == views(self.cycles@),
                cs == self@.cycles,
                test == of_source_with_id(source_id@, cycle_id),
                forall|j: int| 0 <= j < i ==> !test(#[trigger] cs[j]),
        {
            let c = &self.cycles[i];
            proof {
                assert(cs[i as int] == c@);
            }
            if c.id == cycle_id && same(c.source_id.as_str(), source_id) {
                proof {
                    lemma_first_where_is(cs, test, i as int);
                }
                return Some(c.clone());
            }
        }
        proof {
            lemma_first_where_is(cs, test, cs.len() as int);
        }
        None
    }

    /// Sets the status of a cycle. Its events stay: a destination that lags behind still needs
    /// them.
    pub fn mark_cycle_status(&mut self, cycle_id: i64, status: &str)
        ensures
            final(self)@ == with_change(old(self)@, cycle_id, ChangeModel::Status(status@)),
    {
        self.change_cycles(cycle_id, &CycleChange::Status(status.to_string()));
    }

    /// Marks a cycle as needing a full scan.
    pub fn mark_cycle_needs_rescan(&mut self, cycle_id: i64)
        ensures
            final(self)@ == with_change(old(self)@, cycle_id, ChangeModel::Rescan),
    {
        self.change_cycles(cycle_id, &CycleChange::Rescan);
    }

    /// Marks a cycle as needing a full scan that a user asked for.
    pub fn mark_cycle_manual_full_rescan(&mut self, cycle_id: i64)
        ensures
            final(self)@ == with_change(old(self)@, cycle_id, ChangeModel::ManualRescan),
    {
        self.change_cycles(cycle_id, &CycleChange::ManualRescan);
    }

    /// Takes back that a cycle needs a full scan, unless a user asked for it.
    pub fn clear_cycle_needs_rescan(&mut self, cycle_id: i64)
        ensures
            final(self)@ == with_change(old(self)@, cycle_id, ChangeModel::ClearRescan),
    {
        self.change_cycles(cycle_id, &CycleChange::ClearRescan);
    }

    /// Marks the open cycle of a source as needing a full scan, opening one where there is none.
    pub fn mark_open_cycle_needs_rescan(&mut self, source_id: &str, now: Moment) -> (r: Result<
        (),
        StateError,
    >)
        ensures
            r is Ok == can_open(old(self)@, source_id@),
            r is Err ==> *final(self) == *old(self),
            r is Ok ==> final(self)@ == rescan_marked(old(self)@, source_id@, now),
    {
        match self.ensure_open_cycle(source_id, now) {
            Ok(id) => {
                self.mark_cycle_needs_rescan(id);
                Ok(())
            },
            Err(e) => Err(e),
        }
    }
}

/// The state in which the open cycle of a source needs a full scan.
pub open spec fn rescan_marked(st: StateModel, source_id: Seq<char>, now: Moment) -> StateModel {
    let o = opened(st, source_id, now);
    with_change(o, open_cycle(o, source_id)->0.id, ChangeModel::Rescan)
}

/// Once opened, a source has an open cycle.
pub proof fn lemma_opened_has_open(st: StateModel, source_id: Seq<char>, at: Moment)
    ensures
        open_cycle(opened(st, source_id, at), source_id) is Some,
{
    if open_cycle(st, source_id) is None {
        let o = opened(st, source_id, at);
        lemma_last_where_is(o.cycles, open_of(source_id), st.cycles.len() as int);
    }
}

/// Marking the open cycle leaves it the open cycle.
pub proof fn lemma_rescan_keeps_open(st: StateModel, source_id: Seq<char>, now: Moment)
    requires
        open_cycle(st, source_id) is Some,
    ensures
        open_cycle(rescan_marked(st, source_id, now), source_id) is Some,
        open_cycle(rescan_marked(st, source_id, now), source_id)->0.id == open_cycle(
            st,
            source_id,
        )->0.id,
{
    let test = open_of(source_id);
    let k = last_where(st.cycles, test);
    lemma_last_where(st.cycles, test);
    let m = rescan_marked(st, source_id, now);
    assert forall|j: int| k < j < m.cycles.len() implies !test(#[trigger] m.cycles[j]) by {
        assert(!test(st.cycles[j]));
    }
    lemma_last_where_is(m.cycles, test, k);
}

/// The test for the cycle of a source with an identifier.
pub open spec fn of_source_with_id(source_id: Seq<char>, id: i64) -> spec_fn(CycleModel) -> bool {
    |c: CycleModel| c.source_id == source_id && c.id == id
}

/// A change to a cycle.
#[derive(Debug)]
pub enum CycleChange {
    /// It is closed, if it is open.
    Close(Moment),
    /// Its status is set.
    Status(String),
    /// It needs a full scan.
    Rescan,
    /// It needs a full scan that a user asked for.
    ManualRescan,
    /// It needs no full scan, unless a user asked for one.
    ClearRescan,
}

/// The model of a `CycleChange`.
pub enum ChangeModel {
    Close(Moment),
    Status(Seq<char>),
    Rescan,
    ManualRescan,
    ClearRescan,
}

impl View for CycleChange {
    type V = ChangeModel;

    open spec fn view(&self) -> ChangeModel {
        match self {
            CycleChange::Close(at) => ChangeModel::Close(*at),
            CycleChange::Status(s) => ChangeModel::Status(s@),
            CycleChange::Rescan => ChangeModel::Rescan,
            CycleChange::ManualRescan => ChangeModel::ManualRescan,
            CycleChange::ClearRescan => ChangeModel::ClearRescan,
        }
    }
}

/// The test for the cycles that a change applies to.
pub open spec fn applies(id: i64, change: ChangeModel) -> spec_fn(CycleModel) -> bool {
    |c: CycleModel|
        c.id == id && (match change {
            ChangeModel::Close(_) => c.status == "open"@,
            ChangeModel::ClearRescan => !c.manual_full_rescan,
            _ => true,
        })
}

/// A change to a cycle, as a function.
pub open spec fn making(change: ChangeModel) -> spec_fn(CycleModel) -> CycleModel {
    |c: CycleModel|
        match change {
            ChangeModel::Close(at) => CycleModel { status: "closed"@, ends_at: Some(at), ..c },
            ChangeModel::Status(s) => CycleModel { status: s, ..c },
            ChangeModel::Rescan => CycleModel { needs_full_rescan: true, ..c },
            ChangeModel::ManualRescan => CycleModel {
                needs_full_rescan: true,
                manual_full_rescan: true,
                ..c
            },
            ChangeModel::ClearRescan => CycleModel { needs_full_rescan: false, ..c },
        }
}

/// The state after a change to the cycle with an identifier.
pub open spec fn with_change(st: StateModel, id: i64, change: ChangeModel) -> StateModel {
    StateModel { cycles: changed_where(st.cycles, applies(id, change), making(change)), ..st }
}

/// Whether cycles are in order: their identifiers ascend and were handed out, and no source has two
/// open cycles.
pub open spec fn cycles_in_order(st: StateModel) -> bool {
    &&& st.next_cycle <= LAST_ID
    &&& forall|i: int| 0 <= i < st.cycles.len() ==> (#[trigger] st.cycles[i]).id < st.next_cycle
    &&& forall|i: int, j: int|
        0 <= i < j < st.cycles.len() ==> (#[trigger] st.cycles[i]).id < (#[trigger] st.cycles[j]).id
    &&& forall|i: int, j: int|
        #![trigger st.cycles[i], st.cycles[j]]
        0 <= i < j < st.cycles.len() && st.cycles[i].source_id == st.cycles[j].source_id ==> !(
        st.cycles[i].status == "open"@ && st.cycles[j].status == "open"@)
}

/// Opening keeps the cycles in order.
pub proof fn opening_keeps_order(st: StateModel, source_id: Seq<char>, at: Moment)
    requires
        cycles_in_order(st),
        can_open(st, source_id),
        st.next_cycle >= 0,
    ensures
        cycles_in_order(opened(st, source_id, at)),
{
    let test = open_of(source_id);
    lemma_last_where(st.cycles, test);
    if open_cycle(st, source_id) is None {
        let o = opened(st, source_id, at);
        let n = st.cycles.len() as int;
        assert forall|i: int, j: int|
            #![trigger o.cycles[i], o.cycles[j]]
            0 <= i < j < o.cycles.len() && o.cycles[i].source_id == o.cycles[j].source_id implies !(
        o.cycles[i].status == "open"@ && o.cycles[j].status == "open"@) by {
            if j == n {
                assert(!test(st.cycles[i]));
            } else {
                assert(o.cycles[i] == st.cycles[i] && o.cycles[j] == st.cycles[j]);
            }
        }
    }
}

/// Closing keeps the cycles in order. The cycle that was open is closed, keeps its identifier, and
/// the one that follows it has the next identifier.
pub proof fn closing_keeps_order(st: StateModel, source_id: Seq<char>, at: Moment)
    requires
        cycles_in_order(st),
        open_cycle(st, source_id) is Some,
        can_close(st, source_id),
        st.next_cycle >= 0,
    ensures
        ({
            let c = open_cycle(st, source_id)->0;
            let next = reopened(st, source_id, at);
            &&& cycles_in_order(next)
            &&& first_item(next.cycles, of_source_with_id(source_id, c.id)) == Some(closing(at)(c))
            &&& open_cycle(next, source_id) == Some(fresh_cycle(st.next_cycle, source_id, at))
        }),
{
    let test = open_of(source_id);
    let c = open_cycle(st, source_id)->0;
    let k = last_where(st.cycles, test);
    lemma_last_where(st.cycles, test);
    reveal_strlit("open");
    reveal_strlit("closed");
    let shut = StateModel {
        cycles: changed_where(st.cycles, open_with_id(c.id), closing(at)),
        ..st
    };
    assert forall|i: int| 0 <= i < shut.cycles.len() implies #[trigger] shut.cycles[i] == (if i
        == k {
        closing(at)(c)
    } else {
        st.cycles[i]
    }) by {
        assert(st.cycles[i].id == c.id ==> i == k) by {
            if i < k {
                assert(st.cycles[i].id < st.cycles[k].id);
            } else if k < i {
                assert(st.cycles[k].id < st.cycles[i].id);
            }
        }
    }
    assert forall|j: int| 0 <= j < shut.cycles.len() implies !test(#[trigger] shut.cycles[j]) by {
        if j < k {
            assert(shut.cycles[j] == st.cycles[j]);
            assert(st.cycles[k].source_id == source_id);
        } else if j > k {
            assert(!test(st.cycles[j]));
        } else {
            assert(shut.cycles[k].status == "closed"@);
            assert("closed"@.len() != "open"@.len());
        }
    }
    lemma_last_where_is(shut.cycles, test, -1);
    lemma_shut(st, source_id, at);
    assert(cycles_in_order(shut)) by {
        assert forall|i: int, j: int|
            #![trigger shut.cycles[i], shut.cycles[j]]
            0 <= i < j < shut.cycles.len() && shut.cycles[i].source_id
                == shut.cycles[j].source_id implies !(shut.cycles[i].status == "open"@
            && shut.cycles[j].status == "open"@) by {
            assert(st.cycles[i].source_id == st.cycles[j].source_id);
            assert("closed"@.len() != "open"@.len());
        }
        assert forall|i: int, j: int| 0 <= i < j < shut.cycles.len() implies (#[trigger] shut.cycles[i]).id
            < (#[trigger] shut.cycles[j]).id by {
            assert(st.cycles[i].id < st.cycles[j].id);
        }
    }
    opening_keeps_order(shut, source_id, at);
    let next = reopened(st, source_id, at);
    assert(next == opened(shut, source_id, at));
    lemma_last_where_is(next.cycles, test, st.cycles.len() as int);
    let by_id = of_source_with_id(source_id, c.id);
    assert forall|j: int| 0 <= j < k implies !by_id(#[trigger] next.cycles[j]) by {
        assert(next.cycles[j] == shut.cycles[j]);
        assert(st.cycles[j].id < st.cycles[k].id);
    }
    assert(next.cycles[k] == shut.cycles[k]);
    lemma_first_where_is(next.cycles, by_id, k);
}

} // verus!
