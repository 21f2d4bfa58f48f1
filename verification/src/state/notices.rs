//! Notices that a restart has left a gap in what is known of a source.

use crate::clock::{chrono_utc_text, utc_text};
use crate::config::types::clone_opt_string;
use crate::seqs::{first_where, lemma_first_where, lemma_first_where_is};
use crate::state::events::{meta_of, remembered, with_meta};
use crate::state::types::{MetaRowModel, State, StateModel};
use crate::text::{comes_before, is_before, opt_view};
use vstd::prelude::*;

verus! {

/// What is remembered of a source after a notice was raised.
pub open spec fn with_notice(m: MetaRowModel, now: Seq<char>) -> MetaRowModel {
    MetaRowModel {
        restart_notice_at: Some(now),
        restart_gap_started: match m.last_event_at {
            Some(at) => chrono_utc_text(at.secs, at.nanos),
            None => None,
        },
        ..m
    }
}

/// What is remembered of a source after a notice was taken back.
pub open spec fn without_notice(m: MetaRowModel) -> MetaRowModel {
    MetaRowModel { restart_notice_at: None, restart_gap_started: None, ..m }
}

/// The state after what is remembered of a source was replaced.
pub open spec fn meta_put(st: StateModel, source_id: Seq<char>, m: MetaRowModel) -> StateModel {
    StateModel { metas: with_meta(st.metas, source_id, m), ..st }
}

/// The state after a notice was raised; one that stands already is left alone.
pub open spec fn notice_raised(st: StateModel, source_id: Seq<char>, now: Seq<char>) -> StateModel {
    let m = remembered(st.metas, source_id);
    if m.restart_notice_at is None {
        meta_put(st, source_id, with_notice(m, now))
    } else {
        st
    }
}

/// Whether an action that began then covers the notice of a source: the notice stood when it began.
pub open spec fn is_covered(st: StateModel, source_id: Seq<char>, started: Seq<char>) -> bool {
    let m = remembered(st.metas, source_id);
    m.restart_notice_at is Some && !comes_before(started, m.restart_notice_at->0)
}

/// Whether anything is remembered of a source.
pub open spec fn is_remembered(st: StateModel, source_id: Seq<char>) -> bool {
    first_where(st.metas, meta_of(source_id)) < st.metas.len()
}

/// The state after the notice of a source was dismissed.
pub open spec fn notice_dismissed(st: StateModel, source_id: Seq<char>) -> StateModel {
    if is_remembered(st, source_id) {
        meta_put(st, source_id, without_notice(remembered(st.metas, source_id)))
    } else {
        st
    }
}

impl State {
    /// Raises the notice of a source: what changed while the daemon was down is not known. A notice
    /// that stands is kept, so that the gap never shrinks. Gives whether one was raised.
    pub fn raise_restart_notice(&mut self, source_id: &str, now: &str) -> (r: bool)
        ensures
            r == (remembered(old(self)@.metas, source_id@).restart_notice_at is None),
            final(self)@ == notice_raised(old(self)@, source_id@, now@),
    {
        let mut m = self.meta(source_id);
        if m.restart_notice_at.is_some() {
            return false;
        }
        m.restart_notice_at = Some(now.to_string());
        m.restart_gap_started = match m.last_event_at {
            Some(at) => utc_text(at),
            None => None,
        };
        self.set_meta(source_id, m);
        true
    }

    /// Takes the notice of a source back if an action covers it that began when the notice stood
    /// already: one that began before has read the tree too early. Gives whether that happened.
    pub fn clear_restart_notice_if_covered(
        &mut self,
        source_id: &str,
        action_started_at: &str,
    ) -> (r: bool)
        ensures
            r == is_covered(old(self)@, source_id@, action_started_at@),
            r ==> final(self)@ == meta_put(
                old(self)@,
                source_id@,
                without_notice(remembered(old(self)@.metas, source_id@)),
            ),
            !r ==> *final(self) == *old(self),
    {
        let mut m = self.meta(source_id);
        let covered = match &m.restart_notice_at {
            Some(at) => !is_before(action_started_at, at.as_str()),
            None => false,
        };
        if !covered {
            return false;
        }
        m.restart_notice_at = None;
        m.restart_gap_started = None;
        self.set_meta(source_id, m);
        true
    }

    /// Takes the notice of a source back because the user chose to ignore it.
    pub fn dismiss_restart_notice(&mut self, source_id: &str)
        ensures
            final(self)@ == notice_dismissed(old(self)@, source_id@),
    {
        if self.find_meta(source_id) < self.metas.len() {
            let mut m = self.meta(source_id);
            m.restart_notice_at = None;
            m.restart_gap_started = None;
            self.set_meta(source_id, m);
        }
    }

    /// When the notice of a source was raised and when the gap began, where there is a notice.
    pub fn restart_notice(&self, source_id: &str) -> (r: Option<(String, Option<String>)>)
        ensures
            (match r {
                Some(n) => Some((n.0@, opt_view(n.1))),
                None => None,
            }) == notice_of(self@, source_id@),
    {
        let m = self.meta(source_id);
        match &m.restart_notice_at {
            Some(at) => Some((at.clone(), clone_opt_string(&m.restart_gap_started))),
            None => None,
        }
    }
}

/// When the notice of a source was raised and when the gap began, where there is a notice.
pub open spec fn notice_of(st: StateModel, source_id: Seq<char>) -> Option<
    (Seq<char>, Option<Seq<char>>),
> {
    let m = remembered(st.metas, source_id);
    match m.restart_notice_at {
        Some(at) => Some((at, m.restart_gap_started)),
        None => None,
    }
}

proof fn lemma_meta_put(
    st: StateModel,
    source_id: Seq<char>,
    m: MetaRowModel,
)
    requires
        m.source_id == source_id,
    ensures
        remembered(meta_put(st, source_id, m).metas, source_id) == m,
{
    let test = meta_of(source_id);
    let k = first_where(st.metas, test);
    lemma_first_where(st.metas, test);
    let now = meta_put(st, source_id, m).metas;
    assert forall|j: int| 0 <= j < k implies !test(#[trigger] now[j]) by {
        assert(!test(st.metas[j]));
    }
    lemma_first_where_is(now, test, k);
}

proof fn lemma_remembered_is_of_source(st: StateModel, source_id: Seq<char>)
    ensures
        remembered(st.metas, source_id).source_id == source_id,
{
    lemma_first_where(st.metas, meta_of(source_id));
}

/// A notice that was raised stands, with the gap that it was raised with, until it is dismissed or
/// covered: raising another one changes nothing, and once dismissed there is none.
pub proof fn notices_stand_until_dismissed(
    st: StateModel,
    source_id: Seq<char>,
    now: Seq<char>,
    later: Seq<char>,
)
    ensures
        notice_of(notice_raised(st, source_id, now), source_id) is Some,
        notice_raised(notice_raised(st, source_id, now), source_id, later) == notice_raised(
            st,
            source_id,
            now,
        ),
        notice_of(notice_dismissed(st, source_id), source_id) is None,
{
    let m = remembered(st.metas, source_id);
    lemma_remembered_is_of_source(st, source_id);
    lemma_meta_put(st, source_id, with_notice(m, now));
    lemma_meta_put(st, source_id, without_notice(m));
}

} // verus!
