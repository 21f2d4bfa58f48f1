//! Events that watchers record.

use crate::clock::{earlier, has_passed, is_earlier, passed, Moment};
use crate::seqs::{first_where, lemma_first_where_is};
use crate::sorted::{insert_sorted, sorted_set};
use crate::state::cycles::{
    can_open, fits, lemma_marking_opens, lemma_opening_opens, open_cycle, opened, rescan_marked,
    LAST_ID, QUIESCENCE_SECS,
};
use crate::state::types::{
    CycleEvent, CycleEventModel, EventRow, EventRowModel, MetaRow, MetaRowModel, State, StateError,
    StateModel, WatcherEvent, WatcherEventModel,
};
use crate::text::{opt_view, same, views};
use vstd::prelude::*;

verus! {

/// The later of two moments; the first one where they are equal.
pub open spec fn later_of(a: Moment, b: Moment) -> Moment {
    if earlier(a, b) {
        b
    } else {
        a
    }
}

/// The test for what is remembered of a source.
pub open spec fn meta_of(source_id: Seq<char>) -> spec_fn(MetaRowModel) -> bool {
    |m: MetaRowModel| m.source_id == source_id
}

/// What is remembered of a source of which nothing is remembered.
pub open spec fn blank_meta(source_id: Seq<char>) -> MetaRowModel {
    MetaRowModel {
        source_id,
        last_event_at: None,
        restart_notice_at: None,
        restart_gap_started: None,
    }
}

/// What is remembered of a source.
pub open spec fn remembered(metas: Seq<MetaRowModel>, source_id: Seq<char>) -> MetaRowModel {
    let k = first_where(metas, meta_of(source_id));
    if k < metas.len() {
        metas[k]
    } else {
        blank_meta(source_id)
    }
}

/// The rows after what is remembered of a source was replaced.
pub open spec fn with_meta(metas: Seq<MetaRowModel>, source_id: Seq<char>, m: MetaRowModel) -> Seq<
    MetaRowModel,
> {
    let k = first_where(metas, meta_of(source_id));
    if k < metas.len() {
        metas.update(k, m)
    } else {
        metas.push(m)
    }
}

/// What is remembered of a source after an event at a moment.
pub open spec fn with_event_at(m: MetaRowModel, at: Moment) -> MetaRowModel {
    MetaRowModel {
        last_event_at: match m.last_event_at {
            Some(t) => Some(later_of(t, at)),
            None => Some(at),
        },
        ..m
    }
}

/// An event as it is recorded.
pub open spec fn event_row(e: WatcherEventModel, event_id: int, cycle_id: i64, now: Moment) ->
    EventRowModel {
    EventRowModel {
        event_id: event_id as i64,
        source_id: e.source_id,
        cycle_id,
        observed_at: now,
        raw_mask: e.raw_mask,
        event_kind: e.event_kind,
        rel_path: e.rel_path,
        rescan_required: e.rescan_required,
    }
}

/// Whether an event can be recorded: identifiers are left.
pub open spec fn can_record(st: StateModel, source_id: Seq<char>) -> bool {
    can_open(st, source_id) && st.next_event < LAST_ID
}

/// The state after an event was recorded: it belongs to the open cycle of its source, which needs a
/// full scan if the event says so, and the scheduler is woken.
pub open spec fn recorded(st: StateModel, e: WatcherEventModel, now: Moment) -> StateModel {
    let o = opened(st, e.source_id, now);
    let row = event_row(e, o.next_event, open_cycle(o, e.source_id)->0.id, now);
    let with_row = StateModel {
        events: o.events.push(row),
        next_event: o.next_event + 1,
        metas: with_meta(
            o.metas,
            e.source_id,
            with_event_at(remembered(o.metas, e.source_id), now),
        ),
        ..o
    };
    let marked = if e.rescan_required {
        rescan_marked(with_row, e.source_id, now)
    } else {
        with_row
    };
    StateModel { wake: true, ..marked }
}

/// The state after several events were recorded.
pub open spec fn all_recorded(st: StateModel, es: Seq<WatcherEventModel>, now: Moment) -> StateModel
    decreases es.len(),
{
    if es.len() == 0 {
        st
    } else {
        recorded(all_recorded(st, es.drop_last(), now), es.last(), now)
    }
}

/// Whether an event asks for something to be done: it names a path, or a full scan.
pub open spec fn actionable(e: EventRowModel) -> bool {
    e.rel_path is Some || e.rescan_required
}

/// Whether a cycle has an event that asks for something to be done.
pub open spec fn has_actionable(st: StateModel, cycle_id: i64) -> bool {
    exists|i: int|
        0 <= i < st.events.len() && (#[trigger] st.events[i]).cycle_id == cycle_id && actionable(
            st.events[i],
        )
}

/// The test for events of a source after a cycle and up to another one.
pub open spec fn between(source_id: Seq<char>, after: int, through: int) -> spec_fn(
    EventRowModel,
) -> bool {
    |e: EventRowModel| e.source_id == source_id && after < e.cycle_id && e.cycle_id <= through
}

/// An event as it is read.
pub open spec fn as_read() -> spec_fn(EventRowModel) -> CycleEventModel {
    |e: EventRowModel|
        CycleEventModel {
            event_id: e.event_id,
            event_kind: e.event_kind,
            rel_path: e.rel_path,
            rescan_required: e.rescan_required,
        }
}

/// The latest moment at which one of the events of a source was observed.
pub open spec fn latest_observed(events: Seq<EventRowModel>, source_id: Seq<char>) -> Option<Moment>
    decreases events.len(),
{
    if events.len() == 0 {
        None
    } else {
        let before = latest_observed(events.drop_last(), source_id);
        let e = events.last();
        if e.source_id != source_id {
            before
        } else {
            match before {
                Some(t) => Some(later_of(t, e.observed_at)),
                None => Some(e.observed_at),
            }
        }
    }
}

/// When the last event of a source was observed: what is remembered stands, even if events were
/// removed since.
pub open spec fn last_event_of(st: StateModel, source_id: Seq<char>) -> Option<Moment> {
    match remembered(st.metas, source_id).last_event_at {
        Some(t) => Some(t),
        None => latest_observed(st.events, source_id),
    }
}

/// Whether a source has been quiet long enough.
pub open spec fn quiesced(st: StateModel, source_id: Seq<char>, now: Moment) -> bool {
    match last_event_of(st, source_id) {
        Some(at) => passed(at, now, QUIESCENCE_SECS as int),
        None => true,
    }
}

/// The path of an event of a source that was observed at a moment or later.
pub open spec fn path_since(source_id: Seq<char>, at: Moment) -> spec_fn(EventRowModel) -> Option<
    Seq<char>,
> {
    |e: EventRowModel|
        if e.source_id == source_id && !earlier(e.observed_at, at) {
            e.rel_path
        } else {
            None
        }
}

/// The test for events that are kept when those of a source before a cycle are removed.
pub open spec fn kept_from(source_id: Seq<char>, cycle_id: i64) -> spec_fn(EventRowModel) -> bool {
    |e: EventRowModel| !(e.source_id == source_id && e.cycle_id < cycle_id)
}

impl State {
    /// The index of what is remembered of a source, or the number of rows.
    pub fn find_meta(&self, source_id: &str) -> (r: usize)
        ensures
            r == first_where(self@.metas, meta_of(source_id@)),
            r <= self.metas.len(),
    {
        let ghost ms = self@.metas;
        let ghost test = meta_of(source_id@);
        for i in 0..self.metas.len()
            invariant
                ms == views(self.metas@),
                ms == self@.metas,
                test == meta_of(source_id@),
                forall|j: int| 0 <= j < i ==> !test(#[trigger] ms[j]),
        {
            proof {
                assert(ms[i as int] == self.metas@[i as int]@);
            }
            if same(self.metas[i].source_id.as_str(), source_id) {
                proof {
                    lemma_first_where_is(ms, test, i as int);
                }
                return i;
            }
        }
        proof {
            lemma_first_where_is(ms, test, ms.len() as int);
        }
        self.metas.len()
    }

    /// What is remembered of a source.
    pub fn meta(&self, source_id: &str) -> (r: MetaRow)
        ensures
            r@ == remembered(self@.metas, source_id@),
    {
        let k = self.find_meta(source_id);
        if k < self.metas.len() {
            proof {
                assert(self@.metas[k as int] == self.metas@[k as int]@);
            }
            self.metas[k].clone()
        } else {
            MetaRow {
                source_id: source_id.to_string(),
                last_event_at: None,
                restart_notice_at: None,
                restart_gap_started: None,
            }
        }
    }

    /// Replaces what is remembered of a source.
    pub fn set_meta(&mut self, source_id: &str, m: MetaRow)
        ensures
            final(self)@ == (StateModel {
                metas: with_meta(old(self)@.metas, source_id@, m@),
                ..old(self)@
            }),
    {
        let ghost ms = self@.metas;
        let ghost mv = m@;
        let k = self.find_meta(source_id);
        if k < self.metas.len() {
            self.metas.set(k, m);
            proof {
                assert(self@.metas =~= ms.update(k as int, mv));
            }
        } else {
            self.metas.push(m);
            proof {
                assert(self@.metas =~= ms.push(mv));
            }
        }
    }

    /// Records an event in the open cycle of its source.
    pub fn record_event(&mut self, e: &WatcherEvent, now: Moment) -> (r: Result<i64, StateError>)
        ensures
            r is Ok == can_record(old(self)@, e@.source_id),
            r is Err ==> *final(self) == *old(self),
            r is Ok ==> final(self)@ == recorded(old(self)@, e@, now) && r->Ok_0 == old(
                self,
            )@.next_event,
    {
        if self.next_event >= LAST_ID {
            return Err(StateError::Full);
        }
        let source_id = e.source_id.as_str();
        let cycle_id: i64 = match self.ensure_open_cycle(source_id, now) {
            Ok(id) => id,
            Err(e) => {
                return Err(e);
            },
        };
        let ghost o = self@;
        let event_id: i64 = self.next_event;
        let row = EventRow {
            event_id,
            source_id: e.source_id.clone(),
            cycle_id,
            observed_at: now,
            raw_mask: e.raw_mask,
            event_kind: e.event_kind.clone(),
            rel_path: crate::config::types::clone_opt_string(&e.rel_path),
            rescan_required: e.rescan_required,
        };
        let ghost rv = row@;
        self.events.push(row);
        self.next_event = event_id + 1;
        proof {
            assert(self@.events =~= o.events.push(rv));
        }
        let mut m = self.meta(source_id);
        m.last_event_at = match m.last_event_at {
            Some(t) => {
                if is_earlier(t, now) {
                    Some(now)
                } else {
                    Some(t)
                }
            },
            None => Some(now),
        };
        self.set_meta(source_id, m);
        if e.rescan_required {
            let _ = self.mark_open_cycle_needs_rescan(source_id, now);
        }
        self.wake = true;
        Ok(event_id)
    }

    /// How many cycles have to be opened to record events: one for each source that has none.
    fn cycles_for(&self, events: &Vec<WatcherEvent>, now: Moment) -> (r: usize)
        ensures
            all_recorded(self@, views(events@), now).next_cycle == self@.next_cycle + r,
            r <= events.len(),
    {
        let ghost es = views(events@);
        let mut needed: usize = 0;
        proof {
            assert(es.take(0) =~= Seq::empty());
        }
        for i in 0..events.len()
            invariant
                es == views(events@),
                needed <= i,
                all_recorded(self@, es.take(i as int), now).next_cycle == self@.next_cycle + needed,
        {
            let source_id = events[i].source_id.as_str();
            let ghost before = es.take(i as int);
            let mut seen = self.current_open_cycle_id(source_id).is_some();
            for j in 0..i
                invariant
                    es == views(events@),
                    i < events.len(),
                    before == es.take(i as int),
                    seen == (open_cycle(self@, source_id@) is Some || names_source(
                        es.take(j as int),
                        source_id@,
                    )),
            {
                proof {
                    assert(es[j as int] == events@[j as int]@);
                    lemma_names_source(es, j as int, source_id@);
                }
                if same(events[j].source_id.as_str(), source_id) {
                    seen = true;
                }
            }
            proof {
                assert(es[i as int] == events@[i as int]@);
                assert(es.take(i + 1).drop_last() =~= before);
                assert(es.take(i + 1).last() == es[i as int]);
                lemma_recorded_opens(self@, before, now, source_id@);
                lemma_recording_opens(
                    all_recorded(self@, before, now),
                    es[i as int],
                    now,
                    source_id@,
                );
            }
            if !seen {
                needed = needed + 1;
            }
        }
        proof {
            assert(es.take(es.len() as int) =~= es);
        }
        needed
    }

    /// Records several events, all or none of them: none where identifiers do not suffice.
    pub fn record_events_batch(&mut self, events: &Vec<WatcherEvent>, now: Moment) -> (r: Result<
        (),
        StateError,
    >)
        ensures
            r is Ok == (old(self)@.next_event + events.len() <= LAST_ID && fits(
                all_recorded(old(self)@, views(events@), now),
            )),
            r is Err ==> *final(self) == *old(self),
            r is Ok ==> final(self)@ == all_recorded(old(self)@, views(events@), now),
    {
        let n: usize = events.len();
        let needed: usize = self.cycles_for(events, now);
        if (self.next_event as i128) + (n as i128) > (LAST_ID as i128) || (self.next_cycle as i128)
            + (needed as i128) > (LAST_ID as i128) {
            return Err(StateError::Full);
        }
        let ghost es = views(events@);
        let ghost start = self@;
        proof {
            assert(es.take(0) =~= Seq::empty());
        }
        for i in 0..n
            invariant
                n == events.len(),
                es == views(events@),
                start == old(self)@,
                start.next_event + n <= LAST_ID,
                fits(all_recorded(start, es, now)),
                self@ == all_recorded(start, es.take(i as int), now),
                self@.next_event == start.next_event + i,
        {
            proof {
                assert(es.take(i + 1).drop_last() =~= es.take(i as int));
                assert(es.take(i + 1).last() == events@[i as int]@);
                lemma_recorded_grows(start, es, i + 1, now);
                lemma_recording_opens(self@, events@[i as int]@, now, events@[i as int]@.source_id);
            }
            let r = self.record_event(&events[i], now);
            proof {
                assert(r is Ok);
            }
        }
        proof {
            assert(es.take(es.len() as int) =~= es);
        }
        Ok(())
    }

    /// Whether a cycle has events.
    pub fn cycle_has_events(&self, cycle_id: i64) -> (r: bool)
        ensures
            r == exists|i: int|
                0 <= i < self@.events.len() && (#[trigger] self@.events[i]).cycle_id == cycle_id,
    {
        for i in 0..self.events.len()
            invariant
                forall|j: int| 0 <= j < i ==> (#[trigger] self@.events[j]).cycle_id != cycle_id,
        {
            proof {
                assert(self@.events[i as int] == self.events@[i as int]@);
            }
            if self.events[i].cycle_id == cycle_id {
                return true;
            }
        }
        false
    }

    /// Whether a cycle has events that ask for something to be done.
    pub fn cycle_has_actionable_events(&self, cycle_id: i64) -> (r: bool)
        ensures
            r == has_actionable(self@, cycle_id),
    {
        for i in 0..self.events.len()
            invariant
                forall|j: int|
                    0 <= j < i ==> !((#[trigger] self@.events[j]).cycle_id == cycle_id
                        && actionable(self@.events[j])),
        {
            let e = &self.events[i];
            proof {
                assert(self@.events[i as int] == e@);
            }
            if e.cycle_id == cycle_id && (e.rel_path.is_some() || e.rescan_required) {
                return true;
            }
        }
        false
    }

    /// The events of a source whose cycles lie after a bound and up to another one.
    fn select_events(&self, source_id: &str, after: i128, through: i128) -> (out: Vec<CycleEvent>)
        ensures
            views(out@) == self@.events.filter(
                between(source_id@, after as int, through as int),
            ).map_values(as_read()),
    {
        let ghost es = self@.events;
        let ghost test = between(source_id@, after as int, through as int);
        let ghost f = as_read();
        let mut out: Vec<CycleEvent> = Vec::new();
        proof {
            assert(views(out@) =~= es.take(0).filter(test).map_values(f));
        }
        for i in 0..self.events.len()
            invariant
                es == views(self.events@),
                test == between(source_id@, after as int, through as int),
                f == as_read(),
                views(out@) == es.take(i as int).filter(test).map_values(f),
        {
            let e = &self.events[i];
            let ghost was = views(out@);
            proof {
                assert(es[i as int] == e@);
                assert(es.take(i + 1) =~= es.take(i as int).push(e@));
                es.take(i as int).lemma_filter_push(e@, test);
            }
            if same(e.source_id.as_str(), source_id) && after < e.cycle_id as i128 && e.cycle_id as i128
                <= through {
                let read = CycleEvent {
                    event_id: e.event_id,
                    event_kind: e.event_kind.clone(),
                    rel_path: crate::config::types::clone_opt_string(&e.rel_path),
                    rescan_required: e.rescan_required,
                };
                let ghost rv = read@;
                out.push(read);
                proof {
                    assert(rv == f(e@));
                    assert(views(out@) =~= was.push(rv));
                    assert(es.take(i + 1).filter(test).map_values(f) =~= was.push(rv));
                }
            }
        }
        proof {
            assert(es.take(es.len() as int) =~= es);
        }
        out
    }

    /// The events of a source after a cycle and up to another one: what a destination has to catch
    /// up with.
    pub fn events_between_cycles(
        &self,
        source_id: &str,
        after_cycle_id: i64,
        through_cycle_id: i64,
    ) -> (out: Vec<CycleEvent>)
        ensures
            views(out@) == self@.events.filter(
                between(source_id@, after_cycle_id as int, through_cycle_id as int),
            ).map_values(as_read()),
    {
        self.select_events(source_id, after_cycle_id as i128, through_cycle_id as i128)
    }

    /// The events of a cycle of a source.
    pub fn cycle_events(&self, source_id: &str, cycle_id: i64) -> (out: Vec<CycleEvent>)
        ensures
            views(out@) == self@.events.filter(
                between(source_id@, cycle_id - 1, cycle_id as int),
            ).map_values(as_read()),
    {
        self.select_events(source_id, cycle_id as i128 - 1, cycle_id as i128)
    }

    /// When the last event of a source was observed.
    pub fn latest_event_observed_at(&self, source_id: &str) -> (r: Option<Moment>)
        ensures
            r == last_event_of(self@, source_id@),
    {
        match self.meta(source_id).last_event_at {
            Some(t) => {
                return Some(t);
            },
            None => {},
        }
        let ghost es = self@.events;
        let mut latest: Option<Moment> = None;
        for i in 0..self.events.len()
            invariant
                es == views(self.events@),
                latest == latest_observed(es.take(i as int), source_id@),
        {
            let e = &self.events[i];
            proof {
                assert(es.take(i + 1).drop_last() =~= es.take(i as int));
                assert(es.take(i + 1).last() == e@);
            }
            if same(e.source_id.as_str(), source_id) {
                latest = match latest {
                    Some(t) => {
                        if is_earlier(t, e.observed_at) {
                            Some(e.observed_at)
                        } else {
                            Some(t)
                        }
                    },
                    None => Some(e.observed_at),
                };
            }
        }
        proof {
            assert(es.take(es.len() as int) =~= es);
        }
        latest
    }

    /// Whether a source has been quiet long enough.
    pub fn source_events_quiesced(&self, source_id: &str, now: Moment) -> (r: bool)
        ensures
            r == quiesced(self@, source_id@, now),
    {
        match self.latest_event_observed_at(source_id) {
            Some(at) => has_passed(at, now, QUIESCENCE_SECS),
            None => true,
        }
    }

    /// The paths of the events of a source that were observed at a moment or later, sorted and
    /// without repeats.
    pub fn event_paths_observed_since(&self, source_id: &str, at: Moment) -> (out: Vec<String>)
        ensures
            views(out@) == sorted_set(self@.events.filter_map(path_since(source_id@, at))),
    {
        let ghost es = self@.events;
        let ghost f = path_since(source_id@, at);
        let mut out: Vec<String> = Vec::new();
        proof {
            assert(es.take(0) =~= Seq::empty());
            assert(es.take(0).filter_map(f) =~= Seq::<Seq<char>>::empty());
            assert(views(out@) =~= sorted_set(es.take(0).filter_map(f)));
        }
        for i in 0..self.events.len()
            invariant
                es == views(self.events@),
                f == path_since(source_id@, at),
                views(out@) == sorted_set(es.take(i as int).filter_map(f)),
        {
            let e = &self.events[i];
            let ghost before = es.take(i as int).filter_map(f);
            proof {
                assert(es[i as int] == e@);
                es.lemma_filter_map_take_succ(f, i as int);
            }
            let mut path: Option<String> = None;
            if same(e.source_id.as_str(), source_id) && !is_earlier(e.observed_at, at) {
                path = crate::config::types::clone_opt_string(&e.rel_path);
            }
            proof {
                assert(opt_view(path) == f(e@));
            }
            match path {
                Some(p) => {
                    proof {
                        assert(es.take(i + 1).filter_map(f) =~= before.push(p@));
                        assert(before.push(p@).drop_last() =~= before);
                    }
                    insert_sorted(&mut out, p);
                },
                None => {
                    proof {
                        assert(es.take(i + 1).filter_map(f) =~= before);
                    }
                },
            }
        }
        proof {
            assert(es.take(es.len() as int) =~= es);
        }
        out
    }

    /// Removes the events of a source before a cycle, and says how many there were. When the last
    /// event was observed is still remembered.
    pub fn prune_event_log(&mut self, source_id: &str, keep_from_cycle: i64) -> (removed: usize)
        ensures
            final(self)@ == (StateModel {
                events: old(self)@.events.filter(kept_from(source_id@, keep_from_cycle)),
                ..old(self)@
            }),
            removed == old(self)@.events.len() - final(self)@.events.len(),
    {
        let ghost es = self@.events;
        let ghost keep = kept_from(source_id@, keep_from_cycle);
        let n: usize = self.events.len();
        let mut kept: Vec<EventRow> = Vec::new();
        proof {
            assert(views(kept@) =~= es.take(0).filter(keep));
        }
        for i in 0..n
            invariant
                n == self.events.len(),
                *self == *old(self),
                es == views(self.events@),
                keep == kept_from(source_id@, keep_from_cycle),
                views(kept@) == es.take(i as int).filter(keep),
                kept.len() <= i,
        {
            let e = &self.events[i];
            let ghost was = views(kept@);
            proof {
                assert(es[i as int] == e@);
                assert(es.take(i + 1) =~= es.take(i as int).push(e@));
                es.take(i as int).lemma_filter_push(e@, keep);
            }
            if !(same(e.source_id.as_str(), source_id) && e.cycle_id < keep_from_cycle) {
                kept.push(e.clone());
                proof {
                    assert(views(kept@) =~= was.push(e@));
                }
            }
        }
        proof {
            assert(es.take(es.len() as int) =~= es);
        }
        let removed: usize = n - kept.len();
        self.events = kept;
        removed
    }
}

/// Whether one of the events is of a source.
pub open spec fn names_source(es: Seq<WatcherEventModel>, source_id: Seq<char>) -> bool {
    exists|i: int| 0 <= i < es.len() && (#[trigger] es[i]).source_id == source_id
}

proof fn lemma_names_source(es: Seq<WatcherEventModel>, j: int, source_id: Seq<char>)
    requires
        0 <= j < es.len(),
    ensures
        names_source(es.take(j + 1), source_id) == (names_source(es.take(j), source_id)
            || es[j].source_id == source_id),
{
    let more = es.take(j + 1);
    let fewer = es.take(j);
    assert(more[j] == es[j]);
    if names_source(fewer, source_id) {
        let i = choose|i: int| 0 <= i < fewer.len() && (#[trigger] fewer[i]).source_id == source_id;
        assert(more[i].source_id == source_id);
    }
    if names_source(more, source_id) && es[j].source_id != source_id {
        let i = choose|i: int| 0 <= i < more.len() && (#[trigger] more[i]).source_id == source_id;
        assert(fewer[i].source_id == source_id);
    }
}

/// What recording an event does to the open cycles: its source has one, for which an identifier is
/// taken where it had none; all others have one as before.
proof fn lemma_recording_opens(
    st: StateModel,
    e: WatcherEventModel,
    now: Moment,
    source_id: Seq<char>,
)
    ensures
        open_cycle(recorded(st, e, now), source_id) is Some == (open_cycle(st, source_id) is Some
            || source_id == e.source_id),
        recorded(st, e, now).next_cycle == st.next_cycle + (if open_cycle(
            st,
            e.source_id,
        ) is Some {
            0int
        } else {
            1
        }),
        recorded(st, e, now).next_event == st.next_event + 1,
{
    let o = opened(st, e.source_id, now);
    lemma_opening_opens(st, e.source_id, now, source_id);
    lemma_opening_opens(st, e.source_id, now, e.source_id);
    let row = event_row(e, o.next_event, open_cycle(o, e.source_id)->0.id, now);
    let with_row = StateModel {
        events: o.events.push(row),
        next_event: o.next_event + 1,
        metas: with_meta(
            o.metas,
            e.source_id,
            with_event_at(remembered(o.metas, e.source_id), now),
        ),
        ..o
    };
    assert(open_cycle(with_row, source_id) == open_cycle(o, source_id));
    assert(open_cycle(with_row, e.source_id) == open_cycle(o, e.source_id));
    lemma_marking_opens(with_row, e.source_id, now, source_id);
    let r = recorded(st, e, now);
    if e.rescan_required {
        assert(r.cycles == rescan_marked(with_row, e.source_id, now).cycles);
    } else {
        assert(r.cycles == with_row.cycles);
    }
}

proof fn lemma_recorded_opens(
    st: StateModel,
    es: Seq<WatcherEventModel>,
    now: Moment,
    source_id: Seq<char>,
)
    ensures
        open_cycle(all_recorded(st, es, now), source_id) is Some == (open_cycle(
            st,
            source_id,
        ) is Some || names_source(es, source_id)),
    decreases es.len(),
{
    if es.len() > 0 {
        let n = es.len() - 1;
        lemma_recorded_opens(st, es.drop_last(), now, source_id);
        lemma_recording_opens(all_recorded(st, es.drop_last(), now), es.last(), now, source_id);
        lemma_names_source(es, n, source_id);
        assert(es.take(n + 1) =~= es);
        assert(es.take(n) =~= es.drop_last());
    }
}

proof fn lemma_recorded_grows(st: StateModel, es: Seq<WatcherEventModel>, k: int, now: Moment)
    requires
        0 <= k <= es.len(),
    ensures
        all_recorded(st, es.take(k), now).next_cycle <= all_recorded(st, es, now).next_cycle,
    decreases es.len(),
{
    if k == es.len() {
        assert(es.take(k) =~= es);
    } else {
        lemma_recorded_grows(st, es.drop_last(), k, now);
        assert(es.drop_last().take(k) =~= es.take(k));
        lemma_recording_opens(
            all_recorded(st, es.drop_last(), now),
            es.last(),
            now,
            es.last().source_id,
        );
    }
}

/// Recording an event leaves its source with an open cycle that holds it, and what is remembered of
/// the last event never goes back.
pub proof fn recorded_event_is_in_the_open_cycle(st: StateModel, e: WatcherEventModel, now: Moment)
    requires
        can_record(st, e.source_id),
        st.next_cycle >= 1,
    ensures
        ({
            let r = recorded(st, e, now);
            &&& r.events.len() == st.events.len() + 1
            &&& open_cycle(r, e.source_id) is Some
            &&& r.events.last().cycle_id == open_cycle(r, e.source_id)->0.id
            &&& r.events.last().source_id == e.source_id
            &&& r.wake
        }),
{
    let o = opened(st, e.source_id, now);
    crate::state::cycles::lemma_opened_has_open(st, e.source_id, now);
    let row = event_row(e, o.next_event, open_cycle(o, e.source_id)->0.id, now);
    let with_row = StateModel {
        events: o.events.push(row),
        next_event: o.next_event + 1,
        metas: with_meta(
            o.metas,
            e.source_id,
            with_event_at(remembered(o.metas, e.source_id), now),
        ),
        ..o
    };
    assert(open_cycle(with_row, e.source_id) == open_cycle(o, e.source_id));
    if e.rescan_required {
        crate::state::cycles::lemma_rescan_keeps_open(with_row, e.source_id, now);
    }
}

/// Removing old events does not change when the last event of a source was observed, once that is
/// remembered.
pub proof fn pruning_keeps_last_event(st: StateModel, source_id: Seq<char>, cycle_id: i64)
    requires
        remembered(st.metas, source_id).last_event_at is Some,
    ensures
        last_event_of(
            StateModel { events: st.events.filter(kept_from(source_id, cycle_id)), ..st },
            source_id,
        ) == last_event_of(st, source_id),
{
}

} // verus!
