//! Which cycles destinations are to reach.

use crate::clock::Moment;
use crate::config::types::{
    AppConfig, AppConfigModel, DestinationConfigModel, ScheduleMode, SourceGroupConfig,
    SourceGroupConfigModel,
};
use crate::seqs::{first_item, first_where, lemma_first_where, lemma_first_where_is};
use crate::scheduler::{cycle_is_due, due_verdict};
use crate::state::cycles::{
    can_close, closed_state, closing, closing_keeps_order, cycles_in_order, fits,
    lemma_closing_fits, open_cycle, opened, reopened, with_change, ChangeModel, LAST_ID,
};
use crate::state::events::{has_actionable, quiesced};
use crate::state::offsets::{
    blank_row, offset_row, put_row_is_found, row_ensured, row_of, row_or_blank, target_set,
};
use crate::state::types::{Cycle, CycleModel, OffsetRowModel, State, StateError, StateModel};
use crate::text::{opt_view, same, views};
use vstd::prelude::*;

verus! {

/// The state in which each of the destinations of a source has a row.
pub open spec fn destinations_ensured(
    st: StateModel,
    source_id: Seq<char>,
    ds: Seq<DestinationConfigModel>,
    now: Seq<char>,
) -> StateModel
    decreases ds.len(),
{
    if ds.len() == 0 {
        st
    } else {
        row_ensured(
            destinations_ensured(st, source_id, ds.drop_last(), now),
            source_id,
            ds.last().id,
            now,
        )
    }
}

/// The state in which each destination of the sources has a row.
pub open spec fn sources_ensured(
    st: StateModel,
    ss: Seq<SourceGroupConfigModel>,
    now: Seq<char>,
) -> StateModel
    decreases ss.len(),
{
    if ss.len() == 0 {
        st
    } else {
        destinations_ensured(
            sources_ensured(st, ss.drop_last(), now),
            ss.last().id,
            ss.last().destinations,
            now,
        )
    }
}

/// The state in which each source that is switched on has an open cycle.
pub open spec fn sources_opened(
    st: StateModel,
    ss: Seq<SourceGroupConfigModel>,
    at: Moment,
) -> StateModel
    decreases ss.len(),
{
    if ss.len() == 0 {
        st
    } else {
        let before = sources_opened(st, ss.drop_last(), at);
        if ss.last().enabled {
            opened(before, ss.last().id, at)
        } else {
            before
        }
    }
}

/// The state made ready for a configuration.
pub open spec fn prepared(
    st: StateModel,
    cfg: AppConfigModel,
    at: Moment,
    now: Seq<char>,
) -> StateModel {
    sources_opened(sources_ensured(st, cfg.source_groups, now), cfg.source_groups, at)
}

/// Whether the opening of cycles stopped at a source for which no identifier was left.
pub open spec fn opening_stopped(
    st: StateModel,
    ss: Seq<SourceGroupConfigModel>,
    at: Moment,
    after: StateModel,
) -> bool {
    exists|k: int|
        0 <= k < ss.len() && after == sources_opened(st, #[trigger] ss.take(k), at) && !fits(
            sources_opened(st, ss.take(k + 1), at),
        )
}

/// Whether making the state ready stopped at a source for which no identifier was left.
pub open spec fn preparing_stopped(
    st: StateModel,
    cfg: AppConfigModel,
    at: Moment,
    now: Seq<char>,
    after: StateModel,
) -> bool {
    opening_stopped(sources_ensured(st, cfg.source_groups, now), cfg.source_groups, at, after)
}

/// Whether a destination has a target that it was not verified to have reached.
pub open spec fn is_behind(row: OffsetRowModel) -> bool {
    row.target_cycle_id is Some && (row.last_verified_cycle_id is None
        || row.last_verified_cycle_id->0 < row.target_cycle_id->0)
}

/// Whether a destination is to be given the cycle that is open. One that is switched off, paused or
/// still behind is not; one that was never synchronised is; one in realtime is if there is
/// something to do; any other goes by its schedule.
pub open spec fn destination_is_due(
    d: DestinationConfigModel,
    row: OffsetRowModel,
    has_events: bool,
    scheduled: bool,
) -> bool {
    &&& d.enabled && !d.paused
    &&& !is_behind(row)
    &&& if row.target_cycle_id is None && row.last_verified_cycle_id is None {
        true
    } else if d.schedule.mode == ScheduleMode::Realtime {
        has_events
    } else {
        scheduled
    }
}

/// The flag at an index; what is missing is unset.
pub open spec fn flag_at(flags: Seq<bool>, j: int) -> bool {
    0 <= j < flags.len() && flags[j]
}

/// The destinations among the first of a source that are to be given the cycle that is open.
pub open spec fn due_ids(
    st: StateModel,
    s: SourceGroupConfigModel,
    has_events: bool,
    flags: Seq<bool>,
    now: Seq<char>,
    n: int,
) -> Seq<Seq<char>>
    decreases n,
{
    if n <= 0 {
        Seq::empty()
    } else {
        let before = due_ids(st, s, has_events, flags, now, n - 1);
        let d = s.destinations[n - 1];
        if destination_is_due(
            d,
            row_or_blank(st.offsets, s.id, d.id, now),
            has_events,
            flag_at(flags, n - 1),
        ) {
            before.push(d.id)
        } else {
            before
        }
    }
}

/// Whether a source has a realtime destination of that name.
pub open spec fn is_realtime(s: SourceGroupConfigModel, id: Seq<char>) -> bool {
    exists|j: int|
        0 <= j < s.destinations.len() && (#[trigger] s.destinations[j]).id == id
            && s.destinations[j].schedule.mode == ScheduleMode::Realtime
}

/// Whether all of those destinations are in realtime.
pub open spec fn all_realtime(s: SourceGroupConfigModel, ids: Seq<Seq<char>>) -> bool {
    forall|i: int| 0 <= i < ids.len() ==> is_realtime(s, #[trigger] ids[i])
}

/// The state after destinations were given a target, one after the other.
pub open spec fn targets_set(
    st: StateModel,
    source_id: Seq<char>,
    ids: Seq<Seq<char>>,
    target: i64,
    now: Seq<char>,
) -> StateModel
    decreases ids.len(),
{
    if ids.len() == 0 {
        st
    } else {
        target_set(
            targets_set(st, source_id, ids.drop_last(), target, now),
            source_id,
            ids.last(),
            target,
            now,
        )
    }
}

/// What becomes of a source: the state afterwards, and the cycle that was closed. Where a
/// destination is due, the open cycle is closed and becomes the target of all that are due. Where
/// none is, it is closed without a target once there is something to do and the source is quiet.
pub open spec fn source_advanced(
    st: StateModel,
    s: SourceGroupConfigModel,
    flags: Seq<bool>,
    at: Moment,
    now: Seq<char>,
) -> (StateModel, Option<CycleModel>) {
    match open_cycle(st, s.id) {
        None => (st, None),
        Some(c) => {
            let has_events = has_actionable(st, c.id);
            let ids = due_ids(st, s, has_events, flags, now, s.destinations.len() as int);
            if ids.len() == 0 {
                if has_events && quiesced(st, s.id, at) {
                    (closed_state(st, s.id, at), Some(closing(at)(c)))
                } else {
                    (st, None)
                }
            } else {
                let shut = closed_state(st, s.id, at);
                let cleared = if !c.needs_full_rescan && all_realtime(s, ids) {
                    with_change(shut, c.id, ChangeModel::ClearRescan)
                } else {
                    shut
                };
                (targets_set(cleared, s.id, ids, c.id, now), Some(closing(at)(c)))
            }
        },
    }
}

/// The items, with another one behind them where there is one.
pub open spec fn with_some<T>(s: Seq<T>, o: Option<T>) -> Seq<T> {
    match o {
        Some(x) => s.push(x),
        None => s,
    }
}

/// What becomes of the sources that are switched on, one after the other.
pub open spec fn sources_advanced(
    st: StateModel,
    ss: Seq<SourceGroupConfigModel>,
    due: Seq<Seq<bool>>,
    at: Moment,
    now: Seq<char>,
) -> (StateModel, Seq<CycleModel>)
    decreases ss.len(),
{
    if ss.len() == 0 {
        (st, Seq::empty())
    } else {
        let (before, closed) = sources_advanced(st, ss.drop_last(), due.drop_last(), at, now);
        if ss.last().enabled {
            let (after, cycle) = source_advanced(before, ss.last(), due.last(), at, now);
            (after, with_some(closed, cycle))
        } else {
            (before, closed)
        }
    }
}

/// Whether flags are what the schedules of the destinations of a source say.
pub open spec fn flags_follow_schedules(
    st: StateModel,
    s: SourceGroupConfigModel,
    flags: Seq<bool>,
    at: Moment,
) -> bool {
    s.enabled && open_cycle(st, s.id) is Some ==> {
        &&& flags.len() == s.destinations.len()
        &&& forall|j: int|
            0 <= j < flags.len() ==> due_verdict(
                #[trigger] flags[j],
                open_cycle(st, s.id)->0.starts_at,
                at,
                s.destinations[j].schedule,
            )
    }
}

/// Whether the flags of all sources are what the schedules say when it is their turn.
pub open spec fn due_follows_schedules(
    st: StateModel,
    ss: Seq<SourceGroupConfigModel>,
    due: Seq<Seq<bool>>,
    at: Moment,
    now: Seq<char>,
) -> bool
    decreases ss.len(),
{
    ss.len() == 0 || {
        &&& due_follows_schedules(st, ss.drop_last(), due.drop_last(), at, now)
        &&& flags_follow_schedules(
            sources_advanced(st, ss.drop_last(), due.drop_last(), at, now).0,
            ss.last(),
            due.last(),
            at,
        )
    }
}

/// Whether the sources were advanced by flags that are what the schedules say.
pub open spec fn advanced_by(
    st: StateModel,
    ss: Seq<SourceGroupConfigModel>,
    due: Seq<Seq<bool>>,
    at: Moment,
    now: Seq<char>,
    after: StateModel,
    closed: Seq<CycleModel>,
) -> bool {
    &&& due.len() == ss.len()
    &&& due_follows_schedules(st, ss, due, at, now)
    &&& (after, closed) == sources_advanced(st, ss, due, at, now)
}

/// Whether the sources were advanced as the schedules say.
pub open spec fn advanced_by_schedules(
    st: StateModel,
    ss: Seq<SourceGroupConfigModel>,
    at: Moment,
    now: Seq<char>,
    after: StateModel,
    closed: Seq<CycleModel>,
) -> bool {
    exists|due: Seq<Seq<bool>>| #[trigger] advanced_by(st, ss, due, at, now, after, closed)
}

/// Whether advancing the sources stopped at one for which no identifier was left.
pub open spec fn advancing_stopped_by(
    st: StateModel,
    ss: Seq<SourceGroupConfigModel>,
    due: Seq<Seq<bool>>,
    at: Moment,
    now: Seq<char>,
    after: StateModel,
) -> bool {
    let n = due.len() as int;
    &&& 0 < n <= ss.len()
    &&& due_follows_schedules(st, ss.take(n), due, at, now)
    &&& after == sources_advanced(st, ss.take(n - 1), due.drop_last(), at, now).0
    &&& !fits(sources_advanced(st, ss.take(n), due, at, now).0)
}

/// Whether advancing the sources, as the schedules say, stopped at one for which no identifier was
/// left.
pub open spec fn advancing_stopped(
    st: StateModel,
    ss: Seq<SourceGroupConfigModel>,
    at: Moment,
    now: Seq<char>,
    after: StateModel,
) -> bool {
    exists|due: Seq<Seq<bool>>| #[trigger] advancing_stopped_by(st, ss, due, at, now, after)
}

/// Whether synchronising the sources stopped at one for which no identifier was left.
pub open spec fn forcing_stopped(
    st: StateModel,
    ss: Seq<SourceGroupConfigModel>,
    at: Moment,
    now: Seq<char>,
    after: StateModel,
) -> bool {
    exists|k: int|
        0 <= k < ss.len() && after == sources_forced(st, #[trigger] ss.take(k), at, now).0 && !fits(
            sources_forced(st, ss.take(k + 1), at, now).0,
        )
}

/// Whether closing the cycles of the sources stopped at one for which no identifier was left.
pub open spec fn closing_stopped(
    st: StateModel,
    ss: Seq<SourceGroupConfigModel>,
    at: Moment,
    after: StateModel,
) -> bool {
    exists|k: int|
        0 <= k < ss.len() && after == sources_closed(st, #[trigger] ss.take(k), at).0 && !fits(
            sources_closed(st, ss.take(k + 1), at).0,
        )
}

/// The destinations of a source that receive work, among the first.
pub open spec fn working_ids(s: SourceGroupConfigModel, n: int) -> Seq<Seq<char>>
    decreases n,
{
    if n <= 0 {
        Seq::empty()
    } else if s.destinations[n - 1].enabled && !s.destinations[n - 1].paused {
        working_ids(s, n - 1).push(s.destinations[n - 1].id)
    } else {
        working_ids(s, n - 1)
    }
}

/// What becomes of a source whose destinations are all to be synchronised now.
pub open spec fn source_forced(
    st: StateModel,
    s: SourceGroupConfigModel,
    at: Moment,
    now: Seq<char>,
) -> (StateModel, Option<CycleModel>) {
    match open_cycle(st, s.id) {
        None => (st, None),
        Some(c) => (
            targets_set(
                closed_state(st, s.id, at),
                s.id,
                working_ids(s, s.destinations.len() as int),
                c.id,
                now,
            ),
            Some(closing(at)(c)),
        ),
    }
}

/// What becomes of the sources that are switched on when all are to be synchronised now.
pub open spec fn sources_forced(
    st: StateModel,
    ss: Seq<SourceGroupConfigModel>,
    at: Moment,
    now: Seq<char>,
) -> (StateModel, Seq<CycleModel>)
    decreases ss.len(),
{
    if ss.len() == 0 {
        (st, Seq::empty())
    } else {
        let (before, closed) = sources_forced(st, ss.drop_last(), at, now);
        if ss.last().enabled {
            let (after, cycle) = source_forced(before, ss.last(), at, now);
            (after, with_some(closed, cycle))
        } else {
            (before, closed)
        }
    }
}

/// What becomes of the sources that are switched on when their cycles are closed.
pub open spec fn sources_closed(
    st: StateModel,
    ss: Seq<SourceGroupConfigModel>,
    at: Moment,
) -> (StateModel, Seq<CycleModel>)
    decreases ss.len(),
{
    if ss.len() == 0 {
        (st, Seq::empty())
    } else {
        let (before, closed) = sources_closed(st, ss.drop_last(), at);
        if ss.last().enabled {
            match open_cycle(before, ss.last().id) {
                Some(c) => (reopened(before, ss.last().id, at), closed.push(closing(at)(c))),
                None => (before, closed),
            }
        } else {
            (before, closed)
        }
    }
}

/// What becomes of the first source of a name that is switched on when it is to be synchronised now.
pub open spec fn one_forced(
    st: StateModel,
    cfg: AppConfigModel,
    source_id: Seq<char>,
    at: Moment,
    now: Seq<char>,
) -> (StateModel, Option<CycleModel>) {
    match first_item(cfg.source_groups, enabled_source(source_id)) {
        Some(s) => source_forced(st, s, at, now),
        None => (st, None),
    }
}

/// What becomes of a destination that is to be synchronised now; nothing where it is switched off or
/// paused.
pub open spec fn destination_forced(
    st: StateModel,
    cfg: AppConfigModel,
    source_id: Seq<char>,
    destination_id: Seq<char>,
    at: Moment,
    now: Seq<char>,
) -> (StateModel, Option<CycleModel>) {
    let s = first_item(cfg.source_groups, enabled_source(source_id));
    let c = open_cycle(st, source_id);
    if s is Some && has_working(s->0, destination_id) && c is Some {
        (
            target_set(
                closed_state(st, source_id, at),
                source_id,
                destination_id,
                c->0.id,
                now,
            ),
            Some(closing(at)(c->0)),
        )
    } else {
        (st, None)
    }
}

/// The test for a source that is switched on.
pub open spec fn enabled_source(source_id: Seq<char>) -> spec_fn(SourceGroupConfigModel) -> bool {
    |s: SourceGroupConfigModel| s.id == source_id && s.enabled
}

/// Whether a source has a destination of that name that receives work.
pub open spec fn has_working(s: SourceGroupConfigModel, destination_id: Seq<char>) -> bool {
    exists|j: int|
        0 <= j < s.destinations.len() && (#[trigger] s.destinations[j]).id == destination_id
            && s.destinations[j].enabled && !s.destinations[j].paused
}


/// Whether a source has a realtime destination of that name.
fn realtime(s: &SourceGroupConfig, id: &str) -> (r: bool)
    ensures
        r == is_realtime(s@, id@),
{
    for j in 0..s.destinations.len()
        invariant
            forall|k: int|
                0 <= k < j ==> !((#[trigger] s@.destinations[k]).id == id@
                    && s@.destinations[k].schedule.mode == ScheduleMode::Realtime),
    {
        proof {
            assert(s@.destinations[j as int] == s.destinations@[j as int]@);
        }
        let d = &s.destinations[j];
        if same(d.id.as_str(), id) && d.schedule.mode == ScheduleMode::Realtime {
            return true;
        }
    }
    false
}

/// Whether a source has a destination of that name that receives work.
fn working(s: &SourceGroupConfig, id: &str) -> (r: bool)
    ensures
        r == has_working(s@, id@),
{
    for j in 0..s.destinations.len()
        invariant
            forall|k: int|
                0 <= k < j ==> !((#[trigger] s@.destinations[k]).id == id@
                    && s@.destinations[k].enabled && !s@.destinations[k].paused),
    {
        proof {
            assert(s@.destinations[j as int] == s.destinations@[j as int]@);
        }
        let d = &s.destinations[j];
        if same(d.id.as_str(), id) && d.enabled && !d.paused {
            return true;
        }
    }
    false
}

/// The first source of that name that is switched on.
fn find_enabled(cfg: &AppConfig, source_id: &str) -> (r: Option<usize>)
    ensures
        (match r {
            Some(i) => i as int,
            None => cfg.source_groups.len() as int,
        }) == first_where(cfg@.source_groups, enabled_source(source_id@)),
        r is Some ==> r->0 < cfg.source_groups.len(),
        r is Some ==> cfg.source_groups@[r->0 as int]@.id == source_id@,
{
    let ghost ss = cfg@.source_groups;
    let ghost test = enabled_source(source_id@);
    for i in 0..cfg.source_groups.len()
        invariant
            ss == views(cfg.source_groups@),
            ss == cfg@.source_groups,
            test == enabled_source(source_id@),
            forall|j: int| 0 <= j < i ==> !test(#[trigger] ss[j]),
    {
        proof {
            assert(ss[i as int] == cfg.source_groups@[i as int]@);
        }
        if cfg.source_groups[i].enabled && same(cfg.source_groups[i].id.as_str(), source_id) {
            proof {
                lemma_first_where_is(ss, test, i as int);
            }
            return Some(i);
        }
    }
    proof {
        lemma_first_where_is(ss, test, ss.len() as int);
    }
    None
}

impl State {
    /// Makes sure that there is a row for each destination of a configuration.
    pub fn ensure_config(&mut self, cfg: &AppConfig, now: &str)
        ensures
            final(self)@ == sources_ensured(old(self)@, cfg@.source_groups, now@),
    {
        let ghost ss = cfg@.source_groups;
        proof {
            assert(ss.take(0) =~= Seq::empty());
        }
        for i in 0..cfg.source_groups.len()
            invariant
                ss == views(cfg.source_groups@),
                self@ == sources_ensured(old(self)@, ss.take(i as int), now@),
        {
            let s = &cfg.source_groups[i];
            let ghost ds = s@.destinations;
            let ghost before = self@;
            proof {
                assert(ss[i as int] == s@);
                assert(ss.take(i + 1).drop_last() =~= ss.take(i as int));
                assert(ds.take(0) =~= Seq::empty());
            }
            for j in 0..s.destinations.len()
                invariant
                    ds == views(s.destinations@),
                    self@ == destinations_ensured(before, s@.id, ds.take(j as int), now@),
            {
                proof {
                    assert(ds[j as int] == s.destinations@[j as int]@);
                    assert(ds.take(j + 1).drop_last() =~= ds.take(j as int));
                }
                self.ensure_destination_offset(
                    s.id.as_str(),
                    s.destinations[j].id.as_str(),
                    now,
                );
            }
            proof {
                assert(ds.take(ds.len() as int) =~= ds);
            }
        }
        proof {
            assert(ss.take(ss.len() as int) =~= ss);
        }
    }

    /// Gives each source that is switched on an open cycle, up to one for which no identifier is
    /// left.
    pub fn ensure_open_cycles(&mut self, cfg: &AppConfig, at: Moment) -> (r: Result<(), StateError>)
        ensures
            r is Ok == fits(sources_opened(old(self)@, cfg@.source_groups, at)),
            r is Ok ==> final(self)@ == sources_opened(old(self)@, cfg@.source_groups, at),
            r is Err ==> opening_stopped(old(self)@, cfg@.source_groups, at, final(self)@),
    {
        let ghost ss = cfg@.source_groups;
        let n: usize = cfg.source_groups.len();
        proof {
            assert(ss.take(0) =~= Seq::empty());
        }
        for i in 0..n
            invariant
                n == cfg.source_groups.len(),
                ss == views(cfg.source_groups@),
                ss == cfg@.source_groups,
                self@ == sources_opened(old(self)@, ss.take(i as int), at),
        {
            let s = &cfg.source_groups[i];
            proof {
                assert(ss[i as int] == s@);
                assert(ss.take(i + 1).drop_last() =~= ss.take(i as int));
            }
            if s.enabled {
                match self.ensure_open_cycle(s.id.as_str(), at) {
                    Ok(_) => {},
                    Err(e) => {
                        proof {
                            lemma_opened_grows(old(self)@, ss, i + 1, at);
                            assert(opening_stopped(old(self)@, ss, at, self@));
                        }
                        return Err(e);
                    },
                }
            }
        }
        proof {
            assert(ss.take(ss.len() as int) =~= ss);
        }
        Ok(())
    }

    /// Makes the state ready for a configuration.
    fn prepare(&mut self, cfg: &AppConfig, at: Moment, now: &str) -> (r: Result<(), StateError>)
        ensures
            r is Ok == fits(prepared(old(self)@, cfg@, at, now@)),
            r is Ok ==> final(self)@ == prepared(old(self)@, cfg@, at, now@),
            r is Err ==> preparing_stopped(old(self)@, cfg@, at, now@, final(self)@),
    {
        self.ensure_config(cfg, now);
        self.ensure_open_cycles(cfg, at)
    }

    /// Gives destinations of a source a target.
    fn set_targets(&mut self, source_id: &str, ids: &Vec<String>, target: i64, now: &str)
        ensures
            final(self)@ == targets_set(old(self)@, source_id@, views(ids@), target, now@),
    {
        let ghost all = views(ids@);
        proof {
            assert(all.take(0) =~= Seq::empty());
        }
        for i in 0..ids.len()
            invariant
                all == views(ids@),
                self@ == targets_set(old(self)@, source_id@, all.take(i as int), target, now@),
        {
            proof {
                assert(all[i as int] == ids@[i as int]@);
                assert(all.take(i + 1).drop_last() =~= all.take(i as int));
            }
            self.set_destination_target(source_id, ids[i].as_str(), target, now);
        }
        proof {
            assert(all.take(all.len() as int) =~= all);
        }
    }

    /// The destinations of a source that are to be given the cycle that is open.
    fn due_destinations(
        &self,
        s: &SourceGroupConfig,
        has_events: bool,
        flags: &Vec<bool>,
        now: &str,
    ) -> (out: Vec<String>)
        ensures
            views(out@) == due_ids(
                self@,
                s@,
                has_events,
                flags@,
                now@,
                s@.destinations.len() as int,
            ),
    {
        let mut out: Vec<String> = Vec::new();
        proof {
            assert(views(out@) =~= Seq::<Seq<char>>::empty());
        }
        for j in 0..s.destinations.len()
            invariant
                views(out@) == due_ids(self@, s@, has_events, flags@, now@, j as int),
        {
            let d = &s.destinations[j];
            let ghost was = views(out@);
            proof {
                assert(s@.destinations[j as int] == d@);
            }
            let offset = self.destination_offset(s.id.as_str(), d.id.as_str(), now);
            let behind = match offset.target_cycle_id {
                Some(target) => match offset.last_verified_cycle_id {
                    Some(verified) => verified < target,
                    None => true,
                },
                None => false,
            };
            let first_sync = offset.target_cycle_id.is_none()
                && offset.last_verified_cycle_id.is_none();
            let due = if first_sync {
                true
            } else if d.schedule.mode == ScheduleMode::Realtime {
                has_events
            } else {
                j < flags.len() && flags[j]
            };
            if d.enabled && !d.paused && !behind && due {
                out.push(d.id.clone());
                proof {
                    assert(views(out@) =~= was.push(d@.id));
                }
            }
        }
        out
    }

    /// Closes the open cycle of a source where destinations are due, and makes it their target; the
    /// flags say which destinations are due by their schedule. Gives the cycle that was closed.
    pub fn advance_source(
        &mut self,
        source: &SourceGroupConfig,
        flags: &Vec<bool>,
        at: Moment,
        now: &str,
    ) -> (r: Result<Option<Cycle>, StateError>)
        ensures
            r is Ok == fits(source_advanced(old(self)@, source@, flags@, at, now@).0),
            r is Err ==> *final(self) == *old(self),
            r is Ok ==> (final(self)@, opt_view(r->Ok_0)) == source_advanced(
                old(self)@,
                source@,
                flags@,
                at,
                now@,
            ),
    {
        proof {
            lemma_advanced_fits(self@, source@, flags@, at, now@);
        }
        let source_id = source.id.as_str();
        let cycle = match self.current_open_cycle(source_id) {
            Some(c) => c,
            None => {
                return Ok(None);
            },
        };
        let has_events = self.cycle_has_actionable_events(cycle.id);
        let ids = self.due_destinations(source, has_events, flags, now);
        if ids.len() == 0 {
            if has_events && self.source_events_quiesced(source_id, at) {
                return self.close_current_cycle_for_source(source_id, at);
            }
            return Ok(None);
        }
        let closed = match self.close_current_cycle_for_source(source_id, at) {
            Ok(Some(c)) => c,
            Ok(None) => {
                return Ok(None);
            },
            Err(e) => {
                return Err(e);
            },
        };
        let mut realtime_only = true;
        for i in 0..ids.len()
            invariant
                realtime_only == all_realtime(source@, views(ids@).take(i as int)),
        {
            let ghost all = views(ids@);
            proof {
                assert(all[i as int] == ids@[i as int]@);
                assert(all.take(i + 1)[i as int] == all[i as int]);
                assert forall|k: int| 0 <= k < i implies all.take(i + 1)[k] == (#[trigger] all.take(
                    i as int,
                )[k]) by {}
                assert(all_realtime(source@, all.take(i + 1)) == (all_realtime(
                    source@,
                    all.take(i as int),
                ) && is_realtime(source@, all[i as int]))) by {
                    if all_realtime(source@, all.take(i + 1)) {
                        assert forall|k: int| 0 <= k < i implies is_realtime(
                            source@,
                            #[trigger] all.take(i as int)[k],
                        ) by {
                            assert(is_realtime(source@, all.take(i + 1)[k]));
                        }
                    }
                }
            }
            if !realtime(source, ids[i].as_str()) {
                realtime_only = false;
            }
        }
        proof {
            assert(views(ids@).take(ids.len() as int) =~= views(ids@));
        }
        if !closed.needs_full_rescan && realtime_only {
            self.clear_cycle_needs_rescan(closed.id);
        }
        self.set_targets(source_id, &ids, closed.id, now);
        Ok(Some(closed))
    }

    /// Which destinations of a source are due by their schedule.
    fn schedule_flags(&self, source: &SourceGroupConfig, at: Moment) -> (flags: Vec<bool>)
        ensures
            flags_follow_schedules(self@, source@, flags@, at),
    {
        let mut flags: Vec<bool> = Vec::new();
        match self.current_open_cycle(source.id.as_str()) {
            Some(cycle) => {
                for j in 0..source.destinations.len()
                    invariant
                        flags.len() == j,
                        forall|k: int|
                            0 <= k < flags.len() ==> due_verdict(
                                #[trigger] flags@[k],
                                cycle@.starts_at,
                                at,
                                source@.destinations[k].schedule,
                            ),
                {
                    proof {
                        assert(source@.destinations[j as int] == source.destinations@[j as int]@);
                    }
                    flags.push(cycle_is_due(cycle.starts_at, at, &source.destinations[j].schedule));
                }
            },
            None => {},
        }
        flags
    }

    /// Gives destinations that are due the cycles that they are to reach, and closes those cycles.
    pub fn advance_due_destination_targets(
        &mut self,
        cfg: &AppConfig,
        at: Moment,
        now: &str,
    ) -> (r: Result<Vec<Cycle>, StateError>)
        ensures
            r is Ok ==> fits(prepared(old(self)@, cfg@, at, now@)),
            r is Err ==> preparing_stopped(old(self)@, cfg@, at, now@, final(self)@) || (fits(
                prepared(old(self)@, cfg@, at, now@),
            ) && advancing_stopped(
                prepared(old(self)@, cfg@, at, now@),
                cfg@.source_groups,
                at,
                now@,
                final(self)@,
            )),
            r is Ok ==> advanced_by_schedules(
                prepared(old(self)@, cfg@, at, now@),
                cfg@.source_groups,
                at,
                now@,
                final(self)@,
                views(r->Ok_0@),
            ),
    {
        match self.prepare(cfg, at, now) {
            Ok(_) => {},
            Err(e) => {
                return Err(e);
            },
        }
        let ghost ready = self@;
        let ghost ss = cfg@.source_groups;
        let n: usize = cfg.source_groups.len();
        let mut closed: Vec<Cycle> = Vec::new();
        let ghost mut due: Seq<Seq<bool>> = Seq::empty();
        proof {
            assert(ss.take(0) =~= Seq::empty());
            assert(views(closed@) =~= Seq::<CycleModel>::empty());
        }
        for i in 0..n
            invariant
                n == cfg.source_groups.len(),
                ss == views(cfg.source_groups@),
                ss == cfg@.source_groups,
                ready == prepared(old(self)@, cfg@, at, now@),
                fits(ready),
                due.len() == i,
                due_follows_schedules(ready, ss.take(i as int), due, at, now@),
                (self@, views(closed@)) == sources_advanced(ready, ss.take(i as int), due, at, now@),
        {
            let s = &cfg.source_groups[i];
            let ghost was = views(closed@);
            let ghost due_before = due;
            proof {
                assert(ss[i as int] == s@);
                assert(ss.take(i + 1).drop_last() =~= ss.take(i as int));
            }
            let flags = self.schedule_flags(s, at);
            proof {
                due = due.push(flags@);
                assert(due.drop_last() =~= due_before);
            }
            if s.enabled {
                match self.advance_source(s, &flags, at, now) {
                    Ok(Some(cycle)) => {
                        let ghost cv = cycle@;
                        closed.push(cycle);
                        proof {
                            assert(views(closed@) =~= was.push(cv));
                        }
                    },
                    Ok(None) => {},
                    Err(e) => {
                        proof {
                            assert(advancing_stopped_by(ready, ss, due, at, now@, self@));
                        }
                        return Err(e);
                    },
                }
            }
        }
        proof {
            assert(ss.take(ss.len() as int) =~= ss);
            assert(advanced_by(
                prepared(old(self)@, cfg@, at, now@),
                cfg@.source_groups,
                due,
                at,
                now@,
                self@,
                views(closed@),
            ));
        }
        Ok(closed)
    }

    /// Closes the open cycles of the sources that are switched on where that is forced; otherwise
    /// only makes the state ready.
    pub fn close_due_cycles(&mut self, cfg: &AppConfig, force: bool, at: Moment, now: &str) -> (r:
        Result<Vec<Cycle>, StateError>)
        ensures
            r is Ok == fits(
                if force {
                    sources_closed(
                        prepared(old(self)@, cfg@, at, now@),
                        cfg@.source_groups,
                        at,
                    ).0
                } else {
                    prepared(old(self)@, cfg@, at, now@)
                },
            ),
            r is Err ==> preparing_stopped(old(self)@, cfg@, at, now@, final(self)@) || (fits(
                prepared(old(self)@, cfg@, at, now@),
            ) && closing_stopped(
                prepared(old(self)@, cfg@, at, now@),
                cfg@.source_groups,
                at,
                final(self)@,
            )),
            r is Ok ==> (final(self)@, views(r->Ok_0@)) == (if force {
                sources_closed(prepared(old(self)@, cfg@, at, now@), cfg@.source_groups, at)
            } else {
                (prepared(old(self)@, cfg@, at, now@), Seq::empty())
            }),
    {
        match self.prepare(cfg, at, now) {
            Ok(_) => {},
            Err(e) => {
                proof {
                    let ready = prepared(old(self)@, cfg@, at, now@);
                    let ss = cfg@.source_groups;
                    lemma_closed_grows(ready, ss, 0, at);
                    assert(ss.take(0) =~= Seq::empty());
                }
                return Err(e);
            },
        }
        let ghost ready = self@;
        let ghost ss = cfg@.source_groups;
        let n: usize = cfg.source_groups.len();
        let mut closed: Vec<Cycle> = Vec::new();
        proof {
            assert(views(closed@) =~= Seq::<CycleModel>::empty());
            assert(ss.take(0) =~= Seq::empty());
        }
        if !force {
            return Ok(closed);
        }
        for i in 0..n
            invariant
                n == cfg.source_groups.len(),
                ss == views(cfg.source_groups@),
                ss == cfg@.source_groups,
                force,
                ready == prepared(old(self)@, cfg@, at, now@),
                fits(ready),
                (self@, views(closed@)) == sources_closed(ready, ss.take(i as int), at),
        {
            let s = &cfg.source_groups[i];
            let ghost was = views(closed@);
            let ghost before = self@;
            proof {
                assert(ss[i as int] == s@);
                assert(ss.take(i + 1).drop_last() =~= ss.take(i as int));
            }
            if s.enabled {
                proof {
                    lemma_closing_fits(self@, s@.id, at);
                }
                match self.reopen(s.id.as_str(), at) {
                    Ok(Some(cycle)) => {
                        let ghost cv = cycle@;
                        closed.push(cycle);
                        proof {
                            assert(views(closed@) =~= was.push(cv));
                        }
                    },
                    Ok(None) => {},
                    Err(e) => {
                        proof {
                            lemma_closed_grows(ready, ss, i + 1, at);
                            assert(closing_stopped(ready, ss, at, self@));
                        }
                        return Err(e);
                    },
                }
            }
        }
        proof {
            assert(ss.take(ss.len() as int) =~= ss);
        }
        Ok(closed)
    }

    /// Closes the open cycle of a source and makes it the target of all destinations that receive
    /// work.
    fn force_source(&mut self, s: &SourceGroupConfig, at: Moment, now: &str) -> (r: Result<
        Option<Cycle>,
        StateError,
    >)
        ensures
            r is Ok == fits(source_forced(old(self)@, s@, at, now@).0),
            r is Err ==> *final(self) == *old(self),
            r is Ok ==> (final(self)@, opt_view(r->Ok_0)) == source_forced(
                old(self)@,
                s@,
                at,
                now@,
            ),
    {
        proof {
            lemma_forced_fits(self@, s@, at, now@);
        }
        let cycle = match self.close_current_cycle_for_source(s.id.as_str(), at) {
            Ok(Some(c)) => c,
            Ok(None) => {
                return Ok(None);
            },
            Err(e) => {
                return Err(e);
            },
        };
        let mut ids: Vec<String> = Vec::new();
        proof {
            assert(views(ids@) =~= Seq::<Seq<char>>::empty());
        }
        for j in 0..s.destinations.len()
            invariant
                views(ids@) == working_ids(s@, j as int),
        {
            let d = &s.destinations[j];
            let ghost was = views(ids@);
            proof {
                assert(s@.destinations[j as int] == d@);
            }
            if d.enabled && !d.paused {
                ids.push(d.id.clone());
                proof {
                    assert(views(ids@) =~= was.push(d@.id));
                }
            }
        }
        self.set_targets(s.id.as_str(), &ids, cycle.id, now);
        Ok(Some(cycle))
    }

    /// Closes the open cycles of the sources that are switched on and makes them the targets of
    /// their destinations. A paused destination is left out: nothing is to be queued for it that
    /// would start when it is resumed.
    pub fn force_target_all_destinations(
        &mut self,
        cfg: &AppConfig,
        at: Moment,
        now: &str,
    ) -> (r: Result<Vec<Cycle>, StateError>)
        ensures
            r is Ok == fits(
                sources_forced(
                    prepared(old(self)@, cfg@, at, now@),
                    cfg@.source_groups,
                    at,
                    now@,
                ).0,
            ),
            r is Err ==> preparing_stopped(old(self)@, cfg@, at, now@, final(self)@) || (fits(
                prepared(old(self)@, cfg@, at, now@),
            ) && forcing_stopped(
                prepared(old(self)@, cfg@, at, now@),
                cfg@.source_groups,
                at,
                now@,
                final(self)@,
            )),
            r is Ok ==> (final(self)@, views(r->Ok_0@)) == sources_forced(
                prepared(old(self)@, cfg@, at, now@),
                cfg@.source_groups,
                at,
                now@,
            ),
    {
        match self.prepare(cfg, at, now) {
            Ok(_) => {},
            Err(e) => {
                proof {
                    let ready = prepared(old(self)@, cfg@, at, now@);
                    let ss = cfg@.source_groups;
                    lemma_forced_grows(ready, ss, 0, at, now@);
                    assert(ss.take(0) =~= Seq::empty());
                }
                return Err(e);
            },
        }
        let ghost ready = self@;
        let ghost ss = cfg@.source_groups;
        let n: usize = cfg.source_groups.len();
        let mut closed: Vec<Cycle> = Vec::new();
        proof {
            assert(views(closed@) =~= Seq::<CycleModel>::empty());
            assert(ss.take(0) =~= Seq::empty());
        }
        for i in 0..n
            invariant
                n == cfg.source_groups.len(),
                ss == views(cfg.source_groups@),
                ss == cfg@.source_groups,
                ready == prepared(old(self)@, cfg@, at, now@),
                fits(ready),
                (self@, views(closed@)) == sources_forced(ready, ss.take(i as int), at, now@),
        {
            let s = &cfg.source_groups[i];
            let ghost was = views(closed@);
            proof {
                assert(ss[i as int] == s@);
                assert(ss.take(i + 1).drop_last() =~= ss.take(i as int));
            }
            if s.enabled {
                match self.force_source(s, at, now) {
                    Ok(Some(cycle)) => {
                        let ghost cv = cycle@;
                        closed.push(cycle);
                        proof {
                            assert(views(closed@) =~= was.push(cv));
                        }
                    },
                    Ok(None) => {},
                    Err(e) => {
                        proof {
                            lemma_forced_grows(ready, ss, i + 1, at, now@);
                            assert(forcing_stopped(ready, ss, at, now@, self@));
                        }
                        return Err(e);
                    },
                }
            }
        }
        proof {
            assert(ss.take(ss.len() as int) =~= ss);
        }
        Ok(closed)
    }

    /// Closes the open cycle of a source that is switched on and makes it the target of its
    /// destinations that are not paused.
    pub fn force_target_source(
        &mut self,
        cfg: &AppConfig,
        source_id: &str,
        at: Moment,
        now: &str,
    ) -> (r: Result<Option<Cycle>, StateError>)
        ensures
            ({
                let ready = prepared(old(self)@, cfg@, at, now@);
                let done = one_forced(ready, cfg@, source_id@, at, now@);
                &&& r is Ok == fits(done.0)
                &&& r is Ok ==> (final(self)@, opt_view(r->Ok_0)) == done
                &&& r is Err ==> preparing_stopped(old(self)@, cfg@, at, now@, final(self)@) || (
                fits(ready) && final(self)@ == ready)
            }),
    {
        proof {
            let ready = prepared(old(self)@, cfg@, at, now@);
            match first_item(cfg@.source_groups, enabled_source(source_id@)) {
                Some(s) => {
                    lemma_forced_fits(ready, s, at, now@);
                },
                None => {},
            }
        }
        match self.prepare(cfg, at, now) {
            Ok(_) => {},
            Err(e) => {
                return Err(e);
            },
        }
        match find_enabled(cfg, source_id) {
            Some(i) => {
                proof {
                    assert(cfg@.source_groups[i as int] == cfg.source_groups@[i as int]@);
                }
                self.force_source(&cfg.source_groups[i], at, now)
            },
            None => Ok(None),
        }
    }

    /// Closes the open cycle of a source that is switched on and makes it the target of one of its
    /// destinations; refused where that one is switched off or paused.
    pub fn force_target_destination(
        &mut self,
        cfg: &AppConfig,
        source_id: &str,
        destination_id: &str,
        at: Moment,
        now: &str,
    ) -> (r: Result<Option<Cycle>, StateError>)
        ensures
            ({
                let ready = prepared(old(self)@, cfg@, at, now@);
                let done = destination_forced(
                    ready,
                    cfg@,
                    source_id@,
                    destination_id@,
                    at,
                    now@,
                );
                &&& r is Ok == fits(done.0)
                &&& r is Ok ==> (final(self)@, opt_view(r->Ok_0)) == done
                &&& r is Err ==> preparing_stopped(old(self)@, cfg@, at, now@, final(self)@) || (
                fits(ready) && final(self)@ == ready)
            }),
    {
        proof {
            let ready = prepared(old(self)@, cfg@, at, now@);
            if fits(ready) {
                lemma_closing_fits(ready, source_id@, at);
            } else {
                lemma_reopened_grows(ready, source_id@, at);
            }
        }
        match self.prepare(cfg, at, now) {
            Ok(_) => {},
            Err(e) => {
                return Err(e);
            },
        }
        match find_enabled(cfg, source_id) {
            Some(i) => {
                proof {
                    assert(cfg@.source_groups[i as int] == cfg.source_groups@[i as int]@);
                }
                if !working(&cfg.source_groups[i], destination_id) {
                    return Ok(None);
                }
            },
            None => {
                return Ok(None);
            },
        }
        match self.close_current_cycle_for_source(source_id, at) {
            Ok(Some(cycle)) => {
                self.set_destination_target(source_id, destination_id, cycle.id, now);
                Ok(Some(cycle))
            },
            Ok(None) => Ok(None),
            Err(e) => Err(e),
        }
    }
}

/// Closing never gives identifiers back.
proof fn lemma_reopened_grows(st: StateModel, source_id: Seq<char>, at: Moment)
    ensures
        st.next_cycle <= reopened(st, source_id, at).next_cycle,
        closed_state(st, source_id, at).next_cycle == reopened(st, source_id, at).next_cycle,
{
}

/// A source is advanced just where its cycle is not to be closed or can be.
pub proof fn lemma_advanced_fits(
    st: StateModel,
    s: SourceGroupConfigModel,
    flags: Seq<bool>,
    at: Moment,
    now: Seq<char>,
)
    ensures
        st.next_cycle <= source_advanced(st, s, flags, at, now).0.next_cycle,
        fits(st) ==> fits(source_advanced(st, s, flags, at, now).0) == (source_advanced(
            st,
            s,
            flags,
            at,
            now,
        ).1 is None || can_close(st, s.id)),
{
    if fits(st) {
        lemma_closing_fits(st, s.id, at);
    }
    lemma_reopened_grows(st, s.id, at);
    if open_cycle(st, s.id) is Some {
        let c = open_cycle(st, s.id)->0;
        let ids = due_ids(
            st,
            s,
            has_actionable(st, c.id),
            flags,
            now,
            s.destinations.len() as int,
        );
        let shut = closed_state(st, s.id, at);
        lemma_targets_keep_cycles(shut, s.id, ids, c.id, now);
        lemma_targets_keep_cycles(
            with_change(shut, c.id, ChangeModel::ClearRescan),
            s.id,
            ids,
            c.id,
            now,
        );
    }
}

/// A source is synchronised just where its cycle can be closed.
pub proof fn lemma_forced_fits(
    st: StateModel,
    s: SourceGroupConfigModel,
    at: Moment,
    now: Seq<char>,
)
    ensures
        st.next_cycle <= source_forced(st, s, at, now).0.next_cycle,
        fits(st) ==> fits(source_forced(st, s, at, now).0) == can_close(st, s.id),
{
    if fits(st) {
        lemma_closing_fits(st, s.id, at);
    }
    lemma_reopened_grows(st, s.id, at);
    if open_cycle(st, s.id) is Some {
        lemma_targets_keep_cycles(
            closed_state(st, s.id, at),
            s.id,
            working_ids(s, s.destinations.len() as int),
            open_cycle(st, s.id)->0.id,
            now,
        );
    }
}

/// Opening cycles never gives identifiers back.
proof fn lemma_opened_grows(st: StateModel, ss: Seq<SourceGroupConfigModel>, k: int, at: Moment)
    requires
        0 <= k <= ss.len(),
    ensures
        sources_opened(st, ss.take(k), at).next_cycle <= sources_opened(st, ss, at).next_cycle,
    decreases ss.len(),
{
    if k == ss.len() {
        assert(ss.take(k) =~= ss);
    } else {
        lemma_opened_grows(st, ss.drop_last(), k, at);
        assert(ss.drop_last().take(k) =~= ss.take(k));
    }
}

/// Closing cycles never gives identifiers back.
proof fn lemma_closed_grows(st: StateModel, ss: Seq<SourceGroupConfigModel>, k: int, at: Moment)
    requires
        0 <= k <= ss.len(),
    ensures
        sources_closed(st, ss.take(k), at).0.next_cycle <= sources_closed(st, ss, at).0.next_cycle,
    decreases ss.len(),
{
    if k == ss.len() {
        assert(ss.take(k) =~= ss);
    } else {
        lemma_closed_grows(st, ss.drop_last(), k, at);
        assert(ss.drop_last().take(k) =~= ss.take(k));
        lemma_reopened_grows(sources_closed(st, ss.drop_last(), at).0, ss.last().id, at);
    }
}

/// Synchronising sources never gives identifiers back.
proof fn lemma_forced_grows(
    st: StateModel,
    ss: Seq<SourceGroupConfigModel>,
    k: int,
    at: Moment,
    now: Seq<char>,
)
    requires
        0 <= k <= ss.len(),
    ensures
        sources_forced(st, ss.take(k), at, now).0.next_cycle <= sources_forced(
            st,
            ss,
            at,
            now,
        ).0.next_cycle,
    decreases ss.len(),
{
    if k == ss.len() {
        assert(ss.take(k) =~= ss);
    } else {
        lemma_forced_grows(st, ss.drop_last(), k, at, now);
        assert(ss.drop_last().take(k) =~= ss.take(k));
        lemma_forced_fits(sources_forced(st, ss.drop_last(), at, now).0, ss.last(), at, now);
    }
}

/// Rows for destinations leave everything else alone.
pub proof fn lemma_ensured_keeps_rest(
    st: StateModel,
    ss: Seq<SourceGroupConfigModel>,
    now: Seq<char>,
)
    ensures
        sources_ensured(st, ss, now).reports == st.reports,
        sources_ensured(st, ss, now).cycles == st.cycles,
        sources_ensured(st, ss, now).next_cycle == st.next_cycle,
    decreases ss.len(),
{
    if ss.len() > 0 {
        lemma_ensured_keeps_rest(st, ss.drop_last(), now);
        lemma_destinations_keep_rest(
            sources_ensured(st, ss.drop_last(), now),
            ss.last().id,
            ss.last().destinations,
            now,
        );
    }
}

proof fn lemma_destinations_keep_rest(
    st: StateModel,
    source_id: Seq<char>,
    ds: Seq<DestinationConfigModel>,
    now: Seq<char>,
)
    ensures
        destinations_ensured(st, source_id, ds, now).reports == st.reports,
        destinations_ensured(st, source_id, ds, now).cycles == st.cycles,
        destinations_ensured(st, source_id, ds, now).next_cycle == st.next_cycle,
    decreases ds.len(),
{
    if ds.len() > 0 {
        lemma_destinations_keep_rest(st, source_id, ds.drop_last(), now);
    }
}

/// What setting targets does to the row of one destination.
pub proof fn lemma_targets_set_row(
    st: StateModel,
    source_id: Seq<char>,
    ids: Seq<Seq<char>>,
    target: i64,
    now: Seq<char>,
    row_source: Seq<char>,
    row_id: Seq<char>,
)
    ensures
        ({
            let before = offset_row(st.offsets, row_source, row_id);
            let after = offset_row(
                targets_set(st, source_id, ids, target, now).offsets,
                row_source,
                row_id,
            );
            if row_source == source_id && ids.contains(row_id) {
                &&& after is Some
                &&& after->0.target_cycle_id == Some(target)
                &&& after->0.last_verified_cycle_id == row_or_blank(
                    st.offsets,
                    row_source,
                    row_id,
                    now,
                ).last_verified_cycle_id
            } else {
                after == before
            }
        }),
    decreases ids.len(),
{
    if ids.len() > 0 {
        let fewer = ids.drop_last();
        lemma_targets_set_row(st, source_id, fewer, target, now, row_source, row_id);
        let mid = targets_set(st, source_id, fewer, target, now);
        let id = ids.last();
        lemma_first_where(mid.offsets, row_of(source_id, id));
        let row = OffsetRowModel {
            target_cycle_id: Some(target),
            status: "red"@,
            status_reason: "pending_target_cycle"@,
            updated_at: now,
            ..row_or_blank(mid.offsets, source_id, id, now)
        };
        put_row_is_found(mid.offsets, row, row_source, row_id);
        if ids.contains(row_id) && row_id != id {
            let k = choose|k: int| 0 <= k < ids.len() && ids[k] == row_id;
            assert(fewer[k] == row_id);
        }
        if fewer.contains(row_id) {
            let k = choose|k: int| 0 <= k < fewer.len() && fewer[k] == row_id;
            assert(ids[k] == row_id);
        }
        assert(ids.contains(id)) by {
            assert(ids[ids.len() - 1] == id);
        }
    } else {
        assert(!ids.contains(row_id));
    }
}

/// Whether a destination of that name among the first of a source is due.
pub open spec fn is_due(
    st: StateModel,
    s: SourceGroupConfigModel,
    flags: Seq<bool>,
    now: Seq<char>,
    id: Seq<char>,
    n: int,
) -> bool {
    exists|j: int|
        0 <= j < n && (#[trigger] s.destinations[j]).id == id && destination_is_due(
            s.destinations[j],
            row_or_blank(st.offsets, s.id, id, now),
            has_actionable(st, open_cycle(st, s.id)->0.id),
            flag_at(flags, j),
        )
}

pub proof fn lemma_due_ids(
    st: StateModel,
    s: SourceGroupConfigModel,
    flags: Seq<bool>,
    now: Seq<char>,
    id: Seq<char>,
    n: int,
)
    requires
        0 <= n <= s.destinations.len(),
    ensures
        due_ids(
            st,
            s,
            has_actionable(st, open_cycle(st, s.id)->0.id),
            flags,
            now,
            n,
        ).contains(id) == is_due(st, s, flags, now, id, n),
    decreases n,
{
    let has = has_actionable(st, open_cycle(st, s.id)->0.id);
    let all = due_ids(st, s, has, flags, now, n);
    if n > 0 {
        lemma_due_ids(st, s, flags, now, id, n - 1);
        let before = due_ids(st, s, has, flags, now, n - 1);
        let d = s.destinations[n - 1];
        if all.len() > before.len() {
            if before.contains(id) {
                let k = choose|k: int| 0 <= k < before.len() && before[k] == id;
                assert(all[k] == id);
            }
            if d.id == id {
                assert(all[before.len() as int] == id);
            }
        }
    }
}

/// When the open cycle of a source is offered to its destinations, each one that is due has it as
/// its target afterwards and keeps what it was verified for; no other row changes, of this source or
/// of another. So a destination that is switched off, paused or still behind keeps its target.
pub proof fn due_destinations_get_the_closed_cycle(
    st: StateModel,
    s: SourceGroupConfigModel,
    flags: Seq<bool>,
    at: Moment,
    now: Seq<char>,
    source_id: Seq<char>,
    id: Seq<char>,
)
    requires
        open_cycle(st, s.id) is Some,
    ensures
        ({
            let (after, closed) = source_advanced(st, s, flags, at, now);
            let row = offset_row(after.offsets, source_id, id);
            if source_id == s.id && is_due(st, s, flags, now, id, s.destinations.len() as int) {
                &&& closed is Some && closed->0.id == open_cycle(st, s.id)->0.id
                &&& row is Some && row->0.target_cycle_id == Some(closed->0.id)
                &&& row->0.last_verified_cycle_id == row_or_blank(
                    st.offsets,
                    source_id,
                    id,
                    now,
                ).last_verified_cycle_id
            } else {
                row == offset_row(st.offsets, source_id, id)
            }
        }),
{
    let c = open_cycle(st, s.id)->0;
    let ids = due_ids(
        st,
        s,
        has_actionable(st, c.id),
        flags,
        now,
        s.destinations.len() as int,
    );
    lemma_due_ids(st, s, flags, now, id, s.destinations.len() as int);
    let shut = closed_state(st, s.id, at);
    assert(shut.offsets == st.offsets);
    let cleared = if !c.needs_full_rescan && all_realtime(s, ids) {
        with_change(shut, c.id, ChangeModel::ClearRescan)
    } else {
        shut
    };
    lemma_targets_set_row(cleared, s.id, ids, c.id, now, source_id, id);
    if ids.len() == 0 {
        assert(!ids.contains(id));
    }
}

/// Without something to do, a realtime destination that was synchronised before is not due.
pub proof fn realtime_waits_for_events(
    d: DestinationConfigModel,
    row: OffsetRowModel,
    scheduled: bool,
)
    requires
        d.schedule.mode == ScheduleMode::Realtime,
        row.target_cycle_id is Some || row.last_verified_cycle_id is Some,
    ensures
        !destination_is_due(d, row, false, scheduled),
{
}

pub proof fn lemma_targets_keep_cycles(
    st: StateModel,
    source_id: Seq<char>,
    ids: Seq<Seq<char>>,
    target: i64,
    now: Seq<char>,
)
    ensures
        targets_set(st, source_id, ids, target, now).cycles == st.cycles,
        targets_set(st, source_id, ids, target, now).next_cycle == st.next_cycle,
    decreases ids.len(),
{
    if ids.len() > 0 {
        lemma_targets_keep_cycles(st, source_id, ids.drop_last(), target, now);
    }
}

proof fn lemma_clearing_keeps_order(st: StateModel, id: i64)
    requires
        cycles_in_order(st),
    ensures
        cycles_in_order(with_change(st, id, ChangeModel::ClearRescan)),
{
    let after = with_change(st, id, ChangeModel::ClearRescan);
    assert forall|i: int| 0 <= i < after.cycles.len() implies {
        &&& (#[trigger] after.cycles[i]).id == st.cycles[i].id
        &&& after.cycles[i].source_id == st.cycles[i].source_id
        &&& after.cycles[i].status == st.cycles[i].status
    } by {}
    assert forall|i: int, j: int| 0 <= i < j < after.cycles.len() implies (
    #[trigger] after.cycles[i]).id < (#[trigger] after.cycles[j]).id by {
        assert(st.cycles[i].id < st.cycles[j].id);
    }
    assert forall|i: int, j: int|
        #![trigger after.cycles[i], after.cycles[j]]
        0 <= i < j < after.cycles.len() && after.cycles[i].source_id
            == after.cycles[j].source_id implies !(after.cycles[i].status == "open"@
        && after.cycles[j].status == "open"@) by {
        assert(st.cycles[i].source_id == st.cycles[j].source_id);
    }
}

/// Advancing a source keeps the cycles in order: identifiers ascend, and no source has two open
/// cycles.
pub proof fn advancing_keeps_order(
    st: StateModel,
    s: SourceGroupConfigModel,
    flags: Seq<bool>,
    at: Moment,
    now: Seq<char>,
)
    requires
        cycles_in_order(st),
        0 <= st.next_cycle < LAST_ID,
    ensures
        cycles_in_order(source_advanced(st, s, flags, at, now).0),
{
    if open_cycle(st, s.id) is Some {
        let c = open_cycle(st, s.id)->0;
        closing_keeps_order(st, s.id, at);
        let shut = closed_state(st, s.id, at);
        let opened_again = reopened(st, s.id, at);
        assert(shut.cycles == opened_again.cycles && shut.next_cycle == opened_again.next_cycle);
        lemma_order_is_of_cycles(opened_again, shut);
        lemma_clearing_keeps_order(shut, c.id);
        let ids = due_ids(
            st,
            s,
            has_actionable(st, c.id),
            flags,
            now,
            s.destinations.len() as int,
        );
        let cleared = if !c.needs_full_rescan && all_realtime(s, ids) {
            with_change(shut, c.id, ChangeModel::ClearRescan)
        } else {
            shut
        };
        lemma_targets_keep_cycles(cleared, s.id, ids, c.id, now);
        lemma_order_is_of_cycles(cleared, targets_set(cleared, s.id, ids, c.id, now));
    }
}

proof fn lemma_order_is_of_cycles(a: StateModel, b: StateModel)
    requires
        cycles_in_order(a),
        a.cycles == b.cycles,
        a.next_cycle == b.next_cycle,
    ensures
        cycles_in_order(b),
{
}

proof fn lemma_working_ids(s: SourceGroupConfigModel, id: Seq<char>, n: int)
    requires
        0 <= n <= s.destinations.len(),
    ensures
        working_ids(s, n).contains(id) ==> has_working(s, id),
    decreases n,
{
    if n > 0 {
        lemma_working_ids(s, id, n - 1);
        let before = working_ids(s, n - 1);
        let d = s.destinations[n - 1];
        if working_ids(s, n).contains(id) && d.id != id {
            let k = choose|k: int| 0 <= k < working_ids(s, n).len() && working_ids(s, n)[k] == id;
            assert(k < before.len());
            assert(before[k] == id);
        }
    }
}

/// When a source is to be synchronised now, only destinations that are switched on and not paused
/// get another target.
pub proof fn forcing_leaves_paused_destinations_alone(
    st: StateModel,
    s: SourceGroupConfigModel,
    at: Moment,
    now: Seq<char>,
    source_id: Seq<char>,
    id: Seq<char>,
)
    requires
        source_id != s.id || !has_working(s, id),
    ensures
        offset_row(source_forced(st, s, at, now).0.offsets, source_id, id) == offset_row(
            st.offsets,
            source_id,
            id,
        ),
{
    if open_cycle(st, s.id) is Some {
        let n = s.destinations.len() as int;
        lemma_working_ids(s, id, n);
        lemma_targets_set_row(
            closed_state(st, s.id, at),
            s.id,
            working_ids(s, n),
            open_cycle(st, s.id)->0.id,
            now,
            source_id,
            id,
        );
    }
}

proof fn lemma_rows_persist(
    st: StateModel,
    source_id: Seq<char>,
    ds: Seq<DestinationConfigModel>,
    now: Seq<char>,
    row_source: Seq<char>,
    row_id: Seq<char>,
)
    ensures
        offset_row(st.offsets, row_source, row_id) is Some ==> offset_row(
            destinations_ensured(st, source_id, ds, now).offsets,
            row_source,
            row_id,
        ) is Some,
        forall|j: int|
            0 <= j < ds.len() ==> offset_row(
                destinations_ensured(st, source_id, ds, now).offsets,
                source_id,
                (#[trigger] ds[j]).id,
            ) is Some,
    decreases ds.len(),
{
    if ds.len() > 0 {
        let fewer = ds.drop_last();
        lemma_rows_persist(st, source_id, fewer, now, row_source, row_id);
        let mid = destinations_ensured(st, source_id, fewer, now);
        let row = blank_row(source_id, ds.last().id, "not_verified"@, now);
        put_row_is_found(mid.offsets, row, row_source, row_id);
        assert forall|j: int| 0 <= j < ds.len() implies offset_row(
            destinations_ensured(st, source_id, ds, now).offsets,
            source_id,
            (#[trigger] ds[j]).id,
        ) is Some by {
            put_row_is_found(mid.offsets, row, source_id, ds[j].id);
            if j < fewer.len() {
                assert(fewer[j] == ds[j]);
            }
        }
    }
}

proof fn lemma_nothing_to_ensure(
    st: StateModel,
    source_id: Seq<char>,
    ds: Seq<DestinationConfigModel>,
    now: Seq<char>,
)
    requires
        forall|j: int|
            0 <= j < ds.len() ==> offset_row(st.offsets, source_id, (#[trigger] ds[j]).id) is Some,
    ensures
        destinations_ensured(st, source_id, ds, now) == st,
    decreases ds.len(),
{
    if ds.len() > 0 {
        let fewer = ds.drop_last();
        assert forall|j: int| 0 <= j < fewer.len() implies offset_row(
            st.offsets,
            source_id,
            (#[trigger] fewer[j]).id,
        ) is Some by {
            assert(fewer[j] == ds[j]);
        }
        lemma_nothing_to_ensure(st, source_id, fewer, now);
        assert(ds[ds.len() - 1] == ds.last());
    }
}

/// Whether each destination of the sources has a row.
pub open spec fn all_rows(st: StateModel, ss: Seq<SourceGroupConfigModel>) -> bool {
    forall|i: int, j: int|
        #![trigger ss[i].destinations[j]]
        0 <= i < ss.len() && 0 <= j < ss[i].destinations.len() ==> offset_row(
            st.offsets,
            ss[i].id,
            ss[i].destinations[j].id,
        ) is Some
}

proof fn lemma_sources_have_rows(
    st: StateModel,
    ss: Seq<SourceGroupConfigModel>,
    now: Seq<char>,
)
    ensures
        all_rows(sources_ensured(st, ss, now), ss),
    decreases ss.len(),
{
    if ss.len() > 0 {
        let fewer = ss.drop_last();
        lemma_sources_have_rows(st, fewer, now);
        let mid = sources_ensured(st, fewer, now);
        let last = ss.last();
        let after = sources_ensured(st, ss, now);
        assert forall|i: int, j: int|
            #![trigger ss[i].destinations[j]]
            0 <= i < ss.len() && 0 <= j < ss[i].destinations.len() implies offset_row(
            after.offsets,
            ss[i].id,
            ss[i].destinations[j].id,
        ) is Some by {
            let id = ss[i].destinations[j].id;
            lemma_rows_persist(mid, last.id, last.destinations, now, ss[i].id, id);
            if i < fewer.len() {
                assert(fewer[i] == ss[i]);
                assert(offset_row(mid.offsets, fewer[i].id, fewer[i].destinations[j].id) is Some);
            }
        }
    }
}

proof fn lemma_no_rows_missing(st: StateModel, ss: Seq<SourceGroupConfigModel>, now: Seq<char>)
    requires
        all_rows(st, ss),
    ensures
        sources_ensured(st, ss, now) == st,
    decreases ss.len(),
{
    if ss.len() > 0 {
        let fewer = ss.drop_last();
        assert forall|i: int, j: int|
            #![trigger fewer[i].destinations[j]]
            0 <= i < fewer.len() && 0 <= j < fewer[i].destinations.len() implies offset_row(
            st.offsets,
            fewer[i].id,
            fewer[i].destinations[j].id,
        ) is Some by {
            assert(ss[i] == fewer[i]);
            assert(offset_row(st.offsets, ss[i].id, ss[i].destinations[j].id) is Some);
        }
        lemma_no_rows_missing(st, fewer, now);
        let last = ss.last();
        assert forall|j: int| 0 <= j < last.destinations.len() implies offset_row(
            st.offsets,
            last.id,
            (#[trigger] last.destinations[j]).id,
        ) is Some by {
            assert(ss[ss.len() - 1].destinations[j] == last.destinations[j]);
        }
        lemma_nothing_to_ensure(st, last.id, last.destinations, now);
    }
}

/// Once the state was brought in line with a configuration, doing it again changes nothing, however
/// often it is done.
pub proof fn ensuring_again_changes_nothing(
    st: StateModel,
    ss: Seq<SourceGroupConfigModel>,
    now: Seq<char>,
    later: Seq<char>,
)
    ensures
        sources_ensured(sources_ensured(st, ss, now), ss, later) == sources_ensured(st, ss, now),
{
    lemma_sources_have_rows(st, ss, now);
    lemma_no_rows_missing(sources_ensured(st, ss, now), ss, later);
}

} // verus!
