//! When a destination's cycle ends by its schedule.

use crate::clock::{
    as_days, at_the_ends, local_times, moments_of, told_day, day_start, earlier, has_passed, in_calendar, is_consistent, is_earlier,
    may_be_day_of, may_be_times_of, named_weekday, parse_weekday, passed, resolves,
    seconds_pass_in_order, times_in, weekday, weekday_of, Moment, Zone, DAY_SECS, FIRST_DAY,
    LAST_DAY,
};
use crate::config::schedule_time::{
    parse_schedule_time, time_of_day, times_lie_within_a_day, written, written_times_are_read, ScheduleError, ScheduleErrorModel,
};
use crate::config::types::{ScheduleConfig, ScheduleConfigModel, ScheduleMode};
use crate::local::{asked, found_in, LocalDay, LocalTime};
use vstd::prelude::*;

verus! {

/// Why a boundary could not be calculated.
#[derive(Debug)]
pub enum BoundaryError {
    /// The time of day cannot be read.
    Time(ScheduleError),
    /// The weekday cannot be read.
    Weekday,
    /// A local time does not exist.
    Unresolved,
    /// The calendar ends.
    OutOfRange,
}

/// The model of a `BoundaryError`.
pub enum BoundaryErrorModel {
    Time(ScheduleErrorModel),
    Weekday,
    Unresolved,
    OutOfRange,
}

impl View for BoundaryError {
    type V = BoundaryErrorModel;

    open spec fn view(&self) -> BoundaryErrorModel {
        match self {
            BoundaryError::Time(e) => BoundaryErrorModel::Time(e@),
            BoundaryError::Weekday => BoundaryErrorModel::Weekday,
            BoundaryError::Unresolved => BoundaryErrorModel::Unresolved,
            BoundaryError::OutOfRange => BoundaryErrorModel::OutOfRange,
        }
    }
}

/// The model of a boundary that may have failed.
pub open spec fn boundary_view(r: Result<Moment, BoundaryError>) -> Result<
    Moment,
    BoundaryErrorModel,
> {
    match r {
        Ok(m) => Ok(m),
        Err(e) => Err(e@),
    }
}

/// What a list of candidates gives: the first one after the start, unless one before it does not
/// exist.
pub open spec fn first_after(start: Moment, candidates: Seq<Option<Moment>>, i: int) -> Result<
    Option<Moment>,
    (),
>
    decreases candidates.len() - i,
{
    if i < 0 || i >= candidates.len() {
        Ok(None)
    } else {
        match candidates[i] {
            None => Err(()),
            Some(m) => if earlier(start, m) {
                Ok(Some(m))
            } else {
                first_after(start, candidates, i + 1)
            },
        }
    }
}

/// The first candidate after the start, unless one before it does not exist.
pub fn first_candidate(start: Moment, candidates: &Vec<Option<Moment>>) -> (r: Result<
    Option<Moment>,
    (),
>)
    ensures
        r == first_after(start, candidates@, 0),
{
    for i in 0..candidates.len()
        invariant
            first_after(start, candidates@, 0) == first_after(start, candidates@, i as int),
    {
        match candidates[i] {
            None => {
                return Err(());
            },
            Some(m) => {
                if is_earlier(start, m) {
                    return Ok(Some(m));
                }
            },
        }
    }
    Ok(None)
}

/// The days on which a daily schedule may next fall, from the local day of the start on. Local
/// time differs from universal time by less than a day, so one of four days is late enough.
pub open spec fn daily_days(day: int) -> Seq<int> {
    seq![day, day + 1, day + 2, day + 3]
}

/// The days within two weeks of a day that have a weekday.
pub open spec fn weekly_days(day: int, wanted: int) -> Seq<int> {
    let k = (wanted - weekday_of(day)) % 7;
    seq![day + k, day + k + 7]
}

/// The weekday of a weekly schedule; Monday where none is given.
pub open spec fn wanted_weekday(cfg: ScheduleConfigModel) -> Option<u32> {
    match cfg.weekday {
        Some(name) => named_weekday(name),
        None => Some(0u32),
    }
}

/// Whether a schedule can be read: its time, and its weekday where it needs one.
pub open spec fn readable(cfg: ScheduleConfigModel) -> bool {
    match cfg.mode {
        ScheduleMode::Realtime => true,
        ScheduleMode::Daily => time_of_day(cfg.time) is Ok,
        ScheduleMode::Weekly => time_of_day(cfg.time) is Ok && wanted_weekday(cfg) is Some,
    }
}

/// The weekday of a weekly schedule; Monday where none is given.
fn schedule_weekday(cfg: &ScheduleConfig) -> (r: Option<u32>)
    ensures
        r == wanted_weekday(cfg@),
        r is Some ==> r->0 < 7,
{
    match &cfg.weekday {
        Some(name) => parse_weekday(name.as_str()),
        None => Some(0),
    }
}

/// The test for days of the calendar, of those that are not before it.
pub open spec fn not_behind() -> spec_fn(int) -> bool {
    |d: int| d <= LAST_DAY
}

/// The days on which a schedule may next fall, from a local day on, within the calendar.
pub fn candidate_days(day: i64, wanted: Option<u32>) -> (out: Vec<i64>)
    requires
        FIRST_DAY <= day <= LAST_DAY,
        wanted is Some ==> wanted->0 < 7,
    ensures
        as_days(out@) == (match wanted {
            None => daily_days(day as int),
            Some(w) => weekly_days(day as int, w as int),
        }).filter(not_behind()),
        forall|i: int| 0 <= i < out.len() ==> day <= (#[trigger] out@[i]) <= LAST_DAY,
{
    let mut all: Vec<i64> = Vec::new();
    match wanted {
        None => {
            all.push(day);
            all.push(day + 1);
            all.push(day + 2);
            all.push(day + 3);
            proof {
                assert(as_days(all@) =~= daily_days(day as int));
            }
        },
        Some(w) => {
            let k: i64 = ((w as i64) + 7 - (weekday(day) as i64)) % 7;
            all.push(day + k);
            all.push(day + k + 7);
            proof {
                assert(k == (w as int - weekday_of(day as int)) % 7);
                assert(as_days(all@) =~= weekly_days(day as int, w as int));
            }
        },
    }
    let ghost days = as_days(all@);
    let mut out: Vec<i64> = Vec::new();
    proof {
        assert(days.take(0) =~= Seq::empty());
        assert(days.take(0).filter(not_behind()) =~= Seq::empty()) by {
            reveal(Seq::filter);
        }
        assert(as_days(out@) =~= Seq::empty());
    }
    for i in 0..all.len()
        invariant
            days == as_days(all@),
            forall|j: int| 0 <= j < all.len() ==> day <= #[trigger] all@[j],
            as_days(out@) == days.take(i as int).filter(not_behind()),
            forall|j: int| 0 <= j < out.len() ==> day <= (#[trigger] out@[j]) <= LAST_DAY,
    {
        let ghost before = as_days(out@);
        proof {
            reveal(Seq::filter);
            assert(days.take(i + 1).drop_last() =~= days.take(i as int));
            assert(days.take(i + 1).last() == all@[i as int]);
        }
        if all[i] <= LAST_DAY {
            out.push(all[i]);
            proof {
                assert(as_days(out@) =~= before.push(all@[i as int] as int));
            }
        }
    }
    proof {
        assert(days.take(days.len() as int) =~= days);
    }
    out
}

/// The candidate days of a weekly schedule have its weekday, and every day of that weekday within
/// two weeks is one of them.
pub proof fn weekly_days_have_the_weekday(day: int, wanted: int, other: int)
    requires
        0 <= wanted < 7,
    ensures
        weekday_of(weekly_days(day, wanted)[0]) == wanted,
        weekday_of(weekly_days(day, wanted)[1]) == wanted,
        day <= other < day + 14 && weekday_of(other) == wanted ==> weekly_days(
            day,
            wanted,
        ).contains(other),
{
    let k = (wanted - weekday_of(day)) % 7;
    let days = weekly_days(day, wanted);
    if day <= other < day + 14 && weekday_of(other) == wanted {
        assert(other == day + k || other == day + k + 7);
        if other == day + k {
            assert(days[0] == other);
        } else {
            assert(days[1] == other);
        }
    }
}

/// The last candidate of a schedule comes after its start, whatever the time zone.
proof fn lemma_last_candidate_is_after(start: Moment, day: int, candidate: int, m: Moment, secs: int)
    requires
        may_be_day_of(day, start.secs as int),
        candidate >= day + 3,
        0 <= secs,
        day_start(candidate) + secs - DAY_SECS < m.secs,
    ensures
        earlier(start, m),
{
    assert(day_start(candidate) >= day_start(day + 3)) by (nonlinear_arith)
        requires
            candidate >= day + 3,
            DAY_SECS == 86400,
    ;
}

/// A list whose last candidate comes after the start never runs out.
proof fn lemma_never_runs_out(start: Moment, candidates: Seq<Option<Moment>>, i: int)
    requires
        0 <= i < candidates.len(),
        candidates.last() is Some ==> earlier(start, candidates.last()->0),
    ensures
        first_after(start, candidates, i) matches Ok(m) ==> m is Some && earlier(start, m->0),
    decreases candidates.len() - i,
{
    if i + 1 < candidates.len() {
        lemma_never_runs_out(start, candidates, i + 1);
    }
}

/// When a schedule falls: on a weekday, or on every day, at a second of the day.
#[derive(Clone, Copy, Debug, PartialEq, Eq, Structural)]
pub struct Slot {
    /// The weekday, counted from Monday; nothing for every day.
    pub weekday: Option<u32>,
    /// The second of the day.
    pub secs: u32,
}

/// When a schedule falls, or why that cannot be read. The hour and the minute count; the weekday
/// counts in a weekly schedule alone.
pub open spec fn slot_of(cfg: ScheduleConfigModel) -> Result<Slot, BoundaryErrorModel> {
    match time_of_day(cfg.time) {
        Err(e) => Err(BoundaryErrorModel::Time(e)),
        Ok(t) => {
            let secs = (t.0 * 3600 + t.1 * 60) as u32;
            if cfg.mode == ScheduleMode::Weekly {
                match wanted_weekday(cfg) {
                    None => Err(BoundaryErrorModel::Weekday),
                    Some(w) => Ok(Slot { weekday: Some(w), secs }),
                }
            } else {
                Ok(Slot { weekday: None, secs })
            }
        },
    }
}

/// Reads when a schedule falls.
pub fn read_schedule(cfg: &ScheduleConfig) -> (r: Result<Slot, BoundaryError>)
    ensures
        (match r {
            Ok(s) => Ok::<Slot, BoundaryErrorModel>(s),
            Err(e) => Err(e@),
        }) == slot_of(cfg@),
        r is Ok ==> r->Ok_0.secs < 86400,
        r is Ok && r->Ok_0.weekday is Some ==> r->Ok_0.weekday->0 < 7,
{
    let time = match parse_schedule_time(cfg.time.as_str()) {
        Ok(t) => t,
        Err(e) => {
            return Err(BoundaryError::Time(e));
        },
    };
    let secs: u32 = time.0 * 3600 + time.1 * 60;
    match cfg.mode {
        ScheduleMode::Weekly => match schedule_weekday(cfg) {
            Some(w) => Ok(Slot { weekday: Some(w), secs }),
            None => Err(BoundaryError::Weekday),
        },
        _ => Ok(Slot { weekday: None, secs }),
    }
}

/// The days on which a schedule may next fall, from a local day on.
pub open spec fn slot_days(slot: Slot, day: int) -> Seq<int> {
    match slot.weekday {
        None => daily_days(day),
        Some(w) => weekly_days(day, w as int),
    }
}

/// The days of the calendar on which a schedule may next fall, from a local day on.
pub open spec fn boundary_days(slot: Slot, day: int) -> Seq<int> {
    slot_days(slot, day).filter(not_behind())
}

/// The boundary that the moments of the candidate days give: the first one after the start. Where
/// there is none, the calendar has ended.
pub open spec fn boundary_from(start: Moment, candidates: Seq<Option<Moment>>) -> Result<
    Moment,
    BoundaryErrorModel,
> {
    match first_after(start, candidates, 0) {
        Ok(Some(m)) => Ok(m),
        Ok(None) => Err(BoundaryErrorModel::OutOfRange),
        Err(_) => Err(BoundaryErrorModel::Unresolved),
    }
}

/// The boundary that the moments of the candidate days give.
pub fn boundary_among(start: Moment, candidates: &Vec<Option<Moment>>) -> (r: Result<
    Moment,
    BoundaryError,
>)
    ensures
        boundary_view(r) == boundary_from(start, candidates@),
{
    match first_candidate(start, candidates) {
        Ok(Some(m)) => Ok(m),
        Ok(None) => Err(BoundaryError::OutOfRange),
        Err(_) => Err(BoundaryError::Unresolved),
    }
}

/// Whether a boundary is what a local day of the start, and the moments at which the candidate days
/// have the time of the schedule, give. A local day outside the calendar gives an error.
pub open spec fn boundary_answer(
    r: Result<Moment, BoundaryErrorModel>,
    start: Moment,
    slot: Slot,
    day: int,
    candidates: Seq<Option<Moment>>,
) -> bool {
    &&& may_be_day_of(day, start.secs as int)
    &&& if FIRST_DAY <= day <= LAST_DAY {
        &&& may_be_times_of(candidates, boundary_days(slot, day), slot.secs as int, 0)
        &&& r == boundary_from(start, candidates)
    } else {
        r == Err::<Moment, BoundaryErrorModel>(BoundaryErrorModel::OutOfRange)
    }
}

/// Whether a boundary is what the machine's answers give: the local day of the start, and the moments
/// at which the days on which the schedule may next fall, from that day on, have its time.
pub open spec fn boundary_told(
    r: Result<Moment, BoundaryErrorModel>,
    start: Moment,
    slot: Slot,
    day: LocalDay,
    times: Seq<LocalTime>,
) -> bool {
    &&& day.moment() == start
    &&& FIRST_DAY <= day.number() <= LAST_DAY
    &&& asked(times, boundary_days(slot, day.number()), slot.secs as int, 0)
    &&& boundary_answer(r, start, slot, day.number(), found_in(times))
}

/// Whether a boundary is that of a schedule in the machine's time zone. A realtime cycle ends with its start;
/// a schedule that cannot be read gives its error; so does a start outside the calendar.
pub open spec fn possible_boundary(
    r: Result<Moment, BoundaryErrorModel>,
    start: Moment,
    cfg: ScheduleConfigModel,
) -> bool {
    if cfg.mode == ScheduleMode::Realtime {
        r == Ok::<Moment, BoundaryErrorModel>(start)
    } else {
        match slot_of(cfg) {
            Err(e) => r == Err::<Moment, BoundaryErrorModel>(e),
            Ok(slot) => if !in_calendar(start) {
                r == Err::<Moment, BoundaryErrorModel>(BoundaryErrorModel::OutOfRange)
            } else {
                ||| exists|day: LocalDay, times: Seq<LocalTime>|
                    boundary_told(r, start, slot, day, times)
                ||| at_the_ends(start) && r == Err::<Moment, BoundaryErrorModel>(
                    BoundaryErrorModel::OutOfRange,
                )
            },
        }
    }
}

/// The end of a cycle by its schedule: with a realtime schedule the start itself, else the first
/// local time of the schedule after the start. Which moment a local time is, and whether it exists,
/// depends on the machine's time zone.
pub fn next_boundary_after(start: Moment, cfg: &ScheduleConfig) -> (r: Result<Moment, BoundaryError>)
    ensures
        possible_boundary(boundary_view(r), start, cfg@),
{
    match cfg.mode {
        ScheduleMode::Realtime => {
            return Ok(start);
        },
        _ => {},
    }
    let slot = match read_schedule(cfg) {
        Ok(s) => s,
        Err(e) => {
            return Err(e);
        },
    };
    let day = match told_day(start) {
        Some(d) => d,
        None => {
            return Err(BoundaryError::OutOfRange);
        },
    };
    let days = candidate_days(day.day(), slot.weekday);
    let times = local_times(&days, slot.secs, 0);
    let r = boundary_among(start, &moments_of(&times));
    proof {
        assert(boundary_told(boundary_view(r), start, slot, day, times@));
    }
    r
}

/// The candidate days of a schedule reach three days ahead, and no more than thirteen.
proof fn lemma_slot_days(slot: Slot, day: int)
    requires
        slot.weekday is Some ==> slot.weekday->0 < 7,
    ensures
        slot_days(slot, day).len() > 0,
        slot_days(slot, day).last() >= day + 3,
        forall|i: int|
            0 <= i < slot_days(slot, day).len() ==> day <= (#[trigger] slot_days(slot, day)[i])
                <= day + 13,
{
}

/// The days of a schedule come in order.
proof fn lemma_slot_days_sorted(slot: Slot, day: int)
    requires
        slot.weekday is Some ==> slot.weekday->0 < 7,
    ensures
        forall|i: int, j: int|
            0 <= i < j < slot_days(slot, day).len() ==> (#[trigger] slot_days(slot, day)[i]) < (
            #[trigger] slot_days(slot, day)[j]),
{
}

/// Of days that come in order, those of the calendar are the first ones.
proof fn lemma_kept_days(days: Seq<int>) -> (n: int)
    requires
        forall|i: int, j: int|
            0 <= i < j < days.len() ==> (#[trigger] days[i]) < (#[trigger] days[j]),
    ensures
        0 <= n <= days.len(),
        days.filter(not_behind()) == days.take(n),
        forall|i: int| 0 <= i < n ==> (#[trigger] days[i]) <= LAST_DAY,
        n < days.len() ==> days[n] > LAST_DAY,
    decreases days.len(),
{
    reveal(Seq::filter);
    if days.len() == 0 {
        assert(days.take(0) =~= days);
        assert(days.filter(not_behind()) =~= days);
        0
    } else {
        let rest = days.drop_last();
        let n = lemma_kept_days(rest);
        if days.last() <= LAST_DAY {
            if n < rest.len() {
                assert(rest[n] == days[n]);
                assert(days[n] < days[days.len() - 1]);
            }
            assert(rest.take(n) =~= rest);
            assert(days.filter(not_behind()) =~= days.take(days.len() as int));
            assert forall|i: int| 0 <= i < days.len() implies (#[trigger] days[i]) <= LAST_DAY by {
                if i < rest.len() {
                    assert(rest[i] <= LAST_DAY);
                }
            }
            days.len() as int
        } else {
            assert(days.filter(not_behind()) =~= days.take(n));
            assert forall|i: int| 0 <= i < n implies (#[trigger] days[i]) <= LAST_DAY by {
                assert(rest[i] <= LAST_DAY);
            }
            n
        }
    }
}

/// A boundary comes after the start, and within the longest gap between two days of a schedule,
/// whatever the time zone; that of a realtime cycle is the start. Only within the last days of the
/// calendar, and before its second one, can there be none left.
pub proof fn boundaries_come_after_the_start(
    r: Result<Moment, BoundaryErrorModel>,
    start: Moment,
    cfg: ScheduleConfigModel,
)
    requires
        possible_boundary(r, start, cfg),
    ensures
        cfg.mode == ScheduleMode::Realtime ==> r == Ok::<Moment, BoundaryErrorModel>(start),
        cfg.mode != ScheduleMode::Realtime && r is Ok ==> earlier(start, r->Ok_0) && r->Ok_0.secs
            < start.secs + 16 * DAY_SECS && readable(cfg),
        !readable(cfg) ==> r is Err,
        r == Err::<Moment, BoundaryErrorModel>(BoundaryErrorModel::OutOfRange) ==> !in_calendar(
            start,
        ) || start.secs < day_start(FIRST_DAY + 1) || start.secs > day_start(
            if cfg.mode == ScheduleMode::Daily {
                LAST_DAY - 3
            } else {
                LAST_DAY - 14
            },
        ),
{
    if cfg.mode != ScheduleMode::Realtime && slot_of(cfg) is Ok && in_calendar(start) {
        let slot = slot_of(cfg)->Ok_0;
        let (told, times) = choose|told: LocalDay, times: Seq<LocalTime>|
            boundary_told(r, start, slot, told, times);
        let day = told.number();
        let candidates = found_in(times);
        let all = slot_days(slot, day);
        let days = boundary_days(slot, day);
        times_lie_within_a_day(cfg.time);
        lemma_slot_days(slot, day);
        lemma_slot_days_sorted(slot, day);
        let n = lemma_kept_days(all);
        if boundary_told(r, start, slot, told, times) {
            lemma_first_after_is_candidate(start, candidates, 0);
            if r is Ok {
                let m = r->Ok_0;
                let k = choose|k: int| 0 <= k < candidates.len() && candidates[k] == Some(m);
                assert(days[k] == all[k]);
                assert(days[k] <= day + 13);
                assert(day_start(days[k]) <= day_start(day) + 13 * DAY_SECS) by (nonlinear_arith)
                    requires
                        days[k] <= day + 13,
                        DAY_SECS == 86400,
                ;
            }
            if n == all.len() {
                assert(days =~= all);
                let last = candidates[n - 1];
                if last is Some {
                    lemma_last_candidate_is_after(
                        start,
                        day,
                        days[n - 1],
                        last->0,
                        slot.secs as int,
                    );
                }
                lemma_never_runs_out(start, candidates, 0);
            } else {
                assert(all[n] > LAST_DAY);
                assert(day + (if slot.weekday is None {
                    3int
                } else {
                    13
                }) > LAST_DAY);
            }
        }
    }
}

/// Whether a schedule falls on a day.
pub open spec fn falls_on(slot: Slot, day: int) -> bool {
    slot.weekday is Some ==> weekday_of(day) == slot.weekday->0
}

/// In a consistent time zone the boundary of a cycle is the next occurrence of its schedule, as long
/// as one is left in the calendar and the zone has the time of the schedule on every day up to it:
/// a moment after the start at the local time of the schedule, on a day on which the schedule falls,
/// and no other such moment lies between the two.
pub proof fn boundary_is_the_next_occurrence(
    r: Result<Moment, BoundaryErrorModel>,
    start: Moment,
    slot: Slot,
    zone: Zone,
    left: int,
    other: int,
) -> (found: int)
    requires
        slot.weekday is Some ==> slot.weekday->0 < 7,
        is_consistent(zone, slot.secs as int, 0),
        FIRST_DAY <= (zone.day)(start) <= LAST_DAY,
        left <= LAST_DAY,
        falls_on(slot, left),
        (zone.at)(left, slot.secs as int, 0) is Some,
        earlier(start, (zone.at)(left, slot.secs as int, 0)->0),
        resolves(zone, slot.secs as int, 0, (zone.day)(start), left),
        (zone.at)(other, slot.secs as int, 0) is Some,
        boundary_answer(
            r,
            start,
            slot,
            (zone.day)(start),
            times_in(zone, boundary_days(slot, (zone.day)(start)), slot.secs as int, 0),
        ),
    ensures
        falls_on(slot, found),
        (zone.at)(found, slot.secs as int, 0) is Some,
        r == Ok::<Moment, BoundaryErrorModel>((zone.at)(found, slot.secs as int, 0)->0),
        earlier(start, (zone.at)(found, slot.secs as int, 0)->0),
        falls_on(slot, other) && earlier(start, (zone.at)(other, slot.secs as int, 0)->0)
            ==> !earlier(
            (zone.at)(other, slot.secs as int, 0)->0,
            (zone.at)(found, slot.secs as int, 0)->0,
        ),
{
    let secs = slot.secs as int;
    let day = (zone.day)(start);
    let all = slot_days(slot, day);
    lemma_slot_days(slot, day);
    lemma_slot_days_sorted(slot, day);
    lemma_falls_on(slot, day, left);
    lemma_falls_on(slot, day, other);
    let e = (zone.at)(left, secs, 0)->0;
    assert((zone.day)(e) == left);
    assert((zone.day)(start) <= (zone.day)(e));
    let w = lemma_candidate_left(start, secs, zone, day, all, left);
    let k = lemma_next_candidate(start, secs, zone, all, w, other, falls_on(slot, other));
    all[k]
}

/// Each candidate day is one on which a schedule falls, and each day on which it falls, from the
/// first day on, is a candidate or comes behind them all.
proof fn lemma_falls_on(slot: Slot, day: int, d: int)
    requires
        slot.weekday is Some ==> slot.weekday->0 < 7,
    ensures
        forall|i: int|
            0 <= i < slot_days(slot, day).len() ==> falls_on(slot, #[trigger] slot_days(slot, day)[i]),
        falls_on(slot, d) && day <= d ==> slot_days(slot, day).contains(d) || d > slot_days(
            slot,
            day,
        ).last(),
{
    let all = slot_days(slot, day);
    match slot.weekday {
        None => {
            if day <= d <= day + 3 {
                assert(all[d - day] == d);
            }
        },
        Some(w) => {
            weekly_days_have_the_weekday(day, w as int, d);
        },
    }
}

/// The place of a candidate day that comes after the start and before which all have the time, where
/// a day is left that does.
proof fn lemma_candidate_left(
    start: Moment,
    secs: int,
    zone: Zone,
    day: int,
    all: Seq<int>,
    left: int,
) -> (w: int)
    requires
        0 <= secs,
        all.len() > 0,
        forall|i: int, j: int| 0 <= i < j < all.len() ==> (#[trigger] all[i]) < (#[trigger] all[j]),
        forall|i: int| 0 <= i < all.len() ==> day <= #[trigger] all[i],
        all.last() >= day + 3,
        is_consistent(zone, secs, 0),
        may_be_day_of(day, start.secs as int),
        left <= LAST_DAY,
        all.contains(left) || left > all.last(),
        resolves(zone, secs, 0, day, left),
        (zone.at)(left, secs, 0) is Some,
        earlier(start, (zone.at)(left, secs, 0)->0),
    ensures
        0 <= w < all.filter(not_behind()).len() <= all.len(),
        all.filter(not_behind()) == all.take(all.filter(not_behind()).len() as int),
        forall|j: int| 0 <= j <= w ==> (zone.at)(#[trigger] all[j], secs, 0) is Some,
        earlier(start, (zone.at)(all[w], secs, 0)->0),
{
    let n = lemma_kept_days(all);
    let last = all.len() - 1;
    let w = if all.contains(left) {
        let w = choose|w: int| 0 <= w < all.len() && all[w] == left;
        if w > n {
            assert(all[n] < all[w]);
        }
        w
    } else {
        if n < last {
            assert(all[n] < all[last]);
        }
        lemma_last_candidate_is_after(start, day, all[last], (zone.at)(all[last], secs, 0)->0, secs);
        last
    };
    assert forall|j: int| 0 <= j <= w implies (zone.at)(#[trigger] all[j], secs, 0) is Some by {
        if j < w {
            assert(all[j] < all[w]);
        }
    }
    w
}

/// The place of the candidate day that is found: it comes after the start, and no other day that
/// counts comes between the two.
proof fn lemma_next_candidate(
    start: Moment,
    secs: int,
    zone: Zone,
    all: Seq<int>,
    w: int,
    other: int,
    counts: bool,
) -> (k: int)
    requires
        forall|i: int, j: int| 0 <= i < j < all.len() ==> (#[trigger] all[i]) < (#[trigger] all[j]),
        is_consistent(zone, secs, 0),
        0 <= w < all.filter(not_behind()).len() <= all.len(),
        all.filter(not_behind()) == all.take(all.filter(not_behind()).len() as int),
        forall|j: int| 0 <= j <= w ==> (zone.at)(#[trigger] all[j], secs, 0) is Some,
        earlier(start, (zone.at)(all[w], secs, 0)->0),
        (zone.at)(other, secs, 0) is Some,
        counts && (zone.day)(start) <= other ==> all.contains(other) || other > all.last(),
    ensures
        0 <= k < all.len(),
        (zone.at)(all[k], secs, 0) is Some,
        first_after(start, times_in(zone, all.filter(not_behind()), secs, 0), 0) == Ok::<
            Option<Moment>,
            (),
        >((zone.at)(all[k], secs, 0)),
        earlier(start, (zone.at)(all[k], secs, 0)->0),
        counts && earlier(start, (zone.at)(other, secs, 0)->0) ==> !earlier(
            (zone.at)(other, secs, 0)->0,
            (zone.at)(all[k], secs, 0)->0,
        ),
{
    let days = all.filter(not_behind());
    let times = times_in(zone, days, secs, 0);
    assert forall|j: int| 0 <= j < days.len() implies (#[trigger] times[j]) == (zone.at)(
        all[j],
        secs,
        0,
    ) by {
        assert(days[j] == all[j]);
    }
    let k = lemma_first_after_index(start, times, 0, w);
    let b = (zone.at)(all[k], secs, 0)->0;
    let m = (zone.at)(other, secs, 0)->0;
    if counts && earlier(start, m) && earlier(m, b) {
        assert((zone.day)(start) <= (zone.day)(m));
        assert((zone.day)(m) <= (zone.day)(b));
        if k < all.len() - 1 {
            assert(all[k] < all[all.len() - 1]);
        }
        let j = choose|j: int| 0 <= j < all.len() && all[j] == other;
        if j > k {
            assert(all[k] < all[j]);
        }
        assert(times[j] == Some(m));
    }
    k
}

/// The place of the first candidate after the start in a list, where one comes after the start and
/// all up to it exist.
pub proof fn lemma_first_after_index(
    start: Moment,
    candidates: Seq<Option<Moment>>,
    i: int,
    w: int,
) -> (k: int)
    requires
        0 <= i <= w < candidates.len(),
        forall|j: int| i <= j <= w ==> (#[trigger] candidates[j]) is Some,
        earlier(start, candidates[w]->0),
    ensures
        i <= k <= w,
        first_after(start, candidates, i) == Ok::<Option<Moment>, ()>(candidates[k]),
        earlier(start, candidates[k]->0),
        forall|j: int| i <= j < k ==> !earlier(start, (#[trigger] candidates[j])->0),
    decreases candidates.len() - i,
{
    if earlier(start, candidates[i]->0) {
        i
    } else {
        lemma_first_after_index(start, candidates, i + 1, w)
    }
}

/// A boundary is a moment that the machine named for the time of the schedule on a day on which the
/// schedule falls, the local day of the start or a later one, and it comes after the start. Of every
/// earlier day on which the schedule falls, from the local day of the start on, the machine was asked
/// too, and the moment that it named is not after the start.
pub proof fn boundary_is_the_first_slot_from_the_start_on(
    b: Moment,
    start: Moment,
    slot: Slot,
    day: LocalDay,
    times: Seq<LocalTime>,
    other: int,
) -> (k: int)
    requires
        slot.weekday is Some ==> slot.weekday->0 < 7,
        boundary_told(Ok(b), start, slot, day, times),
    ensures
        day.moment() == start,
        earlier(start, b),
        0 <= k < times.len(),
        times[k].found() == Some(b),
        exists|found: int| #[trigger]
            times[k].asks(found, slot.secs as int, 0) && day.number() <= found && (
            slot.weekday is Some ==> (found - 1) % 7 == slot.weekday->0) && (day.number() <= other
                < found && (slot.weekday is Some ==> (other - 1) % 7 == slot.weekday->0)
                ==> exists|j: int|
                0 <= j < times.len() && (#[trigger] times[j]).asks(other, slot.secs as int, 0)
                    && times[j].found() is Some && !earlier(start, times[j].found()->0)),
{
    let d = day.number();
    let all = slot_days(slot, d);
    let days = boundary_days(slot, d);
    let found = found_in(times);
    lemma_slot_days(slot, d);
    lemma_slot_days_sorted(slot, d);
    let n = lemma_kept_days(all);
    lemma_falls_on(slot, d, other);
    let k = lemma_first_after_place(start, found, 0);
    let on = days[k];
    assert(on == all[k]);
    assert(times[k].found() == found[k]);
    assert(times[k].asks(on, slot.secs as int, 0));
    assert(falls_on(slot, on));
    if d <= other < on && falls_on(slot, other) {
        if k < all.len() - 1 {
            assert(all[k] < all[all.len() - 1]);
        }
        let j = choose|j: int| 0 <= j < all.len() && all[j] == other;
        if j > k {
            assert(all[k] < all[j]);
        }
        assert(days[j] == all[j]);
        assert(found[j] == times[j].found());
        assert(times[j].asks(other, slot.secs as int, 0));
    }
    k
}

/// The place of what is found in a list of moments.
proof fn lemma_first_after_place(start: Moment, candidates: Seq<Option<Moment>>, i: int) -> (k: int)
    requires
        0 <= i,
        first_after(start, candidates, i) matches Ok(Some(_)),
    ensures
        i <= k < candidates.len(),
        first_after(start, candidates, i) == Ok::<Option<Moment>, ()>(candidates[k]),
        earlier(start, candidates[k]->0),
        forall|j: int|
            i <= j < k ==> (#[trigger] candidates[j]) is Some && !earlier(start, candidates[j]->0),
    decreases candidates.len() - i,
{
    if earlier(start, candidates[i]->0) {
        i
    } else {
        lemma_first_after_place(start, candidates, i + 1)
    }
}

/// What is found is one of the candidates.
proof fn lemma_first_after_is_candidate(start: Moment, candidates: Seq<Option<Moment>>, i: int)
    requires
        0 <= i,
    ensures
        first_after(start, candidates, i) matches Ok(Some(m)) ==> earlier(start, m) && exists|
            k: int,
        |
            0 <= k < candidates.len() && candidates[k] == Some(m),
    decreases candidates.len() - i,
{
    if i < candidates.len() {
        lemma_first_after_is_candidate(start, candidates, i + 1);
    }
}

/// Whether a cycle has ended: its boundary has come or, where it could not be calculated, a day has
/// passed.
pub open spec fn ended_by(boundary: Option<Moment>, start: Moment, now: Moment) -> bool {
    match boundary {
        Some(b) => !earlier(now, b),
        None => passed(start, now, DAY_SECS as int),
    }
}

/// Whether a cycle has ended, given its boundary where that could be calculated.
pub fn due_with_boundary(boundary: Option<Moment>, start: Moment, now: Moment) -> (r: bool)
    ensures
        r == ended_by(boundary, start, now),
{
    match boundary {
        Some(b) => !is_earlier(now, b),
        None => has_passed(start, now, 86400),
    }
}

/// The boundary, where there is one.
pub open spec fn had(b: Result<Moment, BoundaryErrorModel>) -> Option<Moment> {
    match b {
        Ok(m) => Some(m),
        Err(_) => None,
    }
}

/// Whether an answer is the one that a cycle gets by its schedule in some time zone: whether the
/// boundary has come or, where none could be calculated, a day has passed.
pub open spec fn due_verdict(
    r: bool,
    start: Moment,
    now: Moment,
    cfg: ScheduleConfigModel,
) -> bool {
    exists|b: Result<Moment, BoundaryErrorModel>| #[trigger]
        possible_boundary(b, start, cfg) && r == ended_by(had(b), start, now)
}

/// Whether a cycle has ended by its schedule.
pub fn cycle_is_due(start: Moment, now: Moment, cfg: &ScheduleConfig) -> (r: bool)
    ensures
        due_verdict(r, start, now, cfg@),
{
    let found = next_boundary_after(start, cfg);
    let ghost b = boundary_view(found);
    let boundary: Option<Moment> = match found {
        Ok(b) => Some(b),
        Err(_) => None,
    };
    proof {
        assert(possible_boundary(b, start, cfg@) && had(b) == boundary);
    }
    due_with_boundary(boundary, start, now)
}

/// Whatever the time zone, a realtime cycle ends with its start; one whose schedule cannot be read
/// ends after a day; any other ends after its start, and within the longest gap between two days of
/// a schedule.
pub proof fn cycles_end_in_time(r: bool, start: Moment, now: Moment, cfg: ScheduleConfigModel)
    requires
        due_verdict(r, start, now, cfg),
    ensures
        cfg.mode == ScheduleMode::Realtime ==> r == !earlier(now, start),
        !readable(cfg) ==> r == passed(start, now, DAY_SECS as int),
        !earlier(start, now) && readable(cfg) && cfg.mode != ScheduleMode::Realtime ==> !r,
        passed(start, now, 17 * DAY_SECS) ==> r,
{
    let b = choose|b: Result<Moment, BoundaryErrorModel>| #[trigger]
        possible_boundary(b, start, cfg) && r == ended_by(had(b), start, now);
    boundaries_come_after_the_start(b, start, cfg);
}

/// Once a cycle has ended, it has ended at every later moment. Where no boundary could be calculated,
/// leap seconds are left out.
pub proof fn ended_cycles_stay_ended(
    boundary: Option<Moment>,
    start: Moment,
    now: Moment,
    later: Moment,
)
    requires
        ended_by(boundary, start, now),
        !earlier(later, now),
        boundary is None ==> start.nanos < 1000000000 && now.nanos < 1000000000 && later.nanos
            < 1000000000,
    ensures
        ended_by(boundary, start, later),
{
    if boundary is None {
        seconds_pass_in_order(start, now, DAY_SECS as int);
        seconds_pass_in_order(start, later, DAY_SECS as int);
    }
}

/// A schedule whose time is written as an hour and a minute falls at that time of the day: on every
/// day where it is daily, and where it is weekly on the weekday that it names, or on Monday where it
/// names none.
pub proof fn schedules_fall_at_their_time(
    cfg: ScheduleConfigModel,
    h: nat,
    m: nat,
    pad_hour: bool,
    pad_minute: bool,
)
    requires
        h <= 23,
        m <= 59,
        cfg.time == written(h, pad_hour) + seq![':'] + written(m, pad_minute),
    ensures
        cfg.mode != ScheduleMode::Weekly ==> (slot_of(cfg) matches Ok(s) && s.weekday is None && s.secs
            == h * 3600 + m * 60),
        cfg.mode == ScheduleMode::Weekly && cfg.weekday is None ==> (slot_of(cfg) matches Ok(s)
            && s.weekday == Some(0u32) && s.secs == h * 3600 + m * 60),
        cfg.mode == ScheduleMode::Weekly && cfg.weekday is Some && named_weekday(
            cfg.weekday->0,
        ) is Some ==> (slot_of(cfg) matches Ok(s) && s.weekday == named_weekday(cfg.weekday->0)
            && s.secs == h * 3600 + m * 60),
        cfg.mode == ScheduleMode::Weekly && cfg.weekday is Some && named_weekday(
            cfg.weekday->0,
        ) is None ==> slot_of(cfg) is Err,
{
    written_times_are_read(h, m, pad_hour, pad_minute);
}

/// Where a boundary is known, a cycle has ended exactly when the present is not before it; where none
/// is, outside leap seconds, exactly when a day has passed since its start.
pub proof fn cycles_end_with_their_boundary(
    boundary: Option<Moment>,
    start: Moment,
    now: Moment,
)
    requires
        start.nanos < 1000000000,
        now.nanos < 1000000000,
    ensures
        match boundary {
            Some(b) => ended_by(boundary, start, now) == (b.secs < now.secs || (b.secs == now.secs
                && b.nanos <= now.nanos)),
            None => ended_by(boundary, start, now) == (start.secs + 86400 < now.secs || (start.secs
                + 86400 == now.secs && start.nanos <= now.nanos)),
        },
{
    seconds_pass_in_order(start, now, DAY_SECS as int);
}

} // verus!
