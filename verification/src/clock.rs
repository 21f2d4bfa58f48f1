//! Moments, days, and the local time of the machine.
//!
//! A day is counted from the first of January of the year one, which is day one and a Monday. How
//! local time relates to moments is a matter of the machine, so only what holds in every time zone
//! is stated of it.

use crate::local::{asked, found_in, LocalDay, LocalTime};
use crate::text::{lowered, opt_view, same, to_ascii_lowercase};
use chrono::{Datelike, TimeZone, Timelike};
use vstd::prelude::*;

verus! {

/// A moment: whole seconds since the beginning of 1970, and nanoseconds.
#[derive(Debug, Clone, Copy, PartialEq, Eq, Structural)]
pub struct Moment {
    pub secs: i64,
    pub nanos: u32,
}

/// The day on which 1970 begins.
pub const EPOCH_DAY: i64 = 719163;

/// Seconds in a day.
pub const DAY_SECS: i64 = 86400;

/// The last day of the calendar.
pub const LAST_DAY: i64 = 95745399;

/// The first day of the calendar.
pub const FIRST_DAY: i64 = -95746129;

/// Whether a moment comes before another.
pub open spec fn earlier(a: Moment, b: Moment) -> bool {
    a.secs < b.secs || (a.secs == b.secs && a.nanos < b.nanos)
}

/// Whether a moment comes before another.
pub fn is_earlier(a: Moment, b: Moment) -> (r: bool)
    ensures
        r == earlier(a, b),
{
    a.secs < b.secs || (a.secs == b.secs && a.nanos < b.nanos)
}

/// The second of the day of a moment, in universal time.
pub open spec fn second_of_day(m: Moment) -> int {
    m.secs as int % 86400
}

/// Whether a moment lies in a leap second, which is counted with the second before it.
pub open spec fn in_leap_second(m: Moment) -> bool {
    m.nanos >= 1000000000
}

/// The nanoseconds between two moments. A leap second at the earlier time of day counts as a second
/// that has yet to pass.
pub open spec fn elapsed(from: Moment, to: Moment) -> int {
    let leap: int = if second_of_day(to) > second_of_day(from) && in_leap_second(from) {
        1
    } else if second_of_day(to) < second_of_day(from) && in_leap_second(to) {
        -1
    } else {
        0
    };
    (to.secs - from.secs + leap) * 1000000000 + to.nanos - from.nanos
}

/// Whether at least so many seconds have passed between two moments.
pub open spec fn passed(from: Moment, to: Moment, secs: int) -> bool {
    elapsed(from, to) >= secs * 1000000000
}

/// The remainder of a number of seconds, counted from below.
fn remainder(secs: i64, of: i64) -> (r: i64)
    requires
        1 <= of <= 86400,
    ensures
        r == secs as int % of as int,
        0 <= r < of,
{
    if secs >= 0 {
        secs % of
    } else {
        let back: i64 = (-(secs + 1)) % of;
        let r: i64 = of - 1 - back;
        proof {
            let x = -(secs as int + 1);
            let q = x / of as int;
            vstd::arithmetic::div_mod::lemma_fundamental_div_mod(x, of as int);
            assert(secs as int == (-q - 1) * of as int + r) by (nonlinear_arith)
                requires
                    x == of as int * q + back as int,
                    x == -(secs as int + 1),
                    r == of as int - 1 - back as int,
            ;
            vstd::arithmetic::div_mod::lemma_fundamental_div_mod_converse(
                secs as int,
                of as int,
                -q - 1,
                r as int,
            );
        }
        r
    }
}

/// Whether at least so many seconds have passed between two moments.
pub fn has_passed(from: Moment, to: Moment, secs: u64) -> (r: bool)
    ensures
        r == passed(from, to, secs as int),
{
    let a: i64 = remainder(from.secs, 86400);
    let b: i64 = remainder(to.secs, 86400);
    let leap: i128 = if b > a && from.nanos >= 1000000000 {
        1
    } else if b < a && to.nanos >= 1000000000 {
        -1
    } else {
        0
    };
    let whole: i128 = (to.secs as i128) - (from.secs as i128) + leap;
    whole * 1000000000 + (to.nanos as i128) - (from.nanos as i128) >= (secs as i128) * 1000000000
}

/// Outside leap seconds, so many seconds have passed once the seconds and the nanoseconds say so.
pub proof fn seconds_pass_in_order(from: Moment, to: Moment, secs: int)
    requires
        from.nanos < 1000000000,
        to.nanos < 1000000000,
    ensures
        passed(from, to, secs) == (to.secs > from.secs + secs || (to.secs == from.secs + secs
            && to.nanos >= from.nanos)),
{
}

/// Whether a second lies in the calendar.
pub open spec fn second_in_calendar(secs: int) -> bool {
    -8334601228800 <= secs <= 8210266876799
}

/// Whether a moment lies in the calendar. Leap seconds lie at the end of a minute.
pub open spec fn in_calendar(m: Moment) -> bool {
    second_in_calendar(m.secs as int) && (m.nanos < 1000000000 || (m.nanos < 2000000000
        && m.secs as int % 60 == 59))
}

/// Whether a moment lies in the calendar.
pub fn is_in_calendar(m: Moment) -> (r: bool)
    ensures
        r == in_calendar(m),
{
    let minute: i64 = remainder(m.secs, 60);
    -8334601228800 <= m.secs && m.secs <= 8210266876799 && (m.nanos < 1000000000 || (m.nanos
        < 2000000000 && minute == 59))
}

/// The seconds from the beginning of 1970 to the beginning of a day, in universal time.
pub open spec fn day_start(day: int) -> int {
    (day - EPOCH_DAY) * DAY_SECS
}

/// The calendar goes from the beginning of its first day to the end of its last.
pub proof fn calendar_is_made_of_days(secs: int)
    ensures
        second_in_calendar(secs) == (day_start(FIRST_DAY as int) <= secs < day_start(
            LAST_DAY + 1,
        )),
{
}

/// Whether a day may be the local day of a moment: local time differs from universal time by less
/// than a day.
pub open spec fn may_be_day_of(day: int, secs: int) -> bool {
    day_start(day) - DAY_SECS < secs < day_start(day + 1) + DAY_SECS
}

/// `chrono::Local` and `checked_add_offset`: the day that the machine's time zone gives a moment;
/// none where local time lies before the first or behind the last day of the calendar. Which day it
/// is depends on the time zone; in every time zone local time differs from universal time by less
/// than a day.
#[verifier::external_body]
pub(crate) fn local_day(m: Moment) -> (r: Option<LocalDay>)
    requires
        in_calendar(m),
    ensures
        r is Some ==> r->0.moment() == m,
        r is Some ==> may_be_day_of(r->0.number(), m.secs as int) && FIRST_DAY <= r->0.number()
            <= LAST_DAY,
        r is None ==> may_be_day_of(FIRST_DAY - 1, m.secs as int) || may_be_day_of(
            LAST_DAY + 1,
            m.secs as int,
        ),
{
    let utc = chrono::DateTime::from_timestamp(m.secs, m.nanos)?;
    let local = utc.with_timezone(&chrono::Local);
    let time = local.naive_utc().checked_add_offset(*local.offset())?;
    Some(LocalDay::note(m, time.date().num_days_from_ce() as i64))
}

/// `from_local_datetime` of `chrono::Local` and `earliest`: the first moment that has the given
/// day and time of day in the machine's time zone, where there is one in the calendar. Which moment
/// that is depends on the time zone; it lies less than a day from the same time in universal time.
#[verifier::external_body]
pub(crate) fn local_moment(day: i64, secs: u32, nanos: u32) -> (r: LocalTime)
    requires
        FIRST_DAY <= day <= LAST_DAY,
    ensures
        r.asks(day as int, secs as int, nanos as int),
        r.found() is Some ==> day_start(day as int) + secs - DAY_SECS < r.found()->0.secs
            < day_start(day as int) + secs + DAY_SECS,
        r.found() is Some ==> r.found()->0.nanos == nanos && second_in_calendar(
            r.found()->0.secs as int,
        ),
{
    let date = chrono::NaiveDate::from_num_days_from_ce_opt(day as i32);
    let time = chrono::NaiveTime::from_num_seconds_from_midnight_opt(secs, nanos);
    let mut found = None;
    if let (Some(date), Some(time)) = (date, time) {
        if let Some(local) = chrono::Local.from_local_datetime(&date.and_time(time)).earliest() {
            found = Some(Moment { secs: local.timestamp(), nanos: local.timestamp_subsec_nanos() });
        }
    }
    LocalTime::note(day, secs, nanos, found)
}

/// The text that `chrono::DateTime::format` makes of a second in a format, where local time is ahead
/// of universal time by an offset in seconds.
pub uninterp spec fn chrono_local_text(secs: i64, offset: i32, format: Seq<char>) -> Seq<char>;

/// The format in which the start of a window is shown.
pub open spec fn start_format() -> Seq<char> {
    "%a %Y-%m-%d %H:%M"@
}

/// `chrono::Local` and `format`: a second as text in the machine's time zone, and how many seconds
/// local time is then ahead of universal time. The offset depends on the time zone, and is less than
/// a day in every one; the text depends on the second, the offset and the format alone.
#[verifier::external_body]
pub(crate) fn local_text(secs: i64, format: &str) -> (r: Option<(i32, String)>)
    requires
        second_in_calendar(secs as int),
        format@ == start_format(),
    ensures
        r is Some,
        -86400 < (r->0).0 < 86400,
        (r->0).1@ == chrono_local_text(secs, (r->0).0, format@),
{
    let local = chrono::DateTime::from_timestamp(secs, 0)?.with_timezone(&chrono::Local);
    Some((local.offset().local_minus_utc(), local.format(format).to_string()))
}

/// The time of day that `chrono::NaiveTime::parse_from_str` reads from a text in a format: seconds
/// since midnight, and nanoseconds.
pub uninterp spec fn chrono_time(text: Seq<char>, format: Seq<char>) -> Option<(u32, u32)>;

/// The day that `chrono::NaiveDate::parse_from_str` reads from a text in a format.
pub uninterp spec fn chrono_day(text: Seq<char>, format: Seq<char>) -> Option<i64>;

/// `chrono::NaiveTime::parse_from_str`: the time of day that a text gives in a format, as seconds
/// since midnight and nanoseconds.
#[verifier::external_body]
pub(crate) fn parse_naive_time(text: &str, format: &str) -> (r: Option<(u32, u32)>)
    ensures
        r == chrono_time(text@, format@),
        r is Some ==> (r->0).0 < 86400 && (r->0).1 < 2000000000,
{
    let time = chrono::NaiveTime::parse_from_str(text, format).ok()?;
    Some((time.num_seconds_from_midnight(), time.nanosecond()))
}

/// `chrono::NaiveDate::parse_from_str`: the day that a text gives in a format.
#[verifier::external_body]
pub(crate) fn parse_naive_date(text: &str, format: &str) -> (r: Option<i64>)
    ensures
        r == chrono_day(text@, format@),
        r is Some ==> FIRST_DAY <= r->0 <= LAST_DAY,
{
    let date = chrono::NaiveDate::parse_from_str(text, format).ok()?;
    Some(date.num_days_from_ce() as i64)
}

/// The text that `chrono::DateTime::to_rfc3339` gives a moment in universal time, for the seconds and
/// the nanoseconds of the moment; nothing where the moment is out of the calendar.
pub uninterp spec fn chrono_utc_text(secs: i64, nanos: u32) -> Option<Seq<char>>;

/// The moment that `chrono::DateTime::parse_from_rfc3339` reads from a text: its seconds and
/// nanoseconds.
pub uninterp spec fn chrono_moment(text: Seq<char>) -> Option<(i64, u32)>;

/// `chrono::DateTime::to_rfc3339` in universal time: a moment as text.
#[verifier::external_body]
pub(crate) fn utc_text(m: Moment) -> (r: Option<String>)
    ensures
        opt_view(r) == chrono_utc_text(m.secs, m.nanos),
{
    Some(chrono::DateTime::from_timestamp(m.secs, m.nanos)?.to_rfc3339())
}

/// `chrono::DateTime::parse_from_rfc3339`: the moment that a text gives.
#[verifier::external_body]
pub(crate) fn parse_utc_text(text: &str) -> (r: Option<(i64, u32)>)
    ensures
        r == chrono_moment(text@),
{
    let time = chrono::DateTime::parse_from_rfc3339(text).ok()?;
    Some((time.timestamp(), time.timestamp_subsec_nanos()))
}

/// The moment that a stored text gives.
pub open spec fn stored_moment(text: Seq<char>) -> Option<Moment> {
    match chrono_moment(text) {
        Some(t) => Some(Moment { secs: t.0, nanos: t.1 }),
        None => None,
    }
}

/// The moment that a stored text gives.
pub fn parse_db_time(text: &str) -> (r: Option<Moment>)
    ensures
        r == stored_moment(text@),
{
    match parse_utc_text(text) {
        Some(t) => Some(Moment { secs: t.0, nanos: t.1 }),
        None => None,
    }
}

/// The milliseconds of a moment, rounded.
pub open spec fn rounded_millis(m: Moment) -> int {
    m.secs * 1000 + (m.nanos + 500000) / 1000000
}

/// The milliseconds between two moments, each rounded to milliseconds.
pub fn millis_between(from: Moment, to: Moment) -> (r: i128)
    ensures
        r == rounded_millis(to) - rounded_millis(from),
{
    let a: i128 = (from.secs as i128) * 1000 + ((from.nanos as i128) + 500000) / 1000000;
    let b: i128 = (to.secs as i128) * 1000 + ((to.nanos as i128) + 500000) / 1000000;
    b - a
}

/// The weekday of a day: zero for Monday up to six for Sunday.
pub open spec fn weekday_of(day: int) -> int {
    (day - 1) % 7
}

/// The weekday of a day: zero for Monday up to six for Sunday.
pub fn weekday(day: i64) -> (r: u32)
    requires
        FIRST_DAY - 7 <= day <= LAST_DAY + 7,
    ensures
        r == weekday_of(day as int),
        r < 7,
{
    let shifted: i64 = day - 1 + 95746140;
    proof {
        assert(95746140int % 7 == 0);
    }
    (shifted % 7) as u32
}

/// The weekday that a name gives, in any case: its English name or the first three letters of it.
pub open spec fn named_weekday(name: Seq<char>) -> Option<u32> {
    let n = lowered(name);
    if n == "mon"@ || n == "monday"@ {
        Some(0u32)
    } else if n == "tue"@ || n == "tuesday"@ {
        Some(1u32)
    } else if n == "wed"@ || n == "wednesday"@ {
        Some(2u32)
    } else if n == "thu"@ || n == "thursday"@ {
        Some(3u32)
    } else if n == "fri"@ || n == "friday"@ {
        Some(4u32)
    } else if n == "sat"@ || n == "saturday"@ {
        Some(5u32)
    } else if n == "sun"@ || n == "sunday"@ {
        Some(6u32)
    } else {
        None
    }
}

/// The weekday that a name gives.
pub fn parse_weekday(name: &str) -> (r: Option<u32>)
    ensures
        r == named_weekday(name@),
        r is Some ==> r->0 < 7,
{
    let n = to_ascii_lowercase(name);
    let n = n.as_str();
    if same(n, "mon") || same(n, "monday") {
        Some(0)
    } else if same(n, "tue") || same(n, "tuesday") {
        Some(1)
    } else if same(n, "wed") || same(n, "wednesday") {
        Some(2)
    } else if same(n, "thu") || same(n, "thursday") {
        Some(3)
    } else if same(n, "fri") || same(n, "friday") {
        Some(4)
    } else if same(n, "sat") || same(n, "saturday") {
        Some(5)
    } else if same(n, "sun") || same(n, "sunday") {
        Some(6)
    } else {
        None
    }
}

/// A day as a mathematical number.
pub open spec fn as_day() -> spec_fn(i64) -> int {
    |d: i64| d as int
}

/// Days as mathematical numbers.
pub open spec fn as_days(days: Seq<i64>) -> Seq<int> {
    days.map_values(as_day())
}

/// Whether moments may be those at which days have a time of day in one and the same time zone: one
/// for each day, where the day has that time, less than a day from the same time in universal time.
pub open spec fn may_be_times_of(
    found: Seq<Option<Moment>>,
    days: Seq<int>,
    secs: int,
    nanos: int,
) -> bool {
    &&& found.len() == days.len()
    &&& forall|i: int|
        0 <= i < found.len() && (#[trigger] found[i]) is Some ==> day_start(days[i]) + secs
            - DAY_SECS < found[i]->0.secs < day_start(days[i]) + secs + DAY_SECS
            && found[i]->0.nanos == nanos && second_in_calendar(found[i]->0.secs as int)
}

/// What the machine says of a time of day on days, one answer for each day.
pub fn local_times(days: &Vec<i64>, secs: u32, nanos: u32) -> (out: Vec<LocalTime>)
    requires
        forall|i: int| 0 <= i < days.len() ==> FIRST_DAY <= (#[trigger] days@[i]) <= LAST_DAY,
    ensures
        asked(out@, as_days(days@), secs as int, nanos as int),
        may_be_times_of(found_in(out@), as_days(days@), secs as int, nanos as int),
{
    let mut out: Vec<LocalTime> = Vec::new();
    for i in 0..days.len()
        invariant
            forall|k: int| 0 <= k < days.len() ==> FIRST_DAY <= (#[trigger] days@[k]) <= LAST_DAY,
            out.len() == i,
            forall|k: int|
                0 <= k < i ==> (#[trigger] out@[k]).asks(
                    days@[k] as int,
                    secs as int,
                    nanos as int,
                ),
            forall|k: int|
                0 <= k < i && (#[trigger] out@[k]).found() is Some ==> day_start(days@[k] as int)
                    + secs - DAY_SECS < out@[k].found()->0.secs < day_start(days@[k] as int) + secs
                    + DAY_SECS && out@[k].found()->0.nanos == nanos && second_in_calendar(
                    out@[k].found()->0.secs as int,
                ),
    {
        out.push(local_moment(days[i], secs, nanos));
    }
    proof {
        let found = found_in(out@);
        assert forall|i: int| 0 <= i < found.len() && (#[trigger] found[i]) is Some implies day_start(
            as_days(days@)[i],
        ) + secs - DAY_SECS < found[i]->0.secs < day_start(as_days(days@)[i]) + secs + DAY_SECS
            && found[i]->0.nanos == nanos && second_in_calendar(found[i]->0.secs as int) by {
            assert(out@[i].found() is Some);
        }
    }
    out
}

/// The moments that answers name.
pub fn moments_of(times: &Vec<LocalTime>) -> (out: Vec<Option<Moment>>)
    ensures
        out@ == found_in(times@),
{
    let mut out: Vec<Option<Moment>> = Vec::new();
    for i in 0..times.len()
        invariant
            out.len() == i,
            forall|k: int| 0 <= k < i ==> (#[trigger] out@[k]) == times@[k].found(),
    {
        out.push(times[i].moment());
    }
    proof {
        assert(out@ =~= found_in(times@));
    }
    out
}

/// The moments at which days have a time of day in the machine's time zone, one for each day, where
/// there is one.
pub fn resolve_days(days: &Vec<i64>, secs: u32, nanos: u32) -> (out: Vec<Option<Moment>>)
    requires
        forall|i: int| 0 <= i < days.len() ==> FIRST_DAY <= (#[trigger] days@[i]) <= LAST_DAY,
    ensures
        may_be_times_of(out@, as_days(days@), secs as int, nanos as int),
{
    moments_of(&local_times(days, secs, nanos))
}

/// Whether the local day of a moment may lie outside the calendar: the moment is less than a day
/// from one of its ends.
pub open spec fn at_the_ends(m: Moment) -> bool {
    may_be_day_of(FIRST_DAY - 1, m.secs as int) || may_be_day_of(LAST_DAY + 1, m.secs as int)
}

/// What the machine says of the local day of a moment, where both lie in the calendar.
pub fn told_day(m: Moment) -> (r: Option<LocalDay>)
    ensures
        r is Some ==> in_calendar(m) && r->0.moment() == m && may_be_day_of(
            r->0.number(),
            m.secs as int,
        ) && FIRST_DAY <= r->0.number() <= LAST_DAY,
        r is None ==> !in_calendar(m) || at_the_ends(m),
{
    if !is_in_calendar(m) {
        return None;
    }
    local_day(m)
}

/// The local day of a moment, where both lie in the calendar. That of a moment in the calendar does,
/// but for moments less than a day from its ends, for which it depends on the time zone.
pub fn day_of(m: Moment) -> (r: Option<i64>)
    ensures
        r is Some ==> in_calendar(m) && may_be_day_of(r->0 as int, m.secs as int) && FIRST_DAY
            <= r->0 <= LAST_DAY,
        r is None ==> !in_calendar(m) || may_be_day_of(FIRST_DAY - 1, m.secs as int)
            || may_be_day_of(LAST_DAY + 1, m.secs as int),
{
    match told_day(m) {
        Some(d) => Some(d.day()),
        None => None,
    }
}

/// A local time zone: the day that it gives a moment, and the moment at which it gives a day a time
/// of day, in seconds and nanoseconds, where there is one.
pub struct Zone {
    pub day: spec_fn(Moment) -> int,
    pub at: spec_fn(int, int, int) -> Option<Moment>,
}

/// Whether a zone gives the moment at which a day has a time of day that day, later moments never
/// have an earlier day, and local time differs from universal time by less than a day.
pub open spec fn is_consistent(zone: Zone, secs: int, nanos: int) -> bool {
    &&& forall|d: int|
        #![trigger (zone.at)(d, secs, nanos)]
        (zone.at)(d, secs, nanos) matches Some(m) ==> (zone.day)(m) == d && day_start(d) + secs
            - DAY_SECS < m.secs < day_start(d) + secs + DAY_SECS && m.nanos == nanos
            && second_in_calendar(m.secs as int)
    &&& forall|a: Moment, b: Moment|
        earlier(a, b) ==> #[trigger] (zone.day)(a) <= #[trigger] (zone.day)(b)
    &&& forall|m: Moment| may_be_day_of(#[trigger] (zone.day)(m), m.secs as int)
}

/// Whether a zone has a time of day on each of the days from one to another.
pub open spec fn resolves(zone: Zone, secs: int, nanos: int, from: int, to: int) -> bool {
    forall|d: int| from <= d <= to ==> (#[trigger] (zone.at)(d, secs, nanos)) is Some
}

/// The moments at which a zone gives days a time of day.
pub open spec fn times_in(zone: Zone, days: Seq<int>, secs: int, nanos: int) -> Seq<
    Option<Moment>,
> {
    days.map_values(|d: int| (zone.at)(d, secs, nanos))
}

/// The days of the week follow each other, a week has seven of them, and 1970 begins with a Thursday.
pub proof fn weekdays_follow_each_other(day: int)
    ensures
        0 <= weekday_of(day) < 7,
        weekday_of(day + 1) == (if weekday_of(day) == 6 {
            0
        } else {
            weekday_of(day) + 1
        }),
        weekday_of(day + 7) == weekday_of(day),
        weekday_of(EPOCH_DAY as int) == 3,
{
}

/// The weekdays are known by their names and by the first three letters of these, in any case, and
/// are counted from Monday.
pub proof fn weekdays_are_known_by_name(name: Seq<char>)
    ensures
        lowered(name) == "monday"@ || lowered(name) == "mon"@ ==> named_weekday(name) == Some(0u32),
        lowered(name) == "tuesday"@ || lowered(name) == "tue"@ ==> named_weekday(name) == Some(
            1u32,
        ),
        lowered(name) == "wednesday"@ || lowered(name) == "wed"@ ==> named_weekday(name) == Some(
            2u32,
        ),
        lowered(name) == "thursday"@ || lowered(name) == "thu"@ ==> named_weekday(name) == Some(
            3u32,
        ),
        lowered(name) == "friday"@ || lowered(name) == "fri"@ ==> named_weekday(name) == Some(4u32),
        lowered(name) == "saturday"@ || lowered(name) == "sat"@ ==> named_weekday(name) == Some(
            5u32,
        ),
        lowered(name) == "sunday"@ || lowered(name) == "sun"@ ==> named_weekday(name) == Some(6u32),
        named_weekday(name) is Some ==> named_weekday(name)->0 < 7,
{
    reveal_strlit("mon");
    reveal_strlit("monday");
    reveal_strlit("tue");
    reveal_strlit("tuesday");
    reveal_strlit("wed");
    reveal_strlit("wednesday");
    reveal_strlit("thu");
    reveal_strlit("thursday");
    reveal_strlit("fri");
    reveal_strlit("friday");
    reveal_strlit("sat");
    reveal_strlit("saturday");
    reveal_strlit("sun");
    reveal_strlit("sunday");
    let n = lowered(name);
    assert("mon"@[0] == 'm' && "monday"@[0] == 'm' && "wed"@[0] == 'w' && "wednesday"@[0] == 'w'
        && "fri"@[0] == 'f' && "friday"@[0] == 'f');
    assert("tue"@[0] == 't' && "tue"@[1] == 'u' && "tuesday"@[0] == 't' && "tuesday"@[1] == 'u');
    assert("thu"@[0] == 't' && "thu"@[1] == 'h' && "thursday"@[0] == 't' && "thursday"@[1] == 'h');
    assert("sat"@[0] == 's' && "sat"@[1] == 'a' && "saturday"@[0] == 's' && "saturday"@[1] == 'a');
    assert("sun"@[0] == 's' && "sun"@[1] == 'u' && "sunday"@[0] == 's' && "sunday"@[1] == 'u');
}

} // verus!
