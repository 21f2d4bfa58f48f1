//! Times of day in schedules.

use crate::config::types::{ScheduleConfig, ScheduleConfigModel, ScheduleMode};
use crate::text::{
    decimal_is_read_back, decimal_text, join_then_split, joined, lemma_decimal_digits,
    lemma_digits_monotone, parse_number, parsed_number, split, split_parts, views,
};
use vstd::prelude::*;

verus! {

/// Why a time of day was refused.
#[derive(Debug)]
pub enum ScheduleError {
    /// Not two or three fields between colons.
    Form,
    /// The hour is no number.
    Hour,
    /// The minute is no number.
    Minute,
    /// The second is no number.
    Second,
    /// A field is out of range; holds the text that was given.
    Range(String),
}

/// The model of a `ScheduleError`.
pub enum ScheduleErrorModel {
    Form,
    Hour,
    Minute,
    Second,
    Range(Seq<char>),
}

impl View for ScheduleError {
    type V = ScheduleErrorModel;

    open spec fn view(&self) -> ScheduleErrorModel {
        match self {
            ScheduleError::Form => ScheduleErrorModel::Form,
            ScheduleError::Hour => ScheduleErrorModel::Hour,
            ScheduleError::Minute => ScheduleErrorModel::Minute,
            ScheduleError::Second => ScheduleErrorModel::Second,
            ScheduleError::Range(t) => ScheduleErrorModel::Range(t@),
        }
    }
}

/// The error as shown to users.
pub open spec fn schedule_error_text(e: ScheduleErrorModel) -> Seq<char> {
    match e {
        ScheduleErrorModel::Form => "schedule time must use HH:MM"@,
        ScheduleErrorModel::Hour => "invalid schedule hour"@,
        ScheduleErrorModel::Minute => "invalid schedule minute"@,
        ScheduleErrorModel::Second => "invalid schedule second"@,
        ScheduleErrorModel::Range(t) => "schedule time out of range: "@ + t,
    }
}

impl ScheduleError {
    /// The error as shown to users.
    pub fn message(&self) -> (r: String)
        ensures
            r@ == schedule_error_text(self@),
    {
        match self {
            ScheduleError::Form => "schedule time must use HH:MM".to_string(),
            ScheduleError::Hour => "invalid schedule hour".to_string(),
            ScheduleError::Minute => "invalid schedule minute".to_string(),
            ScheduleError::Second => "invalid schedule second".to_string(),
            ScheduleError::Range(t) => {
                let mut r = "schedule time out of range: ".to_string();
                r.append(t.as_str());
                r
            },
        }
    }
}

/// A field of a time as a number.
pub open spec fn time_field(t: Seq<char>) -> Option<int> {
    parsed_number(t, 10, u32::MAX as int)
}

/// The hour, minute and second that a text gives: two or three numbers between colons, in range,
/// with a second of zero.
pub open spec fn time_of_day(value: Seq<char>) -> Result<(u32, u32, u32), ScheduleErrorModel> {
    let parts = split_parts(value, ':');
    if parts.len() != 2 && parts.len() != 3 {
        Err(ScheduleErrorModel::Form)
    } else if time_field(parts[0]) is None {
        Err(ScheduleErrorModel::Hour)
    } else if time_field(parts[1]) is None {
        Err(ScheduleErrorModel::Minute)
    } else if parts.len() == 3 && time_field(parts[2]) is None {
        Err(ScheduleErrorModel::Second)
    } else {
        let hour = time_field(parts[0])->0;
        let minute = time_field(parts[1])->0;
        let second = if parts.len() == 3 {
            time_field(parts[2])->0
        } else {
            0
        };
        if hour > 23 || minute > 59 || second != 0 {
            Err(ScheduleErrorModel::Range(value))
        } else {
            Ok((hour as u32, minute as u32, second as u32))
        }
    }
}

/// A field of a time is no negative number.
proof fn lemma_time_field(t: Seq<char>)
    ensures
        time_field(t) is Some ==> time_field(t)->0 >= 0,
{
    let digits = if t.len() > 0 && t[0] == '+' {
        t.drop_first()
    } else {
        t
    };
    lemma_digits_monotone(digits, 0, 10);
}

/// A time of day lies within a day, at a full minute.
pub proof fn times_lie_within_a_day(value: Seq<char>)
    ensures
        time_of_day(value) matches Ok(t) ==> t.0 <= 23 && t.1 <= 59 && t.2 == 0,
{
    let parts = split_parts(value, ':');
    if parts.len() == 2 || parts.len() == 3 {
        lemma_time_field(parts[0]);
        lemma_time_field(parts[1]);
    }
}

/// Reads a time of day, `HH:MM` or `HH:MM:00`.
pub fn parse_schedule_time(value: &str) -> (r: Result<(u32, u32, u32), ScheduleError>)
    ensures
        (match r {
            Ok(t) => Ok::<(u32, u32, u32), ScheduleErrorModel>(t),
            Err(e) => Err(e@),
        }) == time_of_day(value@),
        r is Ok ==> r->Ok_0.0 <= 23 && r->Ok_0.1 <= 59 && r->Ok_0.2 == 0,
{
    let parts = split(value, ':');
    let ghost all = views(parts@);
    let n: usize = parts.len();
    if n != 2 && n != 3 {
        return Err(ScheduleError::Form);
    }
    proof {
        assert(all[0] == parts@[0]@);
        assert(all[1] == parts@[1]@);
        if n == 3 {
            assert(all[2] == parts@[2]@);
        }
    }
    let hour: u64 = match parse_number(parts[0].as_str(), 10, 0xffff_ffff) {
        Some(v) => v,
        None => {
            return Err(ScheduleError::Hour);
        },
    };
    let minute: u64 = match parse_number(parts[1].as_str(), 10, 0xffff_ffff) {
        Some(v) => v,
        None => {
            return Err(ScheduleError::Minute);
        },
    };
    let second: u64 = if n == 3 {
        match parse_number(parts[2].as_str(), 10, 0xffff_ffff) {
            Some(v) => v,
            None => {
                return Err(ScheduleError::Second);
            },
        }
    } else {
        0
    };
    if hour > 23 || minute > 59 || second != 0 {
        return Err(ScheduleError::Range(value.to_string()));
    }
    Ok((hour as u32, minute as u32, second as u32))
}

/// What is wrong with a schedule: a time that cannot be read, where the schedule has one.
pub open spec fn schedule_fault(s: ScheduleConfigModel) -> Option<ScheduleErrorModel> {
    match s.mode {
        ScheduleMode::Realtime => None,
        _ => match time_of_day(s.time) {
            Ok(_) => None,
            Err(e) => Some(e),
        },
    }
}

/// Refuses a daily or weekly schedule whose time cannot be read.
pub fn validate_schedule(schedule: &ScheduleConfig) -> (r: Result<(), ScheduleError>)
    ensures
        (match r {
            Ok(_) => None::<ScheduleErrorModel>,
            Err(e) => Some(e@),
        }) == schedule_fault(schedule@),
{
    match schedule.mode {
        ScheduleMode::Realtime => Ok(()),
        _ => match parse_schedule_time(schedule.time.as_str()) {
            Ok(_) => Ok(()),
            Err(e) => Err(e),
        },
    }
}

/// A number as it is written in a time, in two digits at least or without a zero before it.
pub open spec fn written(n: nat, padded: bool) -> Seq<char> {
    if padded {
        seq!['0'] + decimal_text(n)
    } else {
        decimal_text(n)
    }
}

/// A time that is written as an hour and a minute is read as these where it is one, and refused
/// otherwise.
pub proof fn written_times_are_read(h: nat, m: nat, pad_hour: bool, pad_minute: bool)
    requires
        h <= u32::MAX,
        m <= u32::MAX,
    ensures
        match time_of_day(written(h, pad_hour) + seq![':'] + written(m, pad_minute)) {
            Ok(t) => h <= 23 && m <= 59 && t.0 == h && t.1 == m && t.2 == 0,
            Err(_) => h > 23 || m > 59,
        },
{
    let a = written(h, pad_hour);
    let b = written(m, pad_minute);
    let text = a + seq![':'] + b;
    decimal_is_read_back(h, u32::MAX as int);
    decimal_is_read_back(m, u32::MAX as int);
    lemma_written(h, pad_hour);
    lemma_written(m, pad_minute);
    let parts = seq![a, b];
    assert forall|i: int| 0 <= i < parts.len() implies !(#[trigger] parts[i]).contains(':') by {}
    join_then_split(parts, ':');
    assert(parts.drop_last() =~= seq![a]);
    assert(joined(parts.drop_last(), seq![':']) == a);
    assert(joined(parts, seq![':']) =~= text);
    assert(split_parts(text, ':') == parts);
}

proof fn lemma_written(n: nat, padded: bool)
    ensures
        !written(n, padded).contains(':'),
{
    lemma_decimal_digits(n);
    let t = written(n, padded);
    assert forall|i: int| 0 <= i < t.len() implies t[i] != ':' by {
        if padded {
            if i > 0 {
                assert(t[i] == decimal_text(n)[i - 1]);
            }
        } else {
            assert('0' <= decimal_text(n)[i] <= '9');
        }
    }
}

} // verus!
