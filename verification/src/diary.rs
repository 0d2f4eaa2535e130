//! Timed diary entries: how the time of a new entry is configured and
//! computed.

use vstd::prelude::*;
use vstd::string::StringExecFns;
use crate::text::{parse_unsigned, spec_parse_unsigned, str_eq};
use crate::toml_access::{
    ReadError, SValueShape, ValueShape, found_shape_model, read_checked, shape_of, spec_read,
    toml_model, utf8_str,
};

verus! {

/// How precisely a new diary entry is timed.
#[derive(Debug, Clone, Copy, PartialEq, Eq, Structural)]
pub enum Timed {
    Hourly,
    Minutely,
}

/// Why the timing of a diary could not be determined.
#[derive(Debug, PartialEq, Eq)]
pub enum DiaryConfigError {
    /// The configuration could not be read at the diary's path.
    Read,
    /// The configuration holds something else than a timing.
    Invalid(String),
}

/// The timing a configuration string names: `h`/`hourly`, `m`/`minutely`.
pub open spec fn spec_timed(s: Seq<char>) -> Option<Timed> {
    if s == "h"@ || s == "hourly"@ {
        Some(Timed::Hourly)
    } else if s == "m"@ || s == "minutely"@ {
        Some(Timed::Minutely)
    } else {
        None
    }
}

pub open spec fn unparsable_message(s: Seq<char>, diary_name: Seq<char>) -> Seq<char> {
    "Cannot parse config: 'diary.diaries."@ + diary_name + ".timed = "@ + s + "'"@
}

pub open spec fn type_error_message(diary_name: Seq<char>) -> Seq<char> {
    "Type error at 'diary.diaryies."@ + diary_name
        + ".timed': should be either 'h'/'hourly' or 'm'/'minutely'"@
}

/// Reads a timing from its configuration string.
pub fn parse_timed_string(s: &str, diary_name: &str) -> (res: Result<Timed, DiaryConfigError>)
    ensures
        match spec_timed(s@) {
            Some(t) => res == Ok::<Timed, DiaryConfigError>(t),
            None => res matches Err(DiaryConfigError::Invalid(m)) && m@ == unparsable_message(
                s@,
                diary_name@,
            ),
        },
{
    if str_eq(s, "h") || str_eq(s, "hourly") {
        Ok(Timed::Hourly)
    } else if str_eq(s, "m") || str_eq(s, "minutely") {
        Ok(Timed::Minutely)
    } else {
        let mut m = String::new();
        m.append("Cannot parse config: 'diary.diaries.");
        m.append(diary_name);
        m.append(".timed = ");
        m.append(s);
        m.append("'");
        Err(DiaryConfigError::Invalid(m))
    }
}

/// `res` is the outcome for a diary named `diary_name` whose configuration
/// holds `found` at `diary.diaries.<diary>.timed` (`None`: nothing there).
pub open spec fn is_timed_outcome(
    res: Result<Option<Timed>, DiaryConfigError>,
    found: Option<SValueShape>,
    diary_name: Seq<char>,
) -> bool {
    match found {
        None => res == Ok::<Option<Timed>, DiaryConfigError>(None),
        Some(SValueShape::String(s)) => match spec_timed(s) {
            Some(t) => res == Ok::<Option<Timed>, DiaryConfigError>(Some(t)),
            None => res matches Err(DiaryConfigError::Invalid(m)) && m@ == unparsable_message(
                s,
                diary_name,
            ),
        },
        Some(_) => res matches Err(DiaryConfigError::Invalid(m)) && m@ == type_error_message(
            diary_name,
        ),
    }
}

pub open spec fn found_shape(found: Option<ValueShape>) -> Option<SValueShape> {
    match found {
        Some(v) => Some(v@),
        None => None,
    }
}

/// The timing configured for a diary, given the value found at
/// `diary.diaries.<diary>.timed` (`None`: nothing there).
pub fn timed_from_config_value(found: &Option<ValueShape>, diary_name: &str) -> (res: Result<
    Option<Timed>,
    DiaryConfigError,
>)
    ensures
        is_timed_outcome(res, found_shape(*found), diary_name@),
{
    match found {
        None => Ok(None),
        Some(ValueShape::String(s)) => match parse_timed_string(s.as_str(), diary_name) {
            Ok(t) => Ok(Some(t)),
            Err(e) => Err(e),
        },
        Some(_) => {
            let mut m = String::new();
            m.append("Type error at 'diary.diaryies.");
            m.append(diary_name);
            m.append(".timed': should be either 'h'/'hourly' or 'm'/'minutely'");
            Err(DiaryConfigError::Invalid(m))
        },
    }
}

/// The path of a diary's timing setting.
pub open spec fn timed_path(diary_name: Seq<char>) -> Seq<char> {
    "diary.diaries."@ + diary_name + ".timed"@
}

/// The timing configured for a diary at `diary.diaries.<diary>.timed`;
/// `None` without a configuration or without that setting.
pub fn get_diary_timed_config(config: Option<&toml::Value>, diary_name: &str) -> (res: Result<
    Option<Timed>,
    DiaryConfigError,
>)
    ensures
        match config {
            None => res == Ok::<Option<Timed>, DiaryConfigError>(None),
            Some(c) => match spec_read(toml_model(*c), timed_path(diary_name@)) {
                None => res == Err::<Option<Timed>, DiaryConfigError>(DiaryConfigError::Read),
                Some(found) => is_timed_outcome(res, found_shape_model(found), diary_name@),
            },
        },
{
    let cfg = match config {
        None => {
            return Ok(None);
        },
        Some(c) => c,
    };
    let mut path = String::new();
    path.append("diary.diaries.");
    path.append(diary_name);
    path.append(".timed");
    assert(path@ =~= timed_path(diary_name@));
    let found = match read_checked(cfg, path.as_str()) {
        Ok(Some(v)) => Some(shape_of(v)),
        Ok(None) => None,
        Err(ReadError::Lookup) => {
            return Err(DiaryConfigError::Read);
        },
    };
    assert(found_shape(found) == found_shape_model(spec_read(toml_model(*cfg), path@)->0));
    timed_from_config_value(&found, diary_name)
}

// ---------------------------------------------------------------------------
// The time of a new timed entry
// ---------------------------------------------------------------------------

/// A time of day, to the nanosecond.
#[derive(Debug, Clone, Copy, PartialEq, Eq, Structural)]
pub struct ClockTime {
    pub hour: u32,
    pub minute: u32,
    pub second: u32,
    pub nanosecond: u32,
}

/// The value of a decimal literal as `u32::from_str` reads it: an optional
/// `+` and one or more ASCII digits, the value fitting in `u32`.
pub open spec fn spec_parse_u32(s: Seq<char>) -> Option<u32> {
    match spec_parse_unsigned(s, u32::MAX as nat) {
        Some(v) => Some(v as u32),
        None => None,
    }
}

/// `u32::from_str`.
pub fn parse_u32(s: &str) -> (res: Option<u32>)
    ensures
        res == spec_parse_u32(s@),
{
    match parse_unsigned(s, 4294967295u64) {
        Some(v) => Some(v as u32),
        None => None,
    }
}

/// Why the time of a new entry could not be set.
#[derive(Debug, Clone, Copy, PartialEq, Eq, Structural)]
pub enum EntryTimeError {
    /// The minute given is not a valid minute.
    InvalidMinute(u32),
}

/// The time of a new timed entry created at `now`: the full hour for an
/// hourly diary; for a minutely one, the hour and the minute given on the
/// command line (the current minute where none is given or it is not a
/// number), with the seconds set to zero and the fraction of the second
/// kept. A minute of 60 or more is refused.
pub open spec fn spec_entry_time(timed: Timed, now: ClockTime, minute_arg: Option<Seq<char>>) -> Result<
    ClockTime,
    EntryTimeError,
> {
    match timed {
        Timed::Hourly => Ok(ClockTime { hour: now.hour, minute: 0, second: 0, nanosecond: now.nanosecond }),
        Timed::Minutely => {
            let min = match minute_arg {
                Some(a) => match spec_parse_u32(a) {
                    Some(m) => m,
                    None => now.minute,
                },
                None => now.minute,
            };
            if min < 60 {
                Ok(ClockTime { hour: now.hour, minute: min, second: 0, nanosecond: now.nanosecond })
            } else {
                Err(EntryTimeError::InvalidMinute(min))
            }
        },
    }
}

pub open spec fn opt_str_view(o: Option<&str>) -> Option<Seq<char>> {
    match o {
        Some(s) => Some(s@),
        None => None,
    }
}

pub fn create_id_from_clispec(timed: Timed, now: ClockTime, minute_arg: Option<&str>) -> (res: Result<
    ClockTime,
    EntryTimeError,
>)
    ensures
        res == spec_entry_time(timed, now, opt_str_view(minute_arg)),
{
    match timed {
        Timed::Hourly => Ok(ClockTime { hour: now.hour, minute: 0, second: 0, nanosecond: now.nanosecond }),
        Timed::Minutely => {
            let min = match minute_arg {
                Some(a) => match parse_u32(a) {
                    Some(m) => m,
                    None => now.minute,
                },
                None => now.minute,
            };
            if min < 60 {
                Ok(ClockTime { hour: now.hour, minute: min, second: 0, nanosecond: now.nanosecond })
            } else {
                Err(EntryTimeError::InvalidMinute(min))
            }
        },
    }
}

} // verus!

verus! {

/// A new entry keeps the hour and the fraction of the second of the moment
/// it is created at, and starts at the full minute; an hourly one at the
/// full hour, whatever minute is given. A minute is refused only when it is
/// 60 or more.
pub proof fn law_entry_time(timed: Timed, now: ClockTime, minute_arg: Option<Seq<char>>)
    requires
        now.minute < 60,
    ensures
        spec_entry_time(timed, now, minute_arg) matches Ok(t) ==> (t.hour == now.hour && t.second
            == 0 && t.nanosecond == now.nanosecond && t.minute < 60),
        timed == Timed::Hourly ==> (spec_entry_time(timed, now, minute_arg) matches Ok(t)
            && t.minute == 0),
        spec_entry_time(timed, now, minute_arg) matches Err(EntryTimeError::InvalidMinute(m))
            ==> (m >= 60 && minute_arg is Some),
{
}

} // verus!
