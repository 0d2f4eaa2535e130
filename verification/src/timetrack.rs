//! Decisions of the time tracking tool: the times given on its command
//! line, which trackings a listing shows, the default range of the `month`
//! listing, and which trackings `cont` starts again.

use vstd::prelude::*;
use crate::datetime::{
    Date, DateTime, chrono_date_with_format, chrono_datetime_from_str,
    chrono_datetime_with_format, datetime_le, datetime_lt, midnight, parse_date_with_format,
    parse_datetime, parse_datetime_with_format,
};
use crate::text::str_eq;

verus! {

/// The format of a date-time given to `track`.
pub const DATE_TIME_FORMAT: &'static str = "%Y-%m-%dT%H:%M:%S";

/// The format of a date given to `track`, which then means its midnight.
pub const DATE_FORMAT: &'static str = "%Y-%m-%d";

pub open spec fn opt_text(o: Option<&str>) -> Option<Seq<char>> {
    match o {
        Some(s) => Some(s@),
        None => None,
    }
}

// ---------------------------------------------------------------------------
// Start and stop times of `track`
// ---------------------------------------------------------------------------

/// Why a start or stop time given to `track` cannot be used.
#[derive(Debug, Clone, Copy, PartialEq, Eq, Structural)]
pub enum TimeArgError {
    /// The time was not given.
    NotSpecified,
    /// The text is neither `now`, nor a date-time, nor a date.
    Unparsable,
}

/// The time meant by a text that was read as the date-time `as_datetime`
/// (where it is one) and as the date `as_date` (where it is one): the
/// date-time, else the midnight of the date.
pub open spec fn spec_time_from_parsed(as_datetime: Option<DateTime>, as_date: Option<Date>) -> Option<
    DateTime,
> {
    match as_datetime {
        Some(t) => Some(t),
        None => match as_date {
            Some(d) => Some(midnight(d)),
            None => None,
        },
    }
}

pub fn time_from_parsed(as_datetime: Option<DateTime>, as_date: Option<Date>) -> (res: Option<
    DateTime,
>)
    ensures
        res == spec_time_from_parsed(as_datetime, as_date),
{
    match as_datetime {
        Some(t) => Some(t),
        None => match as_date {
            Some(d) => Some(d.at_midnight()),
            None => None,
        },
    }
}

/// The time a command line argument of `track` names: `now`, a date-time in
/// [`DATE_TIME_FORMAT`], or a date in [`DATE_FORMAT`] at midnight.
pub open spec fn spec_time_arg(arg: Option<Seq<char>>, now: DateTime) -> Result<DateTime, TimeArgError> {
    match arg {
        None => Err(TimeArgError::NotSpecified),
        Some(s) => if s == "now"@ {
            Ok(now)
        } else {
            match spec_time_from_parsed(
                chrono_datetime_with_format(s, DATE_TIME_FORMAT@),
                chrono_date_with_format(s, DATE_FORMAT@),
            ) {
                Some(t) => Ok(t),
                None => Err(TimeArgError::Unparsable),
            }
        },
    }
}

/// The start or stop time given to `track`, the current time being `now`.
pub fn get_time(arg: Option<&str>, now: DateTime) -> (res: Result<DateTime, TimeArgError>)
    ensures
        res == spec_time_arg(opt_text(arg), now),
{
    let s = match arg {
        None => {
            return Err(TimeArgError::NotSpecified);
        },
        Some(s) => s,
    };
    if str_eq(s, "now") {
        return Ok(now);
    }
    let as_datetime = parse_datetime_with_format(s, DATE_TIME_FORMAT);
    let as_date = match as_datetime {
        Some(_) => None,
        None => parse_date_with_format(s, DATE_FORMAT),
    };
    match time_from_parsed(as_datetime, as_date) {
        Some(t) => Ok(t),
        None => Err(TimeArgError::Unparsable),
    }
}

/// The start and stop times of the trackings `track` creates.
pub fn track(start_arg: Option<&str>, stop_arg: Option<&str>, now: DateTime) -> (res: Result<
    (DateTime, DateTime),
    TimeArgError,
>)
    ensures
        res == match spec_time_arg(opt_text(start_arg), now) {
            Err(e) => Err(e),
            Ok(start) => match spec_time_arg(opt_text(stop_arg), now) {
                Err(e) => Err(e),
                Ok(stop) => Ok((start, stop)),
            },
        },
{
    let start = get_time(start_arg, now)?;
    let stop = get_time(stop_arg, now)?;
    Ok((start, stop))
}

// ---------------------------------------------------------------------------
// `list`
// ---------------------------------------------------------------------------

/// A start or end time as stored in a tracking.
#[derive(Debug, Clone, Copy, PartialEq, Eq, Structural)]
pub enum StoredTime {
    /// The time could not be read.
    Unreadable,
    /// The tracking has no such time.
    Absent,
    At(DateTime),
}

/// What `list` selects by: trackings that start at or after `start` and end
/// at or before `end` (each where given); with `list_not_ended`, trackings
/// without an end pass the end bound.
#[derive(Debug, Clone, Copy, PartialEq, Eq, Structural)]
pub struct ListBounds {
    pub start: Option<DateTime>,
    pub end: Option<DateTime>,
    pub list_not_ended: bool,
}

/// The bound an argument of `list` gives: none where the argument is
/// missing or is not a date-time.
pub fn list_bound(arg: Option<&str>) -> (res: Option<DateTime>)
    ensures
        res == match arg {
            Some(s) => chrono_datetime_from_str(s@),
            None => None,
        },
{
    match arg {
        Some(s) => parse_datetime(s),
        None => None,
    }
}

/// Whether `list` shows a tracking with the given start and end times.
pub open spec fn spec_list_shows(b: ListBounds, start: StoredTime, end: StoredTime) -> bool {
    let start_ok = match b.start {
        None => true,
        Some(s) => match start {
            StoredTime::At(t) => datetime_le(s, t),
            _ => false,
        },
    };
    let end_ok = match b.end {
        None => true,
        Some(e) => match end {
            StoredTime::At(t) => datetime_le(t, e),
            StoredTime::Absent => b.list_not_ended,
            StoredTime::Unreadable => false,
        },
    };
    start_ok && end_ok
}

/// The bounds `list` selects by, from its arguments: a bound that is not a
/// date-time is ignored.
pub fn list(start_arg: Option<&str>, end_arg: Option<&str>, list_not_ended: bool) -> (res: ListBounds)
    ensures
        res.start == match start_arg {
            Some(s) => chrono_datetime_from_str(s@),
            None => None,
        },
        res.end == match end_arg {
            Some(s) => chrono_datetime_from_str(s@),
            None => None,
        },
        res.list_not_ended == list_not_ended,
{
    ListBounds { start: list_bound(start_arg), end: list_bound(end_arg), list_not_ended }
}

pub fn list_shows(b: &ListBounds, start: &StoredTime, end: &StoredTime) -> (res: bool)
    ensures
        res == spec_list_shows(*b, *start, *end),
{
    let start_ok = match &b.start {
        None => true,
        Some(s) => match start {
            StoredTime::At(t) => s.not_after(t),
            _ => false,
        },
    };
    if !start_ok {
        return false;
    }
    match &b.end {
        None => true,
        Some(e) => match end {
            StoredTime::At(t) => t.not_after(e),
            StoredTime::Absent => b.list_not_ended,
            StoredTime::Unreadable => false,
        },
    }
}

// ---------------------------------------------------------------------------
// `month`
// ---------------------------------------------------------------------------

/// Why the range of `month` cannot be set.
#[derive(Debug, Clone, Copy, PartialEq, Eq, Structural)]
pub enum MonthArgError {
    /// The start given is not a date-time.
    UnparsableStart,
    /// The end given is not a date-time.
    UnparsableEnd,
}

/// The start of the range of `month` where none is given: the first moment
/// of the current month.
pub open spec fn month_default_start(today: Date) -> DateTime {
    midnight(Date { year: today.year, month: today.month, day: 1 })
}

/// The end of the range of `month` where none is given: the first moment
/// of the next month (of the next year in December).
pub open spec fn month_default_end(today: Date) -> DateTime {
    if today.month == 12 {
        midnight(Date { year: (today.year + 1) as i32, month: 1, day: 1 })
    } else {
        midnight(Date { year: today.year, month: (today.month + 1) as u32, day: 1 })
    }
}

/// The range of `month`, given what its start and end arguments were read
/// as (`None`: not given; `Some(None)`: not a date-time).
pub open spec fn spec_month_range_from_parsed(
    today: Date,
    start: Option<Option<DateTime>>,
    end: Option<Option<DateTime>>,
) -> Result<(DateTime, DateTime), MonthArgError> {
    match start {
        Some(None) => Err(MonthArgError::UnparsableStart),
        _ => match end {
            Some(None) => Err(MonthArgError::UnparsableEnd),
            _ => Ok(
                (
                    match start {
                        Some(Some(s)) => s,
                        _ => month_default_start(today),
                    },
                    match end {
                        Some(Some(e)) => e,
                        _ => month_default_end(today),
                    },
                ),
            ),
        },
    }
}

pub fn month_range_from_parsed(
    today: Date,
    start: Option<Option<DateTime>>,
    end: Option<Option<DateTime>>,
) -> (res: Result<(DateTime, DateTime), MonthArgError>)
    requires
        today.year < i32::MAX,
        1 <= today.month <= 12,
    ensures
        res == spec_month_range_from_parsed(today, start, end),
{
    let s = match start {
        Some(None) => {
            return Err(MonthArgError::UnparsableStart);
        },
        Some(Some(s)) => s,
        None => Date { year: today.year, month: today.month, day: 1 }.at_midnight(),
    };
    let e = match end {
        Some(None) => {
            return Err(MonthArgError::UnparsableEnd);
        },
        Some(Some(e)) => e,
        None => if today.month == 12 {
            Date { year: today.year + 1, month: 1, day: 1 }.at_midnight()
        } else {
            Date { year: today.year, month: today.month + 1, day: 1 }.at_midnight()
        },
    };
    Ok((s, e))
}

/// What an argument of `month` is read as: `None` where it is not given.
pub open spec fn parsed_arg(arg: Option<Seq<char>>) -> Option<Option<DateTime>> {
    match arg {
        Some(s) => Some(chrono_datetime_from_str(s)),
        None => None,
    }
}

/// The range of the trackings `month` lists, today being `today`.
pub fn month(today: Date, start_arg: Option<&str>, end_arg: Option<&str>) -> (res: Result<
    (DateTime, DateTime),
    MonthArgError,
>)
    requires
        today.year < i32::MAX,
        1 <= today.month <= 12,
    ensures
        res == spec_month_range_from_parsed(
            today,
            parsed_arg(opt_text(start_arg)),
            parsed_arg(opt_text(end_arg)),
        ),
{
    let start = match start_arg {
        Some(s) => Some(parse_datetime(s)),
        None => None,
    };
    let end = match end_arg {
        Some(s) => Some(parse_datetime(s)),
        None => None,
    };
    month_range_from_parsed(today, start, end)
}

/// Whether `month` shows a tracking with the given start and end times: it
/// starts at or after the start of the range and ends at or before its end;
/// a tracking without a readable start or end time is not shown.
pub open spec fn spec_month_shows(range: (DateTime, DateTime), start: StoredTime, end: StoredTime) -> bool {
    &&& start matches StoredTime::At(s) && datetime_le(range.0, s)
    &&& end matches StoredTime::At(e) && datetime_le(e, range.1)
}

pub fn month_shows(range: &(DateTime, DateTime), start: &StoredTime, end: &StoredTime) -> (res: bool)
    ensures
        res == spec_month_shows(*range, *start, *end),
{
    let start_ok = match start {
        StoredTime::At(s) => range.0.not_after(s),
        _ => false,
    };
    let end_ok = match end {
        StoredTime::At(e) => e.not_after(&range.1),
        _ => false,
    };
    start_ok && end_ok
}

/// Whether `month` shows a tracking with tag `tag`: with tags given, the
/// tracking's tag must be one of them; without, every tag is shown.
pub open spec fn spec_month_tag_shown(tags: Option<Seq<Seq<char>>>, tag: Seq<char>) -> bool {
    match tags {
        None => true,
        Some(ts) => ts.contains(tag),
    }
}

/// The texts of an optional list of strings.
pub open spec fn opt_texts(tags: Option<Vec<String>>) -> Option<Seq<Seq<char>>> {
    match tags {
        Some(ts) => Some(crate::text::texts_view(ts@)),
        None => None,
    }
}

pub fn month_tag_shown(tags: &Option<Vec<String>>, tag: &str) -> (res: bool)
    ensures
        res == spec_month_tag_shown(opt_texts(*tags), tag@),
{
    match tags {
        None => true,
        Some(ts) => {
            let ghost tv = crate::text::texts_view(ts@);
            assert(tv.len() == ts@.len());
            let mut k: usize = 0;
            while k < ts.len()
                invariant
                    k <= ts.len(),
                    tv == crate::text::texts_view(ts@),
                    tv.len() == ts@.len(),
                    opt_texts(*tags) == Some(tv),
                    forall|j: int| 0 <= j < k ==> tv[j] != tag@,
                decreases ts.len() - k,
            {
                if crate::text::str_eq(ts[k].as_str(), tag) {
                    assert(tv[k as int] == tag@);
                    assert(tv.contains(tag@));
                    return true;
                }
                assert(tv[k as int] != tag@);
                k = k + 1;
            }
            false
        },
    }
}

// ---------------------------------------------------------------------------
// `cont`
// ---------------------------------------------------------------------------

/// `ends[i]` is a latest end time.
pub open spec fn is_latest(ends: Seq<DateTime>, i: int) -> bool {
    forall|j: int| 0 <= j < ends.len() ==> datetime_le(#[trigger] ends[j], ends[i])
}

/// The trackings `cont` starts again, as positions in `ends` (the end times
/// of the ended trackings, in the store's order): every tracking that ends
/// at the latest end time, in order.
pub open spec fn cont_selection(ends: Seq<DateTime>) -> Seq<usize> {
    Seq::new(ends.len(), |i: int| i as usize).filter(|j: usize| is_latest(ends, j as int))
}

proof fn lemma_le_total(x: DateTime, y: DateTime)
    ensures
        !datetime_lt(x, y) ==> datetime_le(y, x),
{
}

proof fn lemma_le_trans(x: DateTime, y: DateTime, z: DateTime)
    requires
        datetime_le(x, y),
        datetime_le(y, z),
    ensures
        datetime_le(x, z),
{
}

pub fn cont(ends: &Vec<DateTime>) -> (res: Vec<usize>)
    ensures
        res@ == cont_selection(ends@),
{
    if ends.len() == 0 {
        assert(cont_selection(ends@) =~= Seq::<usize>::empty());
        return Vec::new();
    }
    let mut best: usize = 0;
    let mut i: usize = 1;
    while i < ends.len()
        invariant
            1 <= i <= ends.len(),
            best < i,
            forall|j: int| 0 <= j < i ==> datetime_le(#[trigger] ends@[j], ends@[best as int]),
        decreases ends.len() - i,
    {
        if !ends[i].before(&ends[best]) {
            proof {
                lemma_le_total(ends@[i as int], ends@[best as int]);
                assert forall|j: int| 0 <= j < i + 1 implies datetime_le(
                    #[trigger] ends@[j],
                    ends@[i as int],
                ) by {
                    if j < i {
                        lemma_le_trans(ends@[j], ends@[best as int], ends@[i as int]);
                    }
                }
            }
            best = i;
        }
        i = i + 1;
    }
    let ghost all = Seq::new(ends@.len(), |i: int| i as usize);
    let ghost p = |j: usize| is_latest(ends@, j as int);
    assert(is_latest(ends@, best as int));
    let mut res: Vec<usize> = Vec::new();
    let mut k: usize = 0;
    while k < ends.len()
        invariant
            k <= ends.len(),
            best < ends.len(),
            is_latest(ends@, best as int),
            all == Seq::new(ends@.len(), |i: int| i as usize),
            p == (|j: usize| is_latest(ends@, j as int)),
            res@ == all.take(k as int).filter(p),
        decreases ends.len() - k,
    {
        proof {
            assert(all.take(k + 1) == all.take(k as int).push(all[k as int]));
            all.take(k as int).lemma_filter_push(all[k as int], p);
            if is_latest(ends@, k as int) {
                lemma_le_antisym(ends@[k as int], ends@[best as int]);
            }
        }
        if ends[k] == ends[best] {
            res.push(k);
        }
        k = k + 1;
    }
    assert(all.take(ends.len() as int) =~= all);
    res
}

/// Two end times each not after the other are equal.
proof fn lemma_le_antisym(x: DateTime, y: DateTime)
    requires
        datetime_le(x, y),
        datetime_le(y, x),
    ensures
        x == y,
{
}

} // verus!

verus! {

/// `b2` is at least as wide as `b1`: its start (if any) is not later, its
/// end (if any) not earlier, and it accepts trackings without an end where
/// `b1` does.
pub open spec fn wider(b1: ListBounds, b2: ListBounds) -> bool {
    &&& match b2.start {
        None => true,
        Some(s2) => match b1.start {
            Some(s1) => datetime_le(s2, s1),
            None => false,
        },
    }
    &&& match b2.end {
        None => true,
        Some(e2) => match b1.end {
            Some(e1) => datetime_le(e1, e2),
            None => false,
        },
    }
    &&& (b1.list_not_ended ==> b2.list_not_ended)
}

/// Widening the bounds of `list` never hides a tracking it showed.
pub proof fn law_list_widening(b1: ListBounds, b2: ListBounds, start: StoredTime, end: StoredTime)
    requires
        wider(b1, b2),
        spec_list_shows(b1, start, end),
    ensures
        spec_list_shows(b2, start, end),
{
    match (b2.start, b1.start, start) {
        (Some(s2), Some(s1), StoredTime::At(t)) => lemma_le_trans(s2, s1, t),
        _ => {},
    }
    match (b2.end, b1.end, end) {
        (Some(e2), Some(e1), StoredTime::At(t)) => lemma_le_trans(t, e1, e2),
        _ => {},
    }
}

/// Without bounds, `list` shows every tracking.
pub proof fn law_list_unbounded(list_not_ended: bool, start: StoredTime, end: StoredTime)
    ensures
        spec_list_shows(
            ListBounds { start: None, end: None, list_not_ended },
            start,
            end,
        ),
{
}

/// `cont` continues a tracking exactly when it ends at the latest end time;
/// there is one to continue whenever some tracking has ended.
pub proof fn law_cont_latest(ends: Seq<DateTime>, j: int)
    requires
        0 <= j < ends.len() <= usize::MAX,
    ensures
        cont_selection(ends).contains(j as usize) <==> is_latest(ends, j),
        cont_selection(ends).len() > 0,
{
    let all = Seq::new(ends.len(), |i: int| i as usize);
    let p = |k: usize| is_latest(ends, k as int);
    assert(all[j] == j as usize);
    if is_latest(ends, j) {
        assert(p(all[j]));
        lemma_filter_keeps(all, p, j);
    }
    if cont_selection(ends).contains(j as usize) {
        all.filter_lemma(p);
    }
    let m = lemma_latest_exists(ends, ends.len() as int);
    assert(all[m] == m as usize);
    lemma_filter_keeps(all, p, m);
}

/// An element that satisfies the filter's predicate stays in the filtered
/// sequence.
proof fn lemma_filter_keeps(s: Seq<usize>, p: spec_fn(usize) -> bool, j: int)
    requires
        0 <= j < s.len(),
        p(s[j]),
    ensures
        s.filter(p).contains(s[j]),
    decreases s.len(),
{
    reveal(Seq::filter);
    if j < s.len() - 1 {
        lemma_filter_keeps(s.drop_last(), p, j);
        assert(s.drop_last()[j] == s[j]);
        let f = s.drop_last().filter(p);
        let k = choose|k: int| 0 <= k < f.len() && f[k] == s[j];
        if p(s.last()) {
            assert(s.filter(p)[k] == s[j]);
        }
    } else {
        assert(s.filter(p) == s.drop_last().filter(p).push(s.last()));
        assert(s.filter(p)[s.filter(p).len() - 1] == s[j]);
    }
}

/// Among the first `n` end times, one is the latest of them.
proof fn lemma_latest_exists(ends: Seq<DateTime>, n: int) -> (m: int)
    requires
        0 < n <= ends.len(),
    ensures
        0 <= m < n,
        forall|j: int| 0 <= j < n ==> datetime_le(#[trigger] ends[j], ends[m]),
        n == ends.len() ==> is_latest(ends, m),
    decreases n,
{
    if n == 1 {
        0
    } else {
        let m0 = lemma_latest_exists(ends, n - 1);
        lemma_le_total(ends[n - 1], ends[m0]);
        if datetime_lt(ends[n - 1], ends[m0]) {
            m0
        } else {
            assert forall|j: int| 0 <= j < n implies datetime_le(#[trigger] ends[j], ends[n - 1]) by {
                if j < n - 1 {
                    lemma_le_trans(ends[j], ends[m0], ends[n - 1]);
                }
            }
            n - 1
        }
    }
}

/// The month listing shows a tracking with readable times exactly when it
/// starts at or after the start of the range and ends at or before its end.
pub proof fn law_month_shows_within_range(range: (DateTime, DateTime), s: DateTime, e: DateTime)
    ensures
        spec_month_shows(range, StoredTime::At(s), StoredTime::At(e)) <==> (datetime_le(range.0, s)
            && datetime_le(e, range.1)),
{
}

/// A tracking that ends after the end of the range, or starts before its
/// start, is never shown by the month listing; neither is one whose start or
/// end cannot be read.
pub proof fn law_month_hides_outside_range(range: (DateTime, DateTime), start: StoredTime, end: StoredTime)
    ensures
        (end matches StoredTime::At(e) && datetime_lt(range.1, e)) ==> !spec_month_shows(range, start, end),
        (start matches StoredTime::At(s) && datetime_lt(s, range.0)) ==> !spec_month_shows(range, start, end),
        !(start is At) ==> !spec_month_shows(range, start, end),
        !(end is At) ==> !spec_month_shows(range, start, end),
{
    if let StoredTime::At(e) = end {
        if datetime_lt(range.1, e) && datetime_le(e, range.1) {
            lemma_lt_not_ge(range.1, e);
        }
    }
    if let StoredTime::At(s) = start {
        if datetime_lt(s, range.0) && datetime_le(range.0, s) {
            lemma_lt_not_ge(s, range.0);
        }
    }
}

/// An earlier moment is not at or after a later one.
proof fn lemma_lt_not_ge(x: DateTime, y: DateTime)
    requires
        datetime_lt(x, y),
    ensures
        !datetime_le(y, x),
{
}

} // verus!
