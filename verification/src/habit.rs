//! What the `today` view of the habit tool shows: the habits due today (or
//! also later), ordered by due date, and either the upcoming ones or a
//! table of them.

use vstd::prelude::*;
use crate::datetime::{Date, date_lt};
use crate::text::{parse_unsigned, spec_parse_unsigned, str_eq};

verus! {

/// What the `today` view reads of a habit: the date its next instance is
/// due (none once the habit is finished), and whether an instance exists
/// for that date.
#[derive(Debug, Clone, Copy, PartialEq, Eq, Structural)]
pub struct HabitStatus {
    pub next_due: Option<Date>,
    pub done: bool,
}

/// The habit is due `today`, or later where `future` habits count too.
pub open spec fn is_relevant(h: HabitStatus, today: Date, future: bool) -> bool {
    match h.next_due {
        Some(d) => d == today || (future && date_lt(today, d)),
        None => false,
    }
}

pub open spec fn due(h: HabitStatus) -> Date {
    h.next_due->0
}

/// Habit `i` comes before habit `j`: it is due earlier, or on the same date
/// and earlier in the store's order.
pub open spec fn ordered_before(hs: Seq<HabitStatus>, i: int, j: int) -> bool {
    date_lt(due(hs[i]), due(hs[j])) || (due(hs[i]) == due(hs[j]) && i < j)
}

/// `r` holds the positions in `hs` of the relevant habits, each once, by
/// due date, those due on the same date in the order of `hs`.
pub open spec fn is_relevant_order(hs: Seq<HabitStatus>, today: Date, future: bool, r: Seq<usize>) -> bool {
    &&& forall|k: int|
        0 <= k < r.len() ==> #[trigger] r[k] < hs.len() && is_relevant(hs[r[k] as int], today, future)
    &&& forall|i: int|
        0 <= i < hs.len() && is_relevant(#[trigger] hs[i], today, future) ==> r.contains(i as usize)
    &&& forall|a: int, b: int|
        0 <= a < b < r.len() ==> ordered_before(hs, #[trigger] r[a] as int, #[trigger] r[b] as int)
}

/// `r` holds the positions in `hs` of the habits picked by `keep`, each
/// once, by due date, those due on the same date in the order of `hs`.
pub open spec fn is_due_order(hs: Seq<HabitStatus>, keep: Seq<bool>, r: Seq<usize>) -> bool {
    &&& forall|k: int| 0 <= k < r.len() ==> #[trigger] r[k] < hs.len() && keep[r[k] as int]
    &&& forall|i: int| 0 <= i < hs.len() && #[trigger] keep[i] ==> r.contains(i as usize)
    &&& forall|a: int, b: int|
        0 <= a < b < r.len() ==> ordered_before(hs, #[trigger] r[a] as int, #[trigger] r[b] as int)
}

proof fn lemma_date_lt_trans(x: Date, y: Date, z: Date)
    requires
        date_lt(x, y),
        date_lt(y, z),
    ensures
        date_lt(x, z),
{
}

proof fn lemma_date_lt_total(x: Date, y: Date)
    ensures
        date_lt(x, y) || x == y || date_lt(y, x),
        !(date_lt(x, y) && date_lt(y, x)),
        !date_lt(x, x),
{
}

/// The habits picked by `keep`, in the order of their due dates; those due
/// on the same date keep the store's order.
fn order_by_due(hs: &Vec<HabitStatus>, keep: &Vec<bool>) -> (r: Vec<usize>)
    requires
        keep.len() == hs.len(),
        forall|i: int| 0 <= i < hs.len() && #[trigger] keep@[i] ==> hs@[i].next_due is Some,
    ensures
        is_due_order(hs@, keep@, r@),
{
    let mut r: Vec<usize> = Vec::new();
    let mut i: usize = 0;
    while i < hs.len()
        invariant
            i <= hs.len(),
            forall|k: int|
                0 <= k < r.len() ==> #[trigger] r@[k] < i && keep@[r@[k] as int],
            forall|x: int| 0 <= x < i && #[trigger] keep@[x] ==> r@.contains(x as usize),
            keep.len() == hs.len(),
            forall|x: int| 0 <= x < hs.len() && #[trigger] keep@[x] ==> hs@[x].next_due is Some,
            forall|a: int, b: int|
                0 <= a < b < r.len() ==> ordered_before(
                    hs@,
                    #[trigger] r@[a] as int,
                    #[trigger] r@[b] as int,
                ),
        decreases hs.len() - i,
    {
        if keep[i] {
            let d = due_date(&hs[i]);
            // The new habit goes after every habit due on or before its date.
            let mut p: usize = 0;
            while p < r.len() && !d.before(&due_date(&hs[r[p]]))
                invariant
                    p <= r.len(),
                    i < hs.len(),
                    keep.len() == hs.len(),
                    forall|x: int| 0 <= x < hs.len() && #[trigger] keep@[x] ==> hs@[x].next_due is Some,
                    forall|k: int| 0 <= k < r.len() ==> #[trigger] r@[k] < i && keep@[r@[k] as int],
                    forall|k: int|
                        0 <= k < p ==> !date_lt(d, #[trigger] due(hs@[r@[k] as int])),
                decreases r.len() - p,
            {
                p = p + 1;
            }
            let ghost old_r = r@;
            proof {
                assert forall|k: int| p <= k < r.len() implies date_lt(
                    d,
                    #[trigger] due(hs@[r@[k] as int]),
                ) by {
                    if k > p as int {
                        assert(ordered_before(hs@, r@[p as int] as int, r@[k] as int));
                        lemma_date_lt_total(due(hs@[r@[p as int] as int]), due(hs@[r@[k] as int]));
                        if date_lt(due(hs@[r@[p as int] as int]), due(hs@[r@[k] as int])) {
                            lemma_date_lt_trans(
                                d,
                                due(hs@[r@[p as int] as int]),
                                due(hs@[r@[k] as int]),
                            );
                        }
                    }
                }
            }
            r.insert(p, i);
            proof {
                assert(r@ == old_r.insert(p as int, i));
                assert(due(hs@[i as int]) == d);
                assert forall|a: int, b: int| 0 <= a < b < r.len() implies ordered_before(
                    hs@,
                    #[trigger] r@[a] as int,
                    #[trigger] r@[b] as int,
                ) by {
                    if a < p && b < p {
                        assert(r@[a] == old_r[a] && r@[b] == old_r[b]);
                    } else if a < p && b == p {
                        assert(r@[a] == old_r[a]);
                        lemma_date_lt_total(d, due(hs@[old_r[a] as int]));
                    } else if a < p && b > p {
                        assert(r@[a] == old_r[a] && r@[b] == old_r[b - 1]);
                    } else if a == p {
                        assert(r@[b] == old_r[b - 1]);
                    } else {
                        assert(r@[a] == old_r[a - 1] && r@[b] == old_r[b - 1]);
                    }
                }
                assert forall|x: int| 0 <= x < i + 1 && #[trigger] keep@[x] implies r@.contains(
                    x as usize,
                ) by {
                    if x == i {
                        assert(r@[p as int] == i);
                    } else {
                        let k = choose|k: int| 0 <= k < old_r.len() && old_r[k] == x as usize;
                        if k < p {
                            assert(r@[k] == x as usize);
                        } else {
                            assert(r@[k + 1] == x as usize);
                        }
                    }
                }
                assert forall|k: int| 0 <= k < r.len() implies #[trigger] r@[k] < i + 1
                    && keep@[r@[k] as int] by {
                    if k < p {
                        assert(r@[k] == old_r[k]);
                    } else if k > p {
                        assert(r@[k] == old_r[k - 1]);
                    }
                }
            }
        }
        i = i + 1;
    }
    r
}

/// The relevant habits, in the order of their due dates; those due on the
/// same date keep the store's order.
pub fn relevant_habits(hs: &Vec<HabitStatus>, today: Date, future: bool) -> (r: Vec<usize>)
    ensures
        is_relevant_order(hs@, today, future, r@),
{
    let mut keep: Vec<bool> = Vec::new();
    let mut i: usize = 0;
    while i < hs.len()
        invariant
            i <= hs.len(),
            keep.len() == i,
            forall|x: int| 0 <= x < i ==> #[trigger] keep@[x] == is_relevant(hs@[x], today, future),
        decreases hs.len() - i,
    {
        let relevant = match hs[i].next_due {
            Some(d) => d == today || (future && today.before(&d)),
            None => false,
        };
        keep.push(relevant);
        i = i + 1;
    }
    let r = order_by_due(hs, &keep);
    proof {
        assert forall|x: int|
            0 <= x < hs.len() && is_relevant(#[trigger] hs@[x], today, future) implies r@.contains(
            x as usize,
        ) by {
            assert(keep@[x]);
        }
    }
    r
}

/// `done` marks a habit done when its next instance is due today or
/// earlier (or at any date, with `allow_future`) and it is one of `names`.
pub open spec fn is_done_candidate(
    h: HabitStatus,
    name: Seq<char>,
    names: Seq<Seq<char>>,
    today: Date,
    allow_future: bool,
) -> bool {
    &&& h.next_due matches Some(d) && (d == today || date_lt(d, today) || allow_future)
    &&& names.contains(name)
}

pub open spec fn names_view(v: Seq<String>) -> Seq<Seq<char>> {
    v.map_values(|s: String| s@)
}

pub open spec fn done_keep(
    hs: Seq<HabitStatus>,
    habit_names: Seq<Seq<char>>,
    names: Seq<Seq<char>>,
    today: Date,
    allow_future: bool,
) -> Seq<bool> {
    Seq::new(hs.len(), |i: int| is_done_candidate(hs[i], habit_names[i], names, today, allow_future))
}

fn contains_name(names: &Vec<String>, name: &String) -> (res: bool)
    ensures
        res == names_view(names@).contains(name@),
{
    let mut k: usize = 0;
    while k < names.len()
        invariant
            k <= names.len(),
            forall|j: int| 0 <= j < k ==> names@[j]@ != name@,
        decreases names.len() - k,
    {
        if str_eq(names[k].as_str(), name.as_str()) {
            assert(names_view(names@)[k as int] == name@);
            return true;
        }
        k = k + 1;
    }
    proof {
        if names_view(names@).contains(name@) {
            let j = choose|j: int| 0 <= j < names.len() && names_view(names@)[j] == name@;
            assert(names@[j]@ == name@);
        }
    }
    false
}

/// The habits `done` creates an instance for, today being `today`: those
/// named in `names` that are due today or earlier (at any date with
/// `allow_future`), in the order of their due dates; `habit_names[i]` is
/// the name of habit `i`.
pub fn done(
    hs: &Vec<HabitStatus>,
    habit_names: &Vec<String>,
    names: &Vec<String>,
    today: Date,
    allow_future: bool,
) -> (r: Vec<usize>)
    requires
        habit_names.len() == hs.len(),
    ensures
        is_due_order(
            hs@,
            done_keep(hs@, names_view(habit_names@), names_view(names@), today, allow_future),
            r@,
        ),
{
    let ghost spec_keep = done_keep(hs@, names_view(habit_names@), names_view(names@), today, allow_future);
    let mut keep: Vec<bool> = Vec::new();
    let mut i: usize = 0;
    while i < hs.len()
        invariant
            i <= hs.len(),
            habit_names.len() == hs.len(),
            keep.len() == i,
            spec_keep == done_keep(hs@, names_view(habit_names@), names_view(names@), today, allow_future),
            forall|x: int| 0 <= x < i ==> #[trigger] keep@[x] == spec_keep[x],
        decreases hs.len() - i,
    {
        let due_ok = match hs[i].next_due {
            Some(d) => d == today || d.before(&today) || allow_future,
            None => false,
        };
        let k = due_ok && contains_name(names, &habit_names[i]);
        assert(names_view(habit_names@)[i as int] == habit_names@[i as int]@);
        keep.push(k);
        i = i + 1;
    }
    assert(keep@ =~= spec_keep);
    order_by_due(hs, &keep)
}

fn due_date(h: &HabitStatus) -> (d: Date)
    ensures
        h.next_due is Some ==> d == due(*h),
{
    match h.next_due {
        Some(d) => d,
        None => Date { year: 0, month: 0, day: 0 },
    }
}

/// What the `today` view shows, as positions in the list of habits.
#[derive(Debug, PartialEq, Eq)]
pub enum TodayView {
    /// No habit is due today: the next habits due, to be listed.
    Upcoming(Vec<usize>),
    /// The habits to show as a table.
    Table(Vec<usize>),
}

pub enum STodayView {
    Upcoming(Seq<usize>),
    Table(Seq<usize>),
}

impl View for TodayView {
    type V = STodayView;

    open spec fn view(&self) -> STodayView {
        match self {
            TodayView::Upcoming(v) => STodayView::Upcoming(v@),
            TodayView::Table(v) => STodayView::Table(v@),
        }
    }
}

/// Some habit of `r` is due today.
pub open spec fn any_due_today(hs: Seq<HabitStatus>, r: Seq<usize>, today: Date) -> bool {
    exists|k: int| 0 <= k < r.len() && #[trigger] hs[r[k] as int].next_due == Some(today)
}

/// The view, given the relevant habits `r` in order: where no habit is due
/// today (and done habits are not to be shown), the first `n` of them that
/// are not done; else, as a table, those not yet done, or all of them
/// where done habits are to be shown.
pub open spec fn spec_today_view(
    hs: Seq<HabitStatus>,
    r: Seq<usize>,
    today: Date,
    show_done: bool,
    n: nat,
) -> STodayView {
    if !(show_done || any_due_today(hs, r, today)) {
        let first = if n < r.len() {
            r.take(n as int)
        } else {
            r
        };
        STodayView::Upcoming(first.filter(|i: usize| show_done || !hs[i as int].done))
    } else {
        STodayView::Table(r.filter(|i: usize| show_done || !hs[i as int].done))
    }
}

/// Keeps the positions of `r` whose habit is done (`want_done`) or not
/// done, or all of them with `keep_all`; in order.
fn select(hs: &Vec<HabitStatus>, r: &Vec<usize>, count: usize, keep_all: bool, want_done: bool) -> (res: Vec<usize>)
    requires
        count <= r.len(),
        forall|k: int| 0 <= k < r.len() ==> #[trigger] r@[k] < hs.len(),
    ensures
        res@ == r@.take(count as int).filter(|i: usize| keep_all || hs@[i as int].done == want_done),
{
    let ghost p = |i: usize| keep_all || hs@[i as int].done == want_done;
    let mut res: Vec<usize> = Vec::new();
    let mut k: usize = 0;
    while k < count
        invariant
            k <= count <= r.len(),
            forall|x: int| 0 <= x < r.len() ==> #[trigger] r@[x] < hs.len(),
            p == (|i: usize| keep_all || hs@[i as int].done == want_done),
            res@ == r@.take(k as int).filter(p),
        decreases count - k,
    {
        proof {
            assert(r@.take(k + 1) == r@.take(k as int).push(r@[k as int]));
            r@.take(k as int).lemma_filter_push(r@[k as int], p);
        }
        let x = r[k];
        if keep_all || hs[x].done == want_done {
            res.push(x);
        }
        k = k + 1;
    }
    res
}

/// The positions of the habits named `name`, in order.
pub open spec fn spec_habits_named(names: Seq<Seq<char>>, name: Seq<char>) -> Seq<usize> {
    Seq::new(names.len(), |i: int| i as usize).filter(|i: usize| names[i as int] == name)
}

/// The habits `show` lists: the positions in `names` of the habits named
/// `name`, in order.
pub fn habits_to_show(names: &Vec<String>, name: &str) -> (res: Vec<usize>)
    ensures
        res@ == spec_habits_named(crate::text::texts_view(names@), name@),
{
    let ghost nv = crate::text::texts_view(names@);
    let ghost all = Seq::new(nv.len(), |i: int| i as usize);
    let ghost p = |i: usize| nv[i as int] == name@;
    let mut res: Vec<usize> = Vec::new();
    let mut k: usize = 0;
    while k < names.len()
        invariant
            k <= names.len(),
            nv == crate::text::texts_view(names@),
            nv.len() == names@.len(),
            all == Seq::new(nv.len(), |i: int| i as usize),
            p == (|i: usize| nv[i as int] == name@),
            res@ == all.take(k as int).filter(p),
        decreases names.len() - k,
    {
        proof {
            assert(all.take(k + 1) == all.take(k as int).push(all[k as int]));
            all.take(k as int).lemma_filter_push(all[k as int], p);
        }
        assert(nv[k as int] == names@[k as int]@);
        if crate::text::str_eq(names[k].as_str(), name) {
            res.push(k);
        }
        k = k + 1;
    }
    assert(all.take(names.len() as int) =~= all);
    res
}

/// The `today` view of the habits `hs`, the current date being `date`: with
/// `future`, habits due later count too; with `show_done`, habits done
/// for their due date are shown; `n` is the number of upcoming habits to
/// list where none is due on that date.
pub fn today(hs: &Vec<HabitStatus>, date: Date, future: bool, show_done: bool, n: usize) -> (res: (
    Vec<usize>,
    TodayView,
))
    ensures
        is_relevant_order(hs@, date, future, res.0@),
        res.1@ == spec_today_view(hs@, res.0@, date, show_done, n as nat),
{
    let r = relevant_habits(hs, date, future);
    let mut any_today = false;
    let mut k: usize = 0;
    while k < r.len()
        invariant
            k <= r.len(),
            is_relevant_order(hs@, date, future, r@),
            any_today == exists|j: int|
                0 <= j < k && #[trigger] hs@[r@[j] as int].next_due == Some(date),
        decreases r.len() - k,
    {
        assert(r@[k as int] < hs.len());
        if hs[r[k]].next_due == Some(date) {
            any_today = true;
        }
        k = k + 1;
    }
    if !(show_done || any_today) {
        let count = if n < r.len() {
            n
        } else {
            r.len()
        };
        let up = select(hs, &r, count, show_done, false);
        proof {
            if n >= r.len() {
                assert(r@.take(r.len() as int) =~= r@);
            }
            let p1 = |i: usize| show_done || hs@[i as int].done == false;
            let p2 = |i: usize| show_done || !hs@[i as int].done;
            assert(p1 =~= p2);
        }
        (r, TodayView::Upcoming(up))
    } else {
        let table = select(hs, &r, r.len(), show_done, false);
        proof {
            assert(r@.take(r.len() as int) =~= r@);
            let p1 = |i: usize| show_done || hs@[i as int].done == false;
            let p2 = |i: usize| show_done || !hs@[i as int].done;
            assert(p1 =~= p2);
        }
        (r, TodayView::Table(table))
    }
}

/// How many upcoming habits the `today` view lists where none is due
/// today: the number given on the command line, 5 where none is given;
/// `None` where the text given is not a number.
pub open spec fn spec_next_n(arg: Option<Seq<char>>) -> Option<usize> {
    match arg {
        None => Some(5),
        Some(s) => match spec_parse_unsigned(s, usize::MAX as nat) {
            Some(v) => Some(v as usize),
            None => None,
        },
    }
}

pub fn next_n(arg: Option<&str>) -> (res: Option<usize>)
    ensures
        res == spec_next_n(match arg {
            Some(s) => Some(s@),
            None => None,
        }),
{
    match arg {
        None => Some(5),
        Some(s) => match parse_unsigned(s, usize::MAX as u64) {
            Some(v) => Some(v as usize),
            None => None,
        },
    }
}

} // verus!

verus! {

/// `l` lists relevant habits of `hs`, in due-date order.
pub open spec fn lists_in_order(hs: Seq<HabitStatus>, date: Date, future: bool, l: Seq<usize>) -> bool {
    &&& forall|k: int|
        0 <= k < l.len() ==> #[trigger] l[k] < hs.len() && is_relevant(hs[l[k] as int], date, future)
    &&& forall|a: int, b: int|
        0 <= a < b < l.len() ==> ordered_before(hs, #[trigger] l[a] as int, #[trigger] l[b] as int)
}

proof fn lemma_filter_in_order(
    hs: Seq<HabitStatus>,
    date: Date,
    future: bool,
    s: Seq<usize>,
    p: spec_fn(usize) -> bool,
)
    requires
        lists_in_order(hs, date, future, s),
    ensures
        lists_in_order(hs, date, future, s.filter(p)),
    decreases s.len(),
{
    reveal(Seq::filter);
    if s.len() > 0 {
        let d = s.drop_last();
        assert forall|a: int, b: int| 0 <= a < b < d.len() implies ordered_before(
            hs,
            #[trigger] d[a] as int,
            #[trigger] d[b] as int,
        ) by {
            assert(d[a] == s[a] && d[b] == s[b]);
        }
        assert forall|k: int| 0 <= k < d.len() implies #[trigger] d[k] < hs.len() && is_relevant(
            hs[d[k] as int],
            date,
            future,
        ) by {
            assert(d[k] == s[k]);
        }
        lemma_filter_in_order(hs, date, future, d, p);
        let f = d.filter(p);
        if p(s.last()) {
            let g = f.push(s.last());
            assert(s.filter(p) == g);
            assert forall|a: int, b: int| 0 <= a < b < g.len() implies ordered_before(
                hs,
                #[trigger] g[a] as int,
                #[trigger] g[b] as int,
            ) by {
                if b == f.len() {
                    assert(f.contains(f[a]));
                    d.lemma_filter_contains_rev(p, f[a]);
                    let i = choose|i: int| 0 <= i < d.len() && d[i] == f[a];
                    assert(s[i] == f[a]);
                    assert(ordered_before(hs, s[i] as int, s[s.len() - 1] as int));
                } else {
                    assert(g[a] == f[a] && g[b] == f[b]);
                }
            }
            assert forall|k: int| 0 <= k < g.len() implies #[trigger] g[k] < hs.len()
                && is_relevant(hs[g[k] as int], date, future) by {
                if k < f.len() {
                    assert(g[k] == f[k]);
                }
            }
        }
    }
}

/// The habits a `today` view lists are relevant ones, in the order of their
/// due dates.
pub proof fn law_view_in_order(
    hs: Seq<HabitStatus>,
    date: Date,
    future: bool,
    show_done: bool,
    n: nat,
    r: Seq<usize>,
)
    requires
        is_relevant_order(hs, date, future, r),
    ensures
        match spec_today_view(hs, r, date, show_done, n) {
            STodayView::Upcoming(l) => lists_in_order(hs, date, future, l),
            STodayView::Table(l) => lists_in_order(hs, date, future, l),
        },
{
    assert(lists_in_order(hs, date, future, r));
    if n < r.len() {
        let t = r.take(n as int);
        assert forall|a: int, b: int| 0 <= a < b < t.len() implies ordered_before(
            hs,
            #[trigger] t[a] as int,
            #[trigger] t[b] as int,
        ) by {
            assert(t[a] == r[a] && t[b] == r[b]);
        }
        assert forall|k: int| 0 <= k < t.len() implies #[trigger] t[k] < hs.len() && is_relevant(
            hs[t[k] as int],
            date,
            future,
        ) by {
            assert(t[k] == r[k]);
        }
        lemma_filter_in_order(hs, date, future, t, |i: usize| show_done || !hs[i as int].done);
    }
    lemma_filter_in_order(hs, date, future, r, |i: usize| show_done || !hs[i as int].done);
}

/// Without `future`, every habit a view lists is due on the current date.
pub proof fn law_without_future_only_today(hs: Seq<HabitStatus>, date: Date, i: int)
    requires
        0 <= i < hs.len(),
        is_relevant(hs[i], date, false),
    ensures
        hs[i].next_due == Some(date),
{
}

} // verus!
