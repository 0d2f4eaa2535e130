//! Which calendar events a listing shows: past events only on request,
//! and, when searching, those with a text that matches a pattern.

use vstd::prelude::*;
use crate::datetime::{DateTime, datetime_le};
use crate::pattern::{Pattern, regex_finds};

verus! {

/// Hides events that ended before `today`, unless past events are to be
/// shown.
pub struct PastFilter {
    pub show_past: bool,
    pub today: DateTime,
}

impl PastFilter {
    pub fn new(show_past: bool, today: DateTime) -> (res: Self)
        ensures
            res.show_past == show_past,
            res.today == today,
    {
        PastFilter { show_past, today }
    }

    /// Whether an event that ends at `end` is shown.
    pub fn filter(&self, end: &DateTime) -> (res: bool)
        ensures
            res == (self.show_past || datetime_le(self.today, *end)),
    {
        self.show_past || self.today.not_after(end)
    }
}

/// The texts of an event that a search looks at: its start and end as
/// text, its location, its categories, its description and its uid (where
/// it has one).
pub struct EventTexts {
    pub start: String,
    pub end: String,
    pub location: String,
    pub categories: Vec<String>,
    pub description: String,
    pub uid: Option<String>,
}

/// Keeps the events with a text that matches a regular expression.
pub struct GrepFilter {
    pub pattern: Pattern,
}

/// The pattern matches one of the texts of the event.
pub open spec fn spec_event_matches(pattern: Seq<char>, e: EventTexts) -> bool {
    ||| regex_finds(pattern, e.start@)
    ||| regex_finds(pattern, e.end@)
    ||| regex_finds(pattern, e.location@)
    ||| exists|k: int|
        0 <= k < e.categories.len() && regex_finds(pattern, #[trigger] e.categories@[k]@)
    ||| regex_finds(pattern, e.description@)
    ||| (e.uid matches Some(u) && regex_finds(pattern, u@))
}

impl GrepFilter {
    pub fn new(pattern: Pattern) -> (res: Self)
        ensures
            res.pattern.source() == pattern.source(),
    {
        GrepFilter { pattern }
    }

    /// Whether the pattern matches one of the texts of the event.
    pub fn filter(&self, e: &EventTexts) -> (res: bool)
        ensures
            res == spec_event_matches(self.pattern.source(), *e),
    {
        if self.pattern.is_match(e.start.as_str()) {
            return true;
        }
        if self.pattern.is_match(e.end.as_str()) {
            return true;
        }
        if self.pattern.is_match(e.location.as_str()) {
            return true;
        }
        let mut k: usize = 0;
        while k < e.categories.len()
            invariant
                k <= e.categories.len(),
                forall|j: int|
                    0 <= j < k ==> !regex_finds(self.pattern.source(), #[trigger] e.categories@[j]@),
            decreases e.categories.len() - k,
        {
            if self.pattern.is_match(e.categories[k].as_str()) {
                return true;
            }
            k = k + 1;
        }
        if self.pattern.is_match(e.description.as_str()) {
            return true;
        }
        match &e.uid {
            Some(u) => self.pattern.is_match(u.as_str()),
            None => false,
        }
    }
}

/// The grep filter keeps an event where the pattern finds a match in any of
/// its texts: start, end, location, any category, description or uid; and
/// only there.
pub proof fn law_grep_searches_every_text(pattern: Seq<char>, e: EventTexts, k: int)
    ensures
        regex_finds(pattern, e.start@) ==> spec_event_matches(pattern, e),
        regex_finds(pattern, e.end@) ==> spec_event_matches(pattern, e),
        regex_finds(pattern, e.location@) ==> spec_event_matches(pattern, e),
        (0 <= k < e.categories.len() && regex_finds(pattern, e.categories@[k]@))
            ==> spec_event_matches(pattern, e),
        regex_finds(pattern, e.description@) ==> spec_event_matches(pattern, e),
        (e.uid matches Some(u) && regex_finds(pattern, u@)) ==> spec_event_matches(pattern, e),
        (!regex_finds(pattern, e.start@) && !regex_finds(pattern, e.end@) && !regex_finds(
            pattern,
            e.location@,
        ) && (forall|j: int| 0 <= j < e.categories.len() ==> !regex_finds(pattern, #[trigger] e.categories@[j]@))
            && !regex_finds(pattern, e.description@) && !(e.uid matches Some(u) && regex_finds(
            pattern,
            u@,
        ))) ==> !spec_event_matches(pattern, e),
{
}

} // verus!
