use imag::calendar::{EventTexts, GrepFilter, PastFilter};
use imag::pattern::Pattern;
use imag::datetime::{Date, DateTime};

fn dt(day: u32, hour: u32) -> DateTime {
    DateTime { year: 2018, month: 7, day, hour, minute: 0, second: 0, nanosecond: 0 }
}

#[test]
fn past_events_are_hidden() {
    let f = PastFilter::new(false, dt(10, 12));
    assert!(!f.filter(&dt(10, 11)));
    assert!(f.filter(&dt(10, 12)));
    assert!(f.filter(&dt(11, 0)));
}

#[test]
fn past_events_shown_on_request() {
    let f = PastFilter::new(true, dt(10, 12));
    assert!(f.filter(&dt(1, 0)));
}

#[test]
fn date_order() {
    let a = Date { year: 2018, month: 1, day: 31 };
    let b = Date { year: 2018, month: 2, day: 1 };
    assert!(a.before(&b));
    assert!(!b.before(&a));
    assert!(!a.before(&a));
    assert!(dt(1, 0).before(&dt(1, 1)));
    assert!(dt(1, 1).not_after(&dt(1, 1)));
    assert_eq!(a.at_midnight(), DateTime { year: 2018, month: 1, day: 31, hour: 0, minute: 0, second: 0, nanosecond: 0 });
}

fn event() -> EventTexts {
    EventTexts {
        start: "2018-07-10T12:00:00".to_string(),
        end: "2018-07-10T13:00:00".to_string(),
        location: "Room 4".to_string(),
        categories: vec!["work".to_string(), "meeting".to_string()],
        description: "Weekly sync".to_string(),
        uid: None,
    }
}

#[test]
fn grep_filter_looks_at_every_text() {
    let f = GrepFilter::new(Pattern::new("^meet").unwrap());
    assert!(f.filter(&event()));
    let f = GrepFilter::new(Pattern::new("sync$").unwrap());
    assert!(f.filter(&event()));
    let f = GrepFilter::new(Pattern::new("T13:").unwrap());
    assert!(f.filter(&event()));
    let f = GrepFilter::new(Pattern::new("holiday").unwrap());
    assert!(!f.filter(&event()));
    let mut e = event();
    e.uid = Some("holiday-42".to_string());
    assert!(f.filter(&e));
}

#[test]
fn invalid_patterns_are_refused() {
    assert!(Pattern::new("(unclosed").is_none());
    assert!(Pattern::new("a+b").unwrap().is_match("xaaab"));
    assert!(!Pattern::new("a+b").unwrap().is_match("xb"));
}
