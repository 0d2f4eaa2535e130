use imag::datetime::{Date, DateTime};
use imag::timetrack::{
    cont, get_time, month_tag_shown, list, list_shows, month, month_range_from_parsed, month_shows, time_from_parsed,
    track,
    ListBounds, MonthArgError, StoredTime, TimeArgError,
};

fn dt(year: i32, month: u32, day: u32, hour: u32, minute: u32, second: u32) -> DateTime {
    DateTime { year, month, day, hour, minute, second, nanosecond: 0 }
}

#[test]
fn times_of_track() {
    let now = dt(2018, 3, 4, 10, 11, 12);
    assert_eq!(get_time(Some("now"), now), Ok(now));
    assert_eq!(get_time(Some("2018-01-02T03:04:05"), now), Ok(dt(2018, 1, 2, 3, 4, 5)));
    assert_eq!(get_time(Some("2018-01-02"), now), Ok(dt(2018, 1, 2, 0, 0, 0)));
    assert_eq!(get_time(Some("yesterday"), now), Err(TimeArgError::Unparsable));
    assert_eq!(get_time(None, now), Err(TimeArgError::NotSpecified));
}

#[test]
fn track_needs_both_times() {
    let now = dt(2018, 3, 4, 10, 11, 12);
    assert_eq!(track(Some("2018-01-02"), Some("now"), now), Ok((dt(2018, 1, 2, 0, 0, 0), now)));
    assert_eq!(track(Some("now"), None, now), Err(TimeArgError::NotSpecified));
    assert_eq!(track(Some("x"), None, now), Err(TimeArgError::Unparsable));
}

#[test]
fn parsed_times_prefer_the_date_time() {
    let d = Date { year: 2000, month: 2, day: 29 };
    assert_eq!(time_from_parsed(None, Some(d)), Some(dt(2000, 2, 29, 0, 0, 0)));
    assert_eq!(time_from_parsed(Some(dt(1, 1, 1, 1, 1, 1)), Some(d)), Some(dt(1, 1, 1, 1, 1, 1)));
    assert_eq!(time_from_parsed(None, None), None);
}

#[test]
fn list_bounds_and_selection() {
    let b = list(Some("2018-01-01T00:00:00"), Some("not a time"), false);
    assert_eq!(b, ListBounds { start: Some(dt(2018, 1, 1, 0, 0, 0)), end: None, list_not_ended: false });
    let b = ListBounds {
        start: Some(dt(2018, 1, 1, 0, 0, 0)),
        end: Some(dt(2018, 2, 1, 0, 0, 0)),
        list_not_ended: false,
    };
    let inside = StoredTime::At(dt(2018, 1, 15, 0, 0, 0));
    assert!(list_shows(&b, &inside, &inside));
    assert!(!list_shows(&b, &StoredTime::At(dt(2017, 12, 31, 23, 59, 59)), &inside));
    assert!(!list_shows(&b, &inside, &StoredTime::At(dt(2018, 2, 1, 0, 0, 1))));
    assert!(list_shows(&b, &inside, &StoredTime::At(dt(2018, 2, 1, 0, 0, 0))));
    assert!(!list_shows(&b, &inside, &StoredTime::Absent));
    assert!(!list_shows(&b, &StoredTime::Absent, &inside));
    assert!(!list_shows(&b, &inside, &StoredTime::Unreadable));
    let b2 = ListBounds { list_not_ended: true, ..b };
    assert!(list_shows(&b2, &inside, &StoredTime::Absent));
    let open = ListBounds { start: None, end: None, list_not_ended: false };
    assert!(list_shows(&open, &StoredTime::Unreadable, &StoredTime::Absent));
}

#[test]
fn month_defaults() {
    let today = Date { year: 2018, month: 5, day: 17 };
    assert_eq!(month(today, None, None), Ok((dt(2018, 5, 1, 0, 0, 0), dt(2018, 6, 1, 0, 0, 0))));
    let december = Date { year: 2018, month: 12, day: 3 };
    assert_eq!(
        month(december, None, None),
        Ok((dt(2018, 12, 1, 0, 0, 0), dt(2019, 1, 1, 0, 0, 0)))
    );
    assert_eq!(
        month(today, Some("2018-01-01T00:00:00"), Some("2018-03-01T12:00:00")),
        Ok((dt(2018, 1, 1, 0, 0, 0), dt(2018, 3, 1, 12, 0, 0)))
    );
}

#[test]
fn month_errors() {
    let today = Date { year: 2018, month: 5, day: 17 };
    assert_eq!(month(today, Some("x"), Some("y")), Err(MonthArgError::UnparsableStart));
    assert_eq!(month(today, None, Some("y")), Err(MonthArgError::UnparsableEnd));
    assert_eq!(month_range_from_parsed(today, Some(None), None), Err(MonthArgError::UnparsableStart));
    assert_eq!(
        month_range_from_parsed(today, None, Some(Some(dt(2020, 1, 1, 0, 0, 0)))),
        Ok((dt(2018, 5, 1, 0, 0, 0), dt(2020, 1, 1, 0, 0, 0)))
    );
}

#[test]
fn cont_takes_every_tracking_with_the_latest_end() {
    assert_eq!(cont(&vec![]), Vec::<usize>::new());
    let a = dt(2018, 1, 1, 10, 0, 0);
    let b = dt(2018, 1, 1, 12, 0, 0);
    assert_eq!(cont(&vec![a]), vec![0]);
    assert_eq!(cont(&vec![a, b, b, a]), vec![1, 2]);
    assert_eq!(cont(&vec![b, a, b, b]), vec![0, 2, 3]);
    assert_eq!(cont(&vec![a, a, a]), vec![0, 1, 2]);
}

#[test]
fn month_tag_filter() {
    let tags = Some(vec!["work".to_string(), "home".to_string()]);
    assert!(month_tag_shown(&tags, "work"));
    assert!(!month_tag_shown(&tags, "play"));
    assert!(month_tag_shown(&None, "play"));
}

#[test]
fn month_shows_trackings_within_the_range() {
    let range = (dt(2018, 5, 1, 0, 0, 0), dt(2018, 6, 1, 0, 0, 0));
    let inside = StoredTime::At(dt(2018, 5, 10, 0, 0, 0));
    assert!(month_shows(&range, &inside, &inside));
    assert!(month_shows(&range, &StoredTime::At(range.0), &StoredTime::At(range.1)));
    assert!(!month_shows(&range, &StoredTime::At(dt(2018, 4, 30, 0, 0, 0)), &inside));
    assert!(!month_shows(&range, &inside, &StoredTime::Absent));
    assert!(!month_shows(&range, &StoredTime::Unreadable, &inside));
}

#[test]
fn wider_list_bounds_keep_what_was_shown() {
    let narrow = ListBounds {
        start: Some(dt(2018, 1, 10, 0, 0, 0)),
        end: Some(dt(2018, 1, 20, 0, 0, 0)),
        list_not_ended: false,
    };
    let wide = ListBounds {
        start: Some(dt(2018, 1, 1, 0, 0, 0)),
        end: Some(dt(2018, 2, 1, 0, 0, 0)),
        list_not_ended: true,
    };
    let s = StoredTime::At(dt(2018, 1, 12, 0, 0, 0));
    let e = StoredTime::At(dt(2018, 1, 15, 0, 0, 0));
    assert!(list_shows(&narrow, &s, &e));
    assert!(list_shows(&wide, &s, &e));
    let unbounded = ListBounds { start: None, end: None, list_not_ended: false };
    assert!(list_shows(&unbounded, &StoredTime::Absent, &StoredTime::Unreadable));
}
