use imag::datetime::Date;
use imag::habit::{done, habits_to_show, next_n, relevant_habits, today, HabitStatus, TodayView};

fn d(day: u32) -> Date {
    Date { year: 2018, month: 6, day }
}

fn habits() -> Vec<HabitStatus> {
    vec![
        HabitStatus { next_due: Some(d(20)), done: false },
        HabitStatus { next_due: Some(d(10)), done: true },
        HabitStatus { next_due: None, done: false },
        HabitStatus { next_due: Some(d(10)), done: false },
        HabitStatus { next_due: Some(d(5)), done: false },
        HabitStatus { next_due: Some(d(15)), done: false },
    ]
}

#[test]
fn relevant_habits_are_due_today_or_later() {
    assert_eq!(relevant_habits(&habits(), d(10), false), vec![1, 3]);
    assert_eq!(relevant_habits(&habits(), d(10), true), vec![1, 3, 5, 0]);
    assert_eq!(relevant_habits(&habits(), d(11), false), Vec::<usize>::new());
}

#[test]
fn table_shows_habits_not_yet_done() {
    let (r, view) = today(&habits(), d(10), false, false, 5);
    assert_eq!(r, vec![1, 3]);
    assert_eq!(view, TodayView::Table(vec![3]));
    let (_, view) = today(&habits(), d(10), false, true, 5);
    assert_eq!(view, TodayView::Table(vec![1, 3]));
}

#[test]
fn upcoming_habits_where_none_is_due_today() {
    let (r, view) = today(&habits(), d(11), true, false, 5);
    assert_eq!(r, vec![5, 0]);
    assert_eq!(view, TodayView::Upcoming(vec![5, 0]));
    let (_, view) = today(&habits(), d(11), true, false, 1);
    assert_eq!(view, TodayView::Upcoming(vec![5]));
    let (_, view) = today(&habits(), d(11), false, false, 5);
    assert_eq!(view, TodayView::Upcoming(vec![]));
}

#[test]
fn number_of_upcoming_habits() {
    assert_eq!(next_n(None), Some(5));
    assert_eq!(next_n(Some("3")), Some(3));
    assert_eq!(next_n(Some("three")), None);
}

#[test]
fn done_picks_named_habits_due_by_today() {
    let names: Vec<String> = ["run", "read", "none", "write", "walk", "swim"].iter().map(|s| s.to_string()).collect();
    let wanted = vec!["run".to_string(), "write".to_string(), "walk".to_string(), "none".to_string()];
    // Due dates: run 20, read 10, none -, write 10, walk 5, swim 15.
    assert_eq!(done(&habits(), &names, &wanted, d(10), false), vec![4, 3]);
    assert_eq!(done(&habits(), &names, &wanted, d(10), true), vec![4, 3, 0]);
    assert_eq!(done(&habits(), &names, &vec![], d(30), true), Vec::<usize>::new());
}

#[test]
fn one_habit_due_today_not_done_is_listed() {
    let hs = vec![HabitStatus { next_due: Some(d(10)), done: false }];
    let (_, view) = today(&hs, d(10), false, false, 5);
    assert_eq!(view, TodayView::Table(vec![0]));
}

#[test]
fn show_lists_the_habits_of_that_name() {
    let names: Vec<String> = vec!["run".to_string(), "read".to_string(), "run".to_string()];
    assert_eq!(habits_to_show(&names, "run"), vec![0, 2]);
    assert_eq!(habits_to_show(&names, "read"), vec![1]);
    assert_eq!(habits_to_show(&names, "swim"), Vec::<usize>::new());
}
