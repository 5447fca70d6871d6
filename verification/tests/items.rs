use mtd::date::{weekday_to_date, Date, Weekday};
use mtd::{Task, Todo};

// Unit test the date helper directly, supplying today explicitly.
#[test]
fn weekday_to_date_returns_correct_dates() {
    // Today is a Tuesday
    let today = Date::from_ymd(2022, 6, 7);

    // Tue should return today's date
    assert_eq!(weekday_to_date(Weekday::Tue, today), today);

    // Wed should return tomorrow's date
    assert_eq!(weekday_to_date(Weekday::Wed, today), today.succ());

    // Mon should return next weeks monday
    assert_eq!(weekday_to_date(Weekday::Mon, today), Date::from_ymd(2022, 6, 13));
}

#[test]
fn todo_displays_correctly() {
    let todo = Todo::new_undated("Todo".to_string());
    assert_eq!(todo.to_display_string(), "Todo (ID: 0)".to_string());
}

#[test]
fn todo_for_date_tests() {
    let todo = Todo::new_specific_date("Friday".to_string(), Date::from_ymd(2022, 6, 10));

    let today = Date::from_ymd(2022, 6, 10);

    assert!(todo.for_date_wtd(today, today)); // Todo is for the given date on the same day
    assert!(todo.for_date_wtd(today, today.pred())); // Todo is for the given date before the given date
    assert!(!todo.for_date_wtd(today, today.succ())); // Todo is not for the given date after the given date
    assert!(todo.for_date_wtd(today.succ(), today.succ())); // Todo is for the following date one day after the given date
    assert!(!todo.for_date_wtd(today.succ(), today)); // Todo is not for the following date because it is already for today
}

#[test]
fn todo_can_remove_returns_true_only_after_one_day_from_completion() {
    let mut todo = Todo::new_specific_date("Todo".to_string(), Date::from_ymd(2022, 4, 25));
    todo.set_done_wtd(true, Date::from_ymd(2022, 4, 26));

    assert!(!todo.can_remove_wtd(Date::from_ymd(2022, 4, 26)));
    assert!(todo.can_remove_wtd(Date::from_ymd(2022, 4, 27)));
    assert!(todo.can_remove_wtd(Date::from_ymd(2022, 4, 28)));
}

#[test]
#[should_panic]
fn task_new_panics_if_empty_weekday_vec() {
    Task::new("Panic!".to_string(), vec![]);
}

#[test]
fn task_remove_weekday_removes_all_duplicates() {
    let mut task = Task::new(
        "Test task".to_string(),
        vec![Weekday::Mon, Weekday::Tue, Weekday::Wed, Weekday::Wed],
    );

    task.remove_weekday(Weekday::Wed);

    assert!(task.weekdays().contains(&Weekday::Mon));
    assert!(task.weekdays().contains(&Weekday::Tue));
    assert!(!task.weekdays().contains(&Weekday::Wed));
}

#[test]
fn task_displays_correctly() {
    let task = Task::new("Task".to_string(), vec![Weekday::Wed]);
    assert_eq!(task.to_display_string(), "Task (ID: 0)".to_string());
}

#[test]
fn task_done_tracks_weekdays_and_dates() {
    let mut task = Task::new("Task".to_string(), vec![Weekday::Mon, Weekday::Wed, Weekday::Thu]);

    task.set_done(true, Date::from_ymd(2022, 6, 13));
    task.set_done(true, Date::from_ymd(2022, 6, 16));

    // Done for mon and thu
    assert!(task.done(Date::from_ymd(2022, 6, 13)));
    assert!(task.done(Date::from_ymd(2022, 6, 16)));

    // Not done for wed
    assert!(!task.done(Date::from_ymd(2022, 6, 15)));

    // Not done for the following week's mon/thu
    assert!(!task.done(Date::from_ymd(2022, 6, 20)));
    assert!(!task.done(Date::from_ymd(2022, 6, 23)));

    // Since 2022-6-21 is a tue, the task is done for that date
    assert!(task.done(Date::from_ymd(2022, 6, 21)));
}

#[test]
fn task_set_done_false_clears_the_weekday() {
    let mut task = Task::new("Task".to_string(), vec![Weekday::Mon]);

    task.set_done(true, Date::from_ymd(2022, 6, 13));
    assert!(task.done(Date::from_ymd(2022, 6, 13)));

    task.set_done(false, Date::from_ymd(2022, 6, 13));
    assert!(!task.done(Date::from_ymd(2022, 6, 13)));
}

#[test]
fn from_ymd_matches_known_weekdays() {
    assert_eq!(Date::from_ymd(2022, 6, 10).weekday(), Weekday::Fri);
    assert_eq!(Date::from_ymd(2022, 6, 12).weekday(), Weekday::Sun);
    assert_eq!(Date::from_ymd(2000, 3, 1).weekday(), Weekday::Wed);
    assert_eq!(Date::from_ymd(1970, 1, 1).weekday(), Weekday::Thu);
}

#[test]
fn from_ymd_counts_days_across_month_and_leap_boundaries() {
    assert_eq!(Date::from_ymd(2021, 3, 31).succ(), Date::from_ymd(2021, 4, 1));
    assert_eq!(Date::from_ymd(2020, 2, 28).succ(), Date::from_ymd(2020, 2, 29));
    assert_eq!(Date::from_ymd(2019, 2, 28).succ(), Date::from_ymd(2019, 3, 1));
    assert_eq!(Date::from_ymd(2021, 12, 31).succ(), Date::from_ymd(2022, 1, 1));
}

#[test]
fn todo_equality_ignores_ids_and_markers() {
    let a = Todo::new_specific_date("Same".to_string(), Date::from_ymd(2022, 1, 1));
    let mut b = Todo::new_specific_date("Same".to_string(), Date::from_ymd(2022, 1, 1));
    assert_eq!(a, b);
    b.set_body("Other".to_string());
    assert_ne!(a, b);
}

#[test]
fn new_items_draw_distinct_sync_ids() {
    let a = Todo::new_undated("A".to_string());
    let b = Todo::new_undated("B".to_string());
    let c = Task::new("C".to_string(), vec![Weekday::Mon]);
    assert_ne!(a.sync_id, b.sync_id);
    assert_ne!(a.sync_id, c.sync_id);
}

#[test]
fn add_weekday_appends_and_marks_changed() {
    let mut task = Task::new("Task".to_string(), vec![Weekday::Mon]);
    task.add_weekday(Weekday::Fri);
    task.add_weekday(Weekday::Fri);
    assert_eq!(task.weekdays(), &vec![Weekday::Mon, Weekday::Fri, Weekday::Fri]);
}

#[test]
fn can_remove_is_false_for_an_undone_todo() {
    let todo = Todo::new_undated("Todo".to_string());
    assert!(!todo.can_remove());
}
