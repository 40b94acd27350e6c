use study_timer::store::NotificationPeriod;
use study_timer::store::StudyData;

#[test]
fn session_accumulates_positive_contributions() {
    let mut d = StudyData::new();
    d.add_session("2024-01-01".to_string(), 30, None);
    d.add_session("2024-01-01".to_string(), 15, None);
    assert_eq!(d.sessions.len(), 1);
    assert_eq!(d.sessions[0].date, "2024-01-01");
    assert_eq!(d.sessions[0].minutes, 45);
    assert!(d.sessions[0].description.is_none());
}

#[test]
fn non_positive_minutes_change_nothing() {
    let mut d = StudyData::new();
    d.add_session("2024-01-01".to_string(), 30, Some("math".to_string()));
    d.add_session("2024-01-01".to_string(), 0, Some("math".to_string()));
    d.add_session("2024-01-01".to_string(), -25, Some("math".to_string()));
    d.add_session("2024-02-02".to_string(), -1, None);
    assert_eq!(d.sessions.len(), 1);
    assert_eq!(d.sessions[0].minutes, 30);
    assert_eq!(d.get_total_minutes(), 30);
}

#[test]
fn description_presence_is_part_of_identity() {
    let mut d = StudyData::new();
    d.add_session("2024-01-01".to_string(), 30, Some("math".to_string()));
    d.add_session("2024-01-01".to_string(), 30, None);
    assert_eq!(d.sessions.len(), 2);
    d.add_session("2024-01-01".to_string(), 5, None);
    d.add_session("2024-01-01".to_string(), 7, Some("music".to_string()));
    assert_eq!(d.sessions.len(), 3);
    assert_eq!(d.sessions[0].minutes, 30);
    assert_eq!(d.sessions[1].minutes, 35);
    assert_eq!(d.sessions[2].minutes, 7);
}

#[test]
fn total_minutes_ignores_date_validity() {
    let mut d = StudyData::new();
    d.add_session("2024-01-01".to_string(), 30, None);
    d.add_session("not a date".to_string(), 12, None);
    assert_eq!(d.get_total_minutes(), 42);
}

#[test]
fn window_minutes_excludes_unparseable_and_far_dates() {
    let mut d = StudyData::new();
    d.add_session("2024-01-10".to_string(), 30, None);
    d.add_session("2024-01-01".to_string(), 100, None);
    d.add_session("not a date".to_string(), 12, None);
    let today = chrono::Datelike::num_days_from_ce(
        &chrono::NaiveDate::from_ymd_opt(2024, 1, 10).unwrap(),
    ) as i64;
    // "today only"
    assert_eq!(d.minutes_in_window(today, 1), 30);
    // nine days back: 2024-01-01 has difference 9, not < 9
    assert_eq!(d.minutes_in_window(today, 9), 30);
    // ten days back includes 2024-01-01; the unparseable date never counts
    assert_eq!(d.minutes_in_window(today, 10), 130);
    // an empty window
    assert_eq!(d.minutes_in_window(today, 0), 0);
}

#[test]
fn last_n_days_uses_the_real_clock() {
    let mut d = StudyData::new();
    d.add_session("2020-01-01".to_string(), 30, None);
    d.add_session("not a date".to_string(), 12, None);
    // A date far in the past is inside every sufficiently wide window,
    // whatever today is while the test runs; the unparseable one never is.
    assert_eq!(d.get_last_n_days_minutes(1_000_000), 30);
    assert_eq!(d.get_today_minutes(), 0);
}

#[test]
fn todo_ids_are_max_plus_one_recomputed() {
    let mut d = StudyData::new();
    assert_eq!(d.get_next_todo_id(), 1);
    d.add_todo("buy milk".to_string());
    assert_eq!(d.todos.len(), 1);
    assert_eq!(d.todos[0].id, 1);
    assert!(!d.todos[0].completed);
    assert_eq!(d.todos[0].text, "buy milk");
    d.add_todo("read book".to_string());
    assert_eq!(d.todos[1].id, 2);
    d.delete_todo(1);
    assert_eq!(d.get_next_todo_id(), 3);
    d.add_todo("x".to_string());
    assert_eq!(d.todos.len(), 2);
    assert_eq!(d.todos[1].id, 3);
}

#[test]
fn toggle_todo_flips_and_reports() {
    let mut d = StudyData::new();
    d.add_todo("a".to_string());
    assert_eq!(d.toggle_todo(1), true);
    assert!(d.todos[0].completed);
    assert_eq!(d.toggle_todo(1), false);
    assert!(!d.todos[0].completed);
    // an unknown id is a silent no-op reported as "now incomplete"
    assert_eq!(d.toggle_todo(77), false);
    assert_eq!(d.todos.len(), 1);
}

#[test]
fn update_todo_text_only_on_match() {
    let mut d = StudyData::new();
    d.add_todo("a".to_string());
    d.add_todo("b".to_string());
    d.update_todo_text(2, "beta".to_string());
    assert_eq!(d.todos[0].text, "a");
    assert_eq!(d.todos[1].text, "beta");
    d.update_todo_text(9, "nobody".to_string());
    assert_eq!(d.todos[0].text, "a");
    assert_eq!(d.todos[1].text, "beta");
}

#[test]
fn clear_todos_and_completed_todos() {
    let mut d = StudyData::new();
    d.add_todo("a".to_string());
    d.add_todo("b".to_string());
    d.add_todo("c".to_string());
    d.toggle_todo(2);
    d.clear_completed_todos();
    assert_eq!(d.todos.len(), 2);
    assert_eq!(d.todos[0].id, 1);
    assert_eq!(d.todos[1].id, 3);
    d.clear_todos();
    assert!(d.todos.is_empty());
    assert_eq!(d.get_next_todo_id(), 1);
}

#[test]
fn reminder_crud_mirrors_todos() {
    let mut d = StudyData::new();
    assert_eq!(d.get_next_reminder_id(), 1);
    d.add_reminder(
        "exam".to_string(),
        Some("bring a pen".to_string()),
        "2024-06-01".to_string(),
        vec![NotificationPeriod::OneDay, NotificationPeriod::Custom(4)],
    );
    assert_eq!(d.reminders.len(), 1);
    assert_eq!(d.reminders[0].id, 1);
    assert_eq!(d.reminders[0].title, "exam");
    assert!(!d.reminders[0].is_completed);
    assert_eq!(
        d.reminders[0].notification_periods,
        vec![NotificationPeriod::OneDay, NotificationPeriod::Custom(4)]
    );
    d.update_reminder(
        1,
        "final exam".to_string(),
        None,
        "2024-06-02".to_string(),
        vec![NotificationPeriod::OneWeek],
    );
    assert_eq!(d.reminders[0].title, "final exam");
    assert!(d.reminders[0].description.is_none());
    assert_eq!(d.reminders[0].due_date, "2024-06-02");
    assert_eq!(d.reminders[0].notification_periods, vec![NotificationPeriod::OneWeek]);
    // unknown id: silent no-op
    d.update_reminder(5, "ghost".to_string(), None, "x".to_string(), vec![]);
    assert_eq!(d.reminders.len(), 1);
    assert_eq!(d.reminders[0].title, "final exam");
    assert_eq!(d.toggle_reminder(1), true);
    assert_eq!(d.toggle_reminder(1), false);
    assert_eq!(d.toggle_reminder(42), false);
    d.delete_reminder(1);
    assert!(d.reminders.is_empty());
}

#[test]
fn clear_completed_reminders_keeps_the_incomplete_one() {
    let mut d = StudyData::new();
    d.add_reminder("one".to_string(), None, "2024-01-01".to_string(), vec![]);
    d.add_reminder("two".to_string(), None, "2024-01-02".to_string(), vec![]);
    d.add_reminder("three".to_string(), None, "2024-01-03".to_string(), vec![]);
    d.toggle_reminder(1);
    d.toggle_reminder(3);
    d.clear_completed_reminders();
    assert_eq!(d.reminders.len(), 1);
    assert_eq!(d.reminders[0].id, 2);
    assert_eq!(d.reminders[0].title, "two");
    d.clear_reminders();
    assert!(d.reminders.is_empty());
    assert_eq!(d.get_next_reminder_id(), 1);
}

#[test]
fn reminder_ids_are_independent_of_todo_ids() {
    let mut d = StudyData::new();
    d.add_todo("a".to_string());
    d.add_todo("b".to_string());
    assert_eq!(d.get_next_reminder_id(), 1);
    d.add_reminder("r".to_string(), None, "2024-01-01".to_string(), vec![]);
    assert_eq!(d.reminders[0].id, 1);
    assert_eq!(d.get_next_todo_id(), 3);
}
