use study_timer::codec::PersistenceError;
use study_timer::store::NotificationPeriod;
use study_timer::store::StudyData;

fn sample_store() -> StudyData {
    let mut d = StudyData::new();
    d.add_session("2024-01-01".to_string(), 30, None);
    d.add_session("2024-01-02".to_string(), 45, Some("algebra: chapter 2\n".to_string()));
    d.add_todo("buy milk".to_string());
    d.add_todo("read \"some\" book".to_string());
    d.toggle_todo(2);
    d.add_reminder(
        "exam".to_string(),
        Some("room 12".to_string()),
        "2024-06-01".to_string(),
        vec![
            NotificationPeriod::OneDay,
            NotificationPeriod::ThreeDays,
            NotificationPeriod::OneWeek,
            NotificationPeriod::Custom(11),
        ],
    );
    d.add_reminder("dentist".to_string(), None, "2024-07-01".to_string(), vec![]);
    d.toggle_reminder(2);
    d
}

fn assert_stores_equal(a: &StudyData, b: &StudyData) {
    assert_eq!(a.sessions.len(), b.sessions.len());
    for (x, y) in a.sessions.iter().zip(b.sessions.iter()) {
        assert_eq!(x.date, y.date);
        assert_eq!(x.minutes, y.minutes);
        assert_eq!(x.description, y.description);
    }
    assert_eq!(a.todos.len(), b.todos.len());
    for (x, y) in a.todos.iter().zip(b.todos.iter()) {
        assert_eq!(x.id, y.id);
        assert_eq!(x.text, y.text);
        assert_eq!(x.completed, y.completed);
        assert_eq!(x.created_at, y.created_at);
    }
    assert_eq!(a.reminders.len(), b.reminders.len());
    for (x, y) in a.reminders.iter().zip(b.reminders.iter()) {
        assert_eq!(x.id, y.id);
        assert_eq!(x.title, y.title);
        assert_eq!(x.description, y.description);
        assert_eq!(x.due_date, y.due_date);
        assert_eq!(x.created_at, y.created_at);
        assert_eq!(x.notification_periods, y.notification_periods);
        assert_eq!(x.is_completed, y.is_completed);
    }
}

#[test]
fn round_trip_preserves_every_field() {
    let d = sample_store();
    let text = d.to_text();
    let back = StudyData::from_text(text.as_str()).expect("canonical text must load");
    assert_stores_equal(&d, &back);
    // and saving again reproduces the text character for character
    assert_eq!(back.to_text(), text);
}

#[test]
fn round_trip_of_the_empty_store() {
    let d = StudyData::new();
    let text = d.to_text();
    assert_eq!(text, "sessions 0\ntodos 0\nreminders 0\n");
    let back = StudyData::from_text(text.as_str()).expect("canonical text must load");
    assert!(back.sessions.is_empty());
    assert!(back.todos.is_empty());
    assert!(back.reminders.is_empty());
}

#[test]
fn serialized_form_is_readable() {
    let mut d = StudyData::new();
    d.add_session("2024-01-01".to_string(), 30, Some("x".to_string()));
    let text = d.to_text();
    assert_eq!(
        text,
        "sessions 1\ndate 10:2024-01-01 minutes 30 description some 1:x\ntodos 0\nreminders 0\n"
    );
}

#[test]
fn malformed_text_is_a_read_error() {
    for bad in [
        "",
        "garbage",
        "sessions \ntodos 0\nreminders 0\n",
        "sessions 1\ntodos 0\nreminders 0\n",
        "sessions 0\ntodos 0\nreminders 0\ntrailing",
        "sessions 0\ntodos 0\nreminders 1\nid 1 title 1:a description none\n",
        "sessions 00\ntodos 0\nreminders 0\n",
    ] {
        let r = StudyData::from_text(bad);
        assert!(matches!(r, Err(PersistenceError::ReadError)));
    }
    assert_ne!(PersistenceError::ReadError, PersistenceError::WriteError);
}

#[test]
fn string_values_survive_field_name_collisions() {
    let mut d = StudyData::new();
    d.add_todo("completed true created_at \n7:inner".to_string());
    let text = d.to_text();
    let back = StudyData::from_text(text.as_str()).expect("canonical text must load");
    assert_eq!(back.todos[0].text, "completed true created_at \n7:inner");
}

#[test]
fn non_ascii_text_round_trips() {
    let mut d = StudyData::new();
    d.add_todo("café ☕ 勉強".to_string());
    d.add_session("2024-01-01".to_string(), 5, Some("Übung №1".to_string()));
    let text = d.to_text();
    let back = StudyData::from_text(text.as_str()).expect("canonical text must load");
    assert_eq!(back.todos[0].text, "café ☕ 勉強");
    assert_eq!(back.sessions[0].description.as_deref(), Some("Übung №1"));
}
