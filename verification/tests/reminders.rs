use floral_notepaper::reminders::{create, delete, delete_for_note, list, mark_notified, take_due, Reminder};
use floral_notepaper::time::Timestamp;

fn now() -> Timestamp {
    let now = chrono::Utc::now();
    Timestamp { secs: now.timestamp(), nanos: now.timestamp_subsec_nanos() }
}

fn shift(t: Timestamp, secs: i64) -> Timestamp {
    Timestamp { secs: t.secs + secs, nanos: t.nanos }
}

fn listed(reminders: &Vec<Reminder>) -> Vec<Reminder> {
    list(reminders.iter().map(|r| r.copied()).collect())
}

#[test]
fn due_reminders_are_persisted_as_notified_and_only_fire_once() {
    let mut reminders: Vec<Reminder> = Vec::new();
    let now = now();
    let created = create(&mut reminders, "note-a".into(), "复习第三章".into(), shift(now, -60));

    let due = take_due(&reminders, now);
    assert_eq!(due.len(), 1);
    assert_eq!(due[0].id, created.id);
    assert!(!due[0].notified);
    let due_again = take_due(&reminders, now);
    assert_eq!(due_again.len(), 1);

    mark_notified(&mut reminders, &created.id);
    assert!(take_due(&reminders, now).is_empty());
    assert!(listed(&reminders)[0].notified);
}

#[test]
fn deleted_reminders_do_not_reappear() {
    let mut reminders: Vec<Reminder> = Vec::new();
    let reminder = create(&mut reminders, "note-a".into(), "明天整理笔记".into(), shift(now(), 86_400));
    delete(&mut reminders, &reminder.id);
    assert!(listed(&reminders).is_empty());
}

#[test]
fn deleting_a_note_removes_all_of_its_reminders() {
    let mut reminders: Vec<Reminder> = Vec::new();
    create(&mut reminders, "note-a".into(), "旧笔记提醒".into(), shift(now(), 86_400));
    let kept = create(&mut reminders, "note-b".into(), "保留的提醒".into(), shift(now(), 86_400));
    delete_for_note(&mut reminders, "note-a");
    let remaining = listed(&reminders);
    assert_eq!(remaining.len(), 1);
    assert_eq!(remaining[0].id, kept.id);
}

#[test]
fn reminders_are_listed_by_time() {
    let mut reminders: Vec<Reminder> = Vec::new();
    let t = now();
    create(&mut reminders, "n".into(), "later".into(), shift(t, 200));
    create(&mut reminders, "n".into(), "sooner".into(), shift(t, 100));
    let l = listed(&reminders);
    assert_eq!(l[0].message, "sooner");
    assert_eq!(l[1].message, "later");
}
