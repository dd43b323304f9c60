use todo_overlay::engine::{set_todo_reminder, update_todo};
use todo_overlay::model::{AppData, Todo, TodoPatchInput, TodoPriority};
use todo_overlay::notified::NotifiedSet;
use todo_overlay::reminder::{
    active_todo_ids, check_due_reminders, forget_on_completion, forget_on_rearm, record_delivery,
};
use todo_overlay::storage::{lock_error, AppState};

fn todo(id: &str, reminder: Option<i64>, completed: Option<i64>) -> Todo {
    Todo {
        id: id.to_string(),
        title: format!("title {id}"),
        details: None,
        parent_id: None,
        list_id: Some("default".to_string()),
        starred: false,
        priority: TodoPriority::Unset,
        label_id: None,
        sort_index: None,
        created_at: 0,
        completed_at: completed,
        reminder_at: reminder,
    }
}

/// Runs one tick where every shown reminder succeeds; returns the ids shown.
fn tick(todos: &Vec<Todo>, now: i64, notified: &mut NotifiedSet) -> Vec<String> {
    let due = check_due_reminders(todos, now, notified);
    let mut shown = Vec::new();
    for r in due {
        if notified.contains(&r.id) {
            continue;
        }
        shown.push(r.id.clone());
        record_delivery(notified, r.id, true);
    }
    shown
}

#[test]
fn two_ticks_notify_once() {
    let todos = vec![todo("A", Some(100), None), todo("B", Some(500), None), todo("C", Some(50), Some(1))];
    let mut notified = NotifiedSet::new();
    assert_eq!(tick(&todos, 200, &mut notified), vec!["A".to_string()]);
    assert!(tick(&todos, 300, &mut notified).is_empty());
}

#[test]
fn editing_reminder_rearms_notification() {
    let mut data = AppData::default();
    data.todos = vec![todo("A", Some(100), None)];
    let mut notified = NotifiedSet::new();
    assert_eq!(tick(&data.todos, 200, &mut notified).len(), 1);
    let changed = set_todo_reminder(&mut data, &"A".to_string(), Some(150));
    forget_on_rearm(&mut notified, &"A".to_string(), changed);
    assert_eq!(tick(&data.todos, 200, &mut notified), vec!["A".to_string()]);
    let patch = TodoPatchInput { id: "A".to_string(), title: "t".to_string(), details: None, reminder_at: Some(160) };
    let changed = update_todo(&mut data, patch);
    forget_on_rearm(&mut notified, &"A".to_string(), changed);
    assert_eq!(tick(&data.todos, 200, &mut notified), vec!["A".to_string()]);
}

#[test]
fn failed_delivery_is_retried() {
    let todos = vec![todo("A", Some(100), None)];
    let mut notified = NotifiedSet::new();
    let due = check_due_reminders(&todos, 200, &mut notified);
    assert_eq!(due.len(), 1);
    assert_eq!(due[0].title, "title A");
    record_delivery(&mut notified, due[0].id.clone(), false);
    assert_eq!(check_due_reminders(&todos, 200, &mut notified).len(), 1);
}

#[test]
fn tick_prunes_completed_and_vanished_ids() {
    let todos = vec![todo("A", None, Some(3)), todo("B", None, None)];
    let mut notified = NotifiedSet::new();
    notified.insert("A".to_string());
    notified.insert("B".to_string());
    notified.insert("Z".to_string());
    check_due_reminders(&todos, 0, &mut notified);
    assert!(!notified.contains(&"A".to_string()));
    assert!(notified.contains(&"B".to_string()));
    assert!(!notified.contains(&"Z".to_string()));
    assert_eq!(active_todo_ids(&todos), vec!["B".to_string()]);
}

#[test]
fn notified_set_operations() {
    let mut n = NotifiedSet::new();
    n.insert("a".to_string());
    n.insert("a".to_string());
    n.insert("b".to_string());
    n.remove_all(&vec!["a".to_string()]);
    assert!(!n.contains(&"a".to_string()));
    assert!(n.contains(&"b".to_string()));
    n.retain_in(&vec![]);
    assert!(!n.contains(&"b".to_string()));
}

#[test]
fn state_snapshot_and_lock_error() {
    let state = AppState::new(AppData::default());
    let snap = state.snapshot().unwrap();
    assert_eq!(snap.settings.active_list_id, "default");
    assert_eq!(lock_error("todo"), "failed to lock todo state");
}

#[test]
fn completing_forgets_reminders_reopening_does_not() {
    let mut notified = NotifiedSet::new();
    notified.insert("A".to_string());
    notified.insert("B".to_string());
    let affected = vec!["A".to_string()];
    forget_on_completion(&mut notified, &affected, false);
    assert!(notified.contains(&"A".to_string()));
    forget_on_completion(&mut notified, &affected, true);
    assert!(!notified.contains(&"A".to_string()));
    assert!(notified.contains(&"B".to_string()));
    forget_on_rearm(&mut notified, &"B".to_string(), false);
    assert!(notified.contains(&"B".to_string()));
}
