use todo_overlay::engine::{
    clear_completed_in_list, clear_history, commit_settings, create_list, create_todo,
    delete_todo, move_todo_to_list, push_list, push_todo, rename_list, reorder_todos,
    set_active_list, set_list_icon, set_todo_completed, set_todo_completed_at, set_todo_label,
    set_todo_priority, set_todo_reminder, set_todo_starred, shortcut_changed, update_todo,
};
use todo_overlay::forest::{collect_subtree_ids, find_todo};
use todo_overlay::model::{AppData, Settings, Todo, TodoList, TodoPatchInput, TodoPriority};
use todo_overlay::sanitize::sanitize_settings_at;

fn todo(id: &str, list: &str, parent: Option<&str>) -> Todo {
    Todo {
        id: id.to_string(),
        title: format!("task {id}"),
        details: None,
        parent_id: parent.map(|p| p.to_string()),
        list_id: Some(list.to_string()),
        starred: false,
        priority: TodoPriority::Unset,
        label_id: None,
        sort_index: None,
        created_at: 1,
        completed_at: None,
        reminder_at: None,
    }
}

fn list(id: &str) -> TodoList {
    TodoList { id: id.to_string(), name: format!("list {id}"), icon: None, created_at: 0 }
}

fn data_with(todos: Vec<Todo>) -> AppData {
    let mut data = AppData::default();
    data.settings.lists.push(list("work"));
    data.todos = todos;
    data
}

fn get<'a>(data: &'a AppData, id: &str) -> &'a Todo {
    data.todos.iter().find(|t| t.id == id).unwrap()
}

fn sorted(mut ids: Vec<String>) -> Vec<String> {
    ids.sort();
    ids
}

#[test]
fn completing_root_completes_whole_subtree_with_one_timestamp() {
    let mut data = data_with(vec![
        todo("A", "default", None),
        todo("B", "default", Some("A")),
        todo("C", "default", Some("B")),
        todo("D", "default", None),
    ]);
    let ids = set_todo_completed_at(&mut data, &"A".to_string(), Some(42));
    assert_eq!(sorted(ids), vec!["A", "B", "C"]);
    for id in ["A", "B", "C"] {
        assert_eq!(get(&data, id).completed_at, Some(42));
    }
    assert_eq!(get(&data, "D").completed_at, None);
    let ids = set_todo_completed_at(&mut data, &"A".to_string(), None);
    assert_eq!(ids.len(), 3);
    for id in ["A", "B", "C"] {
        assert_eq!(get(&data, id).completed_at, None);
    }
}

#[test]
fn completing_now_uses_one_timestamp() {
    let mut data = data_with(vec![todo("A", "default", None), todo("B", "default", Some("A"))]);
    set_todo_completed(&mut data, &"A".to_string(), true);
    let a = get(&data, "A").completed_at;
    assert!(a.is_some());
    assert_eq!(get(&data, "B").completed_at, a);
    set_todo_completed(&mut data, &"B".to_string(), false);
    assert_eq!(get(&data, "B").completed_at, None);
    assert_eq!(get(&data, "A").completed_at, a);
}

#[test]
fn subtree_of_unknown_task_is_empty() {
    let data = data_with(vec![todo("A", "default", None), todo("B", "default", Some("ghost"))]);
    assert!(collect_subtree_ids(&data.todos, &"ghost".to_string()).is_empty());
}

#[test]
fn subtree_stays_inside_the_root_list() {
    let data = data_with(vec![todo("A", "default", None), todo("B", "work", Some("A"))]);
    assert_eq!(collect_subtree_ids(&data.todos, &"A".to_string()), vec!["A".to_string()]);
}

#[test]
fn subtree_with_cycle_terminates() {
    let data = data_with(vec![todo("A", "default", Some("B")), todo("B", "default", Some("A"))]);
    let ids = collect_subtree_ids(&data.todos, &"A".to_string());
    assert_eq!(sorted(ids), vec!["A", "B"]);
}

#[test]
fn reorder_is_partial() {
    let mut x = todo("X", "default", None);
    x.sort_index = Some(10);
    let mut y = todo("Y", "default", None);
    y.sort_index = Some(11);
    let mut z = todo("Z", "default", None);
    z.sort_index = Some(12);
    let mut w = todo("W", "default", None);
    w.sort_index = Some(13);
    let mut data = data_with(vec![x, y, z, w]);
    let order = vec!["Z".to_string(), "X".to_string()];
    reorder_todos(&mut data, &"default".to_string(), None, false, &order);
    let rz = get(&data, "Z").sort_index.unwrap();
    let rx = get(&data, "X").sort_index.unwrap();
    assert!(rz < rx);
    assert_eq!((rz, rx), (0, 1));
    assert_eq!(get(&data, "Y").sort_index, Some(11));
    assert_eq!(get(&data, "W").sort_index, Some(13));
}

#[test]
fn reorder_ignores_strangers_and_duplicates() {
    let mut data = data_with(vec![
        todo("X", "default", None),
        todo("Y", "default", None),
        todo("Q", "work", None),
    ]);
    let order = vec!["Y".to_string(), "Q".to_string(), "Y".to_string(), "X".to_string()];
    reorder_todos(&mut data, &"default".to_string(), None, false, &order);
    assert_eq!(get(&data, "Y").sort_index, Some(0));
    assert_eq!(get(&data, "X").sort_index, Some(1));
    assert_eq!(get(&data, "Q").sort_index, None);
}

#[test]
fn reorder_with_one_valid_id_changes_nothing() {
    let mut data = data_with(vec![todo("X", "default", None), todo("Y", "default", None)]);
    let order = vec!["X".to_string(), "nope".to_string()];
    reorder_todos(&mut data, &"default".to_string(), None, false, &order);
    assert_eq!(get(&data, "X").sort_index, None);
}

#[test]
fn delete_removes_every_descendant() {
    let mut data = data_with(vec![
        todo("A", "default", None),
        todo("B", "default", Some("A")),
        todo("C", "default", Some("B")),
        todo("D", "default", None),
    ]);
    let removed = delete_todo(&mut data, &"A".to_string());
    assert_eq!(sorted(removed), vec!["A", "B", "C"]);
    assert_eq!(data.todos.len(), 1);
    assert_eq!(data.todos[0].id, "D");
}

#[test]
fn delete_unknown_id_removes_only_that_id() {
    let mut data = data_with(vec![todo("A", "default", None)]);
    let removed = delete_todo(&mut data, &"zzz".to_string());
    assert_eq!(removed, vec!["zzz".to_string()]);
    assert_eq!(data.todos.len(), 1);
}

#[test]
fn move_relocates_subtree_and_roots_the_moved_task() {
    let mut r = todo("R", "work", None);
    r.sort_index = Some(4);
    let mut data = data_with(vec![
        todo("P", "default", None),
        todo("A", "default", Some("P")),
        todo("B", "default", Some("A")),
        todo("C", "default", Some("B")),
        r,
    ]);
    let moved = move_todo_to_list(&mut data, &"A".to_string(), " work ");
    assert_eq!(sorted(moved), vec!["A", "B", "C"]);
    let a = get(&data, "A");
    assert_eq!(a.list_id.as_deref(), Some("work"));
    assert_eq!(a.parent_id, None);
    assert_eq!(a.sort_index, Some(5));
    assert_eq!(get(&data, "B").parent_id.as_deref(), Some("A"));
    assert_eq!(get(&data, "C").list_id.as_deref(), Some("work"));
    assert_eq!(get(&data, "P").list_id.as_deref(), Some("default"));
}

#[test]
fn move_to_unknown_list_changes_nothing() {
    let mut data = data_with(vec![todo("A", "default", None)]);
    let moved = move_todo_to_list(&mut data, &"A".to_string(), "nowhere");
    assert!(moved.is_empty());
    assert_eq!(get(&data, "A").list_id.as_deref(), Some("default"));
}

#[test]
fn push_todo_sorts_after_open_siblings() {
    let mut a = todo("A", "default", None);
    a.sort_index = Some(3);
    let mut b = todo("B", "default", None);
    b.sort_index = Some(9);
    b.completed_at = Some(5);
    let mut data = data_with(vec![a, b]);
    let added = push_todo(
        &mut data,
        "N".to_string(),
        77,
        "  New task ",
        Some("   ".to_string()),
        Some(100),
        Some("missing".to_string()),
        Some("nowhere".to_string()),
    );
    assert!(added);
    let n = get(&data, "N");
    assert_eq!(n.title, "New task");
    assert_eq!(n.details, None);
    assert_eq!(n.parent_id, None);
    assert_eq!(n.list_id.as_deref(), Some("default"));
    assert_eq!(n.sort_index, Some(4));
    assert_eq!(n.created_at, 77);
    assert_eq!(n.reminder_at, Some(100));
}

#[test]
fn push_todo_child_without_siblings_has_no_index() {
    let mut data = data_with(vec![todo("A", "work", None)]);
    push_todo(&mut data, "N".to_string(), 1, "child", None, None, Some("A".to_string()), Some("work".to_string()));
    let n = get(&data, "N");
    assert_eq!(n.parent_id.as_deref(), Some("A"));
    assert_eq!(n.sort_index, None);
}

#[test]
fn push_todo_sort_index_saturates() {
    let mut a = todo("A", "default", None);
    a.sort_index = Some(i64::MAX);
    let mut data = data_with(vec![a]);
    push_todo(&mut data, "N".to_string(), 1, "t", None, None, None, None);
    assert_eq!(get(&data, "N").sort_index, Some(i64::MAX));
}

#[test]
fn blank_title_adds_nothing() {
    let mut data = data_with(vec![]);
    assert!(!create_todo(&mut data, "   ", None, None, None, None));
    assert!(data.todos.is_empty());
    assert!(create_todo(&mut data, "hello", None, None, None, None));
    assert_eq!(data.todos[0].id.len(), 36);
}

#[test]
fn update_todo_reports_reminder_change() {
    let mut data = data_with(vec![todo("A", "default", None)]);
    let patch = TodoPatchInput {
        id: "A".to_string(),
        title: " renamed ".to_string(),
        details: Some(" d ".to_string()),
        reminder_at: Some(5),
    };
    assert!(update_todo(&mut data, patch));
    let a = get(&data, "A");
    assert_eq!(a.title, "renamed");
    assert_eq!(a.details.as_deref(), Some("d"));
    let same = TodoPatchInput { id: "A".to_string(), title: "x".to_string(), details: None, reminder_at: Some(5) };
    assert!(!update_todo(&mut data, same));
    let blank = TodoPatchInput { id: "A".to_string(), title: " ".to_string(), details: None, reminder_at: None };
    assert!(!update_todo(&mut data, blank));
    assert_eq!(get(&data, "A").title, "x");
}

#[test]
fn single_field_updates() {
    let mut data = data_with(vec![todo("A", "default", None)]);
    let id = "A".to_string();
    set_todo_starred(&mut data, &id, true);
    set_todo_priority(&mut data, &id, TodoPriority::Urgent);
    set_todo_label(&mut data, &id, Some(" general ".to_string()));
    assert!(set_todo_reminder(&mut data, &id, Some(9)));
    assert!(!set_todo_reminder(&mut data, &id, Some(9)));
    let a = get(&data, "A");
    assert!(a.starred);
    assert_eq!(a.priority, TodoPriority::Urgent);
    assert_eq!(a.label_id.as_deref(), Some("general"));
    set_todo_label(&mut data, &id, Some("unknown".to_string()));
    assert_eq!(get(&data, "A").label_id, None);
}

#[test]
fn clearing_completed_tasks() {
    let mut a = todo("A", "default", None);
    a.completed_at = Some(1);
    let mut b = todo("B", "work", None);
    b.completed_at = Some(1);
    let mut data = data_with(vec![a, b, todo("C", "default", None)]);
    assert!(clear_completed_in_list(&mut data, "  ").is_empty());
    assert_eq!(data.todos.len(), 3);
    assert_eq!(clear_completed_in_list(&mut data, "default"), vec!["A".to_string()]);
    assert_eq!(data.todos.len(), 2);
    assert_eq!(clear_history(&mut data), vec!["B".to_string()]);
    assert_eq!(data.todos.len(), 1);
    assert_eq!(data.todos[0].id, "C");
}

#[test]
fn list_operations() {
    let mut data = data_with(vec![]);
    push_list(&mut data, "L".to_string(), 3, "   ");
    assert_eq!(data.settings.active_list_id, "L");
    assert_eq!(data.settings.lists.last().unwrap().name, "Nouvelle liste");
    rename_list(&mut data, &"L".to_string(), "  Groceries ");
    assert_eq!(data.settings.lists.last().unwrap().name, "Groceries");
    rename_list(&mut data, &"L".to_string(), "  ");
    assert_eq!(data.settings.lists.last().unwrap().name, "Groceries");
    set_list_icon(&mut data, &"L".to_string(), Some("cart".to_string()));
    assert_eq!(data.settings.lists.last().unwrap().icon.as_deref(), Some("cart"));
    set_active_list(&mut data, "nope".to_string());
    assert_eq!(data.settings.active_list_id, "L");
    set_active_list(&mut data, "work".to_string());
    assert_eq!(data.settings.active_list_id, "work");
    create_list(&mut data, "Other");
    assert_eq!(data.settings.active_list_id.len(), 36);
    assert_eq!(data.settings.lists.len(), 4);
}

#[test]
fn task_of_deleted_list_moves_to_active_list() {
    let mut t = todo("A", "work", None);
    t.label_id = Some("gone".to_string());
    let mut data = data_with(vec![t, todo("B", "default", None)]);
    let mut settings = data.settings.clone();
    settings.lists.retain(|l| l.id != "work");
    let sanitized = sanitize_settings_at(settings, 5);
    assert!(!shortcut_changed(&data, &sanitized));
    commit_settings(&mut data, sanitized);
    assert_eq!(get(&data, "A").list_id.as_deref(), Some("default"));
    assert_eq!(get(&data, "A").label_id, None);
    assert_eq!(get(&data, "B").list_id.as_deref(), Some("default"));
}

#[test]
fn shortcut_change_is_detected() {
    let data = data_with(vec![]);
    let mut settings: Settings = data.settings.clone();
    settings.global_shortcut = " Ctrl+K ".to_string();
    let sanitized = sanitize_settings_at(settings, 0);
    assert_eq!(sanitized.global_shortcut, "Ctrl+K");
    assert!(shortcut_changed(&data, &sanitized));
}

#[test]
fn find_todo_finds_first() {
    let data = data_with(vec![todo("A", "default", None), todo("A", "work", None)]);
    assert_eq!(find_todo(&data.todos, &"A".to_string()), Some(0));
    assert_eq!(find_todo(&data.todos, &"Z".to_string()), None);
}

#[test]
fn subtree_lists_each_id_once() {
    let data = data_with(vec![
        todo("A", "default", None),
        todo("B", "default", Some("A")),
        todo("B", "default", Some("A")),
    ]);
    assert_eq!(sorted(collect_subtree_ids(&data.todos, &"A".to_string())), vec!["A", "B"]);
}

#[test]
fn created_ids_are_new() {
    let mut data = data_with(vec![]);
    assert!(create_todo(&mut data, "one", None, None, None, None));
    assert!(create_todo(&mut data, "two", None, None, None, None));
    assert_ne!(data.todos[0].id, data.todos[1].id);
    let before: Vec<String> = data.settings.lists.iter().map(|l| l.id.clone()).collect();
    create_list(&mut data, "x");
    assert!(!before.contains(&data.settings.active_list_id));
}
