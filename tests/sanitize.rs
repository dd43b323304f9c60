use todo_overlay::model::{AppData, Settings, Todo, TodoLabel, TodoList, TodoPriority};
use todo_overlay::sanitize::{
    fallback_shortcut, normalize_data_at, normalize_label_color, normalize_shortcut, sanitize_settings,
    sanitize_settings_at,
};
use todo_overlay::storage::loaded_data;
use todo_overlay::text::{normalize_name, normalize_optional_id, normalize_optional_text};

fn label(id: &str, name: &str, color: &str) -> TodoLabel {
    TodoLabel { id: id.to_string(), name: name.to_string(), color: color.to_string() }
}

fn todo(id: &str, list: Option<&str>, label: Option<&str>) -> Todo {
    Todo {
        id: id.to_string(),
        title: "t".to_string(),
        details: None,
        parent_id: None,
        list_id: list.map(|s| s.to_string()),
        starred: false,
        priority: TodoPriority::Unset,
        label_id: label.map(|s| s.to_string()),
        sort_index: None,
        created_at: 0,
        completed_at: None,
        reminder_at: None,
    }
}

fn messy_settings() -> Settings {
    let mut s = Settings::default();
    s.lists = vec![
        TodoList { id: "a".to_string(), name: "  ".to_string(), icon: None, created_at: 1 },
        TodoList { id: "b".to_string(), name: "\t".to_string(), icon: None, created_at: 2 },
    ];
    s.active_list_id = "missing".to_string();
    s.labels = vec![
        label(" x ", "", " BLUE "),
        label("x", "Home", "pink"),
        label("", " Work ", "Violet"),
    ];
    s.global_shortcut = "   ".to_string();
    s.legacy_list_name = Some("Old".to_string());
    s
}

#[test]
fn sanitize_repairs_names_ids_colors_and_shortcut() {
    let s = sanitize_settings_at(messy_settings(), 1234);
    assert_eq!(s.lists[0].name, "Mes tâches");
    assert_eq!(s.lists[1].name, "Nouvelle liste");
    assert_eq!(s.active_list_id, "a");
    assert_eq!(s.labels[0].id, "x");
    assert_eq!(s.labels[0].name, "Label 1");
    assert_eq!(s.labels[0].color, "blue");
    assert_eq!(s.labels[1].id, "label-2-1234");
    assert_eq!(s.labels[1].color, "slate");
    assert_eq!(s.labels[2].id, "label-3");
    assert_eq!(s.labels[2].name, "Work");
    assert_eq!(s.labels[2].color, "violet");
    assert_eq!(s.global_shortcut, "Shift+Space");
    assert_eq!(s.legacy_list_name, None);
}

#[test]
fn sanitize_is_idempotent_on_an_example() {
    let once = sanitize_settings_at(messy_settings(), 1234);
    let twice = sanitize_settings_at(once.clone(), 99);
    assert_eq!(format!("{:?}", once), format!("{:?}", twice));
    let now_once = sanitize_settings(messy_settings());
    let now_twice = sanitize_settings(now_once.clone());
    assert_eq!(format!("{:?}", now_once), format!("{:?}", now_twice));
}

#[test]
fn empty_collections_get_defaults() {
    let mut s = Settings::default();
    s.lists.clear();
    s.labels.clear();
    s.legacy_list_name = Some("  Courses ".to_string());
    let r = sanitize_settings_at(s, 7);
    assert_eq!(r.lists.len(), 1);
    assert_eq!(r.lists[0].id, "default");
    assert_eq!(r.lists[0].name, "Mes tâches");
    assert_eq!(r.lists[0].created_at, 7);
    assert_eq!(r.active_list_id, "default");
    assert_eq!(r.labels.len(), 1);
    assert_eq!(r.labels[0].id, "general");
    assert_eq!(r.labels[0].name, "Général");
    assert_eq!(r.labels[0].color, "slate");
}

#[test]
fn normalize_data_repairs_task_references() {
    let mut d = AppData::default();
    d.todos = vec![
        todo("1", Some("gone"), Some("general")),
        todo("2", None, Some("nope")),
        todo("3", Some("default"), None),
    ];
    let r = normalize_data_at(d, 0);
    assert_eq!(r.todos[0].list_id.as_deref(), Some("default"));
    assert_eq!(r.todos[0].label_id.as_deref(), Some("general"));
    assert_eq!(r.todos[1].list_id.as_deref(), Some("default"));
    assert_eq!(r.todos[1].label_id, None);
    assert_eq!(r.todos[2].list_id.as_deref(), Some("default"));
}

#[test]
fn load_of_corrupt_file_gives_defaults() {
    let r = loaded_data(None, 5);
    assert_eq!(format!("{:?}", r), format!("{:?}", AppData::default()));
}

#[test]
fn load_of_valid_data_gives_it_back() {
    let mut d = AppData::default();
    d.todos = vec![todo("1", Some("default"), Some("general"))];
    let r = loaded_data(Some(d.clone()), 5);
    assert_eq!(format!("{:?}", r), format!("{:?}", d));
}

#[test]
fn shortcut_normalization() {
    assert_eq!(normalize_shortcut("  Ctrl+Shift+T "), "Ctrl+Shift+T");
    assert_eq!(normalize_shortcut(" \n "), "Shift+Space");
}

#[test]
fn label_color_normalization() {
    assert_eq!(normalize_label_color(" Rose "), "rose");
    assert_eq!(normalize_label_color("AMBER"), "amber");
    assert_eq!(normalize_label_color("teal"), "slate");
    assert_eq!(normalize_label_color(""), "slate");
}

#[test]
fn name_and_optional_text_normalization() {
    assert_eq!(normalize_name("  hi  ", "fb"), "hi");
    assert_eq!(normalize_name("\u{3000}", "fb"), "fb");
    assert_eq!(normalize_optional_text(Some("  a b ".to_string())), Some("a b".to_string()));
    assert_eq!(normalize_optional_text(Some(" ".to_string())), None);
    assert_eq!(normalize_optional_id(None), None);
}

#[test]
fn fresh_label_id_with_negative_time() {
    let mut s = Settings::default();
    s.labels = vec![label("a", "A", "blue"), label("a", "B", "blue")];
    let r = sanitize_settings_at(s, -5);
    assert_eq!(r.labels[1].id, "label-2--5");
}

#[test]
fn shortcut_fallback_is_the_default_unless_the_default_failed() {
    assert_eq!(fallback_shortcut(&"Ctrl+K".to_string()), Some("Shift+Space".to_string()));
    assert_eq!(fallback_shortcut(&"Shift+Space".to_string()), None);
}

#[test]
fn load_names_created_list_after_legacy_name() {
    let mut d = AppData::default();
    d.settings.lists.clear();
    d.settings.legacy_list_name = Some("  Courses ".to_string());
    let r = normalize_data_at(d, 9);
    assert_eq!(r.settings.lists.len(), 1);
    assert_eq!(r.settings.lists[0].id, "default");
    assert_eq!(r.settings.lists[0].name, "Courses");
    assert_eq!(r.settings.lists[0].created_at, 9);
    assert_eq!(r.settings.legacy_list_name, None);
}

#[test]
fn settings_without_lists_get_default_list_despite_legacy_name() {
    let mut s = Settings::default();
    s.lists.clear();
    s.legacy_list_name = Some("Work".to_string());
    let r = sanitize_settings(s);
    assert_eq!(r.lists.len(), 1);
    assert_eq!(r.lists[0].name, "Mes tâches");
}

#[test]
fn fresh_label_ids_never_collide() {
    let mut s = Settings::default();
    s.labels = vec![label("label-2-5", "A", "blue"), label("label-2-5", "B", "blue")];
    let r = sanitize_settings_at(s, 5);
    assert_eq!(r.labels[0].id, "label-2-5");
    assert_eq!(r.labels[1].id, "label-2-5-2");
    let again = sanitize_settings_at(r.clone(), 77);
    assert_eq!(format!("{:?}", again), format!("{:?}", r));
}
