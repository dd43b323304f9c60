use vstd::prelude::*;

use crate::text::{opt_view, owned};

verus! {

pub const STORAGE_FILE_NAME: &'static str = "todos.json";

pub const DEFAULT_LIST_ID: &'static str = "default";

pub const DEFAULT_GLOBAL_SHORTCUT: &'static str = "Shift+Space";

pub const DEFAULT_LIST_NAME: &'static str = "Mes tâches";

pub const NEW_LIST_NAME: &'static str = "Nouvelle liste";

#[derive(Debug, Clone, Copy, PartialEq, Eq, Structural, Default)]
pub enum SortOrder {
    Asc,
    #[default]
    Desc,
}

#[derive(Debug, Clone, Copy, PartialEq, Eq, Structural, Default)]
pub enum SortMode {
    Manual,
    #[default]
    Recent,
    Oldest,
    Title,
    DueDate,
}

#[derive(Debug, Clone, Copy, PartialEq, Eq, Structural)]
pub struct SoundSettings {
    pub enabled: bool,
    pub on_create: bool,
    pub on_complete: bool,
    pub on_delete: bool,
}

impl Default for SoundSettings {
    fn default() -> (r: Self)
        ensures
            r.enabled && r.on_create && r.on_complete && r.on_delete,
    {
        SoundSettings { enabled: true, on_create: true, on_complete: true, on_delete: true }
    }
}

#[derive(Debug, Clone, Copy, PartialEq, Eq, Structural, Default)]
pub enum ThemeMode {
    #[default]
    System,
    Light,
    Dark,
}

/// Task priority, ordered from `Unset` (lowest) to `Urgent` (highest).
#[derive(Debug, Clone, Copy, PartialEq, Eq, Structural, Default)]
pub enum TodoPriority {
    #[default]
    Unset,
    Low,
    Medium,
    High,
    Urgent,
}

#[derive(Debug, Clone)]
pub struct TodoLabel {
    pub id: String,
    pub name: String,
    pub color: String,
}

#[derive(Debug, Clone)]
pub struct TodoList {
    pub id: String,
    pub name: String,
    pub icon: Option<String>,
    pub created_at: i64,
}

#[derive(Debug, Clone)]
pub struct Todo {
    pub id: String,
    pub title: String,
    pub details: Option<String>,
    pub parent_id: Option<String>,
    pub list_id: Option<String>,
    pub starred: bool,
    pub priority: TodoPriority,
    pub label_id: Option<String>,
    pub sort_index: Option<i64>,
    pub created_at: i64,
    pub completed_at: Option<i64>,
    pub reminder_at: Option<i64>,
}

#[derive(Debug, Clone)]
pub struct Settings {
    pub sort_mode: SortMode,
    pub sort_order: SortOrder,
    pub auto_close_on_blur: bool,
    pub lists: Vec<TodoList>,
    pub active_list_id: String,
    pub global_shortcut: String,
    pub theme_mode: ThemeMode,
    pub labels: Vec<TodoLabel>,
    pub enable_autostart: bool,
    pub enable_sound_effects: bool,
    pub sound_settings: SoundSettings,
    pub language: String,
    /// The single list name of older files, read once and then dropped.
    pub legacy_list_name: Option<String>,
}

/// The persisted root: settings and the ordered task collection.
#[derive(Debug, Clone)]
pub struct AppData {
    pub settings: Settings,
    pub todos: Vec<Todo>,
}

/// An edit of a task's title, details and reminder.
#[derive(Debug, Clone)]
pub struct TodoPatchInput {
    pub id: String,
    pub title: String,
    pub details: Option<String>,
    pub reminder_at: Option<i64>,
}

/// What an update check found.
#[derive(Debug, Clone)]
pub struct UpdateInfo {
    pub available: bool,
    pub current_version: String,
    pub latest_version: Option<String>,
    pub release_date: Option<String>,
    pub release_notes: Option<String>,
}

pub struct LabelView {
    pub id: Seq<char>,
    pub name: Seq<char>,
    pub color: Seq<char>,
}

pub struct ListView {
    pub id: Seq<char>,
    pub name: Seq<char>,
    pub icon: Option<Seq<char>>,
    pub created_at: i64,
}

pub struct TodoView {
    pub id: Seq<char>,
    pub title: Seq<char>,
    pub details: Option<Seq<char>>,
    pub parent_id: Option<Seq<char>>,
    pub list_id: Option<Seq<char>>,
    pub starred: bool,
    pub priority: TodoPriority,
    pub label_id: Option<Seq<char>>,
    pub sort_index: Option<i64>,
    pub created_at: i64,
    pub completed_at: Option<i64>,
    pub reminder_at: Option<i64>,
}

pub struct SettingsView {
    pub sort_mode: SortMode,
    pub sort_order: SortOrder,
    pub auto_close_on_blur: bool,
    pub lists: Seq<ListView>,
    pub active_list_id: Seq<char>,
    pub global_shortcut: Seq<char>,
    pub theme_mode: ThemeMode,
    pub labels: Seq<LabelView>,
    pub enable_autostart: bool,
    pub enable_sound_effects: bool,
    pub sound_settings: SoundSettings,
    pub language: Seq<char>,
    pub legacy_list_name: Option<Seq<char>>,
}

pub struct AppDataView {
    pub settings: SettingsView,
    pub todos: Seq<TodoView>,
}

impl View for TodoLabel {
    type V = LabelView;

    open spec fn view(&self) -> LabelView {
        LabelView { id: self.id@, name: self.name@, color: self.color@ }
    }
}

impl View for TodoList {
    type V = ListView;

    open spec fn view(&self) -> ListView {
        ListView {
            id: self.id@,
            name: self.name@,
            icon: opt_view(&self.icon),
            created_at: self.created_at,
        }
    }
}

impl View for Todo {
    type V = TodoView;

    open spec fn view(&self) -> TodoView {
        TodoView {
            id: self.id@,
            title: self.title@,
            details: opt_view(&self.details),
            parent_id: opt_view(&self.parent_id),
            list_id: opt_view(&self.list_id),
            starred: self.starred,
            priority: self.priority,
            label_id: opt_view(&self.label_id),
            sort_index: self.sort_index,
            created_at: self.created_at,
            completed_at: self.completed_at,
            reminder_at: self.reminder_at,
        }
    }
}

pub open spec fn lists_view(v: Seq<TodoList>) -> Seq<ListView> {
    v.map_values(|l: TodoList| l@)
}

pub open spec fn labels_view(v: Seq<TodoLabel>) -> Seq<LabelView> {
    v.map_values(|l: TodoLabel| l@)
}

pub open spec fn todos_view(v: Seq<Todo>) -> Seq<TodoView> {
    v.map_values(|t: Todo| t@)
}

impl View for Settings {
    type V = SettingsView;

    open spec fn view(&self) -> SettingsView {
        SettingsView {
            sort_mode: self.sort_mode,
            sort_order: self.sort_order,
            auto_close_on_blur: self.auto_close_on_blur,
            lists: lists_view(self.lists@),
            active_list_id: self.active_list_id@,
            global_shortcut: self.global_shortcut@,
            theme_mode: self.theme_mode,
            labels: labels_view(self.labels@),
            enable_autostart: self.enable_autostart,
            enable_sound_effects: self.enable_sound_effects,
            sound_settings: self.sound_settings,
            language: self.language@,
            legacy_list_name: opt_view(&self.legacy_list_name),
        }
    }
}

impl View for AppData {
    type V = AppDataView;

    open spec fn view(&self) -> AppDataView {
        AppDataView { settings: self.settings@, todos: todos_view(self.todos@) }
    }
}

/// The sole default list.
pub open spec fn default_list_spec(created_at: i64) -> ListView {
    ListView {
        id: DEFAULT_LIST_ID@,
        name: DEFAULT_LIST_NAME@,
        icon: None,
        created_at: created_at,
    }
}

/// The sole default label.
pub open spec fn default_label_spec() -> LabelView {
    LabelView { id: "general"@, name: "Général"@, color: "slate"@ }
}

pub open spec fn default_settings_spec() -> SettingsView {
    SettingsView {
        sort_mode: SortMode::Recent,
        sort_order: SortOrder::Desc,
        auto_close_on_blur: true,
        lists: seq![default_list_spec(0)],
        active_list_id: DEFAULT_LIST_ID@,
        global_shortcut: DEFAULT_GLOBAL_SHORTCUT@,
        theme_mode: ThemeMode::System,
        labels: seq![default_label_spec()],
        enable_autostart: true,
        enable_sound_effects: true,
        sound_settings: SoundSettings {
            enabled: true,
            on_create: true,
            on_complete: true,
            on_delete: true,
        },
        language: "auto"@,
        legacy_list_name: None,
    }
}

pub open spec fn default_data_spec() -> AppDataView {
    AppDataView { settings: default_settings_spec(), todos: Seq::empty() }
}

pub fn default_auto_close_on_blur() -> (r: bool)
    ensures
        r,
{
    true
}

pub fn default_list_name() -> (r: String)
    ensures
        r@ == DEFAULT_LIST_NAME@,
{
    owned(DEFAULT_LIST_NAME)
}

pub fn default_active_list_id() -> (r: String)
    ensures
        r@ == DEFAULT_LIST_ID@,
{
    owned(DEFAULT_LIST_ID)
}

/// A list with the default id and name.
pub fn default_list(created_at: i64) -> (r: TodoList)
    ensures
        r@ == default_list_spec(created_at),
{
    TodoList {
        id: default_active_list_id(),
        name: default_list_name(),
        icon: None,
        created_at,
    }
}

pub fn default_lists() -> (r: Vec<TodoList>)
    ensures
        lists_view(r@) == seq![default_list_spec(0)],
{
    let r = vec![default_list(0)];
    assert(lists_view(r@) =~= seq![default_list_spec(0)]);
    r
}

pub fn default_global_shortcut() -> (r: String)
    ensures
        r@ == DEFAULT_GLOBAL_SHORTCUT@,
{
    owned(DEFAULT_GLOBAL_SHORTCUT)
}

pub fn default_label() -> (r: TodoLabel)
    ensures
        r@ == default_label_spec(),
{
    TodoLabel { id: owned("general"), name: owned("Général"), color: owned("slate") }
}

pub fn default_labels() -> (r: Vec<TodoLabel>)
    ensures
        labels_view(r@) == seq![default_label_spec()],
{
    let r = vec![default_label()];
    assert(labels_view(r@) =~= seq![default_label_spec()]);
    r
}

pub fn default_enable_autostart() -> (r: bool)
    ensures
        r,
{
    true
}

pub fn default_enable_sound_effects() -> (r: bool)
    ensures
        r,
{
    true
}

pub fn default_true() -> (r: bool)
    ensures
        r,
{
    true
}

pub fn default_sound_settings() -> (r: SoundSettings)
    ensures
        r.enabled && r.on_create && r.on_complete && r.on_delete,
{
    SoundSettings::default()
}

pub fn default_language() -> (r: String)
    ensures
        r@ == "auto"@,
{
    owned("auto")
}

impl Default for Settings {
    fn default() -> (r: Self)
        ensures
            r@ == default_settings_spec(),
    {
        Settings {
            sort_mode: SortMode::Recent,
            sort_order: SortOrder::Desc,
            auto_close_on_blur: default_auto_close_on_blur(),
            lists: default_lists(),
            active_list_id: default_active_list_id(),
            global_shortcut: default_global_shortcut(),
            theme_mode: ThemeMode::System,
            labels: default_labels(),
            enable_autostart: default_enable_autostart(),
            enable_sound_effects: default_enable_sound_effects(),
            sound_settings: default_sound_settings(),
            language: default_language(),
            legacy_list_name: None,
        }
    }
}

impl Default for AppData {
    fn default() -> (r: Self)
        ensures
            r@ == default_data_spec(),
    {
        let r = AppData { settings: Settings::default(), todos: Vec::new() };
        assert(r@.todos =~= Seq::<TodoView>::empty());
        r
    }
}

} // verus!
