use vstd::prelude::*;

use crate::clock::now_millis;
use crate::model::{
    default_active_list_id, default_list, default_list_spec, default_global_shortcut, default_label_spec, default_labels,
    default_list_name, labels_view,
    lists_view, todos_view, AppData, AppDataView, LabelView, ListView, Settings, SettingsView,
    Todo, TodoLabel, TodoList, TodoView, DEFAULT_GLOBAL_SHORTCUT, DEFAULT_LIST_ID,
    DEFAULT_LIST_NAME, NEW_LIST_NAME,
};
use crate::text::{
    ascii_lower, ascii_lower_spec, concat, contains_str, digits_spec, int_text, int_text_spec,
    is_trimmed, is_ws, lemma_trim_is_trimmed, lemma_trimmed_fixed, name_or, nat_text,
    make_unused, normalize_name, owned, strs_view, trim_spec, trim_str, unused_id,
};
use crate::text::lemma_unused_id;

verus! {

/// The fallback name of the list at `index`.
pub open spec fn list_fallback(index: int) -> Seq<char> {
    if index == 0 {
        DEFAULT_LIST_NAME@
    } else {
        NEW_LIST_NAME@
    }
}

/// The name a load gives the list it creates for a file without lists: the file's legacy
/// single list name, trimmed, else the default name.
pub open spec fn legacy_list_name_or_default(legacy: Option<Seq<char>>) -> Seq<char> {
    match legacy {
        Some(name) => name_or(name, DEFAULT_LIST_NAME@),
        None => DEFAULT_LIST_NAME@,
    }
}

/// The settings a load starts from: when the file holds no list, one default list named
/// after its legacy list name.
pub open spec fn seeded_settings(s: SettingsView, now: i64) -> SettingsView {
    if s.lists.len() == 0 {
        SettingsView {
            lists: seq![
                ListView {
                    id: DEFAULT_LIST_ID@,
                    name: legacy_list_name_or_default(s.legacy_list_name),
                    icon: None,
                    created_at: now,
                },
            ],
            ..s
        }
    } else {
        s
    }
}

/// The lists before names are normalized: the given ones, or the default list.
pub open spec fn base_lists(s: SettingsView, now: i64) -> Seq<ListView> {
    if s.lists.len() == 0 {
        seq![default_list_spec(now)]
    } else {
        s.lists
    }
}

pub open spec fn sanitized_lists(s: SettingsView, now: i64) -> Seq<ListView> {
    let b = base_lists(s, now);
    Seq::new(
        b.len(),
        |i: int|
            ListView {
                id: b[i].id,
                name: name_or(b[i].name, list_fallback(i)),
                icon: b[i].icon,
                created_at: b[i].created_at,
            },
    )
}

pub open spec fn has_list(lists: Seq<ListView>, id: Seq<char>) -> bool {
    exists|i: int| 0 <= i < lists.len() && lists[i].id == id
}

pub open spec fn has_label(labels: Seq<LabelView>, id: Seq<char>) -> bool {
    exists|i: int| 0 <= i < labels.len() && labels[i].id == id
}

/// The active list id kept when it names a list, else the first list's id.
pub open spec fn sanitized_active(lists: Seq<ListView>, active: Seq<char>) -> Seq<char> {
    if has_list(lists, active) {
        active
    } else {
        lists[0].id
    }
}

pub open spec fn label_fallback_id(i: int) -> Seq<char> {
    "label-"@ + digits_spec((i + 1) as nat)
}

pub open spec fn label_fresh_id(i: int, now: i64) -> Seq<char> {
    label_fallback_id(i) + "-"@ + int_text_spec(now as int)
}

/// What is appended to a fresh label id until no other label has it.
pub open spec fn label_suffix(i: int) -> Seq<char> {
    "-"@ + digits_spec((i + 1) as nat)
}

pub open spec fn label_fallback_name(i: int) -> Seq<char> {
    "Label "@ + digits_spec((i + 1) as nat)
}

pub open spec fn label_base_id(labels: Seq<LabelView>, i: int) -> Seq<char> {
    name_or(labels[i].id, label_fallback_id(i))
}

/// The ids given to the first `n` labels: each trimmed (or a positional fallback), and one
/// already taken by an earlier label replaced by a fresh id built from `now`, made unused by
/// appending the label's position as often as needed.
pub open spec fn label_ids(labels: Seq<LabelView>, n: nat, now: i64) -> Seq<Seq<char>>
    decreases n,
{
    if n == 0 {
        Seq::empty()
    } else {
        let prev = label_ids(labels, (n - 1) as nat, now);
        let base = label_base_id(labels, n - 1);
        prev.push(
            if prev.contains(base) {
                unused_id(prev, label_fresh_id(n - 1, now), label_suffix(n - 1))
            } else {
                base
            },
        )
    }
}

pub open spec fn is_palette_color(c: Seq<char>) -> bool {
    c == "slate"@ || c == "blue"@ || c == "green"@ || c == "amber"@ || c == "rose"@ || c
        == "violet"@
}

/// A color trimmed and lower-cased when that gives a palette color, else `slate`.
pub open spec fn color_spec(c: Seq<char>) -> Seq<char> {
    let n = ascii_lower_spec(trim_spec(c));
    if is_palette_color(n) {
        n
    } else {
        "slate"@
    }
}

pub open spec fn sanitized_labels(labels: Seq<LabelView>, now: i64) -> Seq<LabelView> {
    if labels.len() == 0 {
        seq![default_label_spec()]
    } else {
        let ids = label_ids(labels, labels.len(), now);
        Seq::new(
            labels.len(),
            |i: int|
                LabelView {
                    id: ids[i],
                    name: name_or(labels[i].name, label_fallback_name(i)),
                    color: color_spec(labels[i].color),
                },
        )
    }
}

/// The settings with every referential and naming violation repaired.
pub open spec fn sanitize_spec(s: SettingsView, now: i64) -> SettingsView {
    let lists = sanitized_lists(s, now);
    SettingsView {
        sort_mode: s.sort_mode,
        sort_order: s.sort_order,
        auto_close_on_blur: s.auto_close_on_blur,
        lists: lists,
        active_list_id: sanitized_active(lists, s.active_list_id),
        global_shortcut: name_or(s.global_shortcut, DEFAULT_GLOBAL_SHORTCUT@),
        theme_mode: s.theme_mode,
        labels: sanitized_labels(s.labels, now),
        enable_autostart: s.enable_autostart,
        enable_sound_effects: s.enable_sound_effects,
        sound_settings: s.sound_settings,
        language: s.language,
        legacy_list_name: None,
    }
}

/// A task whose list or label reference is dangling, repaired: an unknown list becomes the
/// active list, an unknown label becomes no label.
pub open spec fn repair_todo_spec(t: TodoView, s: SettingsView) -> TodoView {
    TodoView {
        list_id: match t.list_id {
            Some(l) => if has_list(s.lists, l) {
                Some(l)
            } else {
                Some(s.active_list_id)
            },
            None => Some(s.active_list_id),
        },
        label_id: match t.label_id {
            Some(l) => if has_label(s.labels, l) {
                Some(l)
            } else {
                None
            },
            None => None,
        },
        ..t
    }
}

pub open spec fn repair_todos_spec(todos: Seq<TodoView>, s: SettingsView) -> Seq<TodoView> {
    Seq::new(todos.len(), |i: int| repair_todo_spec(todos[i], s))
}

/// The whole snapshot repaired: settings seeded from the legacy list name and sanitized,
/// then every task's references checked against them.
pub open spec fn normalize_spec(d: AppDataView, now: i64) -> AppDataView {
    let s = sanitize_spec(seeded_settings(d.settings, now), now);
    AppDataView { settings: s, todos: repair_todos_spec(d.todos, s) }
}

/// Trims a shortcut, falling back to the default one when it is blank.
pub fn normalize_shortcut(value: &str) -> (r: String)
    ensures
        r@ == name_or(value@, DEFAULT_GLOBAL_SHORTCUT@),
{
    normalize_name(value, DEFAULT_GLOBAL_SHORTCUT)
}

/// Coerces a label color into the palette.
pub fn normalize_label_color(value: &str) -> (r: String)
    ensures
        r@ == color_spec(value@),
{
    let normalized = ascii_lower(trim_str(value));
    if normalized == owned("slate") || normalized == owned("blue") || normalized == owned("green")
        || normalized == owned("amber") || normalized == owned("rose") || normalized == owned(
        "violet",
    ) {
        normalized
    } else {
        owned("slate")
    }
}

/// Whether some list has the id `id`.
pub fn lists_contain(lists: &Vec<TodoList>, id: &String) -> (r: bool)
    ensures
        r == has_list(lists_view(lists@), id@),
{
    let mut i: usize = 0;
    while i < lists.len()
        invariant
            0 <= i <= lists@.len(),
            forall|k: int| 0 <= k < i ==> lists@[k].id@ != id@,
        decreases lists@.len() - i,
    {
        if lists[i].id == *id {
            assert(lists_view(lists@)[i as int].id == id@);
            return true;
        }
        i += 1;
    }
    assert forall|k: int| 0 <= k < lists_view(lists@).len() implies lists_view(lists@)[k].id
        != id@ by {
        assert(lists@[k].id@ != id@);
    }
    false
}

/// Whether some label has the id `id`.
pub fn labels_contain(labels: &Vec<TodoLabel>, id: &String) -> (r: bool)
    ensures
        r == has_label(labels_view(labels@), id@),
{
    let mut i: usize = 0;
    while i < labels.len()
        invariant
            0 <= i <= labels@.len(),
            forall|k: int| 0 <= k < i ==> labels@[k].id@ != id@,
        decreases labels@.len() - i,
    {
        if labels[i].id == *id {
            assert(labels_view(labels@)[i as int].id == id@);
            return true;
        }
        i += 1;
    }
    assert forall|k: int| 0 <= k < labels_view(labels@).len() implies labels_view(labels@)[k].id
        != id@ by {
        assert(labels@[k].id@ != id@);
    }
    false
}

proof fn lemma_label_ids_len(labels: Seq<LabelView>, n: nat, now: i64)
    ensures
        label_ids(labels, n, now).len() == n,
    decreases n,
{
    if n > 0 {
        lemma_label_ids_len(labels, (n - 1) as nat, now);
    }
}

fn sanitize_labels(labels: &Vec<TodoLabel>, now: i64) -> (r: Vec<TodoLabel>)
    ensures
        labels_view(r@) == sanitized_labels(labels_view(labels@), now),
{
    if labels.len() == 0 {
        let r = default_labels();
        return r;
    }
    let ghost lv = labels_view(labels@);
    let n = labels.len();
    let mut used: Vec<String> = Vec::new();
    let mut out: Vec<TodoLabel> = Vec::new();
    let mut i: usize = 0;
    while i < n
        invariant
            n == labels@.len(),
            lv == labels_view(labels@),
            0 <= i <= n,
            strs_view(used@) == label_ids(lv, i as nat, now),
            out@.len() == i,
            forall|k: int|
                0 <= k < i ==> #[trigger] out@[k]@ == (LabelView {
                    id: label_ids(lv, i as nat, now)[k],
                    name: name_or(lv[k].name, label_fallback_name(k)),
                    color: color_spec(lv[k].color),
                }),
        decreases n - i,
    {
        let number = nat_text(i as u64 + 1);
        let fallback_id = concat("label-", number.as_str());
        let mut id = normalize_name(labels[i].id.as_str(), fallback_id.as_str());
        let ghost prev = label_ids(lv, i as nat, now);
        proof {
            lemma_label_ids_len(lv, i as nat, now);
        }
        assert(label_base_id(lv, i as int) == id@);
        if contains_str(&used, &id) {
            let with_dash = concat(fallback_id.as_str(), "-");
            let stamp = int_text(now);
            let candidate = concat(with_dash.as_str(), stamp.as_str());
            let suffix = concat("-", number.as_str());
            proof {
                reveal_strlit("-");
            }
            id = make_unused(&used, candidate, suffix.as_str());
        }
        let ghost next = label_ids(lv, (i + 1) as nat, now);
        assert(next == prev.push(id@));
        let fallback_name = concat("Label ", number.as_str());
        let label = TodoLabel {
            id: id.clone(),
            name: normalize_name(labels[i].name.as_str(), fallback_name.as_str()),
            color: normalize_label_color(labels[i].color.as_str()),
        };
        used.push(id);
        out.push(label);
        proof {
            assert(strs_view(used@) =~= next);
            assert forall|k: int| 0 <= k < i + 1 implies #[trigger] out@[k]@ == (LabelView {
                id: next[k],
                name: name_or(lv[k].name, label_fallback_name(k)),
                color: color_spec(lv[k].color),
            }) by {
                if k < i {
                    assert(next[k] == prev[k]);
                }
            }
        }
        i += 1;
    }
    assert(labels_view(out@) =~= sanitized_labels(lv, now));
    out
}

/// Repairs settings as of the time `now`: an empty list collection gets a default list,
/// blank list names get positional fallbacks, the active list id is made to name a list,
/// labels are normalized and their ids made distinct, and the shortcut is trimmed.
pub fn sanitize_settings_at(settings: Settings, now: i64) -> (r: Settings)
    ensures
        r@ == sanitize_spec(settings@, now),
        settings@.lists.len() == 0 ==> r@.lists == seq![default_list_spec(now)],
        distinct_label_ids(r@.labels),
{
    proof {
        lemma_sanitized_labels_distinct(settings@.labels, now);
        if settings@.lists.len() == 0 {
            lemma_list_fallbacks(0);
            lemma_name_or_fixed(DEFAULT_LIST_NAME@, list_fallback(0));
            assert(sanitized_lists(settings@, now) =~= seq![default_list_spec(now)]);
        }
    }
    let ghost s = settings@;
    let mut settings = settings;
    if settings.lists.len() == 0 {
        settings.lists.push(default_list(now));
        assert(lists_view(settings.lists@) =~= base_lists(s, now));
    } else {
        assert(lists_view(settings.lists@) =~= base_lists(s, now));
    }
    let ghost b = base_lists(s, now);
    let n = settings.lists.len();
    let mut i: usize = 0;
    while i < n
        invariant
            n == settings.lists@.len(),
            b == base_lists(s, now),
            b.len() == n,
            settings.active_list_id@ == s.active_list_id,
            labels_view(settings.labels@) == s.labels,
            settings.global_shortcut@ == s.global_shortcut,
            settings.sort_mode == s.sort_mode,
            settings.sort_order == s.sort_order,
            settings.auto_close_on_blur == s.auto_close_on_blur,
            settings.theme_mode == s.theme_mode,
            settings.enable_autostart == s.enable_autostart,
            settings.enable_sound_effects == s.enable_sound_effects,
            settings.sound_settings == s.sound_settings,
            settings.language@ == s.language,
            0 <= i <= n,
            forall|k: int|
                0 <= k < n ==> #[trigger] settings.lists@[k]@ == (if k < i {
                    sanitized_lists(s, now)[k]
                } else {
                    b[k]
                }),
        decreases n - i,
    {
        let fallback = if i == 0 {
            DEFAULT_LIST_NAME
        } else {
            NEW_LIST_NAME
        };
        assert(fallback@ == list_fallback(i as int));
        let name = normalize_name(settings.lists[i].name.as_str(), fallback);
        let ghost before = settings.lists@;
        settings.lists[i].name = name;
        proof {
            assert forall|k: int| 0 <= k < n implies #[trigger] settings.lists@[k]@ == (if k < i
                + 1 {
                sanitized_lists(s, now)[k]
            } else {
                b[k]
            }) by {
                if k != i {
                    assert(settings.lists@[k] == before[k]);
                } else {
                    assert(before[k]@ == b[k]);
                    assert(settings.lists@[k].name@ == name_or(b[k].name, list_fallback(k)));
                }
            }
        }
        i += 1;
    }
    assert(lists_view(settings.lists@) =~= sanitized_lists(s, now));
    if !lists_contain(&settings.lists, &settings.active_list_id) {
        assert(lists_view(settings.lists@)[0].id == settings.lists@[0].id@);
        settings.active_list_id = settings.lists[0].id.clone();
    }
    assert(settings.active_list_id@ == sanitized_active(sanitized_lists(s, now), s.active_list_id));
    settings.labels = sanitize_labels(&settings.labels, now);
    settings.global_shortcut = normalize_shortcut(settings.global_shortcut.as_str());
    settings.legacy_list_name = None;
    assert(settings@.lists == sanitize_spec(s, now).lists);
    assert(settings@.labels == sanitize_spec(s, now).labels);
    assert(settings@.global_shortcut == sanitize_spec(s, now).global_shortcut);
    settings
}

/// Repairs settings as of the current time.
pub fn sanitize_settings(settings: Settings) -> (r: Settings)
    ensures
        exists|now: i64| r@ == sanitize_spec(settings@, now),
        settings@.lists.len() == 0 ==> exists|now: i64| r@.lists == seq![default_list_spec(now)],
        distinct_label_ids(r@.labels),
{
    let now = now_millis();
    sanitize_settings_at(settings, now)
}

/// Points every dangling list reference at the active list and drops every dangling label
/// reference.
pub fn repair_todo_references(todos: &mut Vec<Todo>, settings: &Settings)
    ensures
        todos_view(final(todos)@) == repair_todos_spec(todos_view(old(todos)@), settings@),
{
    let ghost start = todos_view(todos@);
    let n = todos.len();
    let mut i: usize = 0;
    while i < n
        invariant
            n == todos@.len(),
            start.len() == n,
            0 <= i <= n,
            forall|k: int|
                0 <= k < n ==> #[trigger] todos@[k]@ == (if k < i {
                    repair_todo_spec(start[k], settings@)
                } else {
                    start[k]
                }),
        decreases n - i,
    {
        let ghost before = todos@;
        assert(before[i as int]@ == start[i as int]);
        let list_ok = match &todos[i].list_id {
            Some(l) => lists_contain(&settings.lists, l),
            None => false,
        };
        if !list_ok {
            todos[i].list_id = Some(settings.active_list_id.clone());
        }
        let label_ok = match &todos[i].label_id {
            Some(l) => labels_contain(&settings.labels, l),
            None => false,
        };
        if !label_ok {
            todos[i].label_id = None;
        }
        proof {
            assert(todos@[i as int]@ == repair_todo_spec(start[i as int], settings@));
            assert forall|k: int| 0 <= k < n implies #[trigger] todos@[k]@ == (if k < i + 1 {
                repair_todo_spec(start[k], settings@)
            } else {
                start[k]
            }) by {
                if k != i {
                    assert(todos@[k] == before[k]);
                }
            }
        }
        i += 1;
    }
    assert(todos_view(todos@) =~= repair_todos_spec(start, settings@));
}

/// Repairs a whole snapshot as of the time `now`.
pub fn normalize_data_at(data: AppData, now: i64) -> (r: AppData)
    ensures
        r@ == normalize_spec(data@, now),
        valid_data(r@),
{
    proof {
        lemma_normalize_valid(data@, now);
    }
    let mut data = data;
    if data.settings.lists.len() == 0 {
        let ghost s = data.settings@;
        let name = match &data.settings.legacy_list_name {
            Some(legacy) => normalize_name(legacy.as_str(), DEFAULT_LIST_NAME),
            None => default_list_name(),
        };
        data.settings.lists.push(
            TodoList { id: default_active_list_id(), name: name, icon: None, created_at: now },
        );
        assert(data.settings@ == seeded_settings(s, now)) by {
            assert(lists_view(data.settings.lists@) =~= seeded_settings(s, now).lists);
        }
    }
    let settings = sanitize_settings_at(data.settings, now);
    repair_todo_references(&mut data.todos, &settings);
    AppData { settings, todos: data.todos }
}

/// Repairs a whole snapshot as of the current time.
pub fn normalize_data(data: AppData) -> (r: AppData)
    ensures
        exists|now: i64| r@ == normalize_spec(data@, now),
        valid_data(r@),
{
    let now = now_millis();
    normalize_data_at(data, now)
}


proof fn lemma_name_or_trimmed(v: Seq<char>, fallback: Seq<char>)
    requires
        is_trimmed(fallback),
        fallback.len() > 0,
    ensures
        is_trimmed(name_or(v, fallback)),
        name_or(v, fallback).len() > 0,
{
    lemma_trim_is_trimmed(v);
}

proof fn lemma_name_or_fixed(v: Seq<char>, fallback: Seq<char>)
    requires
        is_trimmed(v),
        v.len() > 0,
    ensures
        name_or(v, fallback) == v,
{
    lemma_trimmed_fixed(v);
}

proof fn lemma_digits(n: nat)
    ensures
        digits_spec(n).len() > 0,
        !is_ws(digits_spec(n).last()),
    decreases n,
{
    if n >= 10 {
        lemma_digits(n / 10);
    }
}

proof fn lemma_prefixed_number_trimmed(prefix: Seq<char>, n: nat)
    requires
        prefix.len() > 0,
        !is_ws(prefix[0]),
    ensures
        is_trimmed(prefix + digits_spec(n)),
        (prefix + digits_spec(n)).len() > 0,
{
    lemma_digits(n);
    let s = prefix + digits_spec(n);
    assert(s[0] == prefix[0]);
    assert(s.last() == digits_spec(n).last());
}

proof fn lemma_label_id_forms(i: int, now: i64)
    requires
        0 <= i,
    ensures
        is_trimmed(label_fallback_id(i)),
        label_fallback_id(i).len() > 0,
        is_trimmed(label_fresh_id(i, now)),
        label_fresh_id(i, now).len() > 0,
        is_trimmed(label_fallback_name(i)),
        label_fallback_name(i).len() > 0,
{
    reveal_strlit("label-");
    reveal_strlit("Label ");
    reveal_strlit("-");
    lemma_prefixed_number_trimmed("label-"@, (i + 1) as nat);
    lemma_prefixed_number_trimmed("Label "@, (i + 1) as nat);
    let n = now as int;
    let tail = int_text_spec(n);
    lemma_digits(if n < 0 {
        (-n) as nat
    } else {
        n as nat
    });
    let f = label_fresh_id(i, now);
    assert(tail.len() > 0 && !is_ws(tail.last()));
    assert(f.last() == tail.last());
    assert(f[0] == label_fallback_id(i)[0]);
}

proof fn lemma_palette_fixed(c: Seq<char>)
    requires
        is_palette_color(c),
    ensures
        color_spec(c) == c,
{
    reveal_strlit("slate");
    reveal_strlit("blue");
    reveal_strlit("green");
    reveal_strlit("amber");
    reveal_strlit("rose");
    reveal_strlit("violet");
    lemma_trimmed_fixed(c);
    assert(ascii_lower_spec(c) =~= c);
}

proof fn lemma_color_in_palette(c: Seq<char>)
    ensures
        is_palette_color(color_spec(c)),
{
}

proof fn lemma_list_fallbacks(i: int)
    ensures
        is_trimmed(list_fallback(i)),
        list_fallback(i).len() > 0,
        is_trimmed(DEFAULT_LIST_NAME@),
        DEFAULT_LIST_NAME@.len() > 0,
        is_trimmed(DEFAULT_GLOBAL_SHORTCUT@),
        DEFAULT_GLOBAL_SHORTCUT@.len() > 0,
{
    reveal_strlit("Mes tâches");
    reveal_strlit("Nouvelle liste");
    reveal_strlit("Shift+Space");
}

/// Whether the ids of `labels` are pairwise distinct.
pub open spec fn distinct_label_ids(labels: Seq<LabelView>) -> bool {
    forall|i: int, j: int|
        0 <= i < labels.len() && 0 <= j < labels.len() && i != j ==> labels[i].id != labels[j].id
}

proof fn lemma_label_ids_kept(labels: Seq<LabelView>, n: nat, now: i64)
    requires
        n <= labels.len(),
        distinct_label_ids(labels),
        forall|i: int| 0 <= i < labels.len() ==> #[trigger] label_base_id(labels, i) == labels[i].id,
    ensures
        label_ids(labels, n, now) == labels.take(n as int).map_values(|l: LabelView| l.id),
    decreases n,
{
    if n > 0 {
        lemma_label_ids_kept(labels, (n - 1) as nat, now);
        let prev = label_ids(labels, (n - 1) as nat, now);
        let k = n - 1;
        assert(label_base_id(labels, k) == labels[k].id);
        if prev.contains(labels[k].id) {
            let j = choose|j: int| 0 <= j < prev.len() && prev[j] == labels[k].id;
            assert(prev[j] == labels[j].id);
        }
        assert(label_ids(labels, n, now) =~= labels.take(n as int).map_values(
            |l: LabelView| l.id,
        ));
    }
}

proof fn lemma_sanitized_labels_shape(labels: Seq<LabelView>, now: i64)
    ensures
        forall|i: int|
            0 <= i < sanitized_labels(labels, now).len() ==> {
                let l = #[trigger] sanitized_labels(labels, now)[i];
                &&& is_trimmed(l.id)
                &&& l.id.len() > 0
                &&& is_trimmed(l.name)
                &&& l.name.len() > 0
                &&& is_palette_color(l.color)
            },
        sanitized_labels(labels, now).len() > 0,
{
    reveal_strlit("general");
    reveal_strlit("Général");
    reveal_strlit("slate");
    let out = sanitized_labels(labels, now);
    if labels.len() > 0 {
        lemma_label_ids_len(labels, labels.len(), now);
        assert forall|i: int| 0 <= i < out.len() implies {
            let l = #[trigger] out[i];
            &&& is_trimmed(l.id)
            &&& l.id.len() > 0
            &&& is_trimmed(l.name)
            &&& l.name.len() > 0
            &&& is_palette_color(l.color)
        } by {
            lemma_label_id_forms(i, now);
            lemma_name_or_trimmed(labels[i].name, label_fallback_name(i));
            lemma_label_ids_shape(labels, labels.len(), now, i);
            lemma_color_in_palette(labels[i].color);
        }
    }
}

proof fn lemma_label_ids_shape(labels: Seq<LabelView>, n: nat, now: i64, i: int)
    requires
        0 <= i < n,
    ensures
        is_trimmed(label_ids(labels, n, now)[i]),
        label_ids(labels, n, now)[i].len() > 0,
    decreases n,
{
    lemma_label_ids_len(labels, n, now);
    if i < n - 1 {
        lemma_label_ids_shape(labels, (n - 1) as nat, now, i);
        lemma_label_ids_len(labels, (n - 1) as nat, now);
    } else {
        lemma_label_id_forms(i, now);
        lemma_name_or_trimmed(labels[i].id, label_fallback_id(i));
        let prev = label_ids(labels, (n - 1) as nat, now);
        let fresh = label_fresh_id(i, now);
        lemma_label_suffix(i);
        lemma_unused_id(prev, fresh, label_suffix(i));
        let u = unused_id(prev, fresh, label_suffix(i));
        assert(!is_ws(u.last()));
    }
}

/// The ids given to labels are pairwise distinct.
proof fn lemma_label_ids_distinct(labels: Seq<LabelView>, n: nat, now: i64)
    ensures
        label_ids(labels, n, now).no_duplicates(),
    decreases n,
{
    if n > 0 {
        let prev = label_ids(labels, (n - 1) as nat, now);
        lemma_label_ids_distinct(labels, (n - 1) as nat, now);
        lemma_label_suffix(n - 1);
        let base = label_base_id(labels, n - 1);
        let x = if prev.contains(base) {
            lemma_unused_id(prev, label_fresh_id(n - 1, now), label_suffix(n - 1));
            unused_id(prev, label_fresh_id(n - 1, now), label_suffix(n - 1))
        } else {
            base
        };
        assert(!prev.contains(x));
        let all = label_ids(labels, n, now);
        assert(all == prev.push(x));
        assert forall|a: int, b: int| 0 <= a < all.len() && 0 <= b < all.len() && a != b implies all[a]
            != all[b] by {
            if a == prev.len() {
                assert(prev.contains(all[b]));
            } else if b == prev.len() {
                assert(prev.contains(all[a]));
            }
        }
    }
}

proof fn lemma_label_suffix(i: int)
    requires
        0 <= i,
    ensures
        label_suffix(i).len() > 0,
        !is_ws(label_suffix(i).last()),
{
    reveal_strlit("-");
    lemma_digits((i + 1) as nat);
    assert(label_suffix(i).last() == digits_spec((i + 1) as nat).last());
}

/// Sanitized labels have pairwise distinct ids.
pub proof fn lemma_sanitized_labels_distinct(labels: Seq<LabelView>, now: i64)
    ensures
        distinct_label_ids(sanitized_labels(labels, now)),
{
    if labels.len() > 0 {
        let out = sanitized_labels(labels, now);
        let ids = label_ids(labels, labels.len(), now);
        lemma_label_ids_distinct(labels, labels.len(), now);
        lemma_label_ids_len(labels, labels.len(), now);
        assert forall|i: int, j: int|
            0 <= i < out.len() && 0 <= j < out.len() && i != j implies out[i].id != out[j].id by {
            assert(out[i].id == ids[i] && out[j].id == ids[j]);
        }
    }
}

/// Settings that break no naming or referential rule.
pub open spec fn valid_settings(s: SettingsView) -> bool {
    &&& s.lists.len() > 0
    &&& forall|i: int|
        0 <= i < s.lists.len() ==> is_trimmed(#[trigger] s.lists[i].name) && s.lists[i].name.len()
            > 0
    &&& has_list(s.lists, s.active_list_id)
    &&& s.labels.len() > 0
    &&& distinct_label_ids(s.labels)
    &&& forall|i: int|
        0 <= i < s.labels.len() ==> {
            let l = #[trigger] s.labels[i];
            &&& is_trimmed(l.id)
            &&& l.id.len() > 0
            &&& is_trimmed(l.name)
            &&& l.name.len() > 0
            &&& is_palette_color(l.color)
        }
    &&& is_trimmed(s.global_shortcut)
    &&& s.global_shortcut.len() > 0
    &&& s.legacy_list_name is None
}

/// A snapshot whose settings are valid and whose tasks all reference existing lists and
/// labels.
pub open spec fn valid_data(d: AppDataView) -> bool {
    &&& valid_settings(d.settings)
    &&& forall|k: int|
        0 <= k < d.todos.len() ==> {
            let t = #[trigger] d.todos[k];
            &&& t.list_id is Some
            &&& has_list(d.settings.lists, t.list_id->0)
            &&& (t.label_id is Some ==> has_label(d.settings.labels, t.label_id->0))
        }
}

proof fn lemma_valid_settings_fixed(s: SettingsView, now: i64)
    requires
        valid_settings(s),
    ensures
        sanitize_spec(s, now) == s,
{
    assert forall|i: int| 0 <= i < s.lists.len() implies #[trigger] sanitized_lists(s, now)[i]
        == s.lists[i] by {
        lemma_name_or_fixed(s.lists[i].name, list_fallback(i));
    }
    assert(sanitized_lists(s, now) =~= s.lists);
    lemma_name_or_fixed(s.global_shortcut, DEFAULT_GLOBAL_SHORTCUT@);
    let ls = s.labels;
    assert forall|i: int| 0 <= i < ls.len() implies #[trigger] label_base_id(ls, i)
        == ls[i].id by {
        lemma_name_or_fixed(ls[i].id, label_fallback_id(i));
    }
    lemma_label_ids_kept(ls, ls.len(), now);
    assert forall|i: int| 0 <= i < ls.len() implies #[trigger] sanitized_labels(ls, now)[i]
        == ls[i] by {
        lemma_name_or_fixed(ls[i].name, label_fallback_name(i));
        lemma_palette_fixed(ls[i].color);
        assert(label_ids(ls, ls.len(), now)[i] == ls.take(ls.len() as int)[i].id);
    }
    assert(sanitized_labels(ls, now) =~= ls);
}

/// Loading gives back what was stored: repairing a valid snapshot, at any time, changes
/// nothing.
pub proof fn lemma_valid_data_kept(d: AppDataView, now: i64)
    requires
        valid_data(d),
    ensures
        normalize_spec(d, now) == d,
{
    lemma_valid_settings_fixed(d.settings, now);
    assert forall|k: int| 0 <= k < d.todos.len() implies #[trigger] repair_todos_spec(
        d.todos,
        d.settings,
    )[k] == d.todos[k] by {
    }
    assert(repair_todos_spec(d.todos, d.settings) =~= d.todos);
}

/// Sanitizing yields valid settings.
pub proof fn lemma_sanitize_valid(s: SettingsView, now: i64)
    ensures
        valid_settings(sanitize_spec(s, now)),
{
    let r = sanitize_spec(s, now);
    let b = base_lists(s, now);
    lemma_sanitized_labels_distinct(s.labels, now);
    lemma_list_fallbacks(0);
    assert forall|i: int| 0 <= i < r.lists.len() implies is_trimmed(#[trigger] r.lists[i].name)
        && r.lists[i].name.len() > 0 by {
        lemma_list_fallbacks(i);
        lemma_name_or_trimmed(b[i].name, list_fallback(i));
    }
    if !has_list(r.lists, s.active_list_id) {
        assert(r.lists[0].id == r.active_list_id);
    }
    lemma_sanitized_labels_shape(s.labels, now);
    lemma_name_or_trimmed(s.global_shortcut, DEFAULT_GLOBAL_SHORTCUT@);
}

/// Sanitizing sanitized settings changes nothing, whatever the time of the second pass.
pub proof fn lemma_sanitize_idempotent(s: SettingsView, now1: i64, now2: i64)
    ensures
        sanitize_spec(sanitize_spec(s, now1), now2) == sanitize_spec(s, now1),
{
    lemma_sanitize_valid(s, now1);
    lemma_valid_settings_fixed(sanitize_spec(s, now1), now2);
}

/// Repairing yields a valid snapshot.
pub proof fn lemma_normalize_valid(d: AppDataView, now: i64)
    ensures
        valid_data(normalize_spec(d, now)),
{
    lemma_sanitize_valid(seeded_settings(d.settings, now), now);
}

/// Repairing a repaired snapshot changes nothing, whatever the time of the second pass.
pub proof fn lemma_normalize_idempotent(d: AppDataView, now1: i64, now2: i64)
    ensures
        normalize_spec(normalize_spec(d, now1), now2) == normalize_spec(d, now1),
{
    lemma_normalize_valid(d, now1);
    lemma_valid_data_kept(normalize_spec(d, now1), now2);
}

/// A task whose list does not exist is reassigned to the active list by a repair pass (a
/// settings update or a load).
pub proof fn lemma_dangling_list_reassigned(todos: Seq<TodoView>, s: SettingsView, k: int)
    requires
        0 <= k < todos.len(),
        todos[k].list_id is None || !has_list(s.lists, todos[k].list_id->0),
    ensures
        repair_todos_spec(todos, s)[k].list_id == Some(s.active_list_id),
{
}

/// After a load, every task references a list of the loaded settings, the active list
/// included.
pub proof fn lemma_load_reassigns_dangling(d: AppDataView, now: i64, k: int)
    requires
        0 <= k < d.todos.len(),
    ensures
        ({
            let r = normalize_spec(d, now);
            &&& has_list(r.settings.lists, r.settings.active_list_id)
            &&& r.todos[k].list_id is Some
            &&& has_list(r.settings.lists, r.todos[k].list_id->0)
            &&& (d.todos[k].list_id is None || !has_list(r.settings.lists, d.todos[k].list_id->0))
                ==> r.todos[k].list_id == Some(r.settings.active_list_id)
        }),
{
    let s = sanitize_spec(seeded_settings(d.settings, now), now);
    if !has_list(s.lists, d.settings.active_list_id) {
        assert(s.lists[0].id == s.active_list_id);
    }
}


/// The shortcut to try when registering `normalized` failed: the default one, unless the
/// default is what failed.
pub fn fallback_shortcut(normalized: &String) -> (r: Option<String>)
    ensures
        r is Some <==> normalized@ != DEFAULT_GLOBAL_SHORTCUT@,
        r is Some ==> r->0@ == DEFAULT_GLOBAL_SHORTCUT@,
{
    let default = default_global_shortcut();
    if *normalized == default {
        None
    } else {
        Some(default)
    }
}


/// A settings update repeated with the settings it produced changes nothing: the settings
/// sanitize to themselves, the shortcut is unchanged, and no task reference is repaired again.
pub proof fn lemma_update_settings_idempotent(
    todos: Seq<TodoView>,
    s: SettingsView,
    now1: i64,
    now2: i64,
)
    ensures
        ({
            let s1 = sanitize_spec(s, now1);
            let t1 = repair_todos_spec(todos, s1);
            &&& sanitize_spec(s1, now2) == s1
            &&& repair_todos_spec(t1, sanitize_spec(s1, now2)) == t1
        }),
{
    let s1 = sanitize_spec(s, now1);
    lemma_sanitize_valid(s, now1);
    lemma_valid_settings_fixed(s1, now2);
    let t1 = repair_todos_spec(todos, s1);
    assert(repair_todos_spec(t1, s1) =~= t1);
}

} // verus!
