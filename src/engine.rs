use vstd::prelude::*;

use vstd::seq_lib::lemma_seq_contains_after_push;

use crate::clock::{fresh_id, now_millis};
use crate::forest::{
    is_first_with_id, lemma_first_unique,
    child_edge, closed_under_children, collect_subtree_ids, derived_from, find_todo, first_index,
    has_todo, root_list, subtree_of,
};
use crate::model::{
    lists_view, todos_view, AppData, AppDataView, ListView, Settings, SettingsView, Todo, TodoList,
    TodoPatchInput, TodoPriority, TodoView, NEW_LIST_NAME,
};
use crate::sanitize::{
    has_label, has_list, labels_contain, lists_contain, repair_todo_references, repair_todos_spec,
};
use crate::text::{
    contains_str, name_or, normalize_name, normalize_optional_id, normalize_optional_text, opt_is,
    opt_str_eq, opt_text_spec, opt_view, owned, strs_view, trim_spec, trim_str,
};
use crate::text::{lemma_unused_id, make_unused};

verus! {

/// The tasks with the first one carrying `id` replaced by `f` of it; unchanged when none does.
pub open spec fn update_first(
    todos: Seq<TodoView>,
    id: Seq<char>,
    f: spec_fn(TodoView) -> TodoView,
) -> Seq<TodoView> {
    if has_todo(todos, id) {
        let i = first_index(todos, id);
        todos.update(i, f(todos[i]))
    } else {
        todos
    }
}

/// The snapshot with its task collection replaced.
pub open spec fn with_todos(d: AppDataView, todos: Seq<TodoView>) -> AppDataView {
    AppDataView { settings: d.settings, todos: todos }
}

/// Marks the first task with the id `id` as starred or not.
pub fn set_todo_starred(data: &mut AppData, id: &String, starred: bool)
    ensures
        final(data)@ == with_todos(
            old(data)@,
            update_first(old(data)@.todos, id@, |t: TodoView| TodoView { starred: starred, ..t }),
        ),
{
    let ghost tv = data@.todos;
    if let Some(i) = find_todo(&data.todos, id) {
        data.todos[i].starred = starred;
        assert(data@.todos =~= tv.update(i as int, TodoView { starred: starred, ..tv[i as int] }));
    }
}

/// Sets the priority of the first task with the id `id`.
pub fn set_todo_priority(data: &mut AppData, id: &String, priority: TodoPriority)
    ensures
        final(data)@ == with_todos(
            old(data)@,
            update_first(
                old(data)@.todos,
                id@,
                |t: TodoView| TodoView { priority: priority, ..t },
            ),
        ),
{
    let ghost tv = data@.todos;
    if let Some(i) = find_todo(&data.todos, id) {
        data.todos[i].priority = priority;
        assert(data@.todos =~= tv.update(
            i as int,
            TodoView { priority: priority, ..tv[i as int] },
        ));
    }
}

/// The label a task gets from a requested one: the trimmed id when a label has it, else
/// none.
pub open spec fn valid_label_spec(d: AppDataView, label_id: Option<Seq<char>>) -> Option<
    Seq<char>,
> {
    match opt_text_spec(label_id) {
        Some(l) => if has_label(d.settings.labels, l) {
            Some(l)
        } else {
            None
        },
        None => None,
    }
}

/// Sets the label of the first task with the id `id`; an unknown label clears it.
pub fn set_todo_label(data: &mut AppData, id: &String, label_id: Option<String>)
    ensures
        final(data)@ == with_todos(
            old(data)@,
            update_first(
                old(data)@.todos,
                id@,
                |t: TodoView|
                    TodoView { label_id: valid_label_spec(old(data)@, opt_view(&label_id)), ..t },
            ),
        ),
{
    let ghost tv = data@.todos;
    let ghost lv = valid_label_spec(data@, opt_view(&label_id));
    let normalized = normalize_optional_id(label_id);
    let valid = match normalized {
        Some(candidate) => if labels_contain(&data.settings.labels, &candidate) {
            Some(candidate)
        } else {
            None
        },
        None => None,
    };
    assert(opt_view(&valid) == lv);
    if let Some(i) = find_todo(&data.todos, id) {
        data.todos[i].label_id = valid;
        assert(data@.todos =~= tv.update(i as int, TodoView { label_id: lv, ..tv[i as int] }));
    }
}

/// Sets the reminder of the first task with the id `id`; tells whether it changed, in which
/// case the task may be notified again.
pub fn set_todo_reminder(data: &mut AppData, id: &String, reminder_at: Option<i64>) -> (r: bool)
    ensures
        final(data)@ == with_todos(
            old(data)@,
            update_first(
                old(data)@.todos,
                id@,
                |t: TodoView| TodoView { reminder_at: reminder_at, ..t },
            ),
        ),
        r == (has_todo(old(data)@.todos, id@) && old(data)@.todos[first_index(
            old(data)@.todos,
            id@,
        )].reminder_at != reminder_at),
{
    let ghost tv = data@.todos;
    if let Some(i) = find_todo(&data.todos, id) {
        let changed = data.todos[i].reminder_at != reminder_at;
        data.todos[i].reminder_at = reminder_at;
        assert(data@.todos =~= tv.update(
            i as int,
            TodoView { reminder_at: reminder_at, ..tv[i as int] },
        ));
        changed
    } else {
        false
    }
}


/// The largest explicit sort index among the tasks that `sel` picks, if any has one.
pub open spec fn max_sort_index(todos: Seq<TodoView>, sel: spec_fn(TodoView) -> bool) -> Option<
    i64,
>
    decreases todos.len(),
{
    if todos.len() == 0 {
        None
    } else {
        let rest = max_sort_index(todos.drop_last(), sel);
        let t = todos.last();
        if sel(t) && t.sort_index is Some {
            let v = t.sort_index->0;
            match rest {
                Some(m) => Some(
                    if m >= v {
                        m
                    } else {
                        v
                    },
                ),
                None => Some(v),
            }
        } else {
            rest
        }
    }
}

/// One past `m`, saturating at the largest `i64`.
pub open spec fn next_sort_index(m: Option<i64>) -> Option<i64> {
    match m {
        Some(v) => Some(
            if v == i64::MAX {
                v
            } else {
                (v + 1) as i64
            },
        ),
        None => None,
    }
}

/// Open (not completed) tasks of `list` under `parent`.
pub open spec fn open_sibling(t: TodoView, list: Seq<char>, parent: Option<Seq<char>>) -> bool {
    t.list_id == Some(list) && t.parent_id == parent && t.completed_at is None
}

/// Root tasks of `list` whose completion state is `completed`.
pub open spec fn root_in_list(t: TodoView, list: Seq<char>, completed: bool) -> bool {
    t.list_id == Some(list) && t.parent_id is None && (t.completed_at is Some) == completed
}

pub open spec fn open_sibling_sel(list: Seq<char>, parent: Option<Seq<char>>) -> spec_fn(
    TodoView,
) -> bool {
    |t: TodoView| open_sibling(t, list, parent)
}

pub open spec fn root_sel(list: Seq<char>, completed: bool) -> spec_fn(TodoView) -> bool {
    |t: TodoView| root_in_list(t, list, completed)
}

fn next_index_after(m: Option<i64>) -> (r: Option<i64>)
    ensures
        r == next_sort_index(m),
{
    match m {
        Some(v) => Some(
            if v == i64::MAX {
                v
            } else {
                v + 1
            },
        ),
        None => None,
    }
}

fn max_open_sibling_index(todos: &Vec<Todo>, list: &String, parent: &Option<String>) -> (r:
    Option<i64>)
    ensures
        r == max_sort_index(todos_view(todos@), open_sibling_sel(list@, opt_view(parent))),
{
    let ghost tv = todos_view(todos@);
    let mut best: Option<i64> = None;
    let mut i: usize = 0;
    while i < todos.len()
        invariant
            tv == todos_view(todos@),
            0 <= i <= todos@.len(),
            best == max_sort_index(tv.take(i as int), open_sibling_sel(list@, opt_view(parent))),
        decreases todos@.len() - i,
    {
        let t = &todos[i];
        assert(tv.take(i + 1).drop_last() =~= tv.take(i as int));
        assert(tv.take(i + 1).last() == t@);
        let picked = opt_is(&t.list_id, list) && opt_str_eq(&t.parent_id, parent) && t.completed_at.is_none();
        assert(tv[i as int] == t@);
        assert(picked == open_sibling(tv[i as int], list@, opt_view(parent)));
        assert(picked == open_sibling_sel(list@, opt_view(parent))(tv[i as int]));
        let ghost prev = best;
        if picked {
            if let Some(v) = t.sort_index {
                best = match best {
                    Some(m) => Some(
                        if m >= v {
                            m
                        } else {
                            v
                        },
                    ),
                    None => Some(v),
                };
            }
        }
        assert(best == max_sort_index(tv.take(i + 1), open_sibling_sel(list@, opt_view(parent))));
        i += 1;
    }
    assert(tv.take(todos@.len() as int) =~= tv);
    best
}

fn max_root_index(todos: &Vec<Todo>, list: &String, completed: bool) -> (r: Option<i64>)
    ensures
        r == max_sort_index(todos_view(todos@), root_sel(list@, completed)),
{
    let ghost tv = todos_view(todos@);
    let mut best: Option<i64> = None;
    let mut i: usize = 0;
    while i < todos.len()
        invariant
            tv == todos_view(todos@),
            0 <= i <= todos@.len(),
            best == max_sort_index(tv.take(i as int), root_sel(list@, completed)),
        decreases todos@.len() - i,
    {
        let t = &todos[i];
        assert(tv.take(i + 1).drop_last() =~= tv.take(i as int));
        assert(tv.take(i + 1).last() == t@);
        let picked = opt_is(&t.list_id, list) && t.parent_id.is_none() && t.completed_at.is_some()
            == completed;
        assert(tv[i as int] == t@);
        assert(picked == root_in_list(tv[i as int], list@, completed));
        assert(picked == root_sel(list@, completed)(tv[i as int]));
        let ghost prev = best;
        if picked {
            if let Some(v) = t.sort_index {
                best = match best {
                    Some(m) => Some(
                        if m >= v {
                            m
                        } else {
                            v
                        },
                    ),
                    None => Some(v),
                };
            }
        }
        assert(best == max_sort_index(tv.take(i + 1), root_sel(list@, completed)));
        i += 1;
    }
    assert(tv.take(todos@.len() as int) =~= tv);
    best
}

/// The list a new task goes to: the requested one when it names a list, else the active one.
pub open spec fn target_list_spec(d: AppDataView, list_id: Option<Seq<char>>) -> Seq<char> {
    match opt_text_spec(list_id) {
        Some(l) => if has_list(d.settings.lists, l) {
            l
        } else {
            d.settings.active_list_id
        },
        None => d.settings.active_list_id,
    }
}

/// The parent a new task gets: the requested one when a task of the target list has that id.
pub open spec fn target_parent_spec(
    d: AppDataView,
    parent_id: Option<Seq<char>>,
    list: Seq<char>,
) -> Option<Seq<char>> {
    match opt_text_spec(parent_id) {
        Some(p) => if exists|i: int|
            0 <= i < d.todos.len() && d.todos[i].id == p && d.todos[i].list_id == Some(list) {
            Some(p)
        } else {
            None
        },
        None => None,
    }
}

/// The snapshot after adding a task titled `title` (which must not be blank) with the id
/// `new_id` at the time `now`.
pub open spec fn push_todo_spec(
    d: AppDataView,
    new_id: Seq<char>,
    now: i64,
    title: Seq<char>,
    details: Option<Seq<char>>,
    reminder_at: Option<i64>,
    parent_id: Option<Seq<char>>,
    list_id: Option<Seq<char>>,
) -> AppDataView {
    let list = target_list_spec(d, list_id);
    let parent = target_parent_spec(d, parent_id, list);
    with_todos(
        d,
        d.todos.push(
            TodoView {
                id: new_id,
                title: trim_spec(title),
                details: opt_text_spec(details),
                parent_id: parent,
                list_id: Some(list),
                starred: false,
                priority: TodoPriority::Unset,
                label_id: None,
                sort_index: next_sort_index(
                    max_sort_index(d.todos, open_sibling_sel(list, parent)),
                ),
                created_at: now,
                completed_at: None,
                reminder_at: reminder_at,
            },
        ),
    )
}

fn find_in_list(todos: &Vec<Todo>, id: &String, list: &String) -> (r: bool)
    ensures
        r == exists|i: int|
            0 <= i < todos@.len() && todos@[i]@.id == id@ && todos@[i]@.list_id == Some(list@),
{
    let mut i: usize = 0;
    while i < todos.len()
        invariant
            0 <= i <= todos@.len(),
            forall|k: int|
                0 <= k < i ==> !(todos@[k]@.id == id@ && todos@[k]@.list_id == Some(list@)),
        decreases todos@.len() - i,
    {
        if todos[i].id == *id && opt_is(&todos[i].list_id, list) {
            return true;
        }
        i += 1;
    }
    false
}

/// Adds a task with the given id and creation time. A blank title adds nothing. The task goes
/// to the requested list when it exists (else the active one), under the requested parent
/// when that task is in the same list (else at the root), and sorts after its open siblings.
pub fn push_todo(
    data: &mut AppData,
    new_id: String,
    now: i64,
    title: &str,
    details: Option<String>,
    reminder_at: Option<i64>,
    parent_id: Option<String>,
    list_id: Option<String>,
) -> (r: bool)
    ensures
        r == (trim_spec(title@).len() > 0),
        r ==> final(data)@ == push_todo_spec(
            old(data)@,
            new_id@,
            now,
            title@,
            opt_view(&details),
            reminder_at,
            opt_view(&parent_id),
            opt_view(&list_id),
        ),
        !r ==> final(data)@ == old(data)@,
{
    let trimmed_title = trim_str(title);
    if trimmed_title.unicode_len() == 0 {
        return false;
    }
    let ghost d = data@;
    let normalized_details = normalize_optional_text(details);
    let normalized_parent_id = normalize_optional_id(parent_id);
    let normalized_list_id = normalize_optional_id(list_id);
    let target_list_id = match normalized_list_id {
        Some(candidate) => if lists_contain(&data.settings.lists, &candidate) {
            candidate
        } else {
            data.settings.active_list_id.clone()
        },
        None => data.settings.active_list_id.clone(),
    };
    let validated_parent_id = match normalized_parent_id {
        Some(candidate) => if find_in_list(&data.todos, &candidate, &target_list_id) {
            Some(candidate)
        } else {
            None
        },
        None => None,
    };
    let ghost list = target_list_spec(d, opt_view(&list_id));
    assert(target_list_id@ == list);
    proof {
        let p = opt_text_spec(opt_view(&parent_id));
        if let Some(pp) = p {
            assert((exists|i: int|
                0 <= i < data.todos@.len() && data.todos@[i]@.id == pp && data.todos@[i]@.list_id
                    == Some(list)) == (exists|i: int|
                0 <= i < d.todos.len() && d.todos[i].id == pp && d.todos[i].list_id == Some(
                    list,
                ))) by {
                if exists|i: int|
                    0 <= i < data.todos@.len() && data.todos@[i]@.id == pp
                        && data.todos@[i]@.list_id == Some(list) {
                    let i = choose|i: int|
                        0 <= i < data.todos@.len() && data.todos@[i]@.id == pp
                            && data.todos@[i]@.list_id == Some(list);
                    assert(d.todos[i] == data.todos@[i]@);
                }
                if exists|i: int|
                    0 <= i < d.todos.len() && d.todos[i].id == pp && d.todos[i].list_id == Some(
                        list,
                    ) {
                    let i = choose|i: int|
                        0 <= i < d.todos.len() && d.todos[i].id == pp && d.todos[i].list_id
                            == Some(list);
                    assert(d.todos[i] == data.todos@[i]@);
                }
            }
        }
    }
    assert(opt_view(&validated_parent_id) == target_parent_spec(
        d,
        opt_view(&parent_id),
        list,
    ));
    let next_sort_index = next_index_after(
        max_open_sibling_index(&data.todos, &target_list_id, &validated_parent_id),
    );
    let todo = Todo {
        id: new_id,
        title: owned(trimmed_title),
        details: normalized_details,
        parent_id: validated_parent_id,
        list_id: Some(target_list_id),
        starred: false,
        priority: TodoPriority::Unset,
        label_id: None,
        sort_index: next_sort_index,
        created_at: now,
        completed_at: None,
        reminder_at,
    };
    data.todos.push(todo);
    assert(data@.todos =~= push_todo_spec(
        d,
        new_id@,
        now,
        title@,
        opt_view(&details),
        reminder_at,
        opt_view(&parent_id),
        opt_view(&list_id),
    ).todos);
    true
}

/// The ids of the tasks, in order.
fn todo_ids(todos: &Vec<Todo>) -> (r: Vec<String>)
    ensures
        r@.len() == todos@.len(),
        forall|k: int| 0 <= k < todos@.len() ==> #[trigger] r@[k]@ == todos@[k]@.id,
{
    let mut r: Vec<String> = Vec::new();
    let mut i: usize = 0;
    while i < todos.len()
        invariant
            0 <= i <= todos@.len(),
            r@.len() == i,
            forall|k: int| 0 <= k < i ==> #[trigger] r@[k]@ == todos@[k]@.id,
        decreases todos@.len() - i,
    {
        r.push(todos[i].id.clone());
        i += 1;
    }
    r
}

/// The ids of the lists, in order.
fn list_ids(lists: &Vec<TodoList>) -> (r: Vec<String>)
    ensures
        r@.len() == lists@.len(),
        forall|k: int| 0 <= k < lists@.len() ==> #[trigger] r@[k]@ == lists@[k]@.id,
{
    let mut r: Vec<String> = Vec::new();
    let mut i: usize = 0;
    while i < lists.len()
        invariant
            0 <= i <= lists@.len(),
            r@.len() == i,
            forall|k: int| 0 <= k < i ==> #[trigger] r@[k]@ == lists@[k]@.id,
        decreases lists@.len() - i,
    {
        r.push(lists[i].id.clone());
        i += 1;
    }
    r
}

/// Appended to a drawn id until no existing id equals it.
pub const ID_SUFFIX: &'static str = "-1";

/// Adds a task with a fresh random id, made distinct from every existing task id, created now
/// (see `push_todo`).
pub fn create_todo(
    data: &mut AppData,
    title: &str,
    details: Option<String>,
    reminder_at: Option<i64>,
    parent_id: Option<String>,
    list_id: Option<String>,
) -> (r: bool)
    ensures
        r == (trim_spec(title@).len() > 0),
        r ==> exists|new_id: Seq<char>, now: i64|
            new_id.len() >= 36 && !has_todo(old(data)@.todos, new_id) && final(data)@
                == push_todo_spec(
                old(data)@,
                new_id,
                now,
                title@,
                opt_view(&details),
                reminder_at,
                opt_view(&parent_id),
                opt_view(&list_id),
            ),
        !r ==> final(data)@ == old(data)@,
{
    let taken = todo_ids(&data.todos);
    proof {
        reveal_strlit("-1");
    }
    let drawn = fresh_id();
    let ghost drawn_view = drawn@;
    let new_id = make_unused(&taken, drawn, ID_SUFFIX);
    proof {
        let tv = strs_view(taken@);
        lemma_unused_id(tv, drawn_view, ID_SUFFIX@);
        assert forall|k: int| 0 <= k < data@.todos.len() implies data@.todos[k].id != new_id@ by {
            assert(tv[k] == data@.todos[k].id);
        }
    }
    let now = now_millis();
    push_todo(data, new_id, now, title, details, reminder_at, parent_id, list_id)
}


/// The tasks whose position is not flagged in `drop`.
pub open spec fn unflagged(todos: Seq<TodoView>, drop: Seq<bool>) -> Seq<TodoView>
    decreases todos.len(),
{
    if todos.len() == 0 {
        todos
    } else {
        let rest = unflagged(todos.drop_last(), drop);
        if drop[todos.len() - 1] {
            rest
        } else {
            rest.push(todos.last())
        }
    }
}

proof fn lemma_unflagged_filter(
    todos: Seq<TodoView>,
    drop: Seq<bool>,
    keep: spec_fn(TodoView) -> bool,
)
    requires
        drop.len() >= todos.len(),
        forall|k: int| 0 <= k < todos.len() ==> drop[k] == !keep(todos[k]),
    ensures
        unflagged(todos, drop) == todos.filter(keep),
    decreases todos.len(),
{
    reveal(Seq::filter);
    if todos.len() > 0 {
        lemma_unflagged_filter(todos.drop_last(), drop, keep);
    }
}

/// Removes the tasks whose position is flagged.
fn remove_flagged(todos: &mut Vec<Todo>, drop: &Vec<bool>)
    requires
        drop@.len() == old(todos)@.len(),
    ensures
        todos_view(final(todos)@) == unflagged(todos_view(old(todos)@), drop@),
{
    let ghost orig = todos_view(todos@);
    let n = todos.len();
    let mut rest: Vec<Todo> = Vec::new();
    std::mem::swap(todos, &mut rest);
    let mut i: usize = 0;
    while i < n
        invariant
            n == orig.len(),
            drop@.len() == n,
            0 <= i <= n,
            todos_view(rest@) == orig.subrange(i as int, n as int),
            todos_view(todos@) == unflagged(orig.take(i as int), drop@),
        decreases n - i,
    {
        let ghost before = todos_view(rest@);
        assert(rest@.len() == before.len());
        assert(rest@[0]@ == before[0]);
        let t = rest.remove(0);
        assert(t@ == orig[i as int]);
        assert(todos_view(rest@) =~= orig.subrange(i + 1, n as int)) by {
            assert(todos_view(rest@) =~= before.subrange(1, before.len() as int));
        }
        assert(orig.take(i + 1).drop_last() =~= orig.take(i as int));
        if !drop[i] {
            todos.push(t);
            assert(todos_view(todos@) =~= unflagged(orig.take(i as int), drop@).push(orig[i as int]));
        }
        i += 1;
    }
    assert(orig.take(n as int) =~= orig);
}

/// Keeps the tasks whose id is not in `ids`.
pub open spec fn without_ids(todos: Seq<TodoView>, ids: Seq<Seq<char>>) -> Seq<TodoView> {
    todos.filter(|t: TodoView| !ids.contains(t.id))
}

/// Removes every task whose id is in `ids`.
pub fn remove_todos_with_ids(todos: &mut Vec<Todo>, ids: &Vec<String>)
    ensures
        todos_view(final(todos)@) == without_ids(todos_view(old(todos)@), strs_view(ids@)),
{
    let ghost tv = todos_view(todos@);
    let mut drop: Vec<bool> = Vec::new();
    let mut i: usize = 0;
    while i < todos.len()
        invariant
            tv == todos_view(todos@),
            0 <= i <= todos@.len(),
            drop@.len() == i,
            forall|k: int| 0 <= k < i ==> drop@[k] == strs_view(ids@).contains(tv[k].id),
        decreases todos@.len() - i,
    {
        drop.push(contains_str(ids, &todos[i].id));
        i += 1;
    }
    proof {
        lemma_unflagged_filter(tv, drop@, |t: TodoView| !strs_view(ids@).contains(t.id));
    }
    remove_flagged(todos, &drop);
}

/// Whether a task is completed and belongs to `list`.
pub open spec fn completed_in(t: TodoView, list: Seq<char>) -> bool {
    t.completed_at is Some && t.list_id == Some(list)
}

pub open spec fn completed_in_sel(list: Seq<char>) -> spec_fn(TodoView) -> bool {
    |t: TodoView| completed_in(t, list)
}

pub open spec fn open_in_list_sel(list: Seq<char>) -> spec_fn(TodoView) -> bool {
    |t: TodoView| !completed_in(t, list)
}

pub open spec fn completed_sel() -> spec_fn(TodoView) -> bool {
    |t: TodoView| t.completed_at is Some
}

pub open spec fn open_sel() -> spec_fn(TodoView) -> bool {
    |t: TodoView| t.completed_at is None
}

pub proof fn lemma_ids_of_step(tv: Seq<TodoView>, i: int, sel: spec_fn(TodoView) -> bool)
    requires
        0 <= i < tv.len(),
    ensures
        ids_of(tv.take(i + 1), sel) == if sel(tv[i]) {
            ids_of(tv.take(i), sel).push(tv[i].id)
        } else {
            ids_of(tv.take(i), sel)
        },
{
    reveal(Seq::filter);
    let s1 = tv.take(i + 1);
    assert(s1.drop_last() =~= tv.take(i));
    assert(s1.last() == tv[i]);
    if sel(tv[i]) {
        assert(s1.filter(sel) == tv.take(i).filter(sel).push(tv[i]));
        assert(ids_of(s1, sel) =~= ids_of(tv.take(i), sel).push(tv[i].id));
    } else {
        assert(s1.filter(sel) == tv.take(i).filter(sel));
    }
}

/// The ids of the tasks that `sel` picks, in order.
pub open spec fn ids_of(todos: Seq<TodoView>, sel: spec_fn(TodoView) -> bool) -> Seq<Seq<char>> {
    todos.filter(sel).map_values(|t: TodoView| t.id)
}

/// Removes the completed tasks of `list_id` (trimmed; a blank one removes nothing) and returns
/// their ids.
pub fn clear_completed_in_list(data: &mut AppData, list_id: &str) -> (r: Vec<String>)
    ensures
        trim_spec(list_id@).len() == 0 ==> final(data)@ == old(data)@ && r@.len() == 0,
        trim_spec(list_id@).len() > 0 ==> {
            &&& final(data)@ == with_todos(
                old(data)@,
                old(data)@.todos.filter(open_in_list_sel(trim_spec(list_id@))),
            )
            &&& strs_view(r@) == ids_of(old(data)@.todos, completed_in_sel(trim_spec(list_id@)))
        },
{
    let target = trim_str(list_id);
    if target.unicode_len() == 0 {
        return Vec::new();
    }
    let target = owned(target);
    let ghost tv = data@.todos;
    let mut drop: Vec<bool> = Vec::new();
    let mut ids: Vec<String> = Vec::new();
    let mut i: usize = 0;
    assert(strs_view(ids@) =~= ids_of(tv.take(0), completed_in_sel(target@))) by {
        reveal(Seq::filter);
        assert(tv.take(0).len() == 0);
    }
    while i < data.todos.len()
        invariant
            tv == data@.todos,
            0 <= i <= tv.len(),
            drop@.len() == i,
            forall|k: int| 0 <= k < i ==> drop@[k] == completed_in(tv[k], target@),
            strs_view(ids@) == ids_of(tv.take(i as int), completed_in_sel(target@)),
        decreases tv.len() - i,
    {
        let t = &data.todos[i];
        let hit = t.completed_at.is_some() && opt_is(&t.list_id, &target);
        assert(tv[i as int] == t@);
        proof {
            lemma_ids_of_step(tv, i as int, completed_in_sel(target@));
        }
        if hit {
            ids.push(t.id.clone());
        }
        drop.push(hit);
        assert(strs_view(ids@) =~= ids_of(tv.take(i + 1), completed_in_sel(target@)));
        i += 1;
    }
    assert(tv.take(tv.len() as int) =~= tv);
    proof {
        lemma_unflagged_filter(tv, drop@, open_in_list_sel(target@));
    }
    remove_flagged(&mut data.todos, &drop);
    ids
}

/// Removes every completed task and returns their ids.
pub fn clear_history(data: &mut AppData) -> (r: Vec<String>)
    ensures
        final(data)@ == with_todos(old(data)@, old(data)@.todos.filter(open_sel())),
        strs_view(r@) == ids_of(old(data)@.todos, completed_sel()),
{
    let ghost tv = data@.todos;
    let mut drop: Vec<bool> = Vec::new();
    let mut ids: Vec<String> = Vec::new();
    let mut i: usize = 0;
    assert(strs_view(ids@) =~= ids_of(tv.take(0), completed_sel())) by {
        reveal(Seq::filter);
        assert(tv.take(0).len() == 0);
    }
    while i < data.todos.len()
        invariant
            tv == data@.todos,
            0 <= i <= tv.len(),
            drop@.len() == i,
            forall|k: int| 0 <= k < i ==> drop@[k] == (tv[k].completed_at is Some),
            strs_view(ids@) == ids_of(tv.take(i as int), completed_sel()),
        decreases tv.len() - i,
    {
        let t = &data.todos[i];
        let hit = t.completed_at.is_some();
        assert(tv[i as int] == t@);
        proof {
            lemma_ids_of_step(tv, i as int, completed_sel());
        }
        if hit {
            ids.push(t.id.clone());
        }
        drop.push(hit);
        assert(strs_view(ids@) =~= ids_of(tv.take(i + 1), completed_sel()));
        i += 1;
    }
    assert(tv.take(tv.len() as int) =~= tv);
    proof {
        lemma_unflagged_filter(tv, drop@, open_sel());
    }
    remove_flagged(&mut data.todos, &drop);
    ids
}

/// Deletes the task `id` with all its descendants and returns the removed ids; when no task
/// has that id, only that id is removed (which removes nothing).
pub fn delete_todo(data: &mut AppData, id: &String) -> (r: Vec<String>)
    ensures
        has_todo(old(data)@.todos, id@) ==> subtree_of(old(data)@.todos, id@, strs_view(r@)),
        !has_todo(old(data)@.todos, id@) ==> strs_view(r@) == seq![id@],
        final(data)@ == with_todos(old(data)@, without_ids(old(data)@.todos, strs_view(r@))),
{
    let mut ids = collect_subtree_ids(&data.todos, id);
    if ids.len() == 0 {
        ids.push(id.clone());
        assert(strs_view(ids@) =~= seq![id@]);
    }
    proof {
        if has_todo(data@.todos, id@) {
            assert(strs_view(ids@).len() > 0);
        }
    }
    remove_todos_with_ids(&mut data.todos, &ids);
    ids
}

/// The tasks with `completed_at` set to `value` on every task whose id is in `ids`.
pub open spec fn complete_ids(todos: Seq<TodoView>, ids: Seq<Seq<char>>, value: Option<i64>) -> Seq<
    TodoView,
> {
    Seq::new(
        todos.len(),
        |k: int|
            if ids.contains(todos[k].id) {
                TodoView { completed_at: value, ..todos[k] }
            } else {
                todos[k]
            },
    )
}

/// Gives the task `id` and all its descendants the same completion time `completed_at`
/// (`None` to reopen them) and returns their ids.
pub fn set_todo_completed_at(data: &mut AppData, id: &String, completed_at: Option<i64>) -> (r:
    Vec<String>)
    ensures
        subtree_of(old(data)@.todos, id@, strs_view(r@)),
        final(data)@ == with_todos(
            old(data)@,
            complete_ids(old(data)@.todos, strs_view(r@), completed_at),
        ),
{
    let ids = collect_subtree_ids(&data.todos, id);
    let ghost tv = data@.todos;
    let ghost iv = strs_view(ids@);
    let n = data.todos.len();
    let mut i: usize = 0;
    while i < n
        invariant
            n == tv.len(),
            n == data.todos@.len(),
            iv == strs_view(ids@),
            data@.settings == old(data)@.settings,
            tv == old(data)@.todos,
            0 <= i <= n,
            forall|k: int|
                0 <= k < n ==> #[trigger] data.todos@[k]@ == (if k < i {
                    complete_ids(tv, iv, completed_at)[k]
                } else {
                    tv[k]
                }),
        decreases n - i,
    {
        let ghost before = data.todos@;
        assert(before[i as int]@ == tv[i as int]);
        if contains_str(&ids, &data.todos[i].id) {
            data.todos[i].completed_at = completed_at;
        }
        proof {
            assert forall|k: int| 0 <= k < n implies #[trigger] data.todos@[k]@ == (if k < i + 1 {
                complete_ids(tv, iv, completed_at)[k]
            } else {
                tv[k]
            }) by {
                if k != i {
                    assert(data.todos@[k] == before[k]);
                }
            }
        }
        i += 1;
    }
    assert(data@.todos =~= complete_ids(tv, iv, completed_at));
    ids
}

/// Completes (at the current time) or reopens the task `id` with all its descendants and
/// returns their ids.
pub fn set_todo_completed(data: &mut AppData, id: &String, completed: bool) -> (r: Vec<String>)
    ensures
        subtree_of(old(data)@.todos, id@, strs_view(r@)),
        !completed ==> final(data)@ == with_todos(
            old(data)@,
            complete_ids(old(data)@.todos, strs_view(r@), None),
        ),
        completed ==> exists|now: i64|
            final(data)@ == with_todos(
                old(data)@,
                complete_ids(old(data)@.todos, strs_view(r@), Some(now)),
            ),
{
    let next = if completed {
        Some(now_millis())
    } else {
        None
    };
    set_todo_completed_at(data, id, next)
}


/// Replaces the title, details and reminder of the first task with the patch's id. A blank
/// title changes nothing. Tells whether the reminder changed, in which case the task may be
/// notified again.
pub fn update_todo(data: &mut AppData, payload: TodoPatchInput) -> (r: bool)
    ensures
        trim_spec(payload.title@).len() == 0 ==> final(data)@ == old(data)@ && !r,
        trim_spec(payload.title@).len() > 0 ==> {
            &&& final(data)@ == with_todos(
                old(data)@,
                update_first(
                    old(data)@.todos,
                    payload.id@,
                    |t: TodoView|
                        TodoView {
                            title: trim_spec(payload.title@),
                            details: opt_text_spec(opt_view(&payload.details)),
                            reminder_at: payload.reminder_at,
                            ..t
                        },
                ),
            )
            &&& r == (has_todo(old(data)@.todos, payload.id@) && old(data)@.todos[first_index(
                old(data)@.todos,
                payload.id@,
            )].reminder_at != payload.reminder_at)
        },
{
    let trimmed_title = trim_str(payload.title.as_str());
    if trimmed_title.unicode_len() == 0 {
        return false;
    }
    let ghost tv = data@.todos;
    let ghost dv = opt_text_spec(opt_view(&payload.details));
    let details = normalize_optional_text(payload.details);
    if let Some(i) = find_todo(&data.todos, &payload.id) {
        let changed = data.todos[i].reminder_at != payload.reminder_at;
        data.todos[i].title = owned(trimmed_title);
        data.todos[i].details = details;
        data.todos[i].reminder_at = payload.reminder_at;
        assert(data@.todos =~= tv.update(
            i as int,
            TodoView {
                title: trim_spec(payload.title@),
                details: dv,
                reminder_at: payload.reminder_at,
                ..tv[i as int]
            },
        ));
        changed
    } else {
        false
    }
}

/// The snapshot with its settings' lists and active list replaced.
pub open spec fn with_lists(d: AppDataView, lists: Seq<ListView>, active: Seq<char>) -> AppDataView {
    AppDataView {
        settings: SettingsView { lists: lists, active_list_id: active, ..d.settings },
        todos: d.todos,
    }
}

/// Adds a list with the given id and creation time, named `name` (trimmed, or a default name
/// when blank), and makes it the active list.
pub fn push_list(data: &mut AppData, list_id: String, now: i64, name: &str)
    ensures
        final(data)@ == with_lists(
            old(data)@,
            old(data)@.settings.lists.push(
                ListView {
                    id: list_id@,
                    name: name_or(name@, NEW_LIST_NAME@),
                    icon: None,
                    created_at: now,
                },
            ),
            list_id@,
        ),
{
    let ghost lv = data@.settings.lists;
    let list_name = normalize_name(name, NEW_LIST_NAME);
    let active = list_id.clone();
    data.settings.lists.push(TodoList { id: list_id, name: list_name, icon: None, created_at: now });
    data.settings.active_list_id = active;
    assert(data@.settings.lists =~= lv.push(
        ListView { id: list_id@, name: name_or(name@, NEW_LIST_NAME@), icon: None, created_at: now },
    ));
}

/// Adds a list with a fresh random id, created now (see `push_list`).
pub fn create_list(data: &mut AppData, name: &str)
    ensures
        exists|list_id: Seq<char>, now: i64|
            list_id.len() >= 36 && !has_list(old(data)@.settings.lists, list_id) && final(data)@
                == with_lists(
                old(data)@,
                old(data)@.settings.lists.push(
                    ListView {
                        id: list_id,
                        name: name_or(name@, NEW_LIST_NAME@),
                        icon: None,
                        created_at: now,
                    },
                ),
                list_id,
            ),
{
    let taken = list_ids(&data.settings.lists);
    proof {
        reveal_strlit("-1");
    }
    let drawn = fresh_id();
    let ghost drawn_view = drawn@;
    let list_id = make_unused(&taken, drawn, ID_SUFFIX);
    proof {
        let tv = strs_view(taken@);
        lemma_unused_id(tv, drawn_view, ID_SUFFIX@);
        assert forall|k: int| 0 <= k < data@.settings.lists.len() implies data@.settings.lists[k].id
            != list_id@ by {
            assert(tv[k] == data@.settings.lists[k].id);
        }
    }
    let now = now_millis();
    push_list(data, list_id, now, name);
}

/// `i` is the position of the first list with the id `id`.
pub open spec fn is_first_list(lists: Seq<ListView>, id: Seq<char>, i: int) -> bool {
    0 <= i < lists.len() && lists[i].id == id && forall|k: int| 0 <= k < i ==> lists[k].id != id
}

/// The lists with the first one carrying `id` replaced by `f` of it; unchanged when none does.
pub open spec fn update_first_list(
    lists: Seq<ListView>,
    id: Seq<char>,
    f: spec_fn(ListView) -> ListView,
) -> Seq<ListView> {
    if has_list(lists, id) {
        let i = choose|i: int| is_first_list(lists, id, i);
        lists.update(i, f(lists[i]))
    } else {
        lists
    }
}

fn find_list(lists: &Vec<TodoList>, id: &String) -> (r: Option<usize>)
    ensures
        match r {
            Some(i) => is_first_list(lists_view(lists@), id@, i as int) && (choose|j: int|
                is_first_list(lists_view(lists@), id@, j)) == i,
            None => !has_list(lists_view(lists@), id@),
        },
{
    let ghost lv = lists_view(lists@);
    let mut i: usize = 0;
    while i < lists.len()
        invariant
            lv == lists_view(lists@),
            0 <= i <= lists@.len(),
            forall|k: int| 0 <= k < i ==> lv[k].id != id@,
        decreases lists@.len() - i,
    {
        if lists[i].id == *id {
            proof {
                assert(is_first_list(lv, id@, i as int));
                let j = choose|j: int| is_first_list(lv, id@, j);
                if j < i {
                    assert(lv[j].id != id@);
                } else if i < j {
                    assert(lv[i as int].id != id@);
                }
            }
            return Some(i);
        }
        i += 1;
    }
    None
}

/// Renames the first list with the id `id` to `name` trimmed; a blank name changes nothing.
pub fn rename_list(data: &mut AppData, id: &String, name: &str)
    ensures
        trim_spec(name@).len() == 0 ==> final(data)@ == old(data)@,
        trim_spec(name@).len() > 0 ==> final(data)@ == with_lists(
            old(data)@,
            update_first_list(
                old(data)@.settings.lists,
                id@,
                |l: ListView| ListView { name: trim_spec(name@), ..l },
            ),
            old(data)@.settings.active_list_id,
        ),
{
    let trimmed = trim_str(name);
    if trimmed.unicode_len() == 0 {
        return;
    }
    let ghost lv = data@.settings.lists;
    if let Some(i) = find_list(&data.settings.lists, id) {
        data.settings.lists[i].name = owned(trimmed);
        assert(data@.settings.lists =~= lv.update(
            i as int,
            ListView { name: trim_spec(name@), ..lv[i as int] },
        ));
    }
}

/// Sets the icon of the first list with the id `id`.
pub fn set_list_icon(data: &mut AppData, id: &String, icon: Option<String>)
    ensures
        final(data)@ == with_lists(
            old(data)@,
            update_first_list(
                old(data)@.settings.lists,
                id@,
                |l: ListView| ListView { icon: opt_view(&icon), ..l },
            ),
            old(data)@.settings.active_list_id,
        ),
{
    let ghost lv = data@.settings.lists;
    let ghost iv = opt_view(&icon);
    if let Some(i) = find_list(&data.settings.lists, id) {
        data.settings.lists[i].icon = icon;
        assert(data@.settings.lists =~= lv.update(i as int, ListView { icon: iv, ..lv[i as int] }));
    }
}

/// Makes `id` the active list when a list has it.
pub fn set_active_list(data: &mut AppData, id: String)
    ensures
        has_list(old(data)@.settings.lists, id@) ==> final(data)@ == with_lists(
            old(data)@,
            old(data)@.settings.lists,
            id@,
        ),
        !has_list(old(data)@.settings.lists, id@) ==> final(data)@ == old(data)@,
{
    if lists_contain(&data.settings.lists, &id) {
        data.settings.active_list_id = id;
    }
}

/// Installs sanitized settings and repairs every task's references against them: a task of a
/// list that no longer exists moves to the active list, an unknown label is dropped.
pub fn commit_settings(data: &mut AppData, settings: Settings)
    ensures
        final(data)@ == (AppDataView {
            settings: settings@,
            todos: repair_todos_spec(old(data)@.todos, settings@),
        }),
{
    data.settings = settings;
    repair_todo_references(&mut data.todos, &data.settings);
}

/// Whether installing `settings` changes the global shortcut.
pub fn shortcut_changed(data: &AppData, settings: &Settings) -> (r: bool)
    ensures
        r == (settings.global_shortcut@ != data.settings.global_shortcut@),
{
    !(settings.global_shortcut == data.settings.global_shortcut)
}


/// A task of a moved subtree: it goes to `target`; the subtree's root loses its parent and
/// gets the sort index `next`; a member whose parent did not move becomes a root.
pub open spec fn moved_todo(
    t: TodoView,
    root: Seq<char>,
    ids: Seq<Seq<char>>,
    target: Seq<char>,
    next: Option<i64>,
) -> TodoView {
    if !ids.contains(t.id) {
        t
    } else if t.id == root {
        TodoView { list_id: Some(target), parent_id: None, sort_index: next, ..t }
    } else if t.parent_id is Some && !ids.contains(t.parent_id->0) {
        TodoView { list_id: Some(target), parent_id: None, ..t }
    } else {
        TodoView { list_id: Some(target), ..t }
    }
}

/// The sort index the root of a subtree moved to `target` gets: one past the largest among
/// the root tasks of `target` in the same completion state.
pub open spec fn moved_root_index(todos: Seq<TodoView>, root: Seq<char>, target: Seq<char>) -> Option<
    i64,
> {
    let completed = todos[first_index(todos, root)].completed_at is Some;
    next_sort_index(max_sort_index(todos, root_sel(target, completed)))
}

pub open spec fn move_spec(
    todos: Seq<TodoView>,
    root: Seq<char>,
    ids: Seq<Seq<char>>,
    target: Seq<char>,
) -> Seq<TodoView> {
    let next = moved_root_index(todos, root, target);
    Seq::new(todos.len(), |k: int| moved_todo(todos[k], root, ids, target, next))
}

/// Moves the task `id` with all its descendants to the list `list_id` (trimmed) and returns
/// the moved ids. Nothing moves when that list does not exist or no task has the id `id`.
pub fn move_todo_to_list(data: &mut AppData, id: &String, list_id: &str) -> (r: Vec<String>)
    ensures
        ({
            let target = trim_spec(list_id@);
            if target.len() > 0 && has_list(old(data)@.settings.lists, target) && has_todo(
                old(data)@.todos,
                id@,
            ) {
                &&& subtree_of(old(data)@.todos, id@, strs_view(r@))
                &&& final(data)@ == with_todos(
                    old(data)@,
                    move_spec(old(data)@.todos, id@, strs_view(r@), target),
                )
            } else {
                final(data)@ == old(data)@ && r@.len() == 0
            }
        }),
{
    let trimmed = trim_str(list_id);
    if trimmed.unicode_len() == 0 {
        return Vec::new();
    }
    let target = owned(trimmed);
    if !lists_contain(&data.settings.lists, &target) {
        return Vec::new();
    }
    let root = match find_todo(&data.todos, id) {
        Some(root) => root,
        None => {
            return Vec::new();
        },
    };
    let moved = collect_subtree_ids(&data.todos, id);
    let root_completed = data.todos[root].completed_at.is_some();
    let next = next_index_after(max_root_index(&data.todos, &target, root_completed));
    let ghost tv = data@.todos;
    let ghost iv = strs_view(moved@);
    assert(next == moved_root_index(tv, id@, target@));
    let n = data.todos.len();
    let mut i: usize = 0;
    while i < n
        invariant
            n == tv.len(),
            n == data.todos@.len(),
            iv == strs_view(moved@),
            data@.settings == old(data)@.settings,
            tv == old(data)@.todos,
            next == moved_root_index(tv, id@, target@),
            0 <= i <= n,
            forall|k: int|
                0 <= k < n ==> #[trigger] data.todos@[k]@ == (if k < i {
                    move_spec(tv, id@, iv, target@)[k]
                } else {
                    tv[k]
                }),
        decreases n - i,
    {
        let ghost before = data.todos@;
        assert(before[i as int]@ == tv[i as int]);
        if contains_str(&moved, &data.todos[i].id) {
            data.todos[i].list_id = Some(target.clone());
            if data.todos[i].id == *id {
                data.todos[i].parent_id = None;
                data.todos[i].sort_index = next;
            } else {
                let orphaned = match &data.todos[i].parent_id {
                    Some(parent) => !contains_str(&moved, parent),
                    None => false,
                };
                if orphaned {
                    data.todos[i].parent_id = None;
                }
            }
        }
        proof {
            assert forall|k: int| 0 <= k < n implies #[trigger] data.todos@[k]@ == (if k < i + 1 {
                move_spec(tv, id@, iv, target@)[k]
            } else {
                tv[k]
            }) by {
                if k != i {
                    assert(data.todos@[k] == before[k]);
                }
            }
        }
        i += 1;
    }
    assert(data@.todos =~= move_spec(tv, id@, iv, target@));
    moved
}

/// A task among the siblings being reordered: same list, same parent, same completion state.
pub open spec fn reorder_sibling(
    t: TodoView,
    list: Seq<char>,
    parent: Option<Seq<char>>,
    completed: bool,
) -> bool {
    t.list_id == Some(list) && t.parent_id == parent && (t.completed_at is Some) == completed
}

pub open spec fn reorder_sibling_sel(
    list: Seq<char>,
    parent: Option<Seq<char>>,
    completed: bool,
) -> spec_fn(TodoView) -> bool {
    |t: TodoView| reorder_sibling(t, list, parent, completed)
}

/// The requested order kept to the ids in `members`, each at its first occurrence.
pub open spec fn dedup_members(order: Seq<Seq<char>>, members: Seq<Seq<char>>) -> Seq<Seq<char>>
    decreases order.len(),
{
    if order.len() == 0 {
        Seq::empty()
    } else {
        let d = dedup_members(order.drop_last(), members);
        let x = order.last();
        if members.contains(x) && !d.contains(x) {
            d.push(x)
        } else {
            d
        }
    }
}

/// `k` is the first position of `x` in `order`.
pub open spec fn is_first_pos(order: Seq<Seq<char>>, x: Seq<char>, k: int) -> bool {
    0 <= k < order.len() && order[k] == x && forall|j: int| 0 <= j < k ==> order[j] != x
}

/// The rank of `x` in `order`.
pub open spec fn rank_of(order: Seq<Seq<char>>, x: Seq<char>) -> int {
    choose|k: int| is_first_pos(order, x, k)
}

/// The tasks after a reorder: each task whose id is in `order` takes its rank there as sort
/// index; every other task keeps its own.
pub open spec fn ranked(todos: Seq<TodoView>, order: Seq<Seq<char>>) -> Seq<TodoView> {
    Seq::new(
        todos.len(),
        |k: int|
            if order.contains(todos[k].id) {
                TodoView { sort_index: Some(rank_of(order, todos[k].id) as i64), ..todos[k] }
            } else {
                todos[k]
            },
    )
}

/// The effect of a reorder request on the tasks.
pub open spec fn reorder_spec(
    todos: Seq<TodoView>,
    list: Seq<char>,
    parent: Option<Seq<char>>,
    completed: bool,
    ordered: Seq<Seq<char>>,
) -> Seq<TodoView> {
    let sel = reorder_sibling_sel(list, opt_text_spec(parent), completed);
    let order = dedup_members(ordered, ids_of(todos, sel));
    if ordered.len() < 2 || todos.filter(sel).len() < 2 || order.len() < 2 {
        todos
    } else {
        ranked(todos, order)
    }
}

fn position_of(v: &Vec<String>, s: &String) -> (r: Option<usize>)
    ensures
        match r {
            Some(k) => is_first_pos(strs_view(v@), s@, k as int) && rank_of(strs_view(v@), s@)
                == k,
            None => !strs_view(v@).contains(s@),
        },
{
    let ghost sv = strs_view(v@);
    let mut i: usize = 0;
    while i < v.len()
        invariant
            sv == strs_view(v@),
            0 <= i <= v@.len(),
            forall|j: int| 0 <= j < i ==> sv[j] != s@,
        decreases v@.len() - i,
    {
        if v[i] == *s {
            proof {
                assert(is_first_pos(sv, s@, i as int));
                let k = rank_of(sv, s@);
                if k < i {
                    assert(sv[k] != s@);
                } else if i < k {
                    assert(sv[i as int] != s@);
                }
            }
            return Some(i);
        }
        i += 1;
    }
    None
}

/// Reorders the siblings of `list_id` under `parent_id` in the completion state `completed`:
/// each id of `ordered_ids` that names such a sibling (first occurrence only) takes its rank
/// in that filtered order as sort index; siblings not named keep theirs. Fewer than two ids,
/// siblings, or surviving ids change nothing.
pub fn reorder_todos(
    data: &mut AppData,
    list_id: &String,
    parent_id: Option<String>,
    completed: bool,
    ordered_ids: &Vec<String>,
)
    ensures
        final(data)@ == with_todos(
            old(data)@,
            reorder_spec(
                old(data)@.todos,
                list_id@,
                opt_view(&parent_id),
                completed,
                strs_view(ordered_ids@),
            ),
        ),
{
    let ghost pv = opt_view(&parent_id);
    if ordered_ids.len() < 2 {
        return;
    }
    let parent = normalize_optional_id(parent_id);
    let ghost tv = data@.todos;
    let mut siblings: Vec<String> = Vec::new();
    let mut i: usize = 0;
    assert(strs_view(siblings@) =~= ids_of(tv.take(0), reorder_sibling_sel(list_id@, opt_text_spec(pv), completed))) by {
        reveal(Seq::filter);
        assert(tv.take(0).len() == 0);
    }
    while i < data.todos.len()
        invariant
            tv == data@.todos,
            tv == old(data)@.todos,
            data@ == old(data)@,
            opt_view(&parent) == opt_text_spec(pv),
            0 <= i <= tv.len(),
            strs_view(siblings@) == ids_of(
                tv.take(i as int),
                reorder_sibling_sel(list_id@, opt_text_spec(pv), completed),
            ),
        decreases tv.len() - i,
    {
        let t = &data.todos[i];
        let hit = opt_is(&t.list_id, list_id) && opt_str_eq(&t.parent_id, &parent)
            && t.completed_at.is_some() == completed;
        assert(tv[i as int] == t@);
        proof {
            lemma_ids_of_step(tv, i as int, reorder_sibling_sel(list_id@, opt_text_spec(pv), completed));
        }
        if hit {
            siblings.push(t.id.clone());
        }
        assert(strs_view(siblings@) =~= ids_of(
            tv.take(i + 1),
            reorder_sibling_sel(list_id@, opt_text_spec(pv), completed),
        ));
        i += 1;
    }
    assert(tv.take(tv.len() as int) =~= tv);
    let ghost sib = ids_of(tv, reorder_sibling_sel(list_id@, opt_text_spec(pv), completed));
    assert(sib.len() == tv.filter(reorder_sibling_sel(list_id@, opt_text_spec(pv), completed)).len());
    if siblings.len() < 2 {
        return;
    }
    let ghost ov = strs_view(ordered_ids@);
    let mut order: Vec<String> = Vec::new();
    let mut j: usize = 0;
    while j < ordered_ids.len()
        invariant
            ov == strs_view(ordered_ids@),
            sib == strs_view(siblings@),
            0 <= j <= ov.len(),
            strs_view(order@) == dedup_members(ov.take(j as int), sib),
        decreases ov.len() - j,
    {
        let candidate = &ordered_ids[j];
        assert(ov.take(j + 1).drop_last() =~= ov.take(j as int));
        assert(ov.take(j + 1).last() == candidate@);
        if contains_str(&siblings, candidate) && !contains_str(&order, candidate) {
            order.push(candidate.clone());
            assert(strs_view(order@) =~= dedup_members(ov.take(j as int), sib).push(candidate@));
        }
        j += 1;
    }
    assert(ov.take(ov.len() as int) =~= ov);
    if order.len() < 2 {
        return;
    }
    let ghost rv = strs_view(order@);
    let n = data.todos.len();
    let mut k: usize = 0;
    while k < n
        invariant
            n == tv.len(),
            n == data.todos@.len(),
            rv == strs_view(order@),
            data@.settings == old(data)@.settings,
            tv == old(data)@.todos,
            0 <= k <= n,
            forall|m: int|
                0 <= m < n ==> #[trigger] data.todos@[m]@ == (if m < k {
                    ranked(tv, rv)[m]
                } else {
                    tv[m]
                }),
        decreases n - k,
    {
        let ghost before = data.todos@;
        assert(before[k as int]@ == tv[k as int]);
        if let Some(rank) = position_of(&order, &data.todos[k].id) {
            data.todos[k].sort_index = Some(rank as i64);
        }
        proof {
            assert forall|m: int| 0 <= m < n implies #[trigger] data.todos@[m]@ == (if m < k + 1 {
                ranked(tv, rv)[m]
            } else {
                tv[m]
            }) by {
                if m != k {
                    assert(data.todos@[m] == before[m]);
                }
            }
        }
        k += 1;
    }
    assert(data@.todos =~= ranked(tv, rv));
}


/// `c` holds task positions forming a chain of parent links down from `root` inside `list`:
/// the first is a child of `root`, each next one a child of the one before.
pub open spec fn descent_chain(
    todos: Seq<TodoView>,
    list: Option<Seq<char>>,
    root: Seq<char>,
    c: Seq<int>,
) -> bool
    decreases c.len(),
{
    if c.len() == 0 {
        false
    } else if c.len() == 1 {
        0 <= c[0] < todos.len() && child_edge(todos[c[0]], list, root)
    } else {
        let prev = c[c.len() - 2];
        &&& 0 <= c.last() < todos.len()
        &&& 0 <= prev < todos.len()
        &&& child_edge(todos[c.last()], list, todos[prev].id)
        &&& descent_chain(todos, list, root, c.drop_last())
    }
}

proof fn lemma_chain_closed(
    todos: Seq<TodoView>,
    l: Option<Seq<char>>,
    root: Seq<char>,
    ids: Seq<Seq<char>>,
    c: Seq<int>,
)
    requires
        ids.len() > 0,
        ids[0] == root,
        closed_under_children(todos, l, ids),
        descent_chain(todos, l, root, c),
    ensures
        0 <= c.last() < todos.len(),
        ids.contains(todos[c.last()].id),
    decreases c.len(),
{
    if c.len() == 1 {
        assert(child_edge(todos[c[0]], l, ids[0]));
    } else {
        let p = c.drop_last();
        lemma_chain_closed(todos, l, root, ids, p);
        let m = choose|m: int| 0 <= m < ids.len() && ids[m] == todos[p.last()].id;
        assert(p.last() == c[c.len() - 2]);
        assert(child_edge(todos[c.last()], l, ids[m]));
    }
}

proof fn lemma_chain_in_subtree(todos: Seq<TodoView>, root: Seq<char>, ids: Seq<Seq<char>>, c: Seq<int>)
    requires
        has_todo(todos, root),
        subtree_of(todos, root, ids),
        descent_chain(todos, root_list(todos, root), root, c),
    ensures
        ids.contains(todos[c.last()].id),
        ids.len() > 0 && ids[0] == root,
{
    let l = root_list(todos, root);
    assert(closed_under_children(todos, l, ids));
    assert(derived_from(todos, l, root, ids));
    lemma_chain_closed(todos, l, root, ids, c);
}

/// Deleting a task removes every transitive descendant of it in its list.
pub proof fn lemma_delete_removes_descendants(
    todos: Seq<TodoView>,
    root: Seq<char>,
    ids: Seq<Seq<char>>,
    c: Seq<int>,
)
    requires
        has_todo(todos, root),
        subtree_of(todos, root, ids),
        descent_chain(todos, root_list(todos, root), root, c),
    ensures
        forall|k: int|
            0 <= k < without_ids(todos, ids).len() ==> #[trigger] without_ids(todos, ids)[k].id
                != todos[c.last()].id,
        forall|k: int|
            0 <= k < without_ids(todos, ids).len() ==> #[trigger] without_ids(todos, ids)[k].id
                != root,
{
    lemma_chain_in_subtree(todos, root, ids, c);
    assert(ids[0] == root);
    let keep = |t: TodoView| !ids.contains(t.id);
    assert forall|k: int| 0 <= k < without_ids(todos, ids).len() implies !ids.contains(
        #[trigger] without_ids(todos, ids)[k].id,
    ) by {
        todos.lemma_filter_pred(keep, k);
    }
}

/// Moving a task relocates every transitive descendant of it in its list to the target.
pub proof fn lemma_move_relocates_descendants(
    todos: Seq<TodoView>,
    root: Seq<char>,
    ids: Seq<Seq<char>>,
    target: Seq<char>,
    c: Seq<int>,
)
    requires
        has_todo(todos, root),
        subtree_of(todos, root, ids),
        descent_chain(todos, root_list(todos, root), root, c),
    ensures
        move_spec(todos, root, ids, target)[c.last()].list_id == Some(target),
{
    lemma_chain_in_subtree(todos, root, ids, c);
}

/// A moved task whose parent did not move with it becomes a root; the moved task itself
/// always does.
pub proof fn lemma_move_orphans_become_roots(
    todos: Seq<TodoView>,
    root: Seq<char>,
    ids: Seq<Seq<char>>,
    target: Seq<char>,
    k: int,
)
    requires
        0 <= k < todos.len(),
        ids.contains(todos[k].id),
        todos[k].id == root || (todos[k].parent_id is Some && !ids.contains(
            todos[k].parent_id->0,
        )),
    ensures
        move_spec(todos, root, ids, target)[k].parent_id is None,
        move_spec(todos, root, ids, target)[k].list_id == Some(target),
{
}


proof fn lemma_dedup_facts(o: Seq<Seq<char>>, m: Seq<Seq<char>>)
    ensures
        dedup_members(o, m).no_duplicates(),
        dedup_members(o, m).len() <= o.len(),
        forall|x: Seq<char>| #[trigger]
            dedup_members(o, m).contains(x) <==> (o.contains(x) && m.contains(x)),
    decreases o.len(),
{
    if o.len() > 0 {
        let p = o.drop_last();
        let z = o.last();
        lemma_dedup_facts(p, m);
        let d = dedup_members(p, m);
        assert(o =~= p.push(z));
        assert forall|x: Seq<char>| #[trigger] o.contains(x) <==> (p.contains(x) || x == z) by {
            lemma_seq_contains_after_push(p, z, x);
        }
        if m.contains(z) && !d.contains(z) {
            assert forall|x: Seq<char>| #[trigger] d.push(z).contains(x) <==> (d.contains(x) || x
                == z) by {
                lemma_seq_contains_after_push(d, z, x);
            }
            assert forall|a: int, b: int|
                0 <= a < d.push(z).len() && 0 <= b < d.push(z).len() && a != b implies d.push(
                z,
            )[a] != d.push(z)[b] by {
                if a < d.len() && b < d.len() {
                } else if a == d.len() {
                    assert(d.contains(d[b]));
                } else {
                    assert(d.contains(d[a]));
                }
            }
        }
    }
}

proof fn lemma_dedup_order(
    o: Seq<Seq<char>>,
    m: Seq<Seq<char>>,
    x: Seq<char>,
    y: Seq<char>,
    i: int,
    j: int,
)
    requires
        is_first_pos(o, x, i),
        is_first_pos(o, y, j),
        i < j,
        m.contains(x),
        m.contains(y),
    ensures
        exists|kx: int, ky: int|
            0 <= kx < ky < dedup_members(o, m).len() && dedup_members(o, m)[kx] == x
                && dedup_members(o, m)[ky] == y,
    decreases o.len(),
{
    let p = o.drop_last();
    let z = o.last();
    let d = dedup_members(p, m);
    lemma_dedup_facts(p, m);
    if j == o.len() - 1 {
        assert(p[i] == x);
        assert(p.contains(x));
        assert(d.contains(x));
        let kx = choose|kx: int| 0 <= kx < d.len() && d[kx] == x;
        assert(!p.contains(y)) by {
            if p.contains(y) {
                let q = choose|q: int| 0 <= q < p.len() && p[q] == y;
                assert(o[q] == y);
            }
        }
        assert(!d.contains(y));
        assert(dedup_members(o, m) == d.push(y));
        assert(d.push(y)[kx] == x && d.push(y)[d.len() as int] == y);
        assert(0 <= kx < d.len() < dedup_members(o, m).len());
    } else {
        assert(is_first_pos(p, x, i));
        assert(is_first_pos(p, y, j));
        lemma_dedup_order(p, m, x, y, i, j);
        let (kx, ky) = choose|kx: int, ky: int|
            0 <= kx < ky < d.len() && d[kx] == x && d[ky] == y;
        if m.contains(z) && !d.contains(z) {
            assert(dedup_members(o, m) == d.push(z));
            assert(d.push(z)[kx] == x && d.push(z)[ky] == y);
        } else {
            assert(dedup_members(o, m) == d);
        }
        assert(0 <= kx < ky < dedup_members(o, m).len() && dedup_members(o, m)[kx] == x
            && dedup_members(o, m)[ky] == y);
    }
}

proof fn lemma_rank_of_unique(d: Seq<Seq<char>>, x: Seq<char>, k: int)
    requires
        d.no_duplicates(),
        0 <= k < d.len(),
        d[k] == x,
    ensures
        rank_of(d, x) == k,
{
    assert(is_first_pos(d, x, k));
    let r = rank_of(d, x);
    assert(is_first_pos(d, x, r));
}

/// A reorder leaves every task whose id the request does not name as it was.
pub proof fn lemma_reorder_keeps_unnamed(
    todos: Seq<TodoView>,
    list: Seq<char>,
    parent: Option<Seq<char>>,
    completed: bool,
    ordered: Seq<Seq<char>>,
    k: int,
)
    requires
        0 <= k < todos.len(),
        !ordered.contains(todos[k].id),
    ensures
        reorder_spec(todos, list, parent, completed, ordered)[k] == todos[k],
{
    let sel = reorder_sibling_sel(list, opt_text_spec(parent), completed);
    lemma_dedup_facts(ordered, ids_of(todos, sel));
}

/// A reorder ranks the siblings it names in the order of their first mention: a sibling
/// named first ends with the smaller sort index.
pub proof fn lemma_reorder_follows_request(
    todos: Seq<TodoView>,
    list: Seq<char>,
    parent: Option<Seq<char>>,
    completed: bool,
    ordered: Seq<Seq<char>>,
    a: int,
    b: int,
    i: int,
    j: int,
)
    requires
        0 <= a < todos.len(),
        0 <= b < todos.len(),
        reorder_sibling(todos[a], list, opt_text_spec(parent), completed),
        reorder_sibling(todos[b], list, opt_text_spec(parent), completed),
        is_first_pos(ordered, todos[a].id, i),
        is_first_pos(ordered, todos[b].id, j),
        i < j,
        ordered.len() <= i64::MAX,
    ensures
        ({
            let r = reorder_spec(todos, list, parent, completed, ordered);
            &&& r[a].sort_index is Some
            &&& r[b].sort_index is Some
            &&& r[a].sort_index->0 < r[b].sort_index->0
        }),
{
    let sel = reorder_sibling_sel(list, opt_text_spec(parent), completed);
    let sib = ids_of(todos, sel);
    let x = todos[a].id;
    let y = todos[b].id;
    let f = todos.filter(sel);
    todos.lemma_filter_contains(sel, a);
    todos.lemma_filter_contains(sel, b);
    let fa = choose|q: int| 0 <= q < f.len() && f[q] == todos[a];
    let fb = choose|q: int| 0 <= q < f.len() && f[q] == todos[b];
    assert(sib[fa] == x && sib[fb] == y);
    assert(x != y);
    assert(fa != fb);
    assert(f.len() >= 2);
    lemma_dedup_order(ordered, sib, x, y, i, j);
    lemma_dedup_facts(ordered, sib);
    let d = dedup_members(ordered, sib);
    let (kx, ky) = choose|kx: int, ky: int| 0 <= kx < ky < d.len() && d[kx] == x && d[ky] == y;
    lemma_rank_of_unique(d, x, kx);
    lemma_rank_of_unique(d, y, ky);
    assert(d.contains(x) && d.contains(y));
}


/// Completing or reopening a task gives every transitive descendant of it in its list the
/// same completion time as the task itself.
pub proof fn lemma_completion_covers_descendants(
    todos: Seq<TodoView>,
    root: Seq<char>,
    ids: Seq<Seq<char>>,
    value: Option<i64>,
    c: Seq<int>,
    k: int,
)
    requires
        has_todo(todos, root),
        subtree_of(todos, root, ids),
        descent_chain(todos, root_list(todos, root), root, c),
        0 <= k < todos.len(),
        todos[k].id == root,
    ensures
        complete_ids(todos, ids, value)[c.last()].completed_at == value,
        complete_ids(todos, ids, value)[k].completed_at == value,
{
    lemma_chain_in_subtree(todos, root, ids, c);
}


/// Completing (or reopening) a root `A` whose subtree holds `B`, a child of `A`, and `C`, a
/// child of `B`, gives all three the same completion time.
pub proof fn lemma_completion_of_chain(
    todos: Seq<TodoView>,
    ids: Seq<Seq<char>>,
    value: Option<i64>,
    a: int,
    b: int,
    c: int,
)
    requires
        is_first_with_id(todos, todos[a].id, a),
        0 <= b < todos.len(),
        0 <= c < todos.len(),
        todos[b].list_id == todos[a].list_id && todos[b].parent_id == Some(todos[a].id),
        todos[c].list_id == todos[a].list_id && todos[c].parent_id == Some(todos[b].id),
        subtree_of(todos, todos[a].id, ids),
    ensures
        complete_ids(todos, ids, value)[a].completed_at == value,
        complete_ids(todos, ids, value)[b].completed_at == value,
        complete_ids(todos, ids, value)[c].completed_at == value,
{
    let root = todos[a].id;
    lemma_first_unique(todos, root, a);
    let l = root_list(todos, root);
    assert(l == todos[a].list_id);
    let c1 = seq![b];
    assert(c1.last() == b);
    assert(descent_chain(todos, l, root, c1));
    lemma_completion_covers_descendants(todos, root, ids, value, c1, a);
    let c2 = seq![b, c];
    assert(c2.drop_last() =~= c1);
    assert(c2[c2.len() - 2] == b);
    assert(descent_chain(todos, l, root, c2));
    lemma_completion_covers_descendants(todos, root, ids, value, c2, a);
}

/// A request naming exactly two distinct siblings ranks the first 0 and the second 1.
pub proof fn lemma_reorder_two(
    todos: Seq<TodoView>,
    list: Seq<char>,
    parent: Option<Seq<char>>,
    completed: bool,
    a: int,
    b: int,
)
    requires
        0 <= a < todos.len(),
        0 <= b < todos.len(),
        todos[a].id != todos[b].id,
        reorder_sibling(todos[a], list, opt_text_spec(parent), completed),
        reorder_sibling(todos[b], list, opt_text_spec(parent), completed),
    ensures
        ({
            let r = reorder_spec(todos, list, parent, completed, seq![todos[a].id, todos[b].id]);
            &&& r[a].sort_index == Some(0i64)
            &&& r[b].sort_index == Some(1i64)
        }),
{
    let sel = reorder_sibling_sel(list, opt_text_spec(parent), completed);
    let sib = ids_of(todos, sel);
    let x = todos[a].id;
    let y = todos[b].id;
    let o = seq![x, y];
    let f = todos.filter(sel);
    todos.lemma_filter_contains(sel, a);
    todos.lemma_filter_contains(sel, b);
    let fa = choose|q: int| 0 <= q < f.len() && f[q] == todos[a];
    let fb = choose|q: int| 0 <= q < f.len() && f[q] == todos[b];
    assert(sib[fa] == x && sib[fb] == y);
    assert(sib.contains(x) && sib.contains(y));
    assert(fa != fb);
    let o1 = o.drop_last();
    assert(o1 =~= seq![x]);
    assert(o1.drop_last() =~= Seq::<Seq<char>>::empty());
    assert(o1.last() == x);
    let e = dedup_members(o1.drop_last(), sib);
    assert(e.len() == 0);
    assert(!e.contains(x));
    assert(dedup_members(o1, sib) == e.push(x));
    assert(dedup_members(o1, sib) =~= seq![x]);
    assert(!seq![x].contains(y)) by {
        if seq![x].contains(y) {
            let q = choose|q: int| 0 <= q < 1 && seq![x][q] == y;
            assert(seq![x][q] == x);
        }
    }
    let d = dedup_members(o, sib);
    assert(d =~= seq![x, y]);
    lemma_dedup_facts(o, sib);
    lemma_rank_of_unique(d, x, 0);
    lemma_rank_of_unique(d, y, 1);
    assert(d.contains(x) && d.contains(y)) by {
        assert(d[0] == x && d[1] == y);
    }
}

} // verus!
