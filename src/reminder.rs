use vstd::prelude::*;

use crate::engine::{ids_of, lemma_ids_of_step, open_sel};
use crate::model::{todos_view, Todo, TodoView};
use crate::notified::NotifiedSet;
use crate::text::strs_view;

verus! {

/// A reminder to show: the task's id and title.
#[derive(Debug, Clone)]
pub struct Reminder {
    pub id: String,
    pub title: String,
}

/// The task is open and its reminder time has come.
pub open spec fn is_due(t: TodoView, now: i64) -> bool {
    t.completed_at is None && t.reminder_at is Some && t.reminder_at->0 <= now
}

/// The ids of the open tasks.
pub open spec fn active_ids(todos: Seq<TodoView>) -> Set<Seq<char>> {
    ids_of(todos, open_sel()).to_set()
}

/// The notified set without the ids of tasks that are gone or completed.
pub open spec fn pruned(notified: Set<Seq<char>>, todos: Seq<TodoView>) -> Set<Seq<char>> {
    notified.intersect(active_ids(todos))
}

pub open spec fn due_unnotified_sel(now: i64, notified: Set<Seq<char>>) -> spec_fn(TodoView) -> bool {
    |t: TodoView| is_due(t, now) && !notified.contains(t.id)
}

/// The due tasks whose reminder has not been shown, in order.
pub open spec fn to_notify(todos: Seq<TodoView>, now: i64, notified: Set<Seq<char>>) -> Seq<
    TodoView,
> {
    todos.filter(due_unnotified_sel(now, notified))
}

/// The ids whose reminder a tick shows, given the notified set before the tick.
pub open spec fn tick_ids(todos: Seq<TodoView>, now: i64, notified: Set<Seq<char>>) -> Seq<
    Seq<char>,
> {
    to_notify(todos, now, pruned(notified, todos)).map_values(|t: TodoView| t.id)
}

/// The notified set after a tick whose reminders were all shown.
pub open spec fn after_tick(todos: Seq<TodoView>, now: i64, notified: Set<Seq<char>>) -> Set<
    Seq<char>,
> {
    pruned(notified, todos).union(tick_ids(todos, now, notified).to_set())
}

/// The ids and titles of reminders.
pub open spec fn reminders_view(r: Seq<Reminder>) -> Seq<(Seq<char>, Seq<char>)> {
    r.map_values(|m: Reminder| (m.id@, m.title@))
}

/// The ids of the open tasks, in order.
pub fn active_todo_ids(todos: &Vec<Todo>) -> (r: Vec<String>)
    ensures
        strs_view(r@) == ids_of(todos_view(todos@), open_sel()),
{
    let ghost tv = todos_view(todos@);
    let mut ids: Vec<String> = Vec::new();
    let mut i: usize = 0;
    assert(strs_view(ids@) =~= ids_of(tv.take(0), open_sel())) by {
        reveal(Seq::filter);
        assert(tv.take(0).len() == 0);
    }
    while i < todos.len()
        invariant
            tv == todos_view(todos@),
            0 <= i <= tv.len(),
            strs_view(ids@) == ids_of(tv.take(i as int), open_sel()),
        decreases tv.len() - i,
    {
        assert(tv[i as int] == todos@[i as int]@);
        proof {
            lemma_ids_of_step(tv, i as int, open_sel());
        }
        if todos[i].completed_at.is_none() {
            ids.push(todos[i].id.clone());
        }
        assert(strs_view(ids@) =~= ids_of(tv.take(i + 1), open_sel()));
        i += 1;
    }
    assert(tv.take(tv.len() as int) =~= tv);
    ids
}

/// One tick of the reminder scheduler, as of the time `now`: forgets the notified ids of
/// tasks that are gone or completed, then returns the due open tasks whose reminder has not
/// been shown. The caller shows each one and records it in `notified` only once it was shown.
pub fn check_due_reminders(todos: &Vec<Todo>, now: i64, notified: &mut NotifiedSet) -> (r: Vec<
    Reminder,
>)
    ensures
        final(notified)@ == pruned(old(notified)@, todos_view(todos@)),
        reminders_view(r@) == to_notify(todos_view(todos@), now, final(notified)@).map_values(
            |t: TodoView| (t.id, t.title),
        ),
{
    let ghost tv = todos_view(todos@);
    let active = active_todo_ids(todos);
    notified.retain_in(&active);
    let ghost n = notified@;
    let mut out: Vec<Reminder> = Vec::new();
    let mut i: usize = 0;
    assert(reminders_view(out@) =~= tv.take(0).filter(due_unnotified_sel(now, n)).map_values(
        |t: TodoView| (t.id, t.title),
    )) by {
        reveal(Seq::filter);
        assert(tv.take(0).len() == 0);
    }
    while i < todos.len()
        invariant
            tv == todos_view(todos@),
            n == notified@,
            0 <= i <= tv.len(),
            reminders_view(out@) == tv.take(i as int).filter(due_unnotified_sel(now, n)).map_values(
                |t: TodoView| (t.id, t.title),
            ),
        decreases tv.len() - i,
    {
        let t = &todos[i];
        assert(tv[i as int] == t@);
        let due = t.completed_at.is_none() && match t.reminder_at {
            Some(at) => at <= now,
            None => false,
        };
        let pick = due && !notified.contains(&t.id);
        proof {
            reveal(Seq::filter);
            let s1 = tv.take(i + 1);
            assert(s1.drop_last() =~= tv.take(i as int));
            assert(s1.last() == tv[i as int]);
            assert(pick == due_unnotified_sel(now, n)(tv[i as int]));
        }
        let ghost before = reminders_view(out@);
        if pick {
            out.push(Reminder { id: t.id.clone(), title: t.title.clone() });
            assert(reminders_view(out@) =~= before.push((t.id@, t.title@)));
        }
        assert(reminders_view(out@) =~= tv.take(i + 1).filter(due_unnotified_sel(now, n)).map_values(
            |t: TodoView| (t.id, t.title),
        ));
        i += 1;
    }
    assert(tv.take(tv.len() as int) =~= tv);
    out
}

/// Records that the reminder of `id` was shown, when it was; a failed attempt records
/// nothing, so the next tick tries again.
pub fn record_delivery(notified: &mut NotifiedSet, id: String, shown: bool)
    ensures
        shown ==> final(notified)@ == old(notified)@.insert(id@),
        !shown ==> final(notified)@ == old(notified)@,
{
    if shown {
        notified.insert(id);
    }
}

/// After a completion change: completing forgets the reminders of every affected task (a
/// completed task never shows a stale reminder); reopening keeps the set as it is.
pub fn forget_on_completion(notified: &mut NotifiedSet, affected: &Vec<String>, completed: bool)
    ensures
        completed ==> final(notified)@ == old(notified)@.difference(strs_view(affected@).to_set()),
        !completed ==> final(notified)@ == old(notified)@,
{
    if completed {
        notified.remove_all(affected);
    }
}

/// After a reminder edit: a changed reminder time re-arms the task, so its id is forgotten.
pub fn forget_on_rearm(notified: &mut NotifiedSet, id: &String, changed: bool)
    ensures
        changed ==> final(notified)@ == old(notified)@.remove(id@),
        !changed ==> final(notified)@ == old(notified)@,
{
    if changed {
        notified.remove(id);
    }
}

proof fn lemma_in_filter(s: Seq<TodoView>, p: spec_fn(TodoView) -> bool, x: Seq<char>)
    requires
        s.filter(p).map_values(|t: TodoView| t.id).contains(x),
    ensures
        exists|i: int| 0 <= i < s.len() && s[i].id == x && p(s[i]),
{
    let f = s.filter(p);
    let ids = f.map_values(|t: TodoView| t.id);
    let k = choose|k: int| 0 <= k < ids.len() && #[trigger] ids[k] == x;
    s.lemma_filter_pred(p, k);
    assert(f.contains(f[k]));
    s.lemma_filter_contains_rev(p, f[k]);
    let i = choose|i: int| 0 <= i < s.len() && s[i] == f[k];
}

/// A reminder is shown once: after a tick whose reminders were all shown, a later tick over
/// the same tasks shows none of them again.
pub proof fn lemma_reminder_shown_once(
    todos: Seq<TodoView>,
    notified: Set<Seq<char>>,
    now1: i64,
    now2: i64,
    x: Seq<char>,
)
    requires
        tick_ids(todos, now1, notified).contains(x),
    ensures
        !tick_ids(todos, now2, after_tick(todos, now1, notified)).contains(x),
{
    let n1 = pruned(notified, todos);
    lemma_in_filter(todos, due_unnotified_sel(now1, n1), x);
    let i = choose|i: int|
        0 <= i < todos.len() && todos[i].id == x && due_unnotified_sel(now1, n1)(todos[i]);
    // x is the id of an open task, so it survives the next prune
    let active = ids_of(todos, open_sel());
    assert(todos.filter(open_sel()).contains(todos[i])) by {
        todos.lemma_filter_contains(open_sel(), i);
    }
    let f = todos.filter(open_sel());
    let k = choose|k: int| 0 <= k < f.len() && f[k] == todos[i];
    assert(active[k] == x);
    assert(active_ids(todos).contains(x));
    assert(after_tick(todos, now1, notified).contains(x));
    let n2 = pruned(after_tick(todos, now1, notified), todos);
    assert(n2.contains(x));
    if tick_ids(todos, now2, after_tick(todos, now1, notified)).contains(x) {
        lemma_in_filter(todos, due_unnotified_sel(now2, n2), x);
    }
}

/// Editing a task's reminder forgets its id; a due open task whose id is not notified is
/// shown at the next tick.
pub proof fn lemma_reminder_rearmed(todos: Seq<TodoView>, notified: Set<Seq<char>>, now: i64, i: int)
    requires
        0 <= i < todos.len(),
        is_due(todos[i], now),
    ensures
        tick_ids(todos, now, notified.remove(todos[i].id)).contains(todos[i].id),
{
    let n = pruned(notified.remove(todos[i].id), todos);
    let p = due_unnotified_sel(now, n);
    assert(p(todos[i]));
    todos.lemma_filter_contains(p, i);
    let f = todos.filter(p);
    let k = choose|k: int| 0 <= k < f.len() && f[k] == todos[i];
    assert(f.map_values(|t: TodoView| t.id)[k] == todos[i].id);
}

} // verus!
