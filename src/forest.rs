use vstd::prelude::*;
use vstd::set_lib::{lemma_int_range, lemma_len_subset, set_int_range};

use crate::model::{todos_view, Todo, TodoView};
use crate::text::{contains_str, opt_is, opt_str_eq, opt_view, strs_view};

verus! {

/// Whether some task has the id `id`.
pub open spec fn has_todo(todos: Seq<TodoView>, id: Seq<char>) -> bool {
    exists|i: int| 0 <= i < todos.len() && todos[i].id == id
}

/// `i` is the position of the first task with the id `id`.
pub open spec fn is_first_with_id(todos: Seq<TodoView>, id: Seq<char>, i: int) -> bool {
    0 <= i < todos.len() && todos[i].id == id && forall|k: int| 0 <= k < i ==> todos[k].id != id
}

/// The position of the first task with the id `id` (meaningful when there is one).
pub open spec fn first_index(todos: Seq<TodoView>, id: Seq<char>) -> int {
    choose|i: int| is_first_with_id(todos, id, i)
}

/// `t` is a child of the task with id `parent` inside the list `list`.
pub open spec fn child_edge(t: TodoView, list: Option<Seq<char>>, parent: Seq<char>) -> bool {
    t.list_id == list && t.parent_id == Some(parent)
}

/// Every task of `list` whose parent is in `ids` is in `ids` too.
pub open spec fn closed_under_children(
    todos: Seq<TodoView>,
    list: Option<Seq<char>>,
    ids: Seq<Seq<char>>,
) -> bool {
    forall|j: int, m: int|
        0 <= j < todos.len() && 0 <= m < ids.len() && #[trigger] child_edge(
            todos[j],
            list,
            ids[m],
        ) ==> ids.contains(todos[j].id)
}

/// `ids` starts at `root`, and each later id is that of a task of `list` whose parent came
/// earlier: every id is reachable from `root`.
pub open spec fn derived_from(
    todos: Seq<TodoView>,
    list: Option<Seq<char>>,
    root: Seq<char>,
    ids: Seq<Seq<char>>,
) -> bool {
    &&& ids.len() > 0
    &&& ids[0] == root
    &&& forall|i: int|
        1 <= i < ids.len() ==> exists|j: int, m: int|
            0 <= j < todos.len() && 0 <= m < i && todos[j].id == #[trigger] ids[i] && child_edge(
                todos[j],
                list,
                ids[m],
            )
}

/// The list of the task `root` (the first with that id).
pub open spec fn root_list(todos: Seq<TodoView>, root: Seq<char>) -> Option<Seq<char>> {
    todos[first_index(todos, root)].list_id
}

/// `ids` is the subtree of `root`: empty when no task has that id, else `root` and every task
/// reachable from it through parent links inside its list, and nothing else.
pub open spec fn subtree_of(todos: Seq<TodoView>, root: Seq<char>, ids: Seq<Seq<char>>) -> bool {
    if has_todo(todos, root) {
        let list = root_list(todos, root);
        closed_under_children(todos, list, ids) && derived_from(todos, list, root, ids)
    } else {
        ids.len() == 0
    }
}

pub proof fn lemma_first_unique(todos: Seq<TodoView>, id: Seq<char>, i: int)
    requires
        is_first_with_id(todos, id, i),
    ensures
        first_index(todos, id) == i,
{
    let f = first_index(todos, id);
    assert(is_first_with_id(todos, id, f));
    if f < i {
        assert(todos[f].id != id);
    } else if i < f {
        assert(todos[i].id != id);
    }
}

/// The position of the first task with the id `id`.
pub fn find_todo(todos: &Vec<Todo>, id: &String) -> (r: Option<usize>)
    ensures
        match r {
            Some(i) => is_first_with_id(todos_view(todos@), id@, i as int) && first_index(
                todos_view(todos@),
                id@,
            ) == i,
            None => !has_todo(todos_view(todos@), id@),
        },
{
    let ghost tv = todos_view(todos@);
    let mut i: usize = 0;
    while i < todos.len()
        invariant
            tv == todos_view(todos@),
            0 <= i <= todos@.len(),
            forall|k: int| 0 <= k < i ==> tv[k].id != id@,
        decreases todos@.len() - i,
    {
        if todos[i].id == *id {
            proof {
                lemma_first_unique(tv, id@, i as int);
            }
            return Some(i);
        }
        i += 1;
    }
    None
}

/// The ids of the task `root_id` and of all its descendants inside its list.
pub fn collect_subtree_ids(todos: &Vec<Todo>, root_id: &String) -> (r: Vec<String>)
    ensures
        subtree_of(todos_view(todos@), root_id@, strs_view(r@)),
        strs_view(r@).no_duplicates(),
{
    let ghost tv = todos_view(todos@);
    let ri = match find_todo(todos, root_id) {
        Some(ri) => ri,
        None => {
            let r: Vec<String> = Vec::new();
            assert(strs_view(r@).len() == 0);
            return r;
        },
    };
    let list = &todos[ri].list_id;
    let ghost l = tv[ri as int].list_id;
    assert(l == root_list(tv, root_id@));
    let n = todos.len();
    let mut ids: Vec<String> = Vec::new();
    ids.push(root_id.clone());
    let mut taken: Vec<bool> = vec![false; n];
    let ghost mut marked: Set<int> = Set::empty();
    let mut k: usize = 0;
    proof {
        lemma_int_range(0, n as int);
    }
    while k < ids.len()
        invariant
            n == todos@.len(),
            tv == todos_view(todos@),
            l == opt_view(list),
            taken@.len() == n,
            marked.finite(),
            marked.subset_of(set_int_range(0, n as int)),
            set_int_range(0, n as int).len() == n,
            set_int_range(0, n as int).finite(),
            forall|j: int| 0 <= j < n ==> (marked.contains(j) <==> taken@[j]),
            ids@.len() <= marked.len() + 1,
            strs_view(ids@).no_duplicates(),
            0 <= k <= ids@.len(),
            derived_from(tv, l, root_id@, strs_view(ids@)),
            forall|j: int| 0 <= j < n && taken@[j] ==> strs_view(ids@).contains(tv[j].id),
            forall|j: int, m: int|
                0 <= j < n && 0 <= m < k && #[trigger] child_edge(tv[j], l, ids@[m]@)
                    ==> taken@[j],
        decreases n + 1 - k,
    {
        proof {
            lemma_len_subset(marked, set_int_range(0, n as int));
        }
        let current = ids[k].clone();
        let mut j: usize = 0;
        while j < n
            invariant
                n == todos@.len(),
                tv == todos_view(todos@),
                l == opt_view(list),
                taken@.len() == n,
                marked.finite(),
                marked.subset_of(set_int_range(0, n as int)),
                set_int_range(0, n as int).len() == n,
                set_int_range(0, n as int).finite(),
                forall|j2: int| 0 <= j2 < n ==> (marked.contains(j2) <==> taken@[j2]),
                ids@.len() <= marked.len() + 1,
                strs_view(ids@).no_duplicates(),
                0 <= k < ids@.len(),
                current@ == ids@[k as int]@,
                0 <= j <= n,
                derived_from(tv, l, root_id@, strs_view(ids@)),
                forall|j2: int| 0 <= j2 < n && taken@[j2] ==> strs_view(ids@).contains(tv[j2].id),
                forall|j2: int, m: int|
                    0 <= j2 < n && 0 <= m < k && #[trigger] child_edge(tv[j2], l, ids@[m]@)
                        ==> taken@[j2],
                forall|j2: int|
                    0 <= j2 < j && #[trigger] child_edge(tv[j2], l, current@) ==> taken@[j2],
            decreases n - j,
        {
            if !taken[j] && opt_str_eq(&todos[j].list_id, list) && opt_is(
                &todos[j].parent_id,
                &current,
            ) {
                let ghost old_ids = strs_view(ids@);
                taken.set(j, true);
                proof {
                    assert(!marked.contains(j as int));
                    marked = marked.insert(j as int);
                }
                if !contains_str(&ids, &todos[j].id) {
                    ids.push(todos[j].id.clone());
                    proof {
                        let nv0 = strs_view(ids@);
                        assert(nv0 =~= old_ids.push(tv[j as int].id));
                        assert forall|a: int, b: int|
                            0 <= a < nv0.len() && 0 <= b < nv0.len() && a != b implies nv0[a]
                            != nv0[b] by {
                            if a == old_ids.len() {
                                assert(old_ids.contains(nv0[b]));
                            } else if b == old_ids.len() {
                                assert(old_ids.contains(nv0[a]));
                            }
                        }
                        let nv = strs_view(ids@);
                        assert(nv == old_ids.push(tv[j as int].id));
                        assert(nv[nv.len() - 1] == tv[j as int].id);
                        assert forall|i: int| 1 <= i < nv.len() implies exists|j3: int, m: int|
                            0 <= j3 < tv.len() && 0 <= m < i && tv[j3].id == #[trigger] nv[i]
                                && child_edge(tv[j3], l, nv[m]) by {
                            if i == nv.len() - 1 {
                                assert(child_edge(tv[j as int], l, nv[k as int]));
                            } else {
                                assert(nv[i] == old_ids[i]);
                                let (j3, m) = choose|j3: int, m: int|
                                    0 <= j3 < tv.len() && 0 <= m < i && tv[j3].id == old_ids[i]
                                        && child_edge(tv[j3], l, old_ids[m]);
                                assert(nv[m] == old_ids[m]);
                            }
                        }
                        assert forall|j2: int| 0 <= j2 < n && taken@[j2] implies nv.contains(
                            tv[j2].id,
                        ) by {
                            if j2 == j {
                                assert(nv[nv.len() - 1] == tv[j2].id);
                            } else {
                                let p = choose|p: int| 0 <= p < old_ids.len() && old_ids[p] == tv[j2].id;
                                assert(nv[p] == old_ids[p]);
                            }
                        }
                        assert forall|j2: int, m: int|
                            0 <= j2 < n && 0 <= m < k && #[trigger] child_edge(tv[j2], l, ids@[m]@)
                                implies taken@[j2] by {
                            assert(ids@[m]@ == old_ids[m]);
                        }
                    }
                } else {
                    assert(strs_view(ids@).contains(tv[j as int].id));
                }
            }
            j += 1;
        }
        proof {
            assert forall|j2: int, m: int|
                0 <= j2 < n && 0 <= m < k + 1 && #[trigger] child_edge(tv[j2], l, ids@[m]@)
                    implies taken@[j2] by {
                if m == k {
                    assert(child_edge(tv[j2], l, current@));
                }
            }
        }
        k += 1;
    }
    proof {
        let v = strs_view(ids@);
        assert forall|j: int, m: int|
            0 <= j < tv.len() && 0 <= m < v.len() && #[trigger] child_edge(tv[j], l, v[m])
                implies v.contains(tv[j].id) by {
            assert(child_edge(tv[j], l, ids@[m]@));
        }
    }
    ids
}

} // verus!
