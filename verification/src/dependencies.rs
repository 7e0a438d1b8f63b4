//! The graph of tasks that wait for one another.

use vstd::prelude::*;

use crate::task::TaskView;

verus! {

/// The tasks that `id` waits for. One that is not alive waits for nothing.
pub open spec fn deps_of(tasks: Map<Seq<char>, TaskView>, id: Seq<char>) -> Seq<Seq<char>> {
    if tasks.contains_key(id) {
        tasks[id].dependencies()
    } else {
        Seq::empty()
    }
}

/// Each id of the path waits for the one after it.
pub open spec fn is_path(tasks: Map<Seq<char>, TaskView>, path: Seq<Seq<char>>) -> bool {
    &&& path.len() > 0
    &&& forall|i: int|
        #![trigger path[i]]
        0 <= i < path.len() - 1 ==> deps_of(tasks, path[i]).contains(path[i + 1])
}

/// `path` leads from one of `from` to `target`.
pub open spec fn leads(
    tasks: Map<Seq<char>, TaskView>,
    from: Seq<Seq<char>>,
    target: Seq<char>,
    path: Seq<Seq<char>>,
) -> bool {
    is_path(tasks, path) && from.contains(path[0]) && path.last() == target
}

/// `target` is one of `from` or is waited for by one of them, directly or not.
pub open spec fn reaches(
    tasks: Map<Seq<char>, TaskView>,
    from: Seq<Seq<char>>,
    target: Seq<char>,
) -> bool {
    exists|path: Seq<Seq<char>>| #[trigger] leads(tasks, from, target, path)
}

/// No task waits for itself.
pub open spec fn acyclic(tasks: Map<Seq<char>, TaskView>) -> bool {
    forall|id: Seq<char>| !#[trigger] reaches(tasks, deps_of(tasks, id), id)
}

/// The ids one starts from are reached.
pub proof fn lemma_reaches_start(
    tasks: Map<Seq<char>, TaskView>,
    from: Seq<Seq<char>>,
    x: Seq<char>,
)
    requires
        from.contains(x),
    ensures
        reaches(tasks, from, x),
{
    let path = seq![x];
    assert(leads(tasks, from, x, path));
}

/// What a reached id waits for is reached.
pub proof fn lemma_reaches_step(
    tasks: Map<Seq<char>, TaskView>,
    from: Seq<Seq<char>>,
    x: Seq<char>,
    y: Seq<char>,
)
    requires
        reaches(tasks, from, x),
        deps_of(tasks, x).contains(y),
    ensures
        reaches(tasks, from, y),
{
    let path = choose|path: Seq<Seq<char>>| leads(tasks, from, x, path);
    let longer = path.push(y);
    assert forall|i: int| #![trigger longer[i]] 0 <= i < longer.len() - 1 implies deps_of(
        tasks,
        longer[i],
    ).contains(longer[i + 1]) by {
        if i < path.len() - 1 {
            assert(path[i] == longer[i]);
        } else {
            assert(longer[i] == path.last());
        }
    }
    assert(longer[0] == path[0]);
    assert(leads(tasks, from, y, longer));
}

/// A set that holds the start and, with each id, what that waits for, holds all that is reached.
pub proof fn lemma_closed_set(
    tasks: Map<Seq<char>, TaskView>,
    from: Seq<Seq<char>>,
    set: Set<Seq<char>>,
    target: Seq<char>,
)
    requires
        reaches(tasks, from, target),
        forall|i: int| 0 <= i < from.len() ==> set.contains(#[trigger] from[i]),
        forall|v: Seq<char>, i: int|
            set.contains(v) && 0 <= i < deps_of(tasks, v).len() ==> set.contains(
                #[trigger] deps_of(tasks, v)[i],
            ),
    ensures
        set.contains(target),
{
    let path = choose|path: Seq<Seq<char>>| leads(tasks, from, target, path);
    lemma_path_in_closed_set(tasks, path, from, set, path.len() - 1);
}

proof fn lemma_path_in_closed_set(
    tasks: Map<Seq<char>, TaskView>,
    path: Seq<Seq<char>>,
    from: Seq<Seq<char>>,
    set: Set<Seq<char>>,
    n: int,
)
    requires
        is_path(tasks, path),
        from.contains(path[0]),
        0 <= n < path.len(),
        forall|i: int| 0 <= i < from.len() ==> set.contains(#[trigger] from[i]),
        forall|v: Seq<char>, i: int|
            set.contains(v) && 0 <= i < deps_of(tasks, v).len() ==> set.contains(
                #[trigger] deps_of(tasks, v)[i],
            ),
    ensures
        set.contains(path[n]),
    decreases n,
{
    if n > 0 {
        lemma_path_in_closed_set(tasks, path, from, set, n - 1);
        let deps = deps_of(tasks, path[n - 1]);
        assert(deps.contains(path[n]));
        let i = choose|i: int| 0 <= i < deps.len() && deps[i] == path[n];
        assert(set.contains(deps_of(tasks, path[n - 1])[i]));
    }
}

/// A path whose ids, but for the last, are not `id` is the same path before and after the
/// task `id` is written.
proof fn lemma_path_beside(
    tasks: Map<Seq<char>, TaskView>,
    t: TaskView,
    path: Seq<Seq<char>>,
)
    requires
        is_path(tasks.insert(t.task_id, t), path),
        forall|i: int| 0 <= i < path.len() - 1 ==> #[trigger] path[i] != t.task_id,
    ensures
        is_path(tasks, path),
{
    let after = tasks.insert(t.task_id, t);
    assert forall|i: int| #![trigger path[i]] 0 <= i < path.len() - 1 implies deps_of(
        tasks,
        path[i],
    ).contains(path[i + 1]) by {
        assert(deps_of(after, path[i]).contains(path[i + 1]));
    }
}

/// Where a path leads from `from` to the task just written, a path did so before.
proof fn lemma_first_return(
    tasks: Map<Seq<char>, TaskView>,
    t: TaskView,
    from: Seq<Seq<char>>,
    path: Seq<Seq<char>>,
)
    requires
        leads(tasks.insert(t.task_id, t), from, t.task_id, path),
    ensures
        reaches(tasks, from, t.task_id),
    decreases path.len(),
{
    if exists|j: int| 0 <= j < path.len() - 1 && path[j] == t.task_id {
        let j = choose|j: int| 0 <= j < path.len() - 1 && path[j] == t.task_id;
        let shorter = path.take(j + 1);
        let after = tasks.insert(t.task_id, t);
        assert forall|i: int| #![trigger shorter[i]] 0 <= i < shorter.len() - 1 implies deps_of(
            after,
            shorter[i],
        ).contains(shorter[i + 1]) by {
            assert(path[i] == shorter[i]);
        }
        assert(leads(after, from, t.task_id, shorter));
        lemma_first_return(tasks, t, from, shorter);
    } else {
        lemma_path_beside(tasks, t, path);
        assert(leads(tasks, from, t.task_id, path));
    }
}

/// A task that `detect_cycle` lets pass keeps the graph free of cycles: where no task waits
/// for itself and the new one is not reached from what it waits for, no task waits for
/// itself after it is written.
pub proof fn law_checked_task_keeps_graph_acyclic(tasks: Map<Seq<char>, TaskView>, t: TaskView)
    requires
        acyclic(tasks),
        !reaches(tasks, t.dependencies(), t.task_id),
    ensures
        acyclic(tasks.insert(t.task_id, t)),
{
    let after = tasks.insert(t.task_id, t);
    let id = t.task_id;
    assert forall|x: Seq<char>| !#[trigger] reaches(after, deps_of(after, x), x) by {
        if reaches(after, deps_of(after, x), x) {
            let path = choose|path: Seq<Seq<char>>| leads(after, deps_of(after, x), x, path);
            if x == id {
                lemma_first_return(tasks, t, t.dependencies(), path);
            } else if exists|k: int| 0 <= k < path.len() - 1 && path[k] == id {
                let k = choose|k: int| 0 <= k < path.len() - 1 && path[k] == id;
                let round = path.skip(k + 1) + path.take(k + 1);
                let rest = path.len() - (k + 1);
                assert forall|i: int|
                    #![trigger round[i]]
                    0 <= i < round.len() - 1 implies deps_of(after, round[i]).contains(
                    round[i + 1],
                ) by {
                    if i < rest - 1 {
                        assert(round[i] == path[k + 1 + i]);
                        assert(round[i + 1] == path[k + 1 + i + 1]);
                    } else if i == rest - 1 {
                        assert(round[i] == path.last());
                        assert(round[i + 1] == path[0]);
                    } else {
                        assert(round[i] == path[i - rest]);
                        assert(round[i + 1] == path[i - rest + 1]);
                    }
                }
                assert(round[0] == path[k + 1]);
                assert(deps_of(after, path[k]).contains(path[k + 1]));
                assert(round.last() == path[k]);
                assert(leads(after, t.dependencies(), id, round));
                lemma_first_return(tasks, t, t.dependencies(), round);
            } else {
                lemma_path_beside(tasks, t, path);
                assert(deps_of(after, x) == deps_of(tasks, x));
                assert(leads(tasks, deps_of(tasks, x), x, path));
                assert(reaches(tasks, deps_of(tasks, x), x));
            }
        }
    }
}

/// What is deleted closes no cycle.
pub proof fn law_deletion_keeps_graph_acyclic(tasks: Map<Seq<char>, TaskView>, id: Seq<char>)
    requires
        acyclic(tasks),
    ensures
        acyclic(tasks.remove(id)),
{
    let after = tasks.remove(id);
    assert forall|x: Seq<char>| !#[trigger] reaches(after, deps_of(after, x), x) by {
        if reaches(after, deps_of(after, x), x) {
            let path = choose|path: Seq<Seq<char>>| leads(after, deps_of(after, x), x, path);
            assert forall|i: int| #![trigger path[i]] 0 <= i < path.len() - 1 implies deps_of(
                tasks,
                path[i],
            ).contains(path[i + 1]) by {
                assert(deps_of(after, path[i]).contains(path[i + 1]));
            }
            assert(leads(tasks, deps_of(tasks, x), x, path));
            assert(reaches(tasks, deps_of(tasks, x), x));
        }
    }
}

/// Where every live task waits for a live one there are paths of any length among them.
proof fn lemma_long_path(tasks: Map<Seq<char>, TaskView>, start: Seq<char>, n: nat) -> (path: Seq<
    Seq<char>,
>)
    requires
        tasks.contains_key(start),
        forall|id: Seq<char>| #[trigger]
            tasks.contains_key(id) ==> !crate::file_store::all_gone(tasks, deps_of(tasks, id)),
    ensures
        is_path(tasks, path),
        path.len() == n + 1,
        forall|i: int| 0 <= i < path.len() ==> tasks.contains_key(#[trigger] path[i]),
    decreases n,
{
    if n == 0 {
        seq![start]
    } else {
        let front = lemma_long_path(tasks, start, (n - 1) as nat);
        let last = front.last();
        assert(tasks.contains_key(front[front.len() - 1]));
        let deps = deps_of(tasks, last);
        assert(!crate::file_store::all_gone(tasks, deps));
        let k = choose|k: int| 0 <= k < deps.len() && tasks.contains_key(#[trigger] deps[k]);
        let path = front.push(deps[k]);
        assert forall|i: int| #![trigger path[i]] 0 <= i < path.len() - 1 implies deps_of(
            tasks,
            path[i],
        ).contains(path[i + 1]) by {
            if i < front.len() - 1 {
                assert(front[i] == path[i]);
            } else {
                assert(path[i] == last);
                assert(path[i + 1] == deps[k]);
            }
        }
        path
    }
}

/// Tasks that do not wait in a circle do not block one another: as long as there are live
/// tasks, one of them waits for none that is alive.
pub proof fn law_some_task_waits_for_none(tasks: Map<Seq<char>, TaskView>)
    requires
        tasks.dom().finite(),
        tasks.dom().len() > 0,
        acyclic(tasks),
    ensures
        exists|id: Seq<char>| #[trigger]
            tasks.contains_key(id) && crate::file_store::all_gone(tasks, deps_of(tasks, id)),
{
    if forall|id: Seq<char>| #[trigger]
        tasks.contains_key(id) ==> !crate::file_store::all_gone(tasks, deps_of(tasks, id)) {
        let start = tasks.dom().choose();
        assert(tasks.contains_key(start));
        let path = lemma_long_path(tasks, start, tasks.dom().len());
        if path.no_duplicates() {
            path.unique_seq_to_set();
            assert(path.to_set().subset_of(tasks.dom())) by {
                assert forall|x: Seq<char>| #[trigger] path.to_set().contains(x) implies tasks.dom().contains(
                    x,
                ) by {
                    let i = choose|i: int| 0 <= i < path.len() && path[i] == x;
                    assert(tasks.contains_key(path[i]));
                }
            }
            vstd::set_lib::lemma_len_subset(path.to_set(), tasks.dom());
        } else {
            let (i, j) = choose|i: int, j: int|
                0 <= i < path.len() && 0 <= j < path.len() && i != j && path[i] == path[j];
            let (a, b) = if i < j {
                (i, j)
            } else {
                (j, i)
            };
            let round = path.subrange(a + 1, b + 1);
            assert forall|k: int| #![trigger round[k]] 0 <= k < round.len() - 1 implies deps_of(
                tasks,
                round[k],
            ).contains(round[k + 1]) by {
                assert(round[k] == path[a + 1 + k]);
                assert(round[k + 1] == path[a + 1 + k + 1]);
            }
            assert(round[0] == path[a + 1]);
            assert(deps_of(tasks, path[a]).contains(path[a + 1]));
            assert(round.last() == path[b]);
            assert(leads(tasks, deps_of(tasks, path[a]), path[a], round));
            assert(reaches(tasks, deps_of(tasks, path[a]), path[a]));
        }
    }
}

/// What is reached is what one starts from and what that waits for, step by step: the start is
/// reached, what a live task that is reached waits for is reached, and nothing else is: a set that
/// holds the start and all that its live tasks wait for holds all that is reached.
pub proof fn law_reached_is_what_is_waited_for(
    tasks: Map<Seq<char>, TaskView>,
    from: Seq<Seq<char>>,
    x: Seq<char>,
    i: int,
    target: Seq<char>,
    within: Set<Seq<char>>,
)
    ensures
        from.contains(x) ==> reaches(tasks, from, x),
        reaches(tasks, from, x) && tasks.contains_key(x) && tasks[x].trigger_after_ids is Some
            && 0 <= i < tasks[x].trigger_after_ids->0.len() ==> reaches(
            tasks,
            from,
            tasks[x].trigger_after_ids->0[i],
        ),
        reaches(tasks, from, target) && (forall|k: int|
            0 <= k < from.len() ==> within.contains(#[trigger] from[k])) && (forall|v: Seq<char>, k:
            int|
            within.contains(v) && tasks.contains_key(v) && tasks[v].trigger_after_ids is Some && 0
                <= k < tasks[v].trigger_after_ids->0.len() ==> within.contains(
                #[trigger] tasks[v].trigger_after_ids->0[k],
            )) ==> within.contains(target),
{
    if from.contains(x) {
        lemma_reaches_start(tasks, from, x);
    }
    if reaches(tasks, from, x) && tasks.contains_key(x) && tasks[x].trigger_after_ids is Some && 0
        <= i < tasks[x].trigger_after_ids->0.len() {
        let path = choose|path: Seq<Seq<char>>| #[trigger] leads(tasks, from, x, path);
        let y = tasks[x].trigger_after_ids->0[i];
        let longer = path.push(y);
        assert forall|k: int| #![trigger longer[k]] 0 <= k < longer.len() - 1 implies deps_of(
            tasks,
            longer[k],
        ).contains(longer[k + 1]) by {
            if k < path.len() - 1 {
                assert(longer[k] == path[k] && longer[k + 1] == path[k + 1]);
            } else {
                assert(longer[k] == x && longer[k + 1] == y);
                assert(deps_of(tasks, x)[i] == y);
            }
        }
        assert(longer[0] == path[0]);
        assert(leads(tasks, from, y, longer));
    }
    if reaches(tasks, from, target) && (forall|k: int|
        0 <= k < from.len() ==> within.contains(#[trigger] from[k])) && (forall|v: Seq<char>, k:
        int|
        within.contains(v) && tasks.contains_key(v) && tasks[v].trigger_after_ids is Some && 0 <= k
            < tasks[v].trigger_after_ids->0.len() ==> within.contains(
            #[trigger] tasks[v].trigger_after_ids->0[k],
        )) {
        let path = choose|path: Seq<Seq<char>>| #[trigger] leads(tasks, from, target, path);
        lemma_path_stays_within(tasks, from, path, within, path.len() - 1);
    }
}

proof fn lemma_path_stays_within(
    tasks: Map<Seq<char>, TaskView>,
    from: Seq<Seq<char>>,
    path: Seq<Seq<char>>,
    within: Set<Seq<char>>,
    n: int,
)
    requires
        is_path(tasks, path),
        from.contains(path[0]),
        forall|k: int| 0 <= k < from.len() ==> within.contains(#[trigger] from[k]),
        forall|v: Seq<char>, k: int|
            within.contains(v) && tasks.contains_key(v) && tasks[v].trigger_after_ids is Some && 0
                <= k < tasks[v].trigger_after_ids->0.len() ==> within.contains(
                #[trigger] tasks[v].trigger_after_ids->0[k],
            ),
        0 <= n < path.len(),
    ensures
        within.contains(path[n]),
    decreases n,
{
    if n == 0 {
        let k = choose|k: int| 0 <= k < from.len() && from[k] == path[0];
        assert(within.contains(from[k]));
    } else {
        lemma_path_stays_within(tasks, from, path, within, n - 1);
        assert(deps_of(tasks, path[n - 1]).contains(path[n - 1 + 1]));
        let v = path[n - 1];
        let k = choose|k: int| 0 <= k < deps_of(tasks, v).len() && deps_of(tasks, v)[k] == path[n];
        assert(tasks[v].trigger_after_ids->0[k] == path[n]);
    }
}

} // verus!
