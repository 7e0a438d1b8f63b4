//! What the steps of a queue keep, and what they come to together.

use vstd::multiset::Multiset;
use vstd::prelude::*;

use crate::execution::Execution;
use crate::file_store::StoreView;
use crate::json::ValueView;
use crate::pools::PoolView;
use crate::queue::{Dispatch, HandlerKind, QueueView, Settlement, COMPLETED_TTL};
use crate::task::{RetryableTask, TaskView};
use crate::time::Timestamp;

verus! {

/// Every task that is lined up waits in one line and stands there once, and what waits is
/// lined up.
pub open spec fn one_place_each(q: QueueView) -> bool {
    let lines = q.lines;
    &&& forall|name: Seq<char>, t: TaskView|
        lines.contains_key(name) && #[trigger] lines[name].count(t) > 0 ==> {
            &&& lines[name].count(t) == 1
            &&& q.queued.contains(t.task_id)
        }
    &&& forall|a: Seq<char>, t: TaskView, b: Seq<char>, u: TaskView|
        lines.contains_key(a) && lines.contains_key(b) && t.task_id == u.task_id
            && #[trigger] lines[a].count(t) > 0 && #[trigger] lines[b].count(u) > 0
            ==> a == b && t == u
    &&& forall|id: Seq<char>| #[trigger] q.queued.contains(id) ==> waits_somewhere(lines, id)
}

/// A task with this id waits in a line.
pub open spec fn waits_somewhere(lines: Map<Seq<char>, Multiset<TaskView>>, id: Seq<char>) -> bool {
    exists|name: Seq<char>, t: TaskView|
        lines.contains_key(name) && t.task_id == id && #[trigger] lines[name].count(t) > 0
}

/// What waits is alive in the store of the queue, as it stands there.
pub open spec fn waiting_alive(q: QueueView) -> bool {
    forall|name: Seq<char>, t: TaskView|
        q.lines.contains_key(name) && #[trigger] q.lines[name].count(t) > 0
            ==> q.store.tasks.contains_key(t.task_id) && q.store.tasks[t.task_id] == t
}

/// A fresh queue has nothing lined up.
pub proof fn law_fresh_queue_has_nothing_lined_up(
    name: Seq<char>,
    store: StoreView,
    limits: Map<Seq<char>, Seq<Timestamp>>,
    pools: Set<Seq<char>>,
)
    requires
        store.consistent(),
    ensures
        QueueView::started(name, store, limits, pools).consistent(),
        one_place_each(QueueView::started(name, store, limits, pools)),
{
    broadcast use vstd::multiset::group_multiset_axioms;

}

/// A sweep lines no task up that is lined up or runs already, and loses none.
pub proof fn law_sweep_lines_up_once(
    q0: QueueView,
    p0: Map<Seq<char>, PoolView>,
    q1: QueueView,
    p1: Map<Seq<char>, PoolView>,
    started: Seq<Seq<char>>,
    now: Timestamp,
)
    requires
        q0.consistent(),
        q0.lines.contains_key("default"@),
        one_place_each(q0),
        crate::queue::swept(q0, p0, q1, p1, started, now),
    ensures
        q1.consistent(),
        one_place_each(q1),
{
    let l0 = q0.lines;
    let l1 = q1.lines;
    assert forall|x: Seq<char>| l1.contains_key(x) == l0.contains_key(x) by {
        assert(l1.dom() == l0.dom());
    }
    assert forall|name: Seq<char>, t: TaskView|
        l1.contains_key(name) && #[trigger] l1[name].count(t) > 0 implies {
        &&& l1[name].count(t) == 1
        &&& q1.queued.contains(t.task_id)
    } by {
        assert(l0.contains_key(name));
        if l0[name].count(t) > 0 {
            assert(q0.queued.contains(t.task_id));
        }
    }
    assert forall|a: Seq<char>, t: TaskView, b: Seq<char>, u: TaskView|
        l1.contains_key(a) && l1.contains_key(b) && t.task_id == u.task_id
            && #[trigger] l1[a].count(t) > 0 && #[trigger] l1[b].count(u)
            > 0 implies a == b && t == u by {
        assert(l0.contains_key(a) && l0.contains_key(b));
        if l0[a].count(t) > 0 {
            assert(q0.queued.contains(t.task_id));
        }
        if l0[b].count(u) > 0 {
            assert(q0.queued.contains(u.task_id));
        }
    }
    assert forall|id: Seq<char>| #[trigger] q1.queued.contains(id) implies waits_somewhere(
        l1,
        id,
    ) by {
        if q0.queued.contains(id) {
            let (name, t) = choose|name: Seq<char>, t: TaskView|
                l0.contains_key(name) && t.task_id == id && #[trigger] l0[name].count(t)
                    > 0;
            assert(l1.contains_key(name) && l1[name].count(t) > 0);
        } else {
            let t = q0.store.tasks[id];
            let name = crate::queue::target_pool(l0, t);
            assert(l0.contains_key(name));
            assert(t.task_id == id);
            assert(l1.contains_key(name) && l1[name].count(t) > 0);
        }
    }
}

/// A task that leaves its line is handed out once: it does not run already, so it is not skipped,
/// and what is left is still lined up once each.
pub proof fn law_released_task_is_handed_out_once(
    q0: QueueView,
    p0: Map<Seq<char>, PoolView>,
    pool: Seq<char>,
    t: TaskView,
    now: Timestamp,
    q1: QueueView,
    p1: Map<Seq<char>, PoolView>,
    d: Dispatch,
)
    requires
        q0.consistent(),
        one_place_each(q0),
        q0.lines.contains_key(pool),
        q0.lines[pool].contains(t),
        crate::queue::released(q0, p0, pool, t, now, q1, p1, d),
    ensures
        d !is Skipped,
        d !is Idle,
        q1.consistent(),
        one_place_each(q1),
{
    broadcast use vstd::multiset::group_multiset_axioms;

    let l0 = q0.lines;
    let l1 = q1.lines;
    assert(l0[pool].count(t) > 0);
    assert(q0.queued.contains(t.task_id));
    assert(!q0.executing.contains(t.task_id));
    assert(q1.queued =~= q0.queued.remove(t.task_id));
    assert forall|name: Seq<char>, u: TaskView| l0.contains_key(name) implies #[trigger] l1[name].count(
        u,
    ) == l0[name].count(u) - if name == pool && u == t {
        1int
    } else {
        0int
    } by {
        assert(l0[pool].count(t) > 0);
    }
    assert forall|x: Seq<char>| l1.contains_key(x) == l0.contains_key(x) by {
    }
    assert forall|name: Seq<char>, u: TaskView|
        l1.contains_key(name) && #[trigger] l1[name].count(u) > 0 implies {
        &&& l1[name].count(u) == 1
        &&& q1.queued.contains(u.task_id)
    } by {
        assert(l0[name].count(u) > 0);
        assert(l0[pool].count(t) > 0);
    }
    assert forall|a: Seq<char>, x: TaskView, b: Seq<char>, u: TaskView|
        l1.contains_key(a) && l1.contains_key(b) && x.task_id == u.task_id
            && #[trigger] l1[a].count(x) > 0 && #[trigger] l1[b].count(u) > 0 implies a == b && x
        == u by {
        assert(l0[a].count(x) > 0);
        assert(l0[b].count(u) > 0);
    }
    assert forall|id: Seq<char>| #[trigger] q1.queued.contains(id) implies waits_somewhere(
        l1,
        id,
    ) by {
        assert(q0.queued.contains(id));
        let (name, u) = choose|name: Seq<char>, u: TaskView|
            l0.contains_key(name) && u.task_id == id && #[trigger] l0[name].count(u) > 0;
        assert(l1[name].count(u) == l0[name].count(u));
    }
}

/// A dispatcher hands each task that waits out once: none that is handed out runs already, so
/// none is skipped, and what is left is still lined up once each.
pub proof fn law_dispatch_hands_out_once(
    q0: QueueView,
    p0: Map<Seq<char>, PoolView>,
    pool: Seq<char>,
    now: Timestamp,
    q1: QueueView,
    p1: Map<Seq<char>, PoolView>,
    d: Dispatch,
)
    requires
        q0.consistent(),
        one_place_each(q0),
        crate::queue::dispatched(q0, p0, pool, now, q1, p1, d),
    ensures
        d !is Skipped,
        q1.consistent(),
        one_place_each(q1),
{
    if q0.waits_for(pool) {
        let t = choose|t: TaskView|
            {
                &&& #[trigger] crate::priority::served_first(q0.lines[pool], t)
                &&& crate::queue::released(q0, p0, pool, t, now, q1, p1, d)
            };
        law_released_task_is_handed_out_once(q0, p0, pool, t, now, q1, p1, d);
    }
}

/// There is a pool for each line, and where tasks wait a dispatcher is at work.
pub open spec fn served(q: QueueView, pools: Map<Seq<char>, PoolView>) -> bool {
    forall|name: Seq<char>| #[trigger]
        q.lines.contains_key(name) ==> {
            &&& pools.contains_key(name)
            &&& q.lines[name].len() > 0 ==> pools[name].dispatchers > 0
        }
}

/// No task is left waiting without a dispatcher: a sweep that lines tasks up sees to one, and a
/// dispatcher ends only where nothing waits. Another queue that shares the pools stays served
/// by a sweep.
pub proof fn law_waiting_tasks_are_served(
    q0: QueueView,
    p0: Map<Seq<char>, PoolView>,
    q1: QueueView,
    p1: Map<Seq<char>, PoolView>,
    started: Seq<Seq<char>>,
    now: Timestamp,
    other: QueueView,
)
    requires
        served(q0, p0),
        served(other, p0),
        crate::queue::swept(q0, p0, q1, p1, started, now),
    ensures
        served(q1, p1),
        served(other, p1),
{
    broadcast use vstd::multiset::group_multiset_axioms;

    assert forall|name: Seq<char>| #[trigger] q1.lines.contains_key(name) implies {
        &&& p1.contains_key(name)
        &&& q1.lines[name].len() > 0 ==> p1[name].dispatchers > 0
    } by {
        assert(q0.lines.dom().contains(name));
        assert(q0.lines.contains_key(name));
        if q1.lines[name].len() > 0 && q0.lines[name].len() == 0 {
            let t = q1.lines[name].choose();
            assert(q1.lines[name].count(t) > 0);
            assert(q0.lines[name].count(t) == 0);
            assert(q0.store.tasks.contains_key(t.task_id));
            assert(q0.feeds(name, now));
        }
    }
}

/// What `law_waiting_tasks_are_served` says of a sweep holds of a dispatcher's step.
pub proof fn law_dispatch_leaves_waiting_tasks_served(
    q0: QueueView,
    p0: Map<Seq<char>, PoolView>,
    pool: Seq<char>,
    now: Timestamp,
    q1: QueueView,
    p1: Map<Seq<char>, PoolView>,
    d: Dispatch,
)
    requires
        served(q0, p0),
        crate::queue::dispatched(q0, p0, pool, now, q1, p1, d),
    ensures
        served(q1, p1),
{
    if q0.waits_for(pool) {
        let t = choose|t: TaskView|
            {
                &&& #[trigger] crate::priority::served_first(q0.lines[pool], t)
                &&& crate::queue::released(q0, p0, pool, t, now, q1, p1, d)
            };
        law_released_task_leaves_others_served(q0, p0, pool, t, now, q1, p1, d, q0);
    }
}

/// A task that leaves its line leaves those that still wait served, in its queue and in any
/// other that shares the pools.
pub proof fn law_released_task_leaves_others_served(
    q0: QueueView,
    p0: Map<Seq<char>, PoolView>,
    pool: Seq<char>,
    t: TaskView,
    now: Timestamp,
    q1: QueueView,
    p1: Map<Seq<char>, PoolView>,
    d: Dispatch,
    other: QueueView,
)
    requires
        served(q0, p0),
        served(other, p0),
        q0.lines.contains_key(pool),
        q0.lines[pool].contains(t),
        crate::queue::released(q0, p0, pool, t, now, q1, p1, d),
    ensures
        served(q1, p1),
        served(other, p1),
{
    broadcast use vstd::multiset::group_multiset_axioms;

    assert forall|name: Seq<char>| #[trigger] q1.lines.contains_key(name) implies {
        &&& p1.contains_key(name)
        &&& q1.lines[name].len() > 0 ==> p1[name].dispatchers > 0
    } by {
        assert(q0.lines.contains_key(name));
    }
}

/// A second sweep at the same time finds nothing to do.
pub proof fn law_second_sweep_does_nothing(
    q0: QueueView,
    p0: Map<Seq<char>, PoolView>,
    q1: QueueView,
    p1: Map<Seq<char>, PoolView>,
    started: Seq<Seq<char>>,
    q2: QueueView,
    p2: Map<Seq<char>, PoolView>,
    again: Seq<Seq<char>>,
    now: Timestamp,
)
    requires
        crate::queue::swept(q0, p0, q1, p1, started, now),
        crate::queue::swept(q1, p1, q2, p2, again, now),
    ensures
        q2 == q1,
        p2 == p1,
        again.len() == 0,
{
    let l1 = q1.lines;
    let l2 = q2.lines;
    assert forall|t: TaskView| !q1.ready(t, now) by {
        if q1.ready(t, now) {
            assert(q0.store == q1.store && q0.executing == q1.executing);
            assert(!q0.queued.contains(t.task_id));
            assert(q0.ready(t, now));
            assert(q1.queued.contains(t.task_id));
        }
    }
    assert(q2.queued =~= q1.queued);
    assert forall|name: Seq<char>| #[trigger] l1.contains_key(name) implies l2[name] == l1[name] by {
        assert forall|t: TaskView| l2[name].count(t) == l1[name].count(t) by {
            assert(l2[name].count(t) == l1[name].count(t) + if q1.ready(t, now)
                && crate::queue::target_pool(l1, t) == name {
                1int
            } else {
                0int
            });
        }
        assert(l2[name] =~= l1[name]);
    }
    assert(l2 =~= l1);
    assert(q2 =~= q1);
    assert forall|name: Seq<char>| !q1.starts(p1, name, now) by {
        assert(!q1.feeds(name, now));
    }
    assert(p2 =~= p1);
    if again.len() > 0 {
        assert(again.contains(again[0]));
        assert(q1.starts(p1, again[0], now));
    }
}

/// A sweep lines a task up only when its time has come and all that it waits for is gone,
/// and a live task for which this holds is lined up or runs after the sweep.
pub proof fn law_tasks_wait_for_their_time_and_for_others(
    q0: QueueView,
    p0: Map<Seq<char>, PoolView>,
    q1: QueueView,
    p1: Map<Seq<char>, PoolView>,
    started: Seq<Seq<char>>,
    now: Timestamp,
    id: Seq<char>,
)
    requires
        q0.consistent(),
        crate::queue::swept(q0, p0, q1, p1, started, now),
    ensures
        q1.queued.contains(id) && !q0.queued.contains(id) ==> {
            &&& q0.store.tasks.contains_key(id)
            &&& q0.store.tasks[id].execute_at.at_or_before(now)
            &&& q0.store.tasks[id].retry_after_time.at_or_before(now)
            &&& crate::file_store::all_gone(
                q0.store.tasks,
                q0.store.tasks[id].dependencies(),
            )
        },
        q0.store.tasks.contains_key(id) && q0.store.tasks[id].due(now)
            && crate::file_store::all_gone(q0.store.tasks, q0.store.tasks[id].dependencies())
            ==> q1.queued.contains(id) || q1.executing.contains(id),
{
}

/// A task runs only after the ones it waits for: while one of them is alive it is not lined
/// up, and once the last of them has its tombstone it is.
pub proof fn law_chained_task_follows_its_parent(
    q: QueueView,
    child: TaskView,
    parent: TaskView,
    tombstone: TaskView,
    now: Timestamp,
)
    requires
        q.consistent(),
        q.store.tasks.contains_key(child.task_id),
        q.store.tasks[child.task_id] == child,
        q.store.tasks.contains_key(parent.task_id),
        child.task_id != parent.task_id,
        child.dependencies() == seq![parent.task_id],
        tombstone.task_id == parent.task_id,
        tombstone.deleted_at is Some,
    ensures
        !q.ready(child, now),
        q.with_line(tombstone).ready(child, now) <==> child.due(now) && !q.queued.contains(
            child.task_id,
        ) && !q.executing.contains(child.task_id),
{
    assert(child.dependencies()[0] == parent.task_id);
    assert(!crate::file_store::all_gone(q.store.tasks, child.dependencies()));
    let after = q.with_line(tombstone);
    assert(crate::file_store::all_gone(after.store.tasks, child.dependencies()));
}

/// A task is dropped exactly where a live task has its payload. So a payload pends from the
/// line of its task on, and no longer once that task has its tombstone, however it came to that
/// and where no other task has the same.
pub proof fn law_payload_pends_while_its_task_lives(
    q: QueueView,
    first: TaskView,
    second: TaskView,
    tombstone: TaskView,
)
    requires
        q.consistent(),
        first.payload_hash is Some,
        first.deleted_at is None,
        second.payload_hash == first.payload_hash,
        tombstone.task_id == first.task_id,
        tombstone.deleted_at is Some,
    ensures
        q.duplicate(second) <==> exists|id: Seq<char>| #[trigger]
            q.store.tasks.contains_key(id) && q.store.tasks[id].payload_hash
                == second.payload_hash,
        q.with_line(first).duplicate(second),
        !q.duplicate(first) ==> !q.with_line(first).with_line(tombstone).duplicate(second),
{
    let after = q.with_line(first);
    assert(after.store.tasks.contains_key(first.task_id));
    if !q.duplicate(first) {
        let gone = after.with_line(tombstone);
        assert forall|id: Seq<char>| #[trigger] gone.store.tasks.contains_key(
            id,
        ) implies gone.store.tasks[id].payload_hash != second.payload_hash by {
            assert(q.store.tasks.contains_key(id));
        }
    }
}

/// No two live tasks have the same payload.
pub open spec fn payloads_distinct(q: QueueView) -> bool {
    forall|a: Seq<char>, b: Seq<char>| #[trigger]
        q.store.tasks.contains_key(a) && #[trigger] q.store.tasks.contains_key(b)
            && q.store.tasks[a].payload_hash is Some && q.store.tasks[a].payload_hash
            == q.store.tasks[b].payload_hash ==> a == b
}

/// Of all tasks that pend no two have the same payload: what is admitted, what is saved again
/// with its payload unchanged, and what is deleted leave it so.
pub proof fn law_no_two_pending_tasks_share_a_payload(q: QueueView, t: TaskView)
    requires
        q.consistent(),
        payloads_distinct(q),
    ensures
        !q.duplicate(t) ==> payloads_distinct(q.with_line(t)),
        q.store.tasks.contains_key(t.task_id) && q.store.tasks[t.task_id].payload_hash
            == t.payload_hash ==> payloads_distinct(q.with_line(t)),
        t.deleted_at is Some ==> payloads_distinct(q.with_line(t)),
{
    let after = q.with_line(t);
    if !q.duplicate(t) || t.deleted_at is Some || (q.store.tasks.contains_key(t.task_id)
        && q.store.tasks[t.task_id].payload_hash == t.payload_hash) {
        assert forall|a: Seq<char>, b: Seq<char>| #[trigger]
            after.store.tasks.contains_key(a) && #[trigger] after.store.tasks.contains_key(b)
                && after.store.tasks[a].payload_hash is Some && after.store.tasks[a].payload_hash
                == after.store.tasks[b].payload_hash implies a == b by {
            if a != t.task_id {
                assert(q.store.tasks.contains_key(a));
            }
            if b != t.task_id {
                assert(q.store.tasks.contains_key(b));
            }
        }
    }
}

/// A restart knows the pending payloads again, and so does a queue after a compaction of its
/// log: what pends follows from the live tasks alone.
pub proof fn law_restart_knows_pending_payloads(
    name: Seq<char>,
    q: QueueView,
    limits: Map<Seq<char>, Seq<Timestamp>>,
    pools: Set<Seq<char>>,
    t: TaskView,
)
    ensures
        QueueView::started(name, q.store, limits, pools).duplicate(t) <==> q.duplicate(t),
        (QueueView { store: q.store.compacted(q.store.tasks), ..q }).duplicate(t) <==> q.duplicate(
            t,
        ),
{
}

/// A task after a row of failed attempts, each with its error and its time.
pub open spec fn after_failures(t: TaskView, failures: Seq<(Seq<char>, Timestamp)>) -> TaskView
    decreases failures.len(),
{
    if failures.len() == 0 {
        t
    } else {
        after_failures(t, failures.drop_last()).failed(Some(failures.last().0), failures.last().1)
    }
}

/// A task that keeps failing is attempted as often as it says, and once in any case: with `n`
/// failures behind it another attempt follows the next failure exactly where that is not yet
/// the last one of those.
pub proof fn law_a_failing_task_is_attempted_as_often_as_it_says(
    t: TaskView,
    failures: Seq<(Seq<char>, Timestamp)>,
)
    requires
        t.retry_count == 0,
    ensures
        after_failures(t, failures).retry_count == failures.len(),
        after_failures(t, failures).attempts_left() <==> failures.len() + 1 < t.max_retries,
        after_failures(t, failures).task_id == t.task_id,
        after_failures(t, failures).payload_hash == t.payload_hash,
{
    lemma_after_failures(t, failures);
}

proof fn lemma_after_failures(t: TaskView, failures: Seq<(Seq<char>, Timestamp)>)
    ensures
        after_failures(t, failures).retry_count == t.retry_count + failures.len(),
        after_failures(t, failures).max_retries == t.max_retries,
        after_failures(t, failures).task_id == t.task_id,
        after_failures(t, failures).payload_hash == t.payload_hash,
    decreases failures.len(),
{
    if failures.len() > 0 {
        lemma_after_failures(t, failures.drop_last());
    }
}

/// A task that is through is remembered for as long as it is to be, however often the memory
/// is swept until then, and is forgotten by a sweep after that.
pub proof fn law_completed_task_is_remembered_for_its_time(
    q: QueueView,
    t: TaskView,
    clock: u64,
    first: u64,
    second: u64,
)
    requires
        clock <= first <= second,
    ensures
        ({
            let once = crate::queue::remembered(q.buried(t, clock).completed, first, COMPLETED_TTL);
            let twice = crate::queue::remembered(once, second, COMPLETED_TTL);
            &&& twice.contains_key(t.task_id) <==> second - clock <= COMPLETED_TTL
            &&& twice == crate::queue::remembered(
                q.buried(t, clock).completed,
                second,
                COMPLETED_TTL,
            )
        }),
{
    let all = q.buried(t, clock).completed;
    let once = crate::queue::remembered(all, first, COMPLETED_TTL);
    assert(crate::queue::remembered(once, second, COMPLETED_TTL) =~= crate::queue::remembered(
        all,
        second,
        COMPLETED_TTL,
    ));
}

/// A task that has come to its end does not run again: with its tombstone in the log no sweep
/// finds a task of that id ready, at whatever time.
pub proof fn law_ended_task_does_not_run_again(
    q: QueueView,
    t: TaskView,
    now: Timestamp,
    clock: u64,
    any: TaskView,
    later: Timestamp,
)
    requires
        q.consistent(),
        q.tombstone(t.task_id, now) is Some,
        any.task_id == t.task_id,
    ensures
        !q.buried(t, clock).with_line(q.tombstone(t.task_id, now)->0).ready(any, later),
        q.buried(t, clock).completed.contains_key(t.task_id),
{
}

/// The memory of completed tasks holds a task back for its time only: one that is alive and is
/// found to have been through is ready again when its worker is done with it, and once its
/// entry is forgotten it is no longer found to have been through.
pub proof fn law_task_found_completed_is_held_back_for_a_time(
    q: QueueView,
    t: TaskView,
    now: Timestamp,
    clock: u64,
)
    requires
        q.store.tasks.contains_key(t.task_id),
        q.store.tasks[t.task_id] == t,
        t.due(now),
        crate::file_store::all_gone(q.store.tasks, t.dependencies()),
        !q.queued.contains(t.task_id),
        q.completed.contains_key(t.task_id),
    ensures
        q.without_executing(t.task_id).ready(t, now),
        crate::queue::age(q.completed[t.task_id], clock) > COMPLETED_TTL
            ==> !crate::queue::remembered(q.completed, clock, COMPLETED_TTL).contains_key(t.task_id),
{
}

/// A record of a log says of a task what the dashboard reads off it.
pub open spec fn record_of(m: Seq<(Seq<char>, ValueView)>, t: TaskView) -> bool {
    &&& crate::dashboard::records_deletion(m) == (t.deleted_at is Some)
    &&& crate::dashboard::records_error(m) == (t.last_job_error is Some)
    &&& crate::dashboard::int_member(m, "retryCount"@) == t.retry_count
    &&& crate::dashboard::int_member(m, "maxRetries"@) == t.max_retries
}

/// A task that the queue gives up is shown as a dead letter and counts as failed: so is the
/// record of its tombstone, where the task that ran is the one that the store has.
pub proof fn law_given_up_task_is_shown_as_dead_letter(
    q0: QueueView,
    t: TaskView,
    error: Seq<char>,
    now: Timestamp,
    clock: u64,
    q1: QueueView,
    s: Settlement,
    m: Seq<(Seq<char>, ValueView)>,
    starts: Option<Timestamp>,
    later: Timestamp,
)
    requires
        q0.store.tasks.contains_key(t.task_id),
        q0.store.tasks[t.task_id] == t,
        t.max_retries <= i32::MAX,
        !t.attempts_left(),
        crate::queue::fell_through(q0, t, error, now, clock, q1, s),
        record_of(m, crate::queue::opt_line(s->tombstone)->0),
    ensures
        s is Exhausted,
        crate::queue::opt_line(s->tombstone) is Some,
        crate::dashboard::status_of(m, starts, later) == "dead_letter"@,
        crate::dashboard::records_deletion(m) && crate::dashboard::records_error(m),
{
}

/// A task that failed and is to be tried again is ready again from the end of its delay on,
/// once its worker is done with it and where nothing that it waits for is alive.
pub proof fn law_failed_task_is_ready_after_its_delay(
    q: QueueView,
    t: TaskView,
    error: Seq<char>,
    now: Timestamp,
    later: Timestamp,
)
    requires
        q.consistent(),
        t.deleted_at is None,
        t.execute_at.at_or_before(later),
        !q.queued.contains(t.task_id),
        crate::file_store::all_gone(
            q.with_line(t.failed(Some(error), now)).store.tasks,
            t.dependencies(),
        ),
    ensures
        ({
            let line = t.failed(Some(error), now);
            let after = q.with_line(line).without_executing(t.task_id);
            after.ready(line, later) <==> now.plus_millis(t.retry_after_ms).at_or_before(later)
        }),
{
}

/// The recorded runs of a group are those of all its runs that still counted at `since`.
pub open spec fn records(
    groups: Map<Seq<char>, Seq<Timestamp>>,
    group: Seq<char>,
    history: Seq<Timestamp>,
    since: Timestamp,
) -> bool {
    crate::rate_limiter::runs_of(groups, group) == crate::rate_limiter::recent(history, since)
}

/// Over all dispatches a group keeps its limit: though only recent runs are on record, a task
/// is granted a run exactly where fewer of all the runs of its group fall into the minute
/// before than the limit says, so that the runs that are granted keep the limit in every
/// window.
pub proof fn law_group_keeps_its_limit(
    groups: Map<Seq<char>, Seq<Timestamp>>,
    t: TaskView,
    group: Seq<char>,
    limit: i32,
    history: Seq<Timestamp>,
    since: Timestamp,
    now: Timestamp,
)
    requires
        t.rate_limit_group == Some(group),
        t.max_per_minute == Some(limit),
        records(groups, group, history, since),
        since.at_or_before(now),
        crate::rate_limiter::in_order(history),
        history.len() > 0 ==> history.last().at_or_before(now),
        crate::rate_limiter::let_through(history, limit as int),
    ensures
        ({
            let granted = crate::queue::limit_grants(groups, t, now);
            let after = if granted {
                history.push(now)
            } else {
                history
            };
            &&& granted <==> crate::rate_limiter::recent(history, now).len() < limit
            &&& records(crate::queue::limits_after(groups, t, now), group, after, now)
            &&& crate::rate_limiter::in_order(after)
            &&& crate::rate_limiter::let_through(after, limit as int)
        }),
{
    crate::rate_limiter::law_forgotten_runs_never_count_again(history, since, now);
    let runs = crate::rate_limiter::recent(history, now);
    if crate::queue::limit_grants(groups, t, now) {
        let after = history.push(now);
        assert(after.drop_last() =~= history);
        assert(crate::rate_limiter::recent(after, now) == runs.push(now));
        assert forall|i: int| 0 <= i < after.len() implies crate::rate_limiter::recent(
            after.take(i),
            #[trigger] after[i],
        ).len() < limit by {
            if i < history.len() {
                assert(after.take(i) =~= history.take(i));
                assert(after[i] == history[i]);
            } else {
                assert(after.take(i) =~= history);
            }
        }
        assert forall|i: int, j: int| 0 <= i <= j < after.len() implies (
        #[trigger] after[i]).at_or_before(#[trigger] after[j]) by {
            if j == history.len() && i < j {
                assert(history[i].at_or_before(history.last()));
            }
        }
    }
}

/// A sweep goes by the time that it is given, in nanoseconds: a task that it lines up newly is
/// alive, neither the time asked for nor the time of its next attempt is still to come, and no
/// task that it is to follow is alive; and each such task that neither runs nor is lined up is
/// lined up.
pub proof fn law_sweep_lines_up_what_is_due(
    q0: QueueView,
    p0: Map<Seq<char>, PoolView>,
    q1: QueueView,
    p1: Map<Seq<char>, PoolView>,
    started: Seq<Seq<char>>,
    now: Timestamp,
    id: Seq<char>,
)
    requires
        q0.consistent(),
        crate::queue::swept(q0, p0, q1, p1, started, now),
        now.nanos < 1_000_000_000,
        q0.store.tasks.contains_key(id) ==> q0.store.tasks[id].execute_at.nanos < 1_000_000_000
            && q0.store.tasks[id].retry_after_time.nanos < 1_000_000_000,
    ensures
        q0.queued.contains(id) ==> q1.queued.contains(id),
        !q0.queued.contains(id) ==> (q1.queued.contains(id) <==> {
            let t = q0.store.tasks[id];
            &&& q0.store.tasks.contains_key(id)
            &&& t.execute_at.secs * 1_000_000_000 + t.execute_at.nanos <= now.secs * 1_000_000_000
                + now.nanos
            &&& t.retry_after_time.secs * 1_000_000_000 + t.retry_after_time.nanos <= now.secs
                * 1_000_000_000 + now.nanos
            &&& t.trigger_after_ids matches Some(ids) ==> forall|i: int|
                0 <= i < ids.len() ==> !q0.store.tasks.contains_key(#[trigger] ids[i])
            &&& !q0.executing.contains(id)
        }),
{
    if q0.store.tasks.contains_key(id) {
        crate::task::law_task_is_due_when_its_times_have_come(q0.store.tasks[id], now);
    }
}

/// A task that a sweep lines up waits for its own pool where there is a line for that, whatever
/// else is to be said of the task, and for the default pool where it names none or there is no
/// line for the one it names. It waits in no other line.
pub proof fn law_swept_task_waits_for_its_pool(
    q0: QueueView,
    p0: Map<Seq<char>, PoolView>,
    q1: QueueView,
    p1: Map<Seq<char>, PoolView>,
    started: Seq<Seq<char>>,
    now: Timestamp,
    id: Seq<char>,
    name: Seq<char>,
)
    requires
        q0.consistent(),
        crate::queue::swept(q0, p0, q1, p1, started, now),
        q1.queued.contains(id),
        !q0.queued.contains(id),
        q0.lines.contains_key(name),
    ensures
        q1.lines.contains_key(name),
        ({
            let t = q0.store.tasks[id];
            let mine = match t.pool {
                Some(p) => if q0.lines.contains_key(p) {
                    name == p
                } else {
                    name == "default"@
                },
                None => name == "default"@,
            };
            q1.lines[name].count(t) == q0.lines[name].count(t) + if mine {
                1int
            } else {
                0int
            }
        }),
{
    assert(q1.lines.dom().contains(name));
}

/// A sweep changes nothing but what is lined up: what waits more than before is a live task that
/// was newly lined up, and nothing waits less.
pub proof fn law_sweep_only_lines_up(
    q0: QueueView,
    p0: Map<Seq<char>, PoolView>,
    q1: QueueView,
    p1: Map<Seq<char>, PoolView>,
    started: Seq<Seq<char>>,
    now: Timestamp,
    name: Seq<char>,
    t: TaskView,
)
    requires
        q0.consistent(),
        crate::queue::swept(q0, p0, q1, p1, started, now),
    ensures
        q1.name == q0.name,
        q1.store == q0.store,
        q1.limits == q0.limits,
        q1.executing == q0.executing,
        q1.completed == q0.completed,
        q1.handlers == q0.handlers,
        q1.max_retry_handlers == q0.max_retry_handlers,
        q1.lines.dom() == q0.lines.dom(),
        q0.lines.contains_key(name) ==> {
            ||| q1.lines[name].count(t) == q0.lines[name].count(t)
            ||| q1.lines[name].count(t) == q0.lines[name].count(t) + 1 && q1.queued.contains(
                t.task_id,
            ) && !q0.queued.contains(t.task_id) && q0.store.tasks.contains_key(t.task_id)
                && q0.store.tasks[t.task_id] == t
        },
{
}

/// A sweep gives a dispatcher to each pool for which it lined a task up and which has fewer than
/// two, and to no other; it names these pools and leaves the workers as they are.
pub proof fn law_sweep_starts_dispatchers_for_what_it_lined_up(
    q0: QueueView,
    p0: Map<Seq<char>, PoolView>,
    q1: QueueView,
    p1: Map<Seq<char>, PoolView>,
    started: Seq<Seq<char>>,
    now: Timestamp,
    name: Seq<char>,
)
    requires
        q0.consistent(),
        q0.lines.contains_key("default"@),
        crate::queue::swept(q0, p0, q1, p1, started, now),
    ensures
        started.contains(name) <==> {
            &&& p0.contains_key(name)
            &&& p0[name].dispatchers < 2
            &&& q0.lines.contains_key(name)
            &&& exists|t: TaskView| #[trigger] q1.lines[name].count(t) > q0.lines[name].count(t)
        },
        p1.contains_key(name) == p0.contains_key(name),
        p0.contains_key(name) ==> {
            &&& p1[name].capacity == p0[name].capacity
            &&& p1[name].running == p0[name].running
            &&& p1[name].dispatchers == p0[name].dispatchers + if started.contains(name) {
                1int
            } else {
                0int
            }
        },
        forall|i: int, j: int|
            0 <= i < j < started.len() ==> started[i] != started[j] && crate::text::text_before(
                started[i],
                started[j],
            ),
{
    if started.contains(name) {
        assert(q0.feeds(name, now));
        let id = choose|id: Seq<char>| #[trigger]
            q0.store.tasks.contains_key(id) && q0.ready(q0.store.tasks[id], now)
                && crate::queue::target_pool(q0.lines, q0.store.tasks[id]) == name;
        let t = q0.store.tasks[id];
        assert(q0.lines.contains_key(name));
        assert(q1.lines[name].count(t) > q0.lines[name].count(t));
    }
    if q0.lines.contains_key(name) && exists|t: TaskView| #[trigger]
        q1.lines[name].count(t) > q0.lines[name].count(t) {
        let t = choose|t: TaskView| #[trigger] q1.lines[name].count(t) > q0.lines[name].count(t);
        assert(q0.ready(t, now));
        assert(q0.store.tasks.contains_key(t.task_id));
        assert(q0.feeds(name, now));
    }
    assert forall|i: int, j: int| 0 <= i < j < started.len() implies started[i] != started[j]
        && crate::text::text_before(started[i], started[j]) by {
        assert(crate::text::text_before(started[i], started[j]));
        crate::text::law_texts_are_ordered(started[i], started[j], started[i]);
    }
}

/// A task that leaves its line leaves it once, and the other lines stay. Where the limit of its
/// group grants no run it may run a minute later and is otherwise as it was. Where it runs
/// already it is left alone. Else it is handed out as it waited and one more worker of the pool
/// is at work. Nothing else changes.
pub proof fn law_released_task_is_handed_out_or_put_off(
    q0: QueueView,
    p0: Map<Seq<char>, PoolView>,
    pool: Seq<char>,
    t: TaskView,
    now: Timestamp,
    q1: QueueView,
    p1: Map<Seq<char>, PoolView>,
    d: Dispatch,
)
    requires
        q0.lines.contains_key(pool),
        now.secs + 60 <= i64::MAX,
        crate::queue::released(q0, p0, pool, t, now, q1, p1, d),
    ensures
        q1.lines == q0.lines.insert(pool, q0.lines[pool].remove(t)),
        q1.queued == q0.queued.remove(t.task_id),
        q1.limits == crate::queue::limits_after(q0.limits, t, now),
        q1.name == q0.name,
        q1.store == q0.store,
        q1.completed == q0.completed,
        q1.clock == q0.clock,
        q1.handlers == q0.handlers,
        q1.max_retry_handlers == q0.max_retry_handlers,
        d is Deferred <==> !crate::queue::limit_grants(q0.limits, t, now),
        d is Skipped <==> crate::queue::limit_grants(q0.limits, t, now) && q0.executing.contains(
            t.task_id,
        ),
        d is Execute <==> crate::queue::limit_grants(q0.limits, t, now) && !q0.executing.contains(
            t.task_id,
        ),
        d matches Dispatch::Execute(task) ==> {
            &&& task@ == t
            &&& q1.executing == q0.executing.insert(t.task_id)
            &&& p1 == p0.insert(pool, p1[pool])
            &&& p1[pool].running == p0[pool].running + 1
            &&& p1[pool].capacity == p0[pool].capacity
            &&& p1[pool].dispatchers == p0[pool].dispatchers
        },
        d !is Execute ==> q1.executing == q0.executing && p1 == p0,
        d matches Dispatch::Deferred(line) ==> {
            &&& line@ == (TaskView { retry_after_time: line@.retry_after_time, ..t })
            &&& line@.retry_after_time.secs == now.secs + 60
            &&& line@.retry_after_time.nanos == now.nanos
        },
{
}

/// The limit of a task holds it back exactly where its group has had as many runs in the last
/// sixty seconds as it allows; a task without a group or without a limit is never held back. A
/// run that is granted is put on record, and no other group is touched.
pub proof fn law_limit_holds_back_by_the_last_sixty_seconds(
    groups: Map<Seq<char>, Seq<Timestamp>>,
    t: TaskView,
    now: Timestamp,
    other: Seq<char>,
)
    requires
        now.nanos < 1_000_000_000,
        t.rate_limit_group matches Some(group) ==> groups.contains_key(group) ==> forall|i: int|
            0 <= i < groups[group].len() ==> (#[trigger] groups[group][i]).nanos < 1_000_000_000,
    ensures
        t.rate_limit_group is None || t.max_per_minute is None ==> crate::queue::limit_grants(
            groups,
            t,
            now,
        ) && crate::queue::limits_after(groups, t, now) == groups,
        t.rate_limit_group is Some && t.max_per_minute is Some ==> {
            let group = t.rate_limit_group->0;
            let runs = if groups.contains_key(group) {
                groups[group].filter(
                    |r: Timestamp|
                        (now.secs * 1_000_000_000 + now.nanos) - (r.secs * 1_000_000_000 + r.nanos)
                            < 60_000_000_000,
                )
            } else {
                Seq::empty()
            };
            let granted = runs.len() < t.max_per_minute->0;
            let after = crate::queue::limits_after(groups, t, now);
            &&& crate::queue::limit_grants(groups, t, now) == granted
            &&& after.contains_key(group)
            &&& after[group] == if granted {
                runs.push(now)
            } else {
                runs
            }
            &&& other != group ==> after.contains_key(other) == groups.contains_key(other)
            &&& other != group && groups.contains_key(other) ==> after[other] == groups[other]
        },
{
    if t.rate_limit_group is Some && t.max_per_minute is Some {
        let runs = crate::rate_limiter::runs_of(groups, t.rate_limit_group->0);
        crate::rate_limiter::law_recent_runs_are_those_of_the_last_minute(runs, now);
        if !groups.contains_key(t.rate_limit_group->0) {
            assert(crate::rate_limiter::recent(runs, now) =~= Seq::<Timestamp>::empty());
        }
    }
}

/// A dispatcher ends exactly where nothing waits for its pool, and is counted out then. What it
/// takes is waited on by none that is more urgent, and by none as urgent that is older.
pub proof fn law_dispatch_takes_the_most_urgent(
    q0: QueueView,
    p0: Map<Seq<char>, PoolView>,
    pool: Seq<char>,
    now: Timestamp,
    q1: QueueView,
    p1: Map<Seq<char>, PoolView>,
    d: Dispatch,
)
    requires
        q0.lines.contains_key(pool),
        p0.contains_key(pool),
        p0[pool].dispatchers > 0,
        crate::queue::dispatched(q0, p0, pool, now, q1, p1, d),
    ensures
        d is Idle <==> q0.lines[pool].len() == 0,
        d is Idle ==> {
            &&& q1 == q0
            &&& p1 == p0.insert(pool, p1[pool])
            &&& p1[pool].dispatchers == p0[pool].dispatchers - 1
            &&& p1[pool].running == p0[pool].running
            &&& p1[pool].capacity == p0[pool].capacity
        },
        d !is Idle ==> exists|t: TaskView|
            {
                &&& #[trigger] q0.lines[pool].contains(t)
                &&& crate::queue::released(q0, p0, pool, t, now, q1, p1, d)
                &&& forall|u: TaskView| #[trigger]
                    q0.lines[pool].contains(u) ==> u.urgency < t.urgency || (u.urgency
                        == t.urgency && t.created_at.at_or_before(u.created_at))
            },
{
    if q0.waits_for(pool) {
        let t = choose|t: TaskView|
            {
                &&& #[trigger] crate::priority::served_first(q0.lines[pool], t)
                &&& crate::queue::released(q0, p0, pool, t, now, q1, p1, d)
            };
        assert(q0.lines[pool].contains(t));
        assert forall|u: TaskView| #[trigger] q0.lines[pool].contains(u) implies u.urgency
            < t.urgency || (u.urgency == t.urgency && t.created_at.at_or_before(u.created_at)) by {
            assert(!crate::priority::outranks(u, t));
            crate::time::law_times_are_totally_ordered(t.created_at, u.created_at, t.created_at);
        }
    }
}

/// A task with an address is posted there for every set of handlers; a task is not run at all
/// only where it has been through lately, or where it has neither an address nor a handler. What
/// is planned follows from the task, from whether its type has a handler and from whether it has
/// been through, and from nothing else.
pub proof fn law_plan_follows_the_address(q: QueueView, t: TaskView, e: Execution)
    requires
        crate::queue::planned(q, t, e),
    ensures
        e is AlreadyCompleted <==> q.completed.contains_key(t.task_id),
        e is Webhook <==> !q.completed.contains_key(t.task_id) && t.webhook_url is Some,
        e is Handler <==> !q.completed.contains_key(t.task_id) && t.webhook_url is None
            && q.handlers.contains(t.task_type),
        e is NoHandler <==> !q.completed.contains_key(t.task_id) && t.webhook_url is None
            && !q.handlers.contains(t.task_type),
        e matches Execution::Webhook { url, payload, timeout } ==> Some(url@) == t.webhook_url
            && timeout == t.max_execution_seconds,
        e matches Execution::Handler { data, timeout } ==> data@ == t.task_data && timeout
            == t.max_execution_seconds,
        t.webhook_url is Some ==> forall|other: QueueView|
            other.completed == q.completed ==> #[trigger] crate::queue::planned(other, t, e),
{
}

/// A task that came through and has a next tick is set for it and for nothing else, and the queue
/// stays as it is. One without a next tick is remembered as through, and its tombstone, where it
/// is still alive, is the stored task with the time of its end.
pub proof fn law_success_sets_the_next_run_or_buries(
    q0: QueueView,
    t: TaskView,
    next: Option<Timestamp>,
    now: Timestamp,
    clock: u64,
    q1: QueueView,
    s: Settlement,
)
    requires
        crate::queue::came_through(q0, t, next, now, clock, q1, s),
    ensures
        next matches Some(tick) ==> {
            &&& q1 == q0
            &&& s matches Settlement::Rescheduled(line)
            &&& line@ == (TaskView {
                execute_at: tick,
                retry_count: 0,
                last_error_obj: None,
                last_job_error: None,
                ..t
            })
            &&& line@.task_id == t.task_id
            &&& line@.task_type == t.task_type
            &&& line@.task_data == t.task_data
            &&& line@.webhook_url == t.webhook_url
            &&& line@.cron_expression == t.cron_expression
            &&& line@.max_retries == t.max_retries
        },
        next is None ==> {
            &&& q1 == (QueueView { completed: q0.completed.insert(t.task_id, clock), ..q0 })
            &&& s matches Settlement::Completed(tombstone)
            &&& tombstone is Some <==> q0.store.tasks.contains_key(t.task_id)
            &&& tombstone matches Some(line) ==> line@ == (TaskView {
                deleted_at: Some(now),
                ..q0.store.tasks[t.task_id]
            })
        },
{
}

/// The next tick is that of the task's own schedule, and there is none for a task without one.
pub proof fn law_next_tick_is_that_of_the_schedule(t: TaskView, now: Timestamp)
    ensures
        t.cron_expression is None ==> crate::queue::next_tick(t, now) is None,
        t.cron_expression matches Some(expr) ==> crate::queue::next_tick(t, now)
            == crate::schedule::next_run_at(expr, now),
{
}

/// A task that failed and has attempts left is tried again after its delay, with the failure
/// counted and on record, and the queue stays as it is. One without is remembered as through, the
/// notice goes out, and its tombstone, where it is still alive, is the stored task with the
/// failure counted and on record.
pub proof fn law_failure_is_tried_again_or_given_up(
    q0: QueueView,
    t: TaskView,
    error: Seq<char>,
    now: Timestamp,
    clock: u64,
    q1: QueueView,
    s: Settlement,
)
    requires
        now.nanos < 1_000_000_000,
        now.secs + t.retry_after_ms / 1000 + 1 <= i64::MAX,
        crate::queue::fell_through(q0, t, error, now, clock, q1, s),
    ensures
        s is Retried <==> t.retry_count + 1 < t.max_retries,
        s is Exhausted <==> t.retry_count + 1 >= t.max_retries,
        s matches Settlement::Retried(line) ==> {
            &&& q1 == q0
            &&& line@ == (TaskView {
                retry_count: t.retry_count + 1,
                last_error_obj: Some(error),
                last_job_error: Some(error),
                updated_at: now,
                retry_after_time: line@.retry_after_time,
                ..t
            })
            &&& line@.retry_after_time.secs * 1_000_000_000 + line@.retry_after_time.nanos
                == now.secs * 1_000_000_000 + now.nanos + t.retry_after_ms * 1_000_000
        },
        s matches Settlement::Exhausted { notice, tombstone } ==> {
            &&& q1 == (QueueView { completed: q0.completed.insert(t.task_id, clock), ..q0 })
            &&& crate::execution::notified(
                t,
                q0.max_retry_handlers.contains(t.task_type),
                notice,
            )
            &&& tombstone is Some <==> q0.store.tasks.contains_key(t.task_id)
            &&& tombstone matches Some(line) ==> {
                let u = q0.store.tasks[t.task_id];
                line@ == (TaskView {
                    retry_count: if u.retry_count < i32::MAX {
                        u.retry_count + 1
                    } else {
                        u.retry_count
                    },
                    last_error_obj: Some(error),
                    last_job_error: Some(error),
                    updated_at: now,
                    deleted_at: Some(now),
                    ..u
                })
            }
        },
{
    crate::time::law_times_move_on_by_as_much(now, 0, t.retry_after_ms);
}

/// A payload is pending exactly where a live task has the same digest; a task without a digest is
/// never taken for another.
pub proof fn law_task_is_dropped_for_a_live_one_alone(q: QueueView, t: TaskView)
    ensures
        t.payload_hash is None ==> !q.duplicate(t),
        t.payload_hash is Some ==> (q.duplicate(t) <==> exists|id: Seq<char>| #[trigger]
            q.store.tasks.contains_key(id) && q.store.tasks[id].payload_hash == t.payload_hash),
{
}

/// A completed task is forgotten exactly where it is older than the time for which it is to be
/// remembered, and one that is remembered keeps its time.
pub proof fn law_completed_task_is_forgotten_when_it_is_older(
    completed: Map<Seq<char>, u64>,
    now: u64,
    ttl: u64,
    id: Seq<char>,
)
    ensures
        crate::queue::remembered(completed, now, ttl).contains_key(id) <==> {
            &&& completed.contains_key(id)
            &&& now - completed[id] <= ttl
        },
        crate::queue::remembered(completed, now, ttl).contains_key(id) ==> crate::queue::remembered(
            completed,
            now,
            ttl,
        )[id] == completed[id],
{
}

/// A queue that starts has the store and the limits that it is given and nothing else.
pub proof fn law_queue_starts_with_its_store_alone(
    name: Seq<char>,
    store: StoreView,
    limits: Map<Seq<char>, Seq<Timestamp>>,
    pools: Set<Seq<char>>,
    pool: Seq<char>,
    id: Seq<char>,
)
    ensures
        ({
            let q = QueueView::started(name, store, limits, pools);
            &&& q.name == name
            &&& q.store == store
            &&& q.limits == limits
            &&& q.lines.contains_key(pool) <==> pools.contains(pool)
            &&& pools.contains(pool) ==> q.lines[pool].len() == 0
            &&& !q.executing.contains(id)
            &&& !q.queued.contains(id)
            &&& !q.completed.contains_key(id)
            &&& !q.handlers.contains(id)
            &&& !q.max_retry_handlers.contains(id)
            &&& q.clock.len() == 0
        }),
{
    broadcast use vstd::multiset::group_multiset_axioms;

}

/// A handler that is registered counts for its type and its kind, and what was registered stays.
pub proof fn law_handler_counts_for_its_type(
    q: QueueView,
    kind: HandlerKind,
    task_type: Seq<char>,
    other: Seq<char>,
)
    ensures
        q.with_handler(HandlerKind::Run, task_type).handlers.contains(other) <==> other
            == task_type || q.handlers.contains(other),
        q.with_handler(HandlerKind::Run, task_type).max_retry_handlers == q.max_retry_handlers,
        q.with_handler(HandlerKind::GiveUp, task_type).max_retry_handlers.contains(other)
            <==> other == task_type || q.max_retry_handlers.contains(other),
        q.with_handler(HandlerKind::GiveUp, task_type).handlers == q.handlers,
        q.with_handler(kind, task_type) == (QueueView {
            handlers: q.with_handler(kind, task_type).handlers,
            max_retry_handlers: q.with_handler(kind, task_type).max_retry_handlers,
            ..q
        }),
{
}

/// A worker that is done with a task takes it off those that run and leaves all else as it is; so
/// does a line that is taken in with all but the store.
pub proof fn law_ends_and_lines_touch_no_more(q: QueueView, id: Seq<char>, t: TaskView)
    ensures
        q.without_executing(id) == (QueueView { executing: q.executing.remove(id), ..q }),
        q.with_line(t) == (QueueView { store: q.with_line(t).store, ..q }),
        t.deleted_at is None ==> q.with_line(t).store.tasks == q.store.tasks.insert(t.task_id, t),
        t.deleted_at is Some ==> q.with_line(t).store.tasks == q.store.tasks.remove(t.task_id),
{
}

/// A tombstone is that of a live task and of no other: the stored task with the time of its end,
/// and for one that is given up with the last failure counted and on record.
pub proof fn law_only_live_tasks_get_a_tombstone(
    q: QueueView,
    id: Seq<char>,
    error: Seq<char>,
    now: Timestamp,
    line: RetryableTask,
)
    ensures
        q.tombstone(id, now) is Some <==> q.store.tasks.contains_key(id),
        q.dead_letter(id, error, now) is Some <==> q.store.tasks.contains_key(id),
        q.store.tasks.contains_key(id) ==> {
            let t = q.store.tasks[id];
            &&& q.tombstone(id, now)->0 == (TaskView { deleted_at: Some(now), ..t })
            &&& q.dead_letter(id, error, now)->0 == (TaskView {
                retry_count: if t.retry_count < i32::MAX {
                    t.retry_count + 1
                } else {
                    t.retry_count
                },
                last_error_obj: Some(error),
                last_job_error: Some(error),
                updated_at: now,
                deleted_at: Some(now),
                ..t
            })
        },
        crate::queue::opt_line(None) is None,
        crate::queue::opt_line(Some(line)) == Some(line@),
{
}

} // verus!
