//! Whole runs of a queue, from the first task that is enqueued to the end of all work.

use vstd::prelude::*;

use crate::execution::Execution;
use crate::pools::PoolView;
use crate::queue::{Dispatch, QueueView, Settlement, COMPLETED_TTL};
use crate::task::TaskView;
use crate::time::Timestamp;

verus! {

/// How far a worker is with a task.
pub enum Phase {
    /// The task was handed to the worker.
    InHand(TaskView),
    /// The handler of the task was called and has not returned.
    Running(TaskView),
    /// The worker is through with the task.
    Done,
}

/// A queue at a point of a run, with what has happened so far.
#[verifier::ext_equal]
pub struct RunView {
    pub q: QueueView,
    /// The pools of the queue.
    pub p: Map<Seq<char>, PoolView>,
    /// The tasks that were enqueued, by id.
    pub jobs: Map<Seq<char>, TaskView>,
    /// The tasks that workers have, by id.
    pub phases: Map<Seq<char>, Phase>,
    /// How often the handler was called for each task.
    pub calls: Map<Seq<char>, nat>,
    /// A sweep has come after the last task was enqueued.
    pub swept: bool,
}

/// A task that is due from `from` on and that its handler runs: it waits for nothing, and has
/// neither a schedule nor an address nor a limit.
pub open spec fn plain_job(t: TaskView, from: Timestamp) -> bool {
    &&& t.deleted_at is None
    &&& t.execute_at.at_or_before(from)
    &&& t.retry_after_time.at_or_before(from)
    &&& t.dependencies().len() == 0
    &&& t.cron_expression is None
    &&& t.webhook_url is None
    &&& t.rate_limit_group is None
}

/// A run that has not begun: a queue that starts with nothing in its store.
pub open spec fn begins(r: RunView) -> bool {
    &&& r.q == (QueueView {
        handlers: r.q.handlers,
        max_retry_handlers: r.q.max_retry_handlers,
        ..QueueView::started(r.q.name, r.q.store, r.q.limits, r.p.dom())
    })
    &&& r.q.store.tasks == Map::<Seq<char>, TaskView>::empty()
    &&& r.p.contains_key("default"@)
    &&& r.jobs == Map::<Seq<char>, TaskView>::empty()
    &&& r.phases == Map::<Seq<char>, Phase>::empty()
    &&& r.calls == Map::<Seq<char>, nat>::empty()
}

/// A task with a new id is enqueued.
pub open spec fn enqueues(r0: RunView, r1: RunView, t: TaskView, from: Timestamp) -> bool {
    &&& plain_job(t, from)
    &&& r0.q.handlers.contains(t.task_type)
    &&& !r0.jobs.contains_key(t.task_id)
    &&& !r0.q.duplicate(t)
    &&& r1 == (RunView {
        q: r0.q.with_line(t),
        jobs: r0.jobs.insert(t.task_id, t),
        calls: r0.calls.insert(t.task_id, 0),
        swept: false,
        ..r0
    })
}

/// A sweep.
pub open spec fn sweeps(
    r0: RunView,
    r1: RunView,
    started: Seq<Seq<char>>,
    now: Timestamp,
    from: Timestamp,
) -> bool {
    &&& from.at_or_before(now)
    &&& crate::queue::swept(r0.q, r0.p, r1.q, r1.p, started, now)
    &&& r1 == (RunView { q: r1.q, p: r1.p, swept: true, ..r0 })
}

/// A step of a dispatcher.
pub open spec fn dispatches(
    r0: RunView,
    r1: RunView,
    pool: Seq<char>,
    now: Timestamp,
    d: Dispatch,
) -> bool {
    &&& crate::queue::dispatched(r0.q, r0.p, pool, now, r1.q, r1.p, d)
    &&& r1 == (RunView {
        q: r1.q,
        p: r1.p,
        phases: match d {
            Dispatch::Execute(task) => r0.phases.insert(task@.task_id, Phase::InHand(task@)),
            _ => r0.phases,
        },
        ..r0
    })
}

/// A worker takes up a task that was handed to it. The handler is called where the task is to be
/// run by it.
pub open spec fn begins_task(r0: RunView, r1: RunView, id: Seq<char>, e: Execution) -> bool {
    &&& r0.phases.contains_key(id)
    &&& r0.phases[id] matches Phase::InHand(t)
    &&& crate::queue::planned(r0.q, t, e)
    &&& r1 == match e {
        Execution::Handler { .. } => RunView {
            phases: r0.phases.insert(id, Phase::Running(t)),
            calls: r0.calls.insert(id, r0.calls[id] + 1),
            ..r0
        },
        _ => RunView { phases: r0.phases.insert(id, Phase::Done), ..r0 },
    }
}

/// The handler of a task returns without an error: the task is settled, and the line that comes
/// of it is appended.
pub open spec fn settles(
    r0: RunView,
    r1: RunView,
    id: Seq<char>,
    now: Timestamp,
    clock: u64,
    q1: QueueView,
    s: Settlement,
) -> bool {
    &&& r0.phases.contains_key(id)
    &&& r0.phases[id] matches Phase::Running(t)
    &&& crate::queue::came_through(
        r0.q,
        t,
        crate::queue::next_tick(t, now),
        now,
        clock,
        q1,
        s,
    )
    &&& r1 == (RunView {
        q: match s {
            Settlement::Rescheduled(line) => q1.with_line(line@),
            Settlement::Completed(Some(line)) => q1.with_line(line@),
            _ => q1,
        },
        phases: r0.phases.insert(id, Phase::Done),
        ..r0
    })
}

/// A worker of a pool is done with a task.
pub open spec fn ends(r0: RunView, r1: RunView, pool: Seq<char>, id: Seq<char>) -> bool {
    &&& r0.p.contains_key(pool)
    &&& r0.phases.contains_key(id)
    &&& r0.phases[id] is Done
    &&& r1 == (RunView {
        q: r0.q.without_executing(id),
        p: r0.p.insert(
            pool,
            PoolView { running: (r0.p[pool].running - 1) as nat, ..r0.p[pool] },
        ),
        phases: r0.phases.remove(id),
        ..r0
    })
}

/// Completed tasks are forgotten.
pub open spec fn forgets(r0: RunView, r1: RunView, clock: u64) -> bool {
    r1 == (RunView {
        q: QueueView {
            completed: crate::queue::remembered(r0.q.completed, clock, COMPLETED_TTL),
            ..r0.q
        },
        ..r0
    })
}

/// The log is compacted.
pub open spec fn compacts(r0: RunView, r1: RunView) -> bool {
    r1 == (RunView {
        q: QueueView { store: r0.q.store.compacted(r0.q.store.tasks), ..r0.q },
        ..r0
    })
}

/// A step of a run, of whatever sort.
pub open spec fn steps(r0: RunView, r1: RunView, from: Timestamp) -> bool {
    ||| exists|t: TaskView| #[trigger] enqueues(r0, r1, t, from)
    ||| exists|started: Seq<Seq<char>>, now: Timestamp| #[trigger]
        sweeps(r0, r1, started, now, from)
    ||| exists|
        pool: Seq<char>,
        now: Timestamp,
        d: Dispatch,
    | #[trigger]
        dispatches(r0, r1, pool, now, d)
    ||| exists|id: Seq<char>, e: Execution| #[trigger] begins_task(r0, r1, id, e)
    ||| exists|id: Seq<char>, now: Timestamp, clock: u64, q1: QueueView, s: Settlement| #[trigger]
        settles(r0, r1, id, now, clock, q1, s)
    ||| exists|pool: Seq<char>, id: Seq<char>| #[trigger] ends(r0, r1, pool, id)
    ||| exists|clock: u64| #[trigger] forgets(r0, r1, clock)
    ||| compacts(r0, r1)
}

/// A run: steps in a row from the start on.
pub open spec fn is_run(run: Seq<RunView>, from: Timestamp) -> bool {
    &&& run.len() > 0
    &&& begins(run[0])
    &&& forall|i: int| 0 < i < run.len() ==> steps(run[i - 1], #[trigger] run[i], from)
}

/// All work has settled: a sweep has come after the last task was enqueued, and nothing waits
/// and nothing runs any more.
pub open spec fn settled(r: RunView) -> bool {
    &&& r.swept
    &&& r.q.queued == Set::<Seq<char>>::empty()
    &&& r.q.executing == Set::<Seq<char>>::empty()
}

/// Where an enqueued task stands: it is alive and was not run, or it runs, or it was run once and
/// is gone.
pub open spec fn stands(r: RunView, id: Seq<char>) -> bool {
    let alive = r.q.store.tasks.contains_key(id);
    &&& r.q.completed.contains_key(id) ==> !alive && r.calls[id] == 1
    &&& if r.phases.contains_key(id) {
        match r.phases[id] {
            Phase::InHand(t) => t == r.jobs[id] && alive && r.calls[id] == 0,
            Phase::Running(t) => t == r.jobs[id] && alive && r.calls[id] == 1,
            Phase::Done => !alive && r.calls[id] == 1,
        }
    } else if r.q.queued.contains(id) {
        alive && r.calls[id] == 0
    } else if alive {
        !r.swept && r.calls[id] == 0
    } else {
        r.calls[id] == 1
    }
}

/// Every enqueued task is accounted for, and nothing else is about.
pub open spec fn accounted(r: RunView, from: Timestamp) -> bool {
    &&& r.q.consistent()
    &&& r.q.lines.contains_key("default"@)
    &&& crate::queue_laws::one_place_each(r.q)
    &&& crate::queue_laws::served(r.q, r.p)
    &&& r.q.executing == r.phases.dom()
    &&& forall|id: Seq<char>| #[trigger]
        r.jobs.contains_key(id) ==> {
            &&& plain_job(r.jobs[id], from)
            &&& r.jobs[id].task_id == id
            &&& r.q.handlers.contains(r.jobs[id].task_type)
            &&& stands(r, id)
        }
    &&& forall|id: Seq<char>| #[trigger]
        r.q.store.tasks.contains_key(id) ==> r.jobs.contains_key(id) && r.q.store.tasks[id]
            == r.jobs[id]
    &&& forall|name: Seq<char>, t: TaskView|
        r.q.lines.contains_key(name) && #[trigger] r.q.lines[name].count(t) > 0
            ==> r.jobs.contains_key(t.task_id) && t == r.jobs[t.task_id]
    &&& forall|id: Seq<char>| #[trigger] r.q.queued.contains(id) ==> r.jobs.contains_key(id)
    &&& forall|id: Seq<char>| #[trigger] r.phases.contains_key(id) ==> r.jobs.contains_key(id)
    &&& forall|id: Seq<char>| #[trigger] r.q.completed.contains_key(id) ==> r.jobs.contains_key(id)
}

proof fn lemma_begins(r: RunView, from: Timestamp)
    requires
        begins(r),
    ensures
        accounted(r, from),
{
    broadcast use vstd::multiset::group_multiset_axioms;

    assert(r.q.executing =~= r.phases.dom());
}

proof fn lemma_enqueues(r0: RunView, r1: RunView, t: TaskView, from: Timestamp)
    requires
        accounted(r0, from),
        enqueues(r0, r1, t, from),
    ensures
        accounted(r1, from),
{
    assert forall|id: Seq<char>| #[trigger] r1.jobs.contains_key(id) implies {
        &&& plain_job(r1.jobs[id], from)
        &&& r1.jobs[id].task_id == id
        &&& r1.q.handlers.contains(r1.jobs[id].task_type)
        &&& stands(r1, id)
    } by {
        if id != t.task_id {
            assert(r0.jobs.contains_key(id));
            assert(stands(r0, id));
        }
    }
    assert(crate::queue_laws::one_place_each(r1.q)) by {
        assert(r1.q.lines == r0.q.lines && r1.q.queued == r0.q.queued);
    }
    assert(crate::queue_laws::served(r1.q, r1.p));
}

proof fn lemma_sweeps(
    r0: RunView,
    r1: RunView,
    started: Seq<Seq<char>>,
    now: Timestamp,
    from: Timestamp,
)
    requires
        accounted(r0, from),
        sweeps(r0, r1, started, now, from),
    ensures
        accounted(r1, from),
{
    crate::queue_laws::law_sweep_lines_up_once(r0.q, r0.p, r1.q, r1.p, started, now);
    crate::queue_laws::law_waiting_tasks_are_served(
        r0.q,
        r0.p,
        r1.q,
        r1.p,
        started,
        now,
        r0.q,
    );
    assert forall|id: Seq<char>| #[trigger] r1.jobs.contains_key(id) implies stands(r1, id) by {
        assert(stands(r0, id));
        let t = r0.jobs[id];
        if r0.q.store.tasks.contains_key(id) && !r0.phases.contains_key(id) {
            assert(!r0.q.executing.contains(id));
            assert(t.due(now));
            assert(crate::file_store::all_gone(r0.q.store.tasks, t.dependencies()));
            assert(r1.q.queued.contains(id));
        }
        if r1.q.queued.contains(id) && !r0.q.queued.contains(id) {
            assert(r0.q.ready(t, now));
        }
    }
    assert forall|name: Seq<char>, t: TaskView|
        r1.q.lines.contains_key(name) && #[trigger] r1.q.lines[name].count(t)
            > 0 implies r1.jobs.contains_key(t.task_id) && t == r1.jobs[t.task_id] by {
        assert(r0.q.lines.dom().contains(name));
        if r0.q.lines[name].count(t) == 0 {
            assert(r0.q.ready(t, now));
        }
    }
    assert(r0.q.lines.dom().contains("default"@));
    assert(r1.q.lines.contains_key("default"@));
}

proof fn lemma_dispatches(
    r0: RunView,
    r1: RunView,
    pool: Seq<char>,
    now: Timestamp,
    d: Dispatch,
    from: Timestamp,
)
    requires
        accounted(r0, from),
        dispatches(r0, r1, pool, now, d),
    ensures
        accounted(r1, from),
{
    broadcast use vstd::multiset::group_multiset_axioms;

    crate::queue_laws::law_dispatch_hands_out_once(r0.q, r0.p, pool, now, r1.q, r1.p, d);
    crate::queue_laws::law_dispatch_leaves_waiting_tasks_served(
        r0.q,
        r0.p,
        pool,
        now,
        r1.q,
        r1.p,
        d,
    );
    if r0.q.waits_for(pool) {
        let t = choose|t: TaskView|
            {
                &&& #[trigger] crate::priority::served_first(r0.q.lines[pool], t)
                &&& crate::queue::released(r0.q, r0.p, pool, t, now, r1.q, r1.p, d)
            };
        assert(r0.q.lines[pool].count(t) > 0);
        assert(r0.q.queued.contains(t.task_id));
        assert(r0.jobs.contains_key(t.task_id) && t == r0.jobs[t.task_id]);
        assert(plain_job(t, from));
        assert(crate::queue::limit_grants(r0.q.limits, t, now));
        assert(!r0.q.executing.contains(t.task_id));
        assert(d is Execute);
        assert(r1.q.executing =~= r1.phases.dom());
        assert forall|id: Seq<char>| #[trigger] r1.jobs.contains_key(id) implies stands(r1, id) by {
            assert(stands(r0, id));
        }
        assert forall|name: Seq<char>, u: TaskView|
            r1.q.lines.contains_key(name) && #[trigger] r1.q.lines[name].count(u)
                > 0 implies r1.jobs.contains_key(u.task_id) && u == r1.jobs[u.task_id] by {
            assert(r0.q.lines[name].count(u) > 0);
        }
    } else {
        assert forall|id: Seq<char>| #[trigger] r1.jobs.contains_key(id) implies stands(r1, id) by {
            assert(stands(r0, id));
        }
        assert forall|name: Seq<char>, u: TaskView|
            r1.q.lines.contains_key(name) && #[trigger] r1.q.lines[name].count(u)
                > 0 implies r1.jobs.contains_key(u.task_id) && u == r1.jobs[u.task_id] by {
            assert(r0.q.lines[name].count(u) > 0);
        }
    }
}

proof fn lemma_begins_task(r0: RunView, r1: RunView, id: Seq<char>, e: Execution, from: Timestamp)
    requires
        accounted(r0, from),
        begins_task(r0, r1, id, e),
    ensures
        accounted(r1, from),
{
    assert(r0.jobs.contains_key(id));
    assert(stands(r0, id));
    assert(r1.q.executing =~= r1.phases.dom());
    assert forall|x: Seq<char>| #[trigger] r1.jobs.contains_key(x) implies stands(r1, x) by {
        assert(stands(r0, x));
    }
}

proof fn lemma_settles(
    r0: RunView,
    r1: RunView,
    id: Seq<char>,
    now: Timestamp,
    clock: u64,
    q1: QueueView,
    s: Settlement,
    from: Timestamp,
)
    requires
        accounted(r0, from),
        settles(r0, r1, id, now, clock, q1, s),
    ensures
        accounted(r1, from),
{
    assert(r0.jobs.contains_key(id));
    assert(stands(r0, id));
    let t = r0.jobs[id];
    assert(q1 == r0.q.buried(t, clock));
    assert(r0.q.tombstone(id, now) == Some(t.deleted(now)));
    assert(r1.q == q1.with_line(t.deleted(now)));
    assert(r1.q.executing =~= r1.phases.dom());
    assert forall|x: Seq<char>| #[trigger] r1.jobs.contains_key(x) implies stands(r1, x) by {
        assert(stands(r0, x));
    }
    assert forall|x: Seq<char>| #[trigger] r1.q.store.tasks.contains_key(x) implies r1.jobs.contains_key(
        x,
    ) && r1.q.store.tasks[x] == r1.jobs[x] by {
        assert(r0.q.store.tasks.contains_key(x));
    }
    assert(crate::queue_laws::one_place_each(r1.q)) by {
        assert(r1.q.lines == r0.q.lines && r1.q.queued == r0.q.queued);
    }
}

proof fn lemma_other_steps(r0: RunView, r1: RunView, from: Timestamp)
    requires
        accounted(r0, from),
        ({
            ||| exists|pool: Seq<char>, id: Seq<char>| #[trigger] ends(r0, r1, pool, id)
            ||| exists|clock: u64| #[trigger] forgets(r0, r1, clock)
            ||| compacts(r0, r1)
        }),
    ensures
        accounted(r1, from),
{
    assert(r1.q.executing =~= r1.phases.dom());
    assert forall|x: Seq<char>| #[trigger] r1.jobs.contains_key(x) implies stands(r1, x) by {
        assert(stands(r0, x));
    }
    assert(crate::queue_laws::one_place_each(r1.q)) by {
        assert(r1.q.lines == r0.q.lines && r1.q.queued == r0.q.queued);
    }
    assert(r1.q.queued.disjoint(r1.q.executing));
}

proof fn lemma_steps(r0: RunView, r1: RunView, from: Timestamp)
    requires
        accounted(r0, from),
        steps(r0, r1, from),
    ensures
        accounted(r1, from),
{
    if exists|t: TaskView| #[trigger] enqueues(r0, r1, t, from) {
        let t = choose|t: TaskView| #[trigger] enqueues(r0, r1, t, from);
        lemma_enqueues(r0, r1, t, from);
    } else if exists|started: Seq<Seq<char>>, now: Timestamp| #[trigger]
        sweeps(r0, r1, started, now, from) {
        let (started, now) = choose|started: Seq<Seq<char>>, now: Timestamp| #[trigger]
            sweeps(r0, r1, started, now, from);
        lemma_sweeps(r0, r1, started, now, from);
    } else if exists|
        pool: Seq<char>,
        now: Timestamp,
        d: Dispatch,
    | #[trigger]
        dispatches(r0, r1, pool, now, d) {
        let (pool, now, d) = choose|
            pool: Seq<char>,
            now: Timestamp,
            d: Dispatch,
        | #[trigger]
            dispatches(r0, r1, pool, now, d);
        lemma_dispatches(r0, r1, pool, now, d, from);
    } else if exists|id: Seq<char>, e: Execution| #[trigger] begins_task(r0, r1, id, e) {
        let (id, e) = choose|id: Seq<char>, e: Execution| #[trigger] begins_task(r0, r1, id, e);
        lemma_begins_task(r0, r1, id, e, from);
    } else if exists|id: Seq<char>, now: Timestamp, clock: u64, q1: QueueView, s: Settlement|
        #[trigger]
        settles(r0, r1, id, now, clock, q1, s) {
        let (id, now, clock, q1, s) = choose|
            id: Seq<char>,
            now: Timestamp,
            clock: u64,
            q1: QueueView,
            s: Settlement,
        | #[trigger]
            settles(r0, r1, id, now, clock, q1, s);
        lemma_settles(r0, r1, id, now, clock, q1, s, from);
    } else {
        lemma_other_steps(r0, r1, from);
    }
}

/// At every point of a run all enqueued tasks are accounted for.
proof fn lemma_run(run: Seq<RunView>, from: Timestamp, n: int)
    requires
        is_run(run, from),
        0 <= n < run.len(),
    ensures
        accounted(run[n], from),
    decreases n,
{
    if n == 0 {
        lemma_begins(run[0], from);
    } else {
        lemma_run(run, from, n - 1);
        lemma_steps(run[n - 1], run[n], from);
    }
}

/// Each task runs exactly once. Over any row of enqueued tasks, sweeps, dispatches, handler calls
/// that come through, ends, and whatever is forgotten or compacted in between, no handler is
/// called twice for a task, and no task waits without a dispatcher. When all work has settled the
/// handler of every task has been called once and none of the tasks is left.
pub proof fn law_every_task_runs_exactly_once(run: Seq<RunView>, from: Timestamp, id: Seq<char>)
    requires
        is_run(run, from),
        run.last().jobs.contains_key(id),
    ensures
        run.last().calls[id] <= 1,
        crate::queue_laws::served(run.last().q, run.last().p),
        settled(run.last()) ==> {
            &&& run.last().calls[id] == 1
            &&& !run.last().q.store.tasks.contains_key(id)
        },
{
    let r = run.last();
    lemma_run(run, from, run.len() - 1);
    assert(stands(r, id));
    if settled(r) {
        assert(!r.q.executing.contains(id));
        assert(!r.phases.dom().contains(id));
        assert(!r.q.queued.contains(id));
    }
}

} // verus!
