//! The engine of one task log: what is admitted, lined up, handed out and settled.

use vstd::hash_set::StringHashSet;
use vstd::multiset::Multiset;
use vstd::prelude::*;

use crate::clock::Clock;
use crate::execution::{choose_way, notice_for, Execution, Notice};
use crate::file_store::{Compaction, FileStore, StoreView};
use crate::lines::WaitingLines;
use crate::payloads::PendingPayloads;
use crate::pools::{PoolView, WorkerPools, MAX_DISPATCHERS};
use crate::rate_limiter::RateLimiter;
use crate::schedule::next_run;
use crate::table::StringTable;
use crate::task::{RetryableTask, TaskView};
use crate::text::insert_in_order;
use crate::time::Timestamp;

verus! {

/// How long, in nanoseconds, a completed task is remembered. The memory is a safety net
/// against a second run within a short time; the tombstone in the log is what lasts.
pub const COMPLETED_TTL: u64 = 60_000_000_000;

/// How often, in nanoseconds, the memory of completed tasks is swept.
pub const COMPLETED_SWEEP_INTERVAL: u64 = 30_000_000_000;

/// What a queue holds.
#[verifier::ext_equal]
pub struct QueueView {
    pub name: Seq<char>,
    pub store: StoreView,
    /// The recorded runs of each group whose tasks are limited.
    pub limits: Map<Seq<char>, Seq<Timestamp>>,
    /// What waits for each pool.
    pub lines: Map<Seq<char>, Multiset<TaskView>>,
    /// The ids of tasks that run.
    pub executing: Set<Seq<char>>,
    /// The ids of tasks that are lined up.
    pub queued: Set<Seq<char>>,
    /// The ids of tasks that are through, with the clock reading at which they were.
    pub completed: Map<Seq<char>, u64>,
    /// The types of task that have a handler.
    pub handlers: Set<Seq<char>>,
    /// The types of task that have a handler for those that are given up.
    pub max_retry_handlers: Set<Seq<char>>,
    /// What the system clock said at each sweep that went by it.
    pub clock: Seq<Timestamp>,
}

/// The pool that a task goes to: its own where there is one, else the default pool.
pub open spec fn target_pool(lines: Map<Seq<char>, Multiset<TaskView>>, t: TaskView) -> Seq<char> {
    match t.pool {
        Some(p) if lines.contains_key(p) => p,
        _ => "default"@,
    }
}

impl QueueView {
    /// A queue that starts on a store, with the runs on record and with waiting lines for these
    /// pools.
    pub open spec fn started(
        name: Seq<char>,
        store: StoreView,
        limits: Map<Seq<char>, Seq<Timestamp>>,
        pools: Set<Seq<char>>,
    ) -> QueueView {
        QueueView {
            name: name,
            store: store,
            limits: limits,
            lines: crate::lines::idle_lines(pools),
            executing: Set::empty(),
            queued: Set::empty(),
            completed: Map::empty(),
            handlers: Set::empty(),
            max_retry_handlers: Set::empty(),
            clock: Seq::empty(),
        }
    }

    /// A task with this payload is pending: a live task has its digest.
    pub open spec fn duplicate(self, t: TaskView) -> bool {
        t.payload_hash matches Some(h) && crate::payloads::hashes_of(self.store.tasks).contains(h)
    }

    /// The queue after a line was appended to its log.
    pub open spec fn with_line(self, t: TaskView) -> QueueView {
        QueueView { store: self.store.with_line(t), ..self }
    }

    /// A live task that is to be lined up: its times have come, what it waits for is gone,
    /// and it neither runs nor is lined up.
    pub open spec fn ready(self, t: TaskView, now: Timestamp) -> bool {
        &&& self.store.tasks.contains_key(t.task_id)
        &&& self.store.tasks[t.task_id] == t
        &&& t.due(now)
        &&& crate::file_store::all_gone(self.store.tasks, t.dependencies())
        &&& !self.executing.contains(t.task_id)
        &&& !self.queued.contains(t.task_id)
    }

    /// A pool gets a task when what is ready is lined up.
    pub open spec fn feeds(self, name: Seq<char>, now: Timestamp) -> bool {
        exists|id: Seq<char>| #[trigger]
            self.store.tasks.contains_key(id) && self.ready(self.store.tasks[id], now)
                && target_pool(self.lines, self.store.tasks[id]) == name
    }

    /// A sweep gives the pool one more dispatcher.
    pub open spec fn starts(
        self,
        pools: Map<Seq<char>, PoolView>,
        name: Seq<char>,
        now: Timestamp,
    ) -> bool {
        &&& self.feeds(name, now)
        &&& pools.contains_key(name)
        &&& pools[name].dispatchers < MAX_DISPATCHERS
    }

    /// The pools after a sweep.
    pub open spec fn pools_after_sweep(
        self,
        pools: Map<Seq<char>, PoolView>,
        now: Timestamp,
    ) -> Map<Seq<char>, PoolView> {
        Map::new(
            |name: Seq<char>| pools.contains_key(name),
            |name: Seq<char>|
                if self.starts(pools, name, now) {
                    pools[name].with_dispatcher()
                } else {
                    pools[name]
                },
        )
    }

    /// What is marked as lined up after all that is ready was.
    pub open spec fn queued_after_sweep(self, now: Timestamp) -> Set<Seq<char>> {
        Set::new(
            |id: Seq<char>|
                self.queued.contains(id) || (self.store.tasks.contains_key(id) && self.ready(
                    self.store.tasks[id],
                    now,
                )),
        )
    }

    /// Tasks wait for the pool.
    pub open spec fn waits_for(self, pool: Seq<char>) -> bool {
        self.lines.contains_key(pool) && self.lines[pool].len() > 0
    }

    /// The queue after a task has left the line of a pool and was held against the limit of its
    /// group.
    pub open spec fn without_waiting(
        self,
        pool: Seq<char>,
        t: TaskView,
        now: Timestamp,
    ) -> QueueView {
        QueueView {
            lines: self.lines.insert(pool, self.lines[pool].remove(t)),
            limits: limits_after(self.limits, t, now),
            ..self
        }
    }

    /// The queue with a handler for a type of task.
    pub open spec fn with_handler(self, kind: HandlerKind, task_type: Seq<char>) -> QueueView {
        match kind {
            HandlerKind::Run => QueueView { handlers: self.handlers.insert(task_type), ..self },
            HandlerKind::GiveUp => QueueView {
                max_retry_handlers: self.max_retry_handlers.insert(task_type),
                ..self
            },
        }
    }

    /// The queue after a task was handed to a worker.
    pub open spec fn with_executing(self, id: Seq<char>) -> QueueView {
        QueueView {
            queued: self.queued.remove(id),
            executing: self.executing.insert(id),
            ..self
        }
    }

    /// The queue after a task left the waiting line without being handed to a worker.
    pub open spec fn without_queued(self, id: Seq<char>) -> QueueView {
        QueueView { queued: self.queued.remove(id), ..self }
    }

    /// The queue after a task came to its end, before its tombstone is appended to the log.
    pub open spec fn buried(self, t: TaskView, clock: u64) -> QueueView {
        QueueView { completed: self.completed.insert(t.task_id, clock), ..self }
    }

    /// The queue after a worker is done with a task.
    pub open spec fn without_executing(self, id: Seq<char>) -> QueueView {
        QueueView { executing: self.executing.remove(id), ..self }
    }

    /// No task is both lined up and running.
    pub open spec fn consistent(self) -> bool {
        &&& self.store.consistent()
        &&& self.queued.disjoint(self.executing)
    }
}

/// One sweep over the tasks of a queue: all that is ready is lined up for its pool, and each
/// pool that got a task and has fewer dispatchers than allowed gets one more. `started` names
/// those pools in order.
pub open spec fn swept(
    q0: QueueView,
    p0: Map<Seq<char>, PoolView>,
    q1: QueueView,
    p1: Map<Seq<char>, PoolView>,
    started: Seq<Seq<char>>,
    now: Timestamp,
) -> bool {
    &&& q1 == (QueueView { queued: q0.queued_after_sweep(now), lines: q1.lines, ..q0 })
    &&& q1.lines.dom() == q0.lines.dom()
    &&& p1 == q0.pools_after_sweep(p0, now)
    &&& forall|name: Seq<char>, t: TaskView|
        q0.lines.contains_key(name) ==> #[trigger] q1.lines[name].count(t)
            == q0.lines[name].count(t) + if q0.ready(t, now) && target_pool(q0.lines, t)
            == name {
            1int
        } else {
            0int
        }
    &&& crate::text::in_text_order(started)
    &&& forall|name: Seq<char>| #[trigger]
        started.contains(name) <==> q0.starts(p0, name, now)
}

/// What a handler is for.
#[derive(Clone, Copy, Debug, PartialEq, Eq, Structural)]
pub enum HandlerKind {
    /// To run tasks of a type.
    Run,
    /// To be told of tasks of a type that are given up.
    GiveUp,
}

/// The engine of one task log.
pub struct SnerdQueue {
    name: String,
    file_store: FileStore,
    rate_limiter: RateLimiter,
    lines: WaitingLines,
    task_handlers: StringHashSet,
    max_retry_handlers: StringHashSet,
    active_payloads: PendingPayloads,
    executing_tasks: StringHashSet,
    queued_tasks: StringHashSet,
    completed_tasks: StringTable<u64>,
    clock: Clock,
}

impl SnerdQueue {
    /// What the queue holds.
    pub closed spec fn view(&self) -> QueueView {
        QueueView {
            name: self.name@,
            store: self.file_store@,
            limits: self.rate_limiter@,
            lines: self.lines@,
            executing: self.executing_tasks@,
            queued: self.queued_tasks@,
            completed: self.completed_tasks@,
            handlers: self.task_handlers@,
            max_retry_handlers: self.max_retry_handlers@,
            clock: self.clock@,
        }
    }

    /// The store, the limits and the lines are well-formed, the payloads of the live tasks are on record,
    /// and no task is both lined up and running.
    pub closed spec fn well_formed(&self) -> bool {
        &&& self.file_store.well_formed()
        &&& self.rate_limiter.well_formed()
        &&& self.lines.well_formed()
        &&& self.completed_tasks.well_formed()
        &&& self.active_payloads.tracks(self.file_store@.tasks)
        &&& self@.consistent()
    }

    /// At any time each task of the store is filed under its id and alive, no task is both lined
    /// up and running, and there is a line for the default pool.
    pub proof fn law_state_is_consistent(&self)
        requires
            self.well_formed(),
        ensures
            self@.consistent(),
            self@.store.tasks.dom().finite(),
            self@.lines.contains_key("default"@),
    {
        self.file_store.lemma_consistent();
        self.lines.lemma_default_line();
    }

    /// A queue on a store, with the default pool alone.
    pub fn new(name: &str, file_store: FileStore, rate_limiter: RateLimiter) -> (r: (
        SnerdQueue,
        WorkerPools,
    ))
        requires
            file_store.well_formed(),
            rate_limiter.well_formed(),
        ensures
            r.0.well_formed(),
            r.0@ == QueueView::started(name@, file_store@, rate_limiter@, r.1@.dom()),
            r.1.well_formed(),
            r.1@ == crate::pools::configured(Map::<Seq<char>, usize>::empty()),
    {
        let sizes: StringTable<usize> = StringTable::new();
        SnerdQueue::new_with_pools(name, file_store, rate_limiter, &sizes)
    }

    /// A queue on a store, with pools of the given sizes.
    pub fn new_with_pools(
        name: &str,
        file_store: FileStore,
        rate_limiter: RateLimiter,
        pools: &StringTable<usize>,
    ) -> (r: (SnerdQueue, WorkerPools))
        requires
            file_store.well_formed(),
            rate_limiter.well_formed(),
            pools.well_formed(),
        ensures
            r.0.well_formed(),
            r.0@ == QueueView::started(name@, file_store@, rate_limiter@, r.1@.dom()),
            r.1.well_formed(),
            r.1@ == crate::pools::configured(pools@),
    {
        let workers = WorkerPools::new(pools);
        let queue = SnerdQueue::new_with_shared_pools(name, file_store, rate_limiter, &workers);
        (queue, workers)
    }

    /// A queue on a store whose workers and dispatchers are shared with others.
    pub fn new_with_shared_pools(
        name: &str,
        file_store: FileStore,
        rate_limiter: RateLimiter,
        pools: &WorkerPools,
    ) -> (r: SnerdQueue)
        requires
            file_store.well_formed(),
            rate_limiter.well_formed(),
            pools.well_formed(),
        ensures
            r.well_formed(),
            r@ == QueueView::started(name@, file_store@, rate_limiter@, pools@.dom()),
    {
        proof {
            file_store.lemma_consistent();
        }
        let payloads = payloads_of(&file_store);
        let r = SnerdQueue {
            name: name.to_string(),
            file_store,
            rate_limiter,
            lines: WaitingLines::new(pools),
            task_handlers: StringHashSet::new(),
            max_retry_handlers: StringHashSet::new(),
            active_payloads: payloads,
            executing_tasks: StringHashSet::new(),
            queued_tasks: StringHashSet::new(),
            completed_tasks: StringTable::new(),
            clock: Clock::new(),
        };
        assert(r@ =~= QueueView::started(name@, file_store@, rate_limiter@, pools@.dom()));
        r
    }

    /// The name of the queue.
    pub fn name(&self) -> (r: &str)
        ensures
            r@ == self@.name,
    {
        self.name.as_str()
    }

    /// Notes that tasks of a type have a handler of a kind.
    pub fn register_handler(&mut self, kind: HandlerKind, task_type: &str)
        requires
            old(self).well_formed(),
        ensures
            final(self).well_formed(),
            final(self)@ == old(self)@.with_handler(kind, task_type@),
    {
        match kind {
            HandlerKind::Run => {
                let _ = self.task_handlers.insert(task_type.to_string());
            },
            HandlerKind::GiveUp => {
                let _ = self.max_retry_handlers.insert(task_type.to_string());
            },
        }
    }

    /// Notes that tasks of a type have a handler.
    pub fn register_task_handler(&mut self, task_type: &str)
        requires
            old(self).well_formed(),
        ensures
            final(self).well_formed(),
            final(self)@ == (QueueView {
                handlers: old(self)@.handlers.insert(task_type@),
                ..old(self)@
            }),
    {
        self.register_handler(HandlerKind::Run, task_type);
    }

    /// Notes that tasks of a type have a handler for when they are given up.
    pub fn register_max_retry_handler(&mut self, task_type: &str)
        requires
            old(self).well_formed(),
        ensures
            final(self).well_formed(),
            final(self)@ == (QueueView {
                max_retry_handlers: old(self)@.max_retry_handlers.insert(task_type@),
                ..old(self)@
            }),
    {
        self.register_handler(HandlerKind::GiveUp, task_type);
    }

    /// Admits a task and returns the line that is to be appended to the log for it. Where a
    /// task with the same payload is pending, the task is dropped. The task pends once its line
    /// is taken in.
    pub fn enqueue(&self, task: RetryableTask) -> (line: Option<RetryableTask>)
        requires
            self.well_formed(),
        ensures
            match line {
                Some(t) => !self@.duplicate(task@) && t@ == (TaskView {
                    deleted_at: None,
                    ..task@
                }),
                None => self@.duplicate(task@),
            },
    {
        match &task.payload_hash {
            Some(hash) => {
                if self.active_payloads.contains(hash.as_str(), Ghost(self.file_store@.tasks)) {
                    return None;
                }
            },
            None => {},
        }
        let mut line: RetryableTask = task;
        line.deleted_at = None;
        Some(line)
    }

    /// Takes in a line that was appended to the log, and says whether the log is now to be
    /// compacted. A tombstone never asks for that.
    pub fn line_appended(&mut self, line: &RetryableTask, log_len: Option<u64>) -> (compact: bool)
        requires
            old(self).well_formed(),
            old(self)@.store.has_room(),
        ensures
            final(self).well_formed(),
            final(self)@ == old(self)@.with_line(line@),
            compact == (line@.deleted_at is None && final(self)@.store.compaction_due(log_len)),
    {
        let ghost tasks = self.file_store@.tasks;
        let ghost rest = tasks.remove(line@.task_id);
        match self.file_store.stored(line.task_id.as_str()) {
            Some(before) => {
                proof {
                    self.file_store.lemma_consistent();
                }
                self.active_payloads.remove(before, Ghost(tasks));
            },
            None => {
                assert(rest =~= tasks);
            },
        }
        let check: bool = line.deleted_at.is_none();
        let compact = self.file_store.save_task_inner(line, check, log_len);
        proof {
            self.file_store.lemma_consistent();
            if check {
                assert(self.file_store@.tasks.remove(line@.task_id) =~= rest);
                assert(self.file_store@.tasks =~= rest.insert(line@.task_id, line@));
            }
        }
        if check {
            self.active_payloads.insert(line, Ghost(rest));
        }
        compact
    }

    /// Whether the counters of the store can count one more line.
    pub fn can_append(&self) -> (r: bool)
        ensures
            r == self@.store.has_room(),
    {
        self.file_store.can_append()
    }

    /// The path of the log.
    pub fn file_path(&self) -> (r: &str)
        ensures
            r@ == self@.store.path,
    {
        self.file_store.file_path()
    }

    /// The live tasks.
    pub fn read_tasks(&self) -> (r: Vec<RetryableTask>)
        requires
            self.well_formed(),
        ensures
            crate::file_store::holds_each_once(
                crate::file_store::views_of(r@),
                self@.store.tasks,
            ),
    {
        self.file_store.read_tasks()
    }

    /// The live task with an id.
    pub fn get_latest_task(&self, task_id: &str) -> (r: Option<RetryableTask>)
        requires
            self.well_formed(),
        ensures
            match r {
                Some(t) => self@.store.tasks.contains_key(task_id@) && t@
                    == self@.store.tasks[task_id@],
                None => !self@.store.tasks.contains_key(task_id@),
            },
    {
        self.file_store.get_latest_task(task_id)
    }

    /// The tombstone that deletes a task, for the log; `None` where no such task is alive.
    pub fn tombstone(&self, task_id: &str, now: Timestamp) -> (r: Option<RetryableTask>)
        requires
            self.well_formed(),
        ensures
            opt_line(r) == self@.tombstone(task_id@, now),
    {
        self.file_store.tombstone(task_id, now)
    }

    /// Deletes a task and returns its tombstone, which belongs at the end of the log. Where no
    /// such task is alive nothing happens.
    pub fn delete_task(&mut self, task_id: &str, now: Timestamp) -> (r: Option<RetryableTask>)
        requires
            old(self).well_formed(),
            old(self)@.store.has_room(),
        ensures
            final(self).well_formed(),
            opt_line(r) == old(self)@.tombstone(task_id@, now),
            final(self)@ == (match r {
                Some(t) => old(self)@.with_line(t@),
                None => old(self)@,
            }),
    {
        match self.tombstone(task_id, now) {
            Some(line) => {
                let _ = self.line_appended(&line, None);
                Some(line)
            },
            None => None,
        }
    }

    /// Begins a compaction of the log; `false` where one is under way.
    pub fn begin_compaction(&mut self) -> (r: bool)
        requires
            old(self).well_formed(),
        ensures
            final(self).well_formed(),
            r == !old(self)@.store.compacting,
            final(self)@ == (QueueView {
                store: (StoreView { compacting: true, ..old(self)@.store }),
                ..old(self)@
            }),
    {
        self.file_store.begin_compaction()
    }

    /// Ends a compaction, whether it came through or not.
    pub fn end_compaction(&mut self)
        requires
            old(self).well_formed(),
        ensures
            final(self).well_formed(),
            final(self)@ == (QueueView {
                store: (StoreView { compacting: false, ..old(self)@.store }),
                ..old(self)@
            }),
    {
        self.file_store.end_compaction();
    }

    /// Takes over the tasks of a log that has been replaced by its compacted form.
    pub fn compact_log(&mut self, plan: Compaction)
        requires
            old(self).well_formed(),
            plan.well_formed(),
        ensures
            final(self).well_formed(),
            final(self)@ == (QueueView { store: old(self)@.store.compacted(plan@), ..old(self)@ }),
    {
        self.file_store.compact_log(plan);
        proof {
            self.file_store.lemma_consistent();
        }
        self.active_payloads = payloads_of(&self.file_store);
    }

    /// How many tasks wait for a pool.
    pub fn waiting(&self, pool: &str) -> (r: usize)
        requires
            self.well_formed(),
        ensures
            r == (if self@.lines.contains_key(pool@) {
                self@.lines[pool@].len()
            } else {
                0
            }),
    {
        self.lines.waiting(pool)
    }

    /// The task that is served first of those that wait for a pool.
    pub fn first_waiting(&self, pool: &str) -> (r: Option<&RetryableTask>)
        requires
            self.well_formed(),
        ensures
            match r {
                Some(t) => {
                    &&& self@.waits_for(pool@)
                    &&& crate::priority::served_first(self@.lines[pool@], t@)
                },
                None => !self@.waits_for(pool@),
            },
    {
        broadcast use vstd::multiset::group_multiset_axioms;

        self.lines.first(pool)
    }

    /// Whether a task is to be lined up.
    fn is_ready(&self, task: &RetryableTask, now: Timestamp) -> (r: bool)
        requires
            self.well_formed(),
            self@.store.tasks.contains_key(task@.task_id),
            self@.store.tasks[task@.task_id] == task@,
        ensures
            r == self@.ready(task@, now),
    {
        if !task.is_due(now) || self.executing_tasks.contains(task.task_id.as_str())
            || self.queued_tasks.contains(task.task_id.as_str()) {
            return false;
        }
        match &task.trigger_after_ids {
            Some(ids) => self.file_store.are_tasks_completed(ids),
            None => {
                assert(task@.dependencies() =~= Seq::<Seq<char>>::empty());
                true
            },
        }
    }
}

/// The payloads of the live tasks of a store.
fn payloads_of(store: &FileStore) -> (r: PendingPayloads)
    requires
        store.well_formed(),
    ensures
        r.tracks(store@.tasks),
{
    let tasks = store.read_tasks();
    let ghost list = crate::file_store::views_of(tasks@);
    let ghost live = store@.tasks;
    let mut r = PendingPayloads::new();
    let ghost mut seen: Map<Seq<char>, TaskView> = Map::empty();
    proof {
        store.lemma_consistent();
    }
    let mut i: usize = 0;
    while i < tasks.len()
        invariant
            i <= tasks@.len(),
            list == crate::file_store::views_of(tasks@),
            crate::file_store::holds_each_once(list, live),
            live.dom().finite(),
            live.dom().len() <= usize::MAX,
            r.tracks(seen),
            seen.dom().finite(),
            forall|id: Seq<char>| #[trigger]
                seen.contains_key(id) <==> exists|j: int|
                    0 <= j < i && (#[trigger] list[j]).task_id == id,
            forall|id: Seq<char>| #[trigger]
                seen.contains_key(id) ==> live.contains_key(id) && seen[id] == live[id],
        decreases tasks@.len() - i,
    {
        let ghost before = seen;
        proof {
            let id = list[i as int].task_id;
            assert(live.contains_key(id) && live[id] == list[i as int]);
            if seen.contains_key(id) {
                let j = choose|j: int| 0 <= j < i && (#[trigger] list[j]).task_id == id;
                assert(list[j].task_id != list[i as int].task_id);
            }
            assert(seen.dom().insert(id).subset_of(live.dom()));
            vstd::set_lib::lemma_len_subset(seen.dom().insert(id), live.dom());
        }
        r.insert(&tasks[i], Ghost(seen));
        proof {
            seen = seen.insert(list[i as int].task_id, list[i as int]);
            assert forall|id: Seq<char>| #[trigger]
                seen.contains_key(id) <==> exists|j: int|
                    0 <= j < i + 1 && (#[trigger] list[j]).task_id == id by {
                if before.contains_key(id) {
                    let j = choose|j: int| 0 <= j < i && (#[trigger] list[j]).task_id == id;
                    assert(list[j].task_id == id);
                }
                if id == list[i as int].task_id {
                    assert(list[i as int].task_id == id);
                }
            }
        }
        i = i + 1;
    }
    assert(seen =~= live) by {
        assert forall|id: Seq<char>| #[trigger] live.contains_key(id) implies seen.contains_key(
            id,
        ) by {
            let j = choose|j: int| 0 <= j < list.len() && (#[trigger] list[j]).task_id == id;
            assert(list[j].task_id == id);
        }
    }
    r
}

/// The pool that a task goes to.
fn pool_for(lines: &WaitingLines, task: &RetryableTask) -> (r: String)
    requires
        lines.well_formed(),
    ensures
        r@ == target_pool(lines@, task@),
        lines@.contains_key(r@),
{
    proof {
        lines.lemma_default_line();
    }
    match &task.pool {
        Some(p) => {
            if lines.contains(p.as_str()) {
                return p.clone();
            }
        },
        None => {},
    }
    "default".to_string()
}

/// The sweep has come to task `i`: what of the first `i` tasks is ready is lined up.
spec fn lined_up(
    q0: QueueView,
    list: Seq<TaskView>,
    i: int,
    now: Timestamp,
    queued: Set<Seq<char>>,
    l1: Map<Seq<char>, Multiset<TaskView>>,
    fed: Seq<Seq<char>>,
) -> bool {
    let l0 = q0.lines;
    &&& forall|id: Seq<char>| #[trigger]
        queued.contains(id) <==> q0.queued.contains(id) || exists|j: int|
            0 <= j < i && (#[trigger] list[j]).task_id == id && q0.ready(list[j], now)
    &&& l1.dom() == l0.dom()
    &&& forall|name: Seq<char>, t: TaskView|
        l0.contains_key(name) ==> #[trigger] l1[name].count(t) == l0[name].count(t)
            + if target_pool(l0, t) == name && exists|j: int|
            0 <= j < i && #[trigger] list[j] == t && q0.ready(t, now) {
            1int
        } else {
            0int
        }
    &&& crate::text::in_text_order(fed)
    &&& forall|name: Seq<char>| #[trigger]
        fed.contains(name) <==> exists|j: int|
            0 <= j < i && q0.ready(#[trigger] list[j], now) && target_pool(l0, list[j]) == name
}

/// One more task is lined up.
proof fn lemma_line_up(
    q0: QueueView,
    list: Seq<TaskView>,
    i: int,
    now: Timestamp,
    queued: Set<Seq<char>>,
    l1: Map<Seq<char>, Multiset<TaskView>>,
    fed: Seq<Seq<char>>,
    fed2: Seq<Seq<char>>,
)
    requires
        0 <= i < list.len(),
        crate::file_store::holds_each_once(list, q0.store.tasks),
        lined_up(q0, list, i, now, queued, l1, fed),
        q0.lines.contains_key(target_pool(q0.lines, list[i])),
        crate::text::in_text_order(fed2),
        forall|x: Seq<char>| #[trigger]
            fed2.contains(x) <==> fed.contains(x) || (q0.ready(list[i], now) && x == target_pool(
                q0.lines,
                list[i],
            )),
    ensures
        ({
            let t = list[i];
            let name = target_pool(q0.lines, t);
            if q0.ready(t, now) {
                lined_up(
                    q0,
                    list,
                    i + 1,
                    now,
                    queued.insert(t.task_id),
                    l1.insert(
                        name,
                        l1[name].insert(t),
                    ),
                    fed2,
                )
            } else {
                lined_up(q0, list, i + 1, now, queued, l1, fed2)
            }
        }),
{
    broadcast use vstd::multiset::group_multiset_axioms;

    let l0 = q0.lines;
    let t = list[i];
    let name = target_pool(l0, t);
    let ready = q0.ready(t, now);
    let queued2 = if ready {
        queued.insert(t.task_id)
    } else {
        queued
    };
    let l2 = if ready {
        l1.insert(name, l1[name].insert(t))
    } else {
        l1
    };
    assert(l2.dom() =~= l0.dom());
    assert forall|id: Seq<char>| #[trigger]
        queued2.contains(id) <==> q0.queued.contains(id) || exists|j: int|
            0 <= j < i + 1 && (#[trigger] list[j]).task_id == id && q0.ready(list[j], now) by {
        if queued.contains(id) && !q0.queued.contains(id) {
            let j = choose|j: int|
                0 <= j < i && (#[trigger] list[j]).task_id == id && q0.ready(list[j], now);
            assert(list[j].task_id == id);
        }
        if ready && id == t.task_id {
            assert(list[i].task_id == id);
        }
    }
    assert forall|x: Seq<char>, u: TaskView| l0.contains_key(x) implies #[trigger] l2[x].count(
        u,
    ) == l0[x].count(u) + if target_pool(l0, u) == x && exists|j: int|
        0 <= j < i + 1 && #[trigger] list[j] == u && q0.ready(u, now) {
        1int
    } else {
        0int
    } by {
        assert(l1[x].count(u) == l0[x].count(u) + if target_pool(l0, u) == x
            && exists|j: int| 0 <= j < i && #[trigger] list[j] == u && q0.ready(u, now) {
            1int
        } else {
            0int
        });
        if u == t {
            assert forall|j: int| 0 <= j < i implies #[trigger] list[j] != u by {
                assert(list[j].task_id != list[i].task_id);
            }
            assert(list[i] == u);
        } else {
            if exists|j: int| 0 <= j < i && #[trigger] list[j] == u && q0.ready(u, now) {
                let j = choose|j: int| 0 <= j < i && #[trigger] list[j] == u && q0.ready(u, now);
                assert(0 <= j < i + 1 && list[j] == u);
            }
        }
    }
    assert forall|x: Seq<char>| #[trigger]
        fed2.contains(x) <==> exists|j: int|
            0 <= j < i + 1 && q0.ready(#[trigger] list[j], now) && target_pool(l0, list[j])
                == x by {
        if fed.contains(x) {
            let j = choose|j: int|
                0 <= j < i && q0.ready(#[trigger] list[j], now) && target_pool(l0, list[j]) == x;
            assert(q0.ready(list[j], now));
        }
        if ready && x == name {
            assert(q0.ready(list[i], now));
        }
        if exists|j: int|
            0 <= j < i + 1 && q0.ready(#[trigger] list[j], now) && target_pool(l0, list[j]) == x {
            let j = choose|j: int|
                0 <= j < i + 1 && q0.ready(#[trigger] list[j], now) && target_pool(l0, list[j])
                    == x;
            if j < i {
                assert(fed.contains(x));
            }
        }
    }
}

/// The pool may have one more dispatcher.
spec fn takes_dispatcher(pools: Map<Seq<char>, PoolView>, name: Seq<char>) -> bool {
    pools.contains_key(name) && pools[name].dispatchers < MAX_DISPATCHERS
}

/// The pools with a dispatcher more for each of the first `k` that got a task and may have one.
/// `started` names these.
spec fn dispatching(
    p0: Map<Seq<char>, PoolView>,
    fed: Seq<Seq<char>>,
    k: int,
    p1: Map<Seq<char>, PoolView>,
    started: Seq<Seq<char>>,
) -> bool {
    &&& p1.dom() == p0.dom()
    &&& forall|name: Seq<char>| #[trigger]
        p0.contains_key(name) ==> p1[name] == if takes_dispatcher(p0, name) && exists|j: int|
            0 <= j < k && #[trigger] fed[j] == name {
            p0[name].with_dispatcher()
        } else {
            p0[name]
        }
    &&& crate::text::in_text_order(started)
    &&& forall|name: Seq<char>| #[trigger]
        started.contains(name) <==> takes_dispatcher(p0, name) && exists|j: int|
            0 <= j < k && #[trigger] fed[j] == name
}

/// One more pool gets its dispatcher.
proof fn lemma_dispatching(
    p0: Map<Seq<char>, PoolView>,
    fed: Seq<Seq<char>>,
    k: int,
    p1: Map<Seq<char>, PoolView>,
    started: Seq<Seq<char>>,
)
    requires
        0 <= k < fed.len(),
        crate::text::in_text_order(fed),
        dispatching(p0, fed, k, p1, started),
    ensures
        if takes_dispatcher(p1, fed[k]) {
            dispatching(
                p0,
                fed,
                k + 1,
                p1.insert(fed[k], p1[fed[k]].with_dispatcher()),
                started.push(fed[k]),
            )
        } else {
            dispatching(p0, fed, k + 1, p1, started)
        },
{
    let name = fed[k];
    assert forall|j: int| 0 <= j < k implies #[trigger] fed[j] != name by {
        assert(crate::text::text_before(fed[j], fed[k]));
        crate::text::law_texts_are_ordered(fed[j], fed[k], fed[k]);
    }
    assert(p0.dom().contains(name) == p1.dom().contains(name));
    assert(p0.contains_key(name) ==> p1[name] == p0[name]);
    let grows = takes_dispatcher(p1, name);
    let p2 = if grows {
        p1.insert(name, p1[name].with_dispatcher())
    } else {
        p1
    };
    let started2 = if grows {
        started.push(name)
    } else {
        started
    };
    assert(p2.dom() =~= p0.dom());
    assert forall|x: Seq<char>| #[trigger] p0.contains_key(x) implies p2[x] == if takes_dispatcher(
        p0,
        x,
    ) && exists|j: int| 0 <= j < k + 1 && #[trigger] fed[j] == x {
        p0[x].with_dispatcher()
    } else {
        p0[x]
    } by {
        if x == name {
            assert(fed[k] == x);
        } else if exists|j: int| 0 <= j < k + 1 && #[trigger] fed[j] == x {
            let j = choose|j: int| 0 <= j < k + 1 && #[trigger] fed[j] == x;
            assert(j < k && fed[j] == x);
        }
    }
    assert forall|x: Seq<char>| #[trigger]
        started2.contains(x) <==> takes_dispatcher(p0, x) && exists|j: int|
            0 <= j < k + 1 && #[trigger] fed[j] == x by {
        if started2.contains(x) {
            let a = choose|a: int| 0 <= a < started2.len() && started2[a] == x;
            if a < started.len() {
                assert(started[a] == x);
                assert(started.contains(x));
            } else {
                assert(fed[k] == x);
            }
        }
        if takes_dispatcher(p0, x) && exists|j: int| 0 <= j < k + 1 && #[trigger] fed[j] == x {
            let j = choose|j: int| 0 <= j < k + 1 && #[trigger] fed[j] == x;
            if j < k {
                assert(started.contains(x));
                let a = choose|a: int| 0 <= a < started.len() && started[a] == x;
                assert(started2[a] == x);
            } else {
                assert(started2[started.len() as int] == x);
            }
        }
    }
    assert(crate::text::in_text_order(started2)) by {
        assert forall|a: int, b: int| 0 <= a < b < started2.len() implies crate::text::text_before(
            #[trigger] started2[a],
            #[trigger] started2[b],
        ) by {
            if b == started.len() {
                assert(started.contains(started[a]));
                let j = choose|j: int| 0 <= j < k && #[trigger] fed[j] == started[a];
                assert(crate::text::text_before(fed[j], fed[k]));
            } else {
                assert(crate::text::text_before(started[a], started[b]));
            }
        }
    }
}

impl SnerdQueue {
    /// Lines up all tasks that are ready at `now` and returns the pools for which a
    /// dispatcher is to be started, in order.
    pub fn process_due_tasks_at(&mut self, pools: &mut WorkerPools, now: Timestamp) -> (started:
        Vec<String>)
        requires
            old(self).well_formed(),
            old(pools).well_formed(),
        ensures
            final(self).well_formed(),
            final(pools).well_formed(),
            swept(
                old(self)@,
                old(pools)@,
                final(self)@,
                final(pools)@,
                crate::task::texts(started@),
                now,
            ),
    {
        let tasks = self.file_store.read_tasks();
        let ghost list = crate::file_store::views_of(tasks@);
        let ghost q0 = self@;
        let ghost l0 = self@.lines;
        let mut fed: Vec<String> = Vec::new();
        let mut seen = StringHashSet::new();
        proof {
            assert(crate::task::texts(fed@) =~= Seq::<Seq<char>>::empty());
            assert(lined_up(q0, list, 0, now, self@.queued, self@.lines, crate::task::texts(fed@)));
        }
        let mut i: usize = 0;
        while i < tasks.len()
            invariant
                i <= tasks@.len(),
                list == crate::file_store::views_of(tasks@),
                crate::file_store::holds_each_once(list, q0.store.tasks),
                self.well_formed(),
                self@ == (QueueView { queued: self@.queued, lines: self@.lines, ..q0 }),
                l0 == q0.lines,
                lined_up(
                    q0,
                    list,
                    i as int,
                    now,
                    self@.queued,
                    self@.lines,
                    crate::task::texts(fed@),
                ),
                forall|name: Seq<char>| #[trigger]
                    seen@.contains(name) <==> crate::task::texts(fed@).contains(name),
            decreases tasks@.len() - i,
        {
            let ghost queued = self@.queued;
            let ghost l1 = self@.lines;
            let ghost names = crate::task::texts(fed@);
            let task: RetryableTask = tasks[i].clone();
            let ready: bool = self.is_ready(&task, now);
            let name: String = pool_for(&self.lines, &task);
            proof {
                assert(task@ == list[i as int]);
                assert(target_pool(l1, task@) == target_pool(l0, task@)) by {
                    assert(forall|x: Seq<char>| l1.contains_key(x) == l0.contains_key(x)) by {
                        assert(l1.dom() == l0.dom());
                    }
                }
                assert(l0.contains_key(target_pool(l0, task@))) by {
                    assert(l1.dom() == l0.dom());
                    assert(l1.contains_key(name@));
                }
                assert(ready == q0.ready(task@, now)) by {
                    if queued.contains(task@.task_id) && !q0.queued.contains(task@.task_id) {
                        let j = choose|j: int|
                            0 <= j < i && (#[trigger] list[j]).task_id == task@.task_id
                                && q0.ready(list[j], now);
                        assert(list[j].task_id != list[i as int].task_id);
                    }
                }
            }
            if ready {
                let _ = self.queued_tasks.insert(task.task_id.clone());
                self.lines.push(name.as_str(), task);
                if !seen.contains(name.as_str()) {
                    let _ = seen.insert(name.clone());
                    insert_in_order(&mut fed, name);
                }
            }
            proof {
                lemma_line_up(
                    q0,
                    list,
                    i as int,
                    now,
                    queued,
                    l1,
                    names,
                    crate::task::texts(fed@),
                );
            }
            i = i + 1;
        }
        let ghost p0 = pools@;
        let ghost names = crate::task::texts(fed@);
        let mut started: Vec<String> = Vec::new();
        proof {
            assert(crate::task::texts(started@) =~= Seq::<Seq<char>>::empty());
            assert(dispatching(p0, names, 0, p0, crate::task::texts(started@)));
        }
        let mut k: usize = 0;
        while k < fed.len()
            invariant
                k <= fed@.len(),
                names == crate::task::texts(fed@),
                crate::text::in_text_order(names),
                pools.well_formed(),
                dispatching(p0, names, k as int, pools@, crate::task::texts(started@)),
            decreases fed@.len() - k,
        {
            let ghost done = crate::task::texts(started@);
            proof {
                lemma_dispatching(p0, names, k as int, pools@, done);
            }
            if pools.add_dispatcher(fed[k].as_str()) {
                started.push(fed[k].clone());
                assert(crate::task::texts(started@) =~= done.push(names[k as int]));
            }
            k = k + 1;
        }
        proof {
            lemma_swept(q0, p0, self@, pools@, names, crate::task::texts(started@), list, now);
        }
        started
    }
}

impl SnerdQueue {
    /// Lines up all tasks that are ready by the system clock, which is read once, and returns
    /// the pools for which a dispatcher is to be started. The time of the sweep is what the
    /// clock said.
    pub fn process_due_tasks(&mut self, pools: &mut WorkerPools) -> (started: Vec<String>)
        requires
            old(self).well_formed(),
            old(pools).well_formed(),
        ensures
            final(self).well_formed(),
            final(pools).well_formed(),
            final(self)@.clock == old(self)@.clock.push(final(self)@.clock.last()),
            final(self)@.clock.last().was_read(),
            final(self)@.clock.last().clock_reading(),
            swept(
                (QueueView { clock: final(self)@.clock, ..old(self)@ }),
                old(pools)@,
                final(self)@,
                final(pools)@,
                crate::task::texts(started@),
                final(self)@.clock.last(),
            ),
    {
        let ghost before = self@;
        let now = Timestamp::utc_now(&mut self.clock);
        proof {
            assert(self@ =~= (QueueView { clock: before.clock.push(now), ..before }));
            assert(self@.clock.last() == now);
            self.clock.lemma_read(now);
        }
        self.process_due_tasks_at(pools, now)
    }
}

/// The two halves of a sweep come to what a sweep is.
proof fn lemma_swept(
    q0: QueueView,
    p0: Map<Seq<char>, PoolView>,
    q1: QueueView,
    p1: Map<Seq<char>, PoolView>,
    fed: Seq<Seq<char>>,
    started: Seq<Seq<char>>,
    list: Seq<TaskView>,
    now: Timestamp,
)
    requires
        q0.store.consistent(),
        crate::file_store::holds_each_once(list, q0.store.tasks),
        q1 == (QueueView { queued: q1.queued, lines: q1.lines, ..q0 }),
        lined_up(q0, list, list.len() as int, now, q1.queued, q1.lines, fed),
        dispatching(p0, fed, fed.len() as int, p1, started),
    ensures
        swept(q0, p0, q1, p1, started, now),
{
    let l0 = q0.lines;
    let l1 = q1.lines;
    let tasks = q0.store.tasks;
    assert forall|id: Seq<char>| #[trigger]
        q1.queued.contains(id) == q0.queued_after_sweep(now).contains(id) by {
        if q1.queued.contains(id) && !q0.queued.contains(id) {
            let j = choose|j: int|
                0 <= j < list.len() && (#[trigger] list[j]).task_id == id && q0.ready(list[j], now);
            assert(tasks[list[j].task_id] == list[j]);
        }
        if tasks.contains_key(id) && q0.ready(tasks[id], now) {
            let j = choose|j: int| 0 <= j < list.len() && (#[trigger] list[j]).task_id == id;
            assert(list[j] == tasks[id]);
        }
    }
    assert(q1.queued =~= q0.queued_after_sweep(now));
    assert forall|name: Seq<char>| #[trigger] fed.contains(name) == q0.feeds(name, now) by {
        if fed.contains(name) {
            let j = choose|j: int|
                0 <= j < list.len() && q0.ready(#[trigger] list[j], now) && target_pool(l0, list[j])
                    == name;
            assert(tasks.contains_key(list[j].task_id));
        }
        if q0.feeds(name, now) {
            let id = choose|id: Seq<char>| #[trigger]
                tasks.contains_key(id) && q0.ready(tasks[id], now) && target_pool(l0, tasks[id])
                    == name;
            let j = choose|j: int| 0 <= j < list.len() && (#[trigger] list[j]).task_id == id;
            assert(q0.ready(list[j], now));
        }
    }
    assert forall|name: Seq<char>| true implies #[trigger] fed.contains(name) == exists|j: int|
        0 <= j < fed.len() && #[trigger] fed[j] == name by {
        if fed.contains(name) {
            let j = choose|j: int| 0 <= j < fed.len() && fed[j] == name;
            assert(fed[j] == name);
        }
    }
    assert forall|name: Seq<char>| #[trigger] p0.contains_key(name) implies p1[name]
        == q0.pools_after_sweep(p0, now)[name] by {
        assert(fed.contains(name) == q0.feeds(name, now));
    }
    assert(p1 =~= q0.pools_after_sweep(p0, now));
    assert forall|name: Seq<char>, t: TaskView| l0.contains_key(name) implies #[trigger] l1[name].count(
        t,
    ) == l0[name].count(t) + if q0.ready(t, now) && target_pool(l0, t) == name {
        1int
    } else {
        0int
    } by {
        if q0.ready(t, now) {
            let j = choose|j: int| 0 <= j < list.len() && (#[trigger] list[j]).task_id == t.task_id;
            assert(list[j] == t);
        }
    }
    assert forall|name: Seq<char>| #[trigger] started.contains(name) == q0.starts(p0, name, now) by {
        assert(fed.contains(name) == q0.feeds(name, now));
    }
}

/// What a dispatcher is to do next.
#[derive(Debug)]
pub enum Dispatch {
    /// Nothing waits: the dispatcher ends.
    Idle,
    /// The task is put off for a minute; this line is to be appended to the log.
    Deferred(RetryableTask),
    /// The task runs already: nothing is to be done for it.
    Skipped,
    /// The task is to be run by the worker that was set to work.
    Execute(RetryableTask),
}

/// The limit of the task's group, where it has one, leaves room for one more run.
pub open spec fn limit_grants(
    groups: Map<Seq<char>, Seq<Timestamp>>,
    t: TaskView,
    now: Timestamp,
) -> bool {
    match (t.rate_limit_group, t.max_per_minute) {
        (Some(group), Some(limit)) => crate::rate_limiter::recent(
            crate::rate_limiter::runs_of(groups, group),
            now,
        ).len() < limit,
        _ => true,
    }
}

/// The runs on record after a task was held against the limit of its group.
pub open spec fn limits_after(
    groups: Map<Seq<char>, Seq<Timestamp>>,
    t: TaskView,
    now: Timestamp,
) -> Map<Seq<char>, Seq<Timestamp>> {
    match (t.rate_limit_group, t.max_per_minute) {
        (Some(group), Some(limit)) => {
            let runs = crate::rate_limiter::recent(
                crate::rate_limiter::runs_of(groups, group),
                now,
            );
            groups.insert(
                group,
                if limit_grants(groups, t, now) {
                    runs.push(now)
                } else {
                    runs
                },
            )
        },
        _ => groups,
    }
}

/// What becomes of a task that leaves the waiting line of a pool, where its limit grants it a
/// run or does not.
pub open spec fn handed_out(
    q0: QueueView,
    p0: Map<Seq<char>, PoolView>,
    pool: Seq<char>,
    t: TaskView,
    granted: bool,
    now: Timestamp,
    q1: QueueView,
    p1: Map<Seq<char>, PoolView>,
    d: Dispatch,
) -> bool {
    if !granted {
        &&& d matches Dispatch::Deferred(line)
        &&& line@ == t.throttled(now)
        &&& q1 == q0.without_queued(t.task_id)
        &&& p1 == p0
    } else if q0.executing.contains(t.task_id) {
        &&& d is Skipped
        &&& q1 == q0.without_queued(t.task_id)
        &&& p1 == p0
    } else {
        &&& d matches Dispatch::Execute(task)
        &&& task@ == t
        &&& q1 == q0.with_executing(t.task_id)
        &&& p1 == p0.insert(pool, PoolView { running: p0[pool].running + 1, ..p0[pool] })
    }
}

/// A task that waits for a pool leaves its line, is held against the limit of its group, and is
/// handed out or not.
pub open spec fn released(
    q0: QueueView,
    p0: Map<Seq<char>, PoolView>,
    pool: Seq<char>,
    t: TaskView,
    now: Timestamp,
    q1: QueueView,
    p1: Map<Seq<char>, PoolView>,
    d: Dispatch,
) -> bool {
    handed_out(
        q0.without_waiting(pool, t, now),
        p0,
        pool,
        t,
        limit_grants(q0.limits, t, now),
        now,
        q1,
        p1,
        d,
    )
}

/// A step of a dispatcher of a pool that no other queue shares.
pub open spec fn dispatched(
    q0: QueueView,
    p0: Map<Seq<char>, PoolView>,
    pool: Seq<char>,
    now: Timestamp,
    q1: QueueView,
    p1: Map<Seq<char>, PoolView>,
    d: Dispatch,
) -> bool {
    if q0.waits_for(pool) {
        exists|t: TaskView|
            {
                &&& #[trigger] crate::priority::served_first(q0.lines[pool], t)
                &&& released(q0, p0, pool, t, now, q1, p1, d)
            }
    } else {
        &&& d is Idle
        &&& q1 == q0
        &&& p1 == p0.insert(pool, p0[pool].without_dispatcher())
    }
}

/// How a task that was handed to a worker is to be run: not at all where it has been through
/// lately.
pub open spec fn planned(q: QueueView, t: TaskView, e: Execution) -> bool {
    if q.completed.contains_key(t.task_id) {
        e is AlreadyCompleted
    } else {
        crate::execution::way_to_run(t, q.handlers.contains(t.task_type), e)
    }
}

impl SnerdQueue {
    /// Takes the next step of a dispatcher of a pool that has a free worker and that no other
    /// queue shares.
    pub fn dispatch_next(&mut self, pools: &mut WorkerPools, pool: &str, now: Timestamp) -> (d:
        Dispatch)
        requires
            old(self).well_formed(),
            old(pools).well_formed(),
            now.on_calendar(),
            old(pools)@.contains_key(pool@),
            old(pools)@[pool@].dispatchers > 0,
            old(pools)@[pool@].running < old(pools)@[pool@].capacity,
        ensures
            final(self).well_formed(),
            final(pools).well_formed(),
            dispatched(
                old(self)@,
                old(pools)@,
                pool@,
                now,
                final(self)@,
                final(pools)@,
                d,
            ),
    {
        match self.serve_first(pools, pool, now) {
            Some(d) => d,
            None => {
                pools.remove_dispatcher(pool);
                Dispatch::Idle
            },
        }
    }

    /// Takes the task that is served first out of the line of a pool that has a free worker, and
    /// hands it out where it may run; `None` where nothing waits.
    pub fn serve_first(&mut self, pools: &mut WorkerPools, pool: &str, now: Timestamp) -> (r:
        Option<Dispatch>)
        requires
            old(self).well_formed(),
            old(pools).well_formed(),
            now.on_calendar(),
            old(pools)@.contains_key(pool@),
            old(pools)@[pool@].running < old(pools)@[pool@].capacity,
        ensures
            final(self).well_formed(),
            final(pools).well_formed(),
            match r {
                Some(d) => {
                    &&& old(self)@.waits_for(pool@)
                    &&& exists|t: TaskView|
                        {
                            &&& #[trigger] crate::priority::served_first(
                                old(self)@.lines[pool@],
                                t,
                            )
                            &&& released(
                                old(self)@,
                                old(pools)@,
                                pool@,
                                t,
                                now,
                                final(self)@,
                                final(pools)@,
                                d,
                            )
                        }
                },
                None => {
                    &&& !old(self)@.waits_for(pool@)
                    &&& final(self)@ == old(self)@
                    &&& final(pools)@ == old(pools)@
                },
            },
    {
        broadcast use vstd::multiset::group_multiset_axioms;

        match self.lines.pop(pool) {
            None => None,
            Some(task) => {
                let ghost t = task@;
                let granted: bool = match (&task.rate_limit_group, task.max_per_minute) {
                    (Some(group), Some(limit)) => self.rate_limiter.check_and_increment(
                        group.as_str(),
                        limit,
                        now,
                    ),
                    _ => true,
                };
                assert(self@ =~= old(self)@.without_waiting(pool@, t, now));
                let d = self.hand_out(pools, pool, task, granted, now);
                proof {
                    let waiting = old(self)@.lines[pool@];
                    assert(crate::priority::served_first(waiting, t));
                    assert(waiting.remove(t).len() == waiting.len() - 1);
                }
                Some(d)
            },
        }
    }

    /// Decides on a task that has left the waiting line of a pool that has a free worker, where
    /// the limit of its group grants it a run or does not. A limit that cannot be checked
    /// counts as one that grants nothing.
    pub fn hand_out(
        &mut self,
        pools: &mut WorkerPools,
        pool: &str,
        task: RetryableTask,
        granted: bool,
        now: Timestamp,
    ) -> (d: Dispatch)
        requires
            old(self).well_formed(),
            old(pools).well_formed(),
            now.on_calendar(),
            old(pools)@.contains_key(pool@),
            old(pools)@[pool@].running < old(pools)@[pool@].capacity,
        ensures
            final(self).well_formed(),
            final(pools).well_formed(),
            handed_out(
                old(self)@,
                old(pools)@,
                pool@,
                task@,
                granted,
                now,
                final(self)@,
                final(pools)@,
                d,
            ),
    {
        let _ = self.queued_tasks.remove(task.task_id.as_str());
        if !granted {
            let mut line: RetryableTask = task;
            line.retry_after_time = now.add_secs(60);
            return Dispatch::Deferred(line);
        }
        if self.executing_tasks.contains(task.task_id.as_str()) {
            return Dispatch::Skipped;
        }
        let _ = self.executing_tasks.insert(task.task_id.clone());
        pools.occupy_worker(pool);
        Dispatch::Execute(task)
    }

    /// Works out how a task that was handed to a worker is to be run.
    pub fn plan_execution(&self, task: &RetryableTask) -> (e: Execution)
        requires
            self.well_formed(),
        ensures
            planned(self@, task@, e),
    {
        if self.completed_tasks.contains_key(task.task_id.as_str()) {
            return Execution::AlreadyCompleted;
        }
        choose_way(task, self.task_handlers.contains(task.task_type.as_str()))
    }

    /// Takes note that a worker is done with a task, whether the task ran or was found to have
    /// been through already.
    pub fn end_execution(&mut self, pools: &mut WorkerPools, pool: &str, task_id: &str)
        requires
            old(self).well_formed(),
            old(pools).well_formed(),
            old(pools)@.contains_key(pool@),
            old(pools)@[pool@].running > 0,
        ensures
            final(self).well_formed(),
            final(pools).well_formed(),
            final(self)@ == old(self)@.without_executing(task_id@),
            final(pools)@ == old(pools)@.insert(
                pool@,
                (PoolView {
                    running: (old(pools)@[pool@].running - 1) as nat,
                    ..old(pools)@[pool@]
                }),
            ),
    {
        let _ = self.executing_tasks.remove(task_id);
        pools.release_worker(pool);
    }
}

/// What is to be done with a task that has been run.
#[derive(Debug)]
pub enum Settlement {
    /// The task runs again at its next tick; this line is to be appended to the log.
    Rescheduled(RetryableTask),
    /// The task is through; its tombstone, where it was still alive, is to be appended.
    Completed(Option<RetryableTask>),
    /// The task is tried again later; this line is to be appended to the log.
    Retried(RetryableTask),
    /// The task is given up. Once the notice is given its tombstone, where it was still alive,
    /// is to be appended.
    Exhausted { notice: Notice, tombstone: Option<RetryableTask> },
}

impl QueueView {
    /// The tombstone of the task with this id, as the store has the task.
    pub open spec fn tombstone(self, id: Seq<char>, now: Timestamp) -> Option<TaskView> {
        if self.store.tasks.contains_key(id) {
            Some(self.store.tasks[id].deleted(now))
        } else {
            None
        }
    }

    /// The tombstone of the task with this id, as the store has the task, where it is given up.
    pub open spec fn dead_letter(
        self,
        id: Seq<char>,
        error: Seq<char>,
        now: Timestamp,
    ) -> Option<TaskView> {
        if self.store.tasks.contains_key(id) {
            Some(self.store.tasks[id].given_up(error, now))
        } else {
            None
        }
    }
}

/// The optional line of a log.
pub open spec fn opt_line(o: Option<RetryableTask>) -> Option<TaskView> {
    match o {
        Some(t) => Some(t@),
        None => None,
    }
}

/// What becomes of a task that came through, where its schedule has a next tick or not.
pub open spec fn came_through(
    q0: QueueView,
    t: TaskView,
    next: Option<Timestamp>,
    now: Timestamp,
    clock: u64,
    q1: QueueView,
    s: Settlement,
) -> bool {
    match next {
        Some(tick) => {
            &&& s matches Settlement::Rescheduled(line)
            &&& line@ == t.rescheduled(tick)
            &&& q1 == q0
        },
        None => {
            &&& s matches Settlement::Completed(tombstone)
            &&& opt_line(tombstone) == q0.tombstone(t.task_id, now)
            &&& q1 == q0.buried(t, clock)
        },
    }
}

/// What becomes of a task that failed.
pub open spec fn fell_through(
    q0: QueueView,
    t: TaskView,
    error: Seq<char>,
    now: Timestamp,
    clock: u64,
    q1: QueueView,
    s: Settlement,
) -> bool {
    if t.attempts_left() {
        &&& s matches Settlement::Retried(line)
        &&& line@ == t.failed(Some(error), now)
        &&& q1 == q0
    } else {
        &&& s matches Settlement::Exhausted { notice, tombstone }
        &&& crate::execution::notified(t, q0.max_retry_handlers.contains(t.task_type), notice)
        &&& opt_line(tombstone) == q0.dead_letter(t.task_id, error, now)
        &&& q1 == q0.buried(t, clock)
    }
}

/// The next tick of a task's schedule, where it has one.
pub open spec fn next_tick(t: TaskView, now: Timestamp) -> Option<Timestamp> {
    match t.cron_expression {
        Some(expr) => crate::schedule::next_run_at(expr, now),
        None => None,
    }
}

impl SnerdQueue {
    /// Settles a task that has been run, at `now`, which is `clock` nanoseconds on the clock
    /// by which completed tasks are forgotten.
    pub fn settle(
        &mut self,
        task: RetryableTask,
        result: Result<(), String>,
        now: Timestamp,
        clock: u64,
    ) -> (s: Settlement)
        requires
            old(self).well_formed(),
            now.on_calendar(),
            result is Err ==> {
                &&& task.max_retries > i32::MIN
                &&& task@.attempts_left() ==> now.room_for_millis(task@.retry_after_ms)
            },
        ensures
            final(self).well_formed(),
            match result {
                Ok(_) => came_through(
                    old(self)@,
                    task@,
                    next_tick(task@, now),
                    now,
                    clock,
                    final(self)@,
                    s,
                ),
                Err(e) => fell_through(old(self)@, task@, e@, now, clock, final(self)@, s),
            },
            s matches Settlement::Rescheduled(line) ==> now.before(line@.execute_at),
    {
        match result {
            Ok(_) => {
                let next: Option<Timestamp> = match &task.cron_expression {
                    Some(expr) => next_run(expr.as_str(), now),
                    None => None,
                };
                self.settle_success(task, next, now, clock)
            },
            Err(e) => self.settle_failure(task, e, now, clock),
        }
    }

    /// Settles a task that came through and whose schedule has this next tick.
    pub fn settle_success(
        &mut self,
        task: RetryableTask,
        next: Option<Timestamp>,
        now: Timestamp,
        clock: u64,
    ) -> (s: Settlement)
        requires
            old(self).well_formed(),
        ensures
            final(self).well_formed(),
            came_through(old(self)@, task@, next, now, clock, final(self)@, s),
    {
        match next {
            Some(tick) => {
                let mut line: RetryableTask = task;
                line.execute_at = tick;
                line.retry_count = 0;
                line.last_error_obj = None;
                line.last_job_error = None;
                Settlement::Rescheduled(line)
            },
            None => {
                self.completed_tasks.insert(task.task_id.clone(), clock);
                Settlement::Completed(self.file_store.tombstone(task.task_id.as_str(), now))
            },
        }
    }

    /// Settles a task that failed.
    pub fn settle_failure(
        &mut self,
        task: RetryableTask,
        error: String,
        now: Timestamp,
        clock: u64,
    ) -> (s: Settlement)
        requires
            old(self).well_formed(),
            task.max_retries > i32::MIN,
            task@.attempts_left() ==> now.room_for_millis(task@.retry_after_ms),
        ensures
            final(self).well_formed(),
            fell_through(old(self)@, task@, error@, now, clock, final(self)@, s),
    {
        if task.has_attempts_left() {
            let mut line: RetryableTask = task;
            line.update_retry_config(Some(error), now);
            Settlement::Retried(line)
        } else {
            let notice = notice_for(
                &task,
                self.max_retry_handlers.contains(task.task_type.as_str()),
            );
            self.completed_tasks.insert(task.task_id.clone(), clock);
            let tombstone = self.file_store.dead_letter(task.task_id.as_str(), error, now);
            Settlement::Exhausted { notice, tombstone }
        }
    }

    /// Forgets the completed tasks whose time is over.
    pub fn evict_completed(&mut self, clock: u64)
        requires
            old(self).well_formed(),
        ensures
            final(self).well_formed(),
            final(self)@ == (QueueView {
                completed: remembered(old(self)@.completed, clock, COMPLETED_TTL),
                ..old(self)@
            }),
    {
        evict_expired_completed(&mut self.completed_tasks, clock, COMPLETED_TTL);
        assert(self@ =~= (QueueView {
            completed: remembered(old(self)@.completed, clock, COMPLETED_TTL),
            ..old(self)@
        }));
    }
}

/// The time from `then` to `now`, and none where `then` is later.
pub open spec fn age(then: u64, now: u64) -> int {
    if then <= now {
        now - then
    } else {
        0
    }
}

/// The completed tasks that are not older than `ttl`.
pub open spec fn remembered(
    completed: Map<Seq<char>, u64>,
    now: u64,
    ttl: u64,
) -> Map<Seq<char>, u64> {
    Map::new(
        |id: Seq<char>| completed.contains_key(id) && age(completed[id], now) <= ttl,
        |id: Seq<char>| completed[id],
    )
}

/// Forgets the completed tasks that are older than `ttl`.
pub fn evict_expired_completed(completed: &mut StringTable<u64>, now: u64, ttl: u64)
    requires
        old(completed).well_formed(),
    ensures
        final(completed).well_formed(),
        final(completed)@ == remembered(old(completed)@, now, ttl),
{
    let mut kept: StringTable<u64> = StringTable::new();
    let ghost rows = completed.rows();
    let n: usize = completed.len();
    proof {
        completed.lemma_rows();
    }
    let mut i: usize = 0;
    while i < n
        invariant
            i <= n == rows.len(),
            rows == completed.rows(),
            crate::table::keys_distinct(rows),
            completed.well_formed(),
            kept.well_formed(),
            forall|id: Seq<char>| #[trigger]
                kept@.contains_key(id) <==> exists|j: int|
                    0 <= j < i && (#[trigger] rows[j]).0 == id && age(rows[j].1, now) <= ttl,
            forall|j: int|
                0 <= j < i && age(rows[j].1, now) <= ttl ==> kept@[(#[trigger] rows[j]).0]
                    == rows[j].1,
        decreases n - i,
    {
        let ghost before = kept@;
        let at: u64 = *completed.value_at(i);
        let keep: bool = if at <= now {
            now - at <= ttl
        } else {
            true
        };
        if keep {
            kept.insert(completed.key_at(i).clone(), at);
        }
        proof {
            assert(keep == (age(rows[i as int].1, now) <= ttl));
            assert forall|j: int| 0 <= j < i + 1 && age(rows[j].1, now) <= ttl implies kept@[(
            #[trigger] rows[j]).0] == rows[j].1 by {
                if j < i {
                    assert(rows[j].0 != rows[i as int].0);
                }
            }
            assert forall|id: Seq<char>| #[trigger]
                kept@.contains_key(id) <==> exists|j: int|
                    0 <= j < i + 1 && (#[trigger] rows[j]).0 == id && age(rows[j].1, now)
                        <= ttl by {
                if before.contains_key(id) {
                    let j = choose|j: int|
                        0 <= j < i && (#[trigger] rows[j]).0 == id && age(rows[j].1, now) <= ttl;
                    assert(rows[j].0 == id);
                }
                if keep && rows[i as int].0 == id {
                    assert(rows[i as int].0 == id);
                }
            }
        }
        i = i + 1;
    }
    proof {
        assert forall|id: Seq<char>| #[trigger] kept@.contains_key(id) == remembered(
            completed@,
            now,
            ttl,
        ).contains_key(id) && (kept@.contains_key(id) ==> kept@[id] == completed@[id]) by {
            if kept@.contains_key(id) {
                let j = choose|j: int|
                    0 <= j < n && (#[trigger] rows[j]).0 == id && age(rows[j].1, now) <= ttl;
                crate::table::lemma_row_in_contents(rows, j);
            }
            if completed@.contains_key(id) && age(completed@[id], now) <= ttl {
                let j = choose|j: int| 0 <= j < rows.len() && (#[trigger] rows[j]).0 == id;
                crate::table::lemma_row_in_contents(rows, j);
                assert(rows[j].0 == id);
            }
        }
        assert(kept@ =~= remembered(completed@, now, ttl));
    }
    *completed = kept;
}

} // verus!
