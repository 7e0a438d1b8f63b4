//! An engine that runs one queue for each shard of a job log that it holds.

use vstd::prelude::*;

use crate::draws::Draws;
use crate::file_store::FileStore;
use crate::pools::{PoolView, WorkerPools};
use crate::priority::goes_before;
use crate::queue::{Dispatch, HandlerKind, QueueView, SnerdQueue};
use crate::rate_limiter::RateLimiter;
use crate::table::StringTable;
use crate::task::{RetryableTask, TaskView};
use crate::text::same_text;
use crate::time::Timestamp;

verus! {

/// What an engine holds.
#[verifier::ext_equal]
pub struct ShardedView {
    pub name: Seq<char>,
    pub dir: Seq<char>,
    /// The queues of the shards that it holds.
    pub shards: Map<Seq<char>, QueueView>,
    /// The types of task that have a handler.
    pub handlers: Set<Seq<char>>,
    /// The types of task that have a handler for those that are given up.
    pub max_retry_handlers: Set<Seq<char>>,
    pub stopped: bool,
}

impl ShardedView {
    /// Every shard knows the handlers of the engine.
    pub open spec fn consistent(self) -> bool {
        forall|shard: Seq<char>| #[trigger]
            self.shards.contains_key(shard) ==> {
                &&& self.shards[shard].handlers == self.handlers
                &&& self.shards[shard].max_retry_handlers == self.max_retry_handlers
            }
    }

    /// The queue with which a shard starts. Its limits are its own.
    pub open spec fn started(
        self,
        store: crate::file_store::StoreView,
        pools: Set<Seq<char>>,
    ) -> QueueView {
        QueueView {
            handlers: self.handlers,
            max_retry_handlers: self.max_retry_handlers,
            ..QueueView::started(self.name, store, Map::empty(), pools)
        }
    }

    /// The engine after a step of a shard that leaves its queue so.
    pub open spec fn with_shard(self, shard: Seq<char>, q: QueueView) -> ShardedView {
        ShardedView { shards: self.shards.insert(shard, q), ..self }
    }

    /// Every shard is in order, with the pools that they share.
    pub open spec fn in_order(self, pools: Map<Seq<char>, PoolView>) -> bool {
        forall|shard: Seq<char>| #[trigger]
            self.shards.contains_key(shard) ==> shard_in_order(self.shards[shard], pools)
    }

    /// Tasks wait for a pool, in whatever shard.
    pub open spec fn waits_for(self, pool: Seq<char>) -> bool {
        exists|shard: Seq<char>| #[trigger]
            self.shards.contains_key(shard) && self.shards[shard].waits_for(pool)
    }

    /// A task waits for a pool in a shard, and none that waits for that pool in any shard
    /// outranks it.
    pub open spec fn goes_first(self, pool: Seq<char>, shard: Seq<char>, t: TaskView) -> bool {
        &&& self.shards.contains_key(shard)
        &&& self.shards[shard].lines.contains_key(pool)
        &&& self.shards[shard].lines[pool].contains(t)
        &&& forall|other: Seq<char>, u: TaskView|
            self.shards.contains_key(other) && self.shards[other].lines.contains_key(pool)
                && #[trigger] self.shards[other].lines[pool].contains(u)
                ==> !crate::priority::outranks(u, t)
    }

    /// The engine with only those of its shards that are in a list.
    pub open spec fn restricted(self, owned: Seq<Seq<char>>) -> ShardedView {
        ShardedView {
            shards: self.shards.restrict(Set::new(|shard: Seq<char>| owned.contains(shard))),
            ..self
        }
    }

    /// The engine with a handler of a kind for a type of task.
    pub open spec fn with_handler(self, kind: HandlerKind, task_type: Seq<char>) -> ShardedView {
        ShardedView {
            handlers: if kind == HandlerKind::Run {
                self.handlers.insert(task_type)
            } else {
                self.handlers
            },
            max_retry_handlers: if kind == HandlerKind::GiveUp {
                self.max_retry_handlers.insert(task_type)
            } else {
                self.max_retry_handlers
            },
            shards: self.shards.map_values(|q: QueueView| q.with_handler(kind, task_type)),
            ..self
        }
    }
}

/// In the queue of a shard a task that is lined up stands once, none is lined up and running, and
/// none waits without a dispatcher.
pub open spec fn shard_in_order(q: QueueView, pools: Map<Seq<char>, PoolView>) -> bool {
    &&& q.consistent()
    &&& q.lines.contains_key("default"@)
    &&& crate::queue_laws::one_place_each(q)
    &&& crate::queue_laws::served(q, pools)
}

/// A step of a dispatcher of a pool that the shards of an engine share. Of all that waits for the
/// pool the task that goes first leaves its line, and its own shard hands it out or not; where
/// nothing waits in any shard the dispatcher ends.
pub open spec fn dispatched_for_all(
    e0: ShardedView,
    p0: Map<Seq<char>, PoolView>,
    pool: Seq<char>,
    now: Timestamp,
    e1: ShardedView,
    p1: Map<Seq<char>, PoolView>,
    shard: Option<Seq<char>>,
    d: Dispatch,
) -> bool {
    match shard {
        Some(s) => {
            &&& e1 == e0.with_shard(s, e1.shards[s])
            &&& exists|t: TaskView|
                {
                    &&& #[trigger] e0.goes_first(pool, s, t)
                    &&& crate::queue::released(
                        e0.shards[s],
                        p0,
                        pool,
                        t,
                        now,
                        e1.shards[s],
                        p1,
                        d,
                    )
                }
        },
        None => {
            &&& !e0.waits_for(pool)
            &&& d is Idle
            &&& e1 == e0
            &&& p1 == p0.insert(pool, p0[pool].without_dispatcher())
        },
    }
}

/// The optional name of a shard.
pub open spec fn opt_text(o: Option<String>) -> Option<Seq<char>> {
    match o {
        Some(s) => Some(s@),
        None => None,
    }
}

/// An engine that runs one queue for each shard that it holds.
pub struct SnerdShardedQueue {
    name: String,
    dir: String,
    shards: StringTable<SnerdQueue>,
    task_handlers: StringTable<()>,
    max_retry_handlers: StringTable<()>,
    stop_flag: bool,
}

/// A text for a new id. It is the text of a random UUID as `uuid::Uuid::new_v4` makes one and
/// `to_string` writes it: 36 characters. It is another one at each call, and the record says
/// which.
#[verifier::external_body]
fn fresh_task_id(draws: &mut Draws) -> (r: String)
    ensures
        r@.len() == 36,
        final(draws)@ == old(draws)@.push(r@),
{
    uuid::Uuid::new_v4().to_string()
}

/// Why an engine without shards takes no tasks.
pub open spec fn standby_error() -> Seq<char> {
    "Engine is in standby mode: zero shards owned. Cannot enqueue."@
}

impl SnerdShardedQueue {
    /// What the engine holds.
    pub closed spec fn view(&self) -> ShardedView {
        ShardedView {
            name: self.name@,
            dir: self.dir@,
            shards: self.shards@.map_values(|q: SnerdQueue| q@),
            handlers: self.task_handlers@.dom(),
            max_retry_handlers: self.max_retry_handlers@.dom(),
            stopped: self.stop_flag,
        }
    }

    /// The queues are well-formed, and every shard knows the handlers.
    pub closed spec fn well_formed(&self) -> bool {
        &&& self.shards.well_formed()
        &&& self.task_handlers.well_formed()
        &&& self.max_retry_handlers.well_formed()
        &&& forall|shard: Seq<char>| #[trigger]
            self.shards@.contains_key(shard) ==> self.shards@[shard].well_formed()
        &&& self@.consistent()
    }

    /// What well-formedness says of the contents.
    pub proof fn lemma_consistent(&self)
        requires
            self.well_formed(),
        ensures
            self@.consistent(),
    {
    }

    /// An engine that holds no shard yet, with the default pool of workers, which its shards
    /// share.
    pub fn new(name: &str, dir: &str) -> (r: (SnerdShardedQueue, WorkerPools))
        ensures
            r.0.well_formed(),
            r.1.well_formed(),
            r.1@ == crate::pools::configured(Map::<Seq<char>, usize>::empty()),
            r.0@ == (ShardedView {
                name: name@,
                dir: dir@,
                shards: Map::empty(),
                handlers: Set::empty(),
                max_retry_handlers: Set::empty(),
                stopped: false,
            }),
    {
        let r = SnerdShardedQueue {
            name: name.to_string(),
            dir: dir.to_string(),
            shards: StringTable::new(),
            task_handlers: StringTable::new(),
            max_retry_handlers: StringTable::new(),
            stop_flag: false,
        };
        assert(r@ =~= (ShardedView {
            name: name@,
            dir: dir@,
            shards: Map::empty(),
            handlers: Set::empty(),
            max_retry_handlers: Set::empty(),
            stopped: false,
        }));
        (r, WorkerPools::default_pools())
    }

    /// The name of the engine.
    pub fn name(&self) -> (r: &str)
        ensures
            r@ == self@.name,
    {
        self.name.as_str()
    }

    /// The directory of the engine.
    pub fn dir(&self) -> (r: &str)
        ensures
            r@ == self@.dir,
    {
        self.dir.as_str()
    }

    /// The shards that the engine holds.
    pub fn get_shards(&self) -> (r: Vec<String>)
        requires
            self.well_formed(),
        ensures
            crate::task::texts(r@).no_duplicates(),
            forall|shard: Seq<char>| #[trigger]
                crate::task::texts(r@).contains(shard) <==> self@.shards.contains_key(shard),
    {
        self.shards.keys()
    }

    /// Whether the engine has been shut down.
    pub fn is_stopped(&self) -> (r: bool)
        ensures
            r == self@.stopped,
    {
        self.stop_flag
    }

    /// Notes that tasks of a type have a handler, on the engine and on each of its shards.
    pub fn register_task_handler(&mut self, task_type: &str)
        requires
            old(self).well_formed(),
        ensures
            final(self).well_formed(),
            final(self)@ == old(self)@.with_handler(HandlerKind::Run, task_type@),
    {
        self.register_handler(HandlerKind::Run, task_type);
    }

    /// Notes that tasks of a type have a handler for when they are given up, on the engine and
    /// on each of its shards.
    pub fn register_max_retry_handler(&mut self, task_type: &str)
        requires
            old(self).well_formed(),
        ensures
            final(self).well_formed(),
            final(self)@ == old(self)@.with_handler(HandlerKind::GiveUp, task_type@),
    {
        self.register_handler(HandlerKind::GiveUp, task_type);
    }

    /// Notes that tasks of a type have a handler of a kind, on the engine and on each shard.
    fn register_handler(&mut self, kind: HandlerKind, task_type: &str)
        requires
            old(self).well_formed(),
        ensures
            final(self).well_formed(),
            final(self)@ == old(self)@.with_handler(kind, task_type@),
    {
        let ghost before = self.shards@;
        let ghost was = self@;
        let names = self.shards.keys();
        let ghost keys = crate::task::texts(names@);
        let mut i: usize = 0;
        while i < names.len()
            invariant
                i <= names@.len(),
                keys == crate::task::texts(names@),
                keys.no_duplicates(),
                forall|k: Seq<char>| #[trigger] keys.contains(k) <==> before.contains_key(k),
                self.shards.well_formed(),
                self.shards@.dom() =~= before.dom(),
                forall|k: Seq<char>| #[trigger]
                    before.contains_key(k) ==> self.shards@[k].well_formed(),
                forall|j: int|
                    0 <= j < i ==> self.shards@[#[trigger] keys[j]]@ == before[keys[j]]@.with_handler(
                        kind,
                        task_type@,
                    ),
                forall|j: int|
                    i <= j < keys.len() ==> self.shards@[#[trigger] keys[j]]@ == before[keys[j]]@,
                *self == (SnerdShardedQueue { shards: self.shards, ..*old(self) }),
            decreases names@.len() - i,
        {
            assert(keys.contains(keys[i as int]));
            let name: &String = &names[i];
            match self.shards.remove(name.as_str()) {
                Some(mut queue) => {
                    queue.register_handler(kind, task_type);
                    self.shards.insert(name.clone(), queue);
                    assert forall|j: int| i + 1 <= j < keys.len() implies self.shards@[#[trigger] keys[j]]@
                        == before[keys[j]]@ by {
                        assert(keys[j] != keys[i as int]);
                    }
                    assert forall|j: int| 0 <= j < i implies self.shards@[#[trigger] keys[j]]@
                        == before[keys[j]]@.with_handler(kind, task_type@) by {
                        assert(keys[j] != keys[i as int]);
                    }
                },
                None => {
                    assert(false);
                },
            }
            i = i + 1;
        }
        match kind {
            HandlerKind::Run => {
                self.task_handlers.insert(task_type.to_string(), ());
            },
            HandlerKind::GiveUp => {
                self.max_retry_handlers.insert(task_type.to_string(), ());
            },
        }
        proof {
            assert forall|k: Seq<char>| #[trigger] before.contains_key(k) implies self.shards@[k]@
                == before[k]@.with_handler(kind, task_type@) by {
                assert(keys.contains(k));
                let j = choose|j: int| 0 <= j < keys.len() && keys[j] == k;
                assert(keys[j] == k);
            }
            assert(self@.shards =~= was.with_handler(kind, task_type@).shards);
            assert(self@ =~= was.with_handler(kind, task_type@));
            assert forall|shard: Seq<char>| #[trigger] self@.shards.contains_key(shard) implies {
                &&& self@.shards[shard].handlers == self@.handlers
                &&& self@.shards[shard].max_retry_handlers == self@.max_retry_handlers
            } by {
                assert(was.shards.contains_key(shard));
            }
        }
    }

    /// Readies a task for a shard: gives it an id that is drawn by chance where it has none.
    pub fn prepare(&self, task: RetryableTask) -> (r: Result<RetryableTask, String>)
        requires
            self.well_formed(),
        ensures
            match r {
                Ok(t) => {
                    &&& self@.shards.len() > 0
                    &&& t@.task_id.len() > 0
                    &&& if task@.task_id.len() > 0 {
                        t@ == task@
                    } else {
                        &&& t@.task_id.len() == 36
                        &&& crate::draws::was_drawn(t@.task_id)
                        &&& t@ == (TaskView { task_id: t@.task_id, ..task@ })
                    }
                },
                Err(e) => self@.shards.len() == 0 && e@ == standby_error(),
            },
    {
        let mut draws = Draws::new();
        let fresh = fresh_task_id(&mut draws);
        proof {
            assert(draws@[0] == fresh@);
            draws.lemma_drawn(fresh@);
        }
        self.prepare_as(task, fresh)
    }

    /// Readies a task for a shard: gives it the fresh id where it has none.
    pub fn prepare_as(&self, task: RetryableTask, fresh: String) -> (r: Result<RetryableTask, String>)
        requires
            self.well_formed(),
        ensures
            match r {
                Ok(t) => {
                    &&& self@.shards.len() > 0
                    &&& t@ == if task@.task_id.len() > 0 {
                        task@
                    } else {
                        TaskView { task_id: fresh@, ..task@ }
                    }
                },
                Err(e) => self@.shards.len() == 0 && e@ == standby_error(),
            },
    {
        assert(self@.shards.dom() =~= self.shards@.dom());
        if self.shards.len() == 0 {
            return Err("Engine is in standby mode: zero shards owned. Cannot enqueue.".to_string());
        }
        let mut out: RetryableTask = task;
        if out.task_id.as_str().is_empty() {
            out.task_id = fresh;
        }
        Ok(out)
    }

    /// Admits a task to a shard and returns the line that is to be appended to the shard's log
    /// for it, if any.
    pub fn enqueue(&self, shard: &str, task: RetryableTask) -> (r: Result<
        Option<RetryableTask>,
        String,
    >)
        requires
            self.well_formed(),
        ensures
            match r {
                Ok(line) => {
                    &&& self@.shards.contains_key(shard@)
                    &&& line is None <==> self@.shards[shard@].duplicate(task@)
                    &&& line matches Some(t) ==> t@ == (TaskView {
                        deleted_at: None,
                        ..task@
                    })
                },
                Err(e) => {
                    &&& !self@.shards.contains_key(shard@)
                    &&& e@ == if self@.shards.len() == 0 {
                        standby_error()
                    } else {
                        "Target shard not found"@
                    }
                },
            },
    {
        assert(self@.shards.dom() =~= self.shards@.dom());
        if self.shards.len() == 0 {
            assert(!self@.shards.contains_key(shard@));
            return Err("Engine is in standby mode: zero shards owned. Cannot enqueue.".to_string());
        }
        match self.shards.get(shard) {
            Some(queue) => Ok(queue.enqueue(task)),
            None => Err("Target shard not found".to_string()),
        }
    }

    /// Takes the queue of a shard out of the engine for a step.
    pub fn take_shard(&mut self, shard: &str) -> (r: Option<SnerdQueue>)
        requires
            old(self).well_formed(),
        ensures
            final(self).well_formed(),
            final(self)@ == (ShardedView {
                shards: old(self)@.shards.remove(shard@),
                ..old(self)@
            }),
            match r {
                Some(q) => {
                    &&& old(self)@.shards.contains_key(shard@)
                    &&& q.well_formed()
                    &&& q@ == old(self)@.shards[shard@]
                    &&& q@.handlers == old(self)@.handlers
                    &&& q@.max_retry_handlers == old(self)@.max_retry_handlers
                },
                None => !old(self)@.shards.contains_key(shard@) && final(self)@ == old(self)@,
            },
    {
        let ghost was = self@;
        let r = self.shards.remove(shard);
        proof {
            assert(self@ =~= (ShardedView { shards: was.shards.remove(shard@), ..was }));
            if r is None {
                assert(self@ =~= was);
            } else {
                assert(was.shards.contains_key(shard@));
            }
            assert forall|k: Seq<char>| #[trigger] self@.shards.contains_key(k) implies {
                &&& self@.shards[k].handlers == self@.handlers
                &&& self@.shards[k].max_retry_handlers == self@.max_retry_handlers
            } by {
                assert(was.shards.contains_key(k));
            }
        }
        r
    }

    /// Puts the queue of a shard back after a step.
    pub fn put_shard(&mut self, shard: &str, queue: SnerdQueue)
        requires
            old(self).well_formed(),
            queue.well_formed(),
            queue@.handlers == old(self)@.handlers,
            queue@.max_retry_handlers == old(self)@.max_retry_handlers,
        ensures
            final(self).well_formed(),
            final(self)@ == (ShardedView {
                shards: old(self)@.shards.insert(shard@, queue@),
                ..old(self)@
            }),
    {
        let ghost was = self@;
        self.shards.insert(shard.to_string(), queue);
        proof {
            assert(self@ =~= (ShardedView { shards: was.shards.insert(shard@, queue@), ..was }));
            assert forall|k: Seq<char>| #[trigger] self@.shards.contains_key(k) implies {
                &&& self@.shards[k].handlers == self@.handlers
                &&& self@.shards[k].max_retry_handlers == self@.max_retry_handlers
            } by {
                if k != shard@ {
                    assert(was.shards.contains_key(k));
                }
            }
        }
    }

    /// Starts the queue of a shard on its store, with the handlers of the engine and with
    /// waiting lines for these pools; `false` where the shard has a queue, which stays as it is.
    pub fn instantiate_shard(&mut self, shard: &str, store: FileStore, pools: &WorkerPools) -> (r:
        bool)
        requires
            old(self).well_formed(),
            store.well_formed(),
            pools.well_formed(),
        ensures
            final(self).well_formed(),
            r == !old(self)@.shards.contains_key(shard@),
            final(self)@ == (if r {
                old(self)@.with_shard(shard@, old(self)@.started(store@, pools@.dom()))
            } else {
                old(self)@
            }),
    {
        assert(self@.shards.dom() =~= self.shards@.dom());
        if self.shards.contains_key(shard) {
            return false;
        }
        let ghost start = QueueView::started(self@.name, store@, Map::empty(), pools@.dom());
        let mut queue = SnerdQueue::new_with_shared_pools(
            self.name.as_str(),
            store,
            RateLimiter::new(),
            pools,
        );
        let types = self.task_handlers.keys();
        register_all(&mut queue, HandlerKind::Run, &types);
        let max_types = self.max_retry_handlers.keys();
        register_all(&mut queue, HandlerKind::GiveUp, &max_types);
        proof {
            assert(types_listed(types@) =~= self@.handlers);
            assert(types_listed(max_types@) =~= self@.max_retry_handlers);
            assert(start.handlers.union(types_listed(types@)) =~= self@.handlers);
            assert(start.max_retry_handlers.union(types_listed(max_types@))
                =~= self@.max_retry_handlers);
            assert(queue@ =~= self@.started(store@, pools@.dom()));
        }
        self.put_shard(shard, queue);
        true
    }

    /// The task that is served first of those that wait for a pool in a shard.
    fn first_waiting(&self, shard: &str, pool: &str) -> (r: Option<&RetryableTask>)
        requires
            self.well_formed(),
            self@.shards.contains_key(shard@),
        ensures
            match r {
                Some(t) => {
                    &&& self@.shards[shard@].waits_for(pool@)
                    &&& crate::priority::served_first(self@.shards[shard@].lines[pool@], t@)
                },
                None => !self@.shards[shard@].waits_for(pool@),
            },
    {
        assert(self.shards@.contains_key(shard@));
        match self.shards.get(shard) {
            Some(queue) => queue.first_waiting(pool),
            None => None,
        }
    }

    /// The shard in which the task waits that goes first of all that wait for a pool; `None`
    /// where nothing waits for it.
    pub fn next_shard(&self, pool: &str) -> (r: Option<String>)
        requires
            self.well_formed(),
        ensures
            match r {
                Some(s) => {
                    &&& self@.shards.contains_key(s@)
                    &&& self@.shards[s@].waits_for(pool@)
                    &&& forall|t: TaskView| #[trigger]
                        crate::priority::served_first(self@.shards[s@].lines[pool@], t)
                            ==> self@.goes_first(pool@, s@, t)
                },
                None => !self@.waits_for(pool@),
            },
    {
        let names = self.shards.keys();
        let ghost keys = crate::task::texts(names@);
        let ghost shards = self@.shards;
        assert(shards.dom() =~= self.shards@.dom());
        let mut best: Option<usize> = None;
        let mut i: usize = 0;
        while i < names.len()
            invariant
                i <= names@.len(),
                keys == crate::task::texts(names@),
                shards == self@.shards,
                self.well_formed(),
                forall|k: Seq<char>| #[trigger] keys.contains(k) <==> shards.contains_key(k),
                match best {
                    Some(b) => b < i && leads(shards, keys, i as int, pool@, b as int),
                    None => forall|j: int|
                        0 <= j < i ==> !shards[#[trigger] keys[j]].waits_for(pool@),
                },
            decreases names@.len() - i,
        {
            assert(keys.contains(keys[i as int]));
            match self.first_waiting(names[i].as_str(), pool) {
                Some(t) => {
                    let better: bool = match best {
                        Some(b) => {
                            assert(keys.contains(keys[b as int]));
                            match self.first_waiting(names[b].as_str(), pool) {
                                Some(u) => {
                                    proof {
                                        lemma_next(shards, keys, i as int, pool@, b as int, t@, u@);
                                    }
                                    goes_before(t, u)
                                },
                                None => true,
                            }
                        },
                        None => {
                            proof {
                                lemma_only(shards, keys, i as int, pool@);
                            }
                            true
                        },
                    };
                    if better {
                        best = Some(i);
                    }
                },
                None => {},
            }
            i = i + 1;
        }
        match best {
            Some(b) => {
                proof {
                    assert(keys.contains(keys[b as int]));
                    lemma_leader_goes_first(self@, keys, pool@, b as int);
                }
                Some(names[b].clone())
            },
            None => {
                assert forall|k: Seq<char>| #[trigger]
                    shards.contains_key(k) implies !shards[k].waits_for(pool@) by {
                    assert(keys.contains(k));
                    let j = choose|j: int| 0 <= j < keys.len() && keys[j] == k;
                    assert(keys[j] == k);
                }
                None
            },
        }
    }

    /// Takes the next step of a dispatcher of a pool that has a free worker and that the shards
    /// share. The name is that of the shard whose task left its line; there is none where the
    /// dispatcher ends.
    pub fn dispatch_next(&mut self, pools: &mut WorkerPools, pool: &str, now: Timestamp) -> (r: (
        Option<String>,
        Dispatch,
    ))
        requires
            old(self).well_formed(),
            old(pools).well_formed(),
            now.on_calendar(),
            old(pools)@.contains_key(pool@),
            old(pools)@[pool@].dispatchers > 0,
            old(pools)@[pool@].running < old(pools)@[pool@].capacity,
        ensures
            final(self).well_formed(),
            final(pools).well_formed(),
            dispatched_for_all(
                old(self)@,
                old(pools)@,
                pool@,
                now,
                final(self)@,
                final(pools)@,
                opt_text(r.0),
                r.1,
            ),
    {
        let ghost was = self@;
        match self.next_shard(pool) {
            Some(shard) => {
                match self.take_shard(shard.as_str()) {
                    Some(mut queue) => {
                        let ghost q0 = queue@;
                        match queue.serve_first(pools, pool, now) {
                            Some(d) => {
                                proof {
                                    let t = choose|t: TaskView|
                                        {
                                            &&& #[trigger] crate::priority::served_first(
                                                q0.lines[pool@],
                                                t,
                                            )
                                            &&& crate::queue::released(
                                                q0,
                                                old(pools)@,
                                                pool@,
                                                t,
                                                now,
                                                queue@,
                                                pools@,
                                                d,
                                            )
                                        };
                                    assert(was.goes_first(pool@, shard@, t));
                                }
                                self.put_shard(shard.as_str(), queue);
                                assert(self@ =~= was.with_shard(shard@, queue@));
                                return (Some(shard), d);
                            },
                            None => {
                                assert(false);
                            },
                        }
                    },
                    None => {
                        assert(false);
                    },
                }
            },
            None => {},
        }
        pools.remove_dispatcher(pool);
        (None, Dispatch::Idle)
    }

    /// Lets go of the shards that are not in the list and returns them.
    pub fn reconcile_shards(&mut self, current_owned: &Vec<String>) -> (lost: Vec<String>)
        requires
            old(self).well_formed(),
        ensures
            final(self).well_formed(),
            final(self)@ == old(self)@.restricted(crate::task::texts(current_owned@)),
            crate::task::texts(lost@).no_duplicates(),
            forall|shard: Seq<char>| #[trigger]
                crate::task::texts(lost@).contains(shard) <==> old(self)@.shards.contains_key(shard)
                    && !crate::task::texts(current_owned@).contains(shard),
    {
        let ghost was = self@;
        let ghost owned = crate::task::texts(current_owned@);
        let existing = self.shards.keys();
        let ghost keys = crate::task::texts(existing@);
        let mut lost: Vec<String> = Vec::new();
        assert(was.shards.dom() =~= self.shards@.dom());
        assert(crate::task::texts(lost@) =~= Seq::<Seq<char>>::empty());
        let mut i: usize = 0;
        while i < existing.len()
            invariant
                i <= existing@.len(),
                keys == crate::task::texts(existing@),
                owned == crate::task::texts(current_owned@),
                keys.no_duplicates(),
                forall|k: Seq<char>| #[trigger] keys.contains(k) <==> was.shards.contains_key(k),
                self.well_formed(),
                self@ == (ShardedView { shards: self@.shards, ..was }),
                forall|k: Seq<char>| #[trigger]
                    self@.shards.contains_key(k) <==> was.shards.contains_key(k)
                        && !crate::task::texts(lost@).contains(k),
                forall|k: Seq<char>| #[trigger]
                    self@.shards.contains_key(k) ==> self@.shards[k] == was.shards[k],
                crate::task::texts(lost@).no_duplicates(),
                forall|k: Seq<char>| #[trigger]
                    crate::task::texts(lost@).contains(k) <==> !owned.contains(k) && exists|j: int|
                        0 <= j < i && #[trigger] keys[j] == k,
            decreases existing@.len() - i,
        {
            let ghost before = crate::task::texts(lost@);
            let name: &String = &existing[i];
            if !listed(current_owned, name.as_str()) {
                let _ = self.take_shard(name.as_str());
                lost.push(name.clone());
                assert(crate::task::texts(lost@) =~= before.push(keys[i as int]));
                proof {
                    lemma_push(before, keys[i as int]);
                    assert(!before.contains(keys[i as int])) by {
                        if before.contains(keys[i as int]) {
                            let j = choose|j: int| 0 <= j < i && #[trigger] keys[j] == keys[i as int];
                            assert(false);
                        }
                    }
                }
            }
            proof {
                assert forall|k: Seq<char>| #[trigger]
                    crate::task::texts(lost@).contains(k) <==> !owned.contains(k) && exists|j: int|
                        0 <= j < i + 1 && #[trigger] keys[j] == k by {
                    if exists|j: int| 0 <= j < i && #[trigger] keys[j] == k {
                        let j = choose|j: int| 0 <= j < i && #[trigger] keys[j] == k;
                        assert(0 <= j < i + 1 && keys[j] == k);
                    }
                    if k == keys[i as int] {
                        assert(keys[i as int] == k);
                    }
                }
            }
            i = i + 1;
        }
        proof {
            assert forall|k: Seq<char>| #[trigger] was.shards.contains_key(k) implies exists|j: int|
                0 <= j < keys.len() && #[trigger] keys[j] == k by {
                assert(keys.contains(k));
                let j = choose|j: int| 0 <= j < keys.len() && keys[j] == k;
                assert(keys[j] == k);
            }
            assert forall|k: Seq<char>| #[trigger]
                crate::task::texts(lost@).contains(k) <==> was.shards.contains_key(k)
                    && !owned.contains(k) by {
                if crate::task::texts(lost@).contains(k) {
                    let j = choose|j: int| 0 <= j < keys.len() && #[trigger] keys[j] == k;
                    assert(keys.contains(k));
                }
                if was.shards.contains_key(k) && !owned.contains(k) {
                    assert(exists|j: int| 0 <= j < keys.len() && #[trigger] keys[j] == k);
                }
            }
            assert(self@.shards =~= was.restricted(owned).shards);
            assert(self@ =~= was.restricted(owned));
        }
        lost
    }

    /// Shuts the engine down: it lets go of all shards and returns them.
    pub fn shutdown(&mut self) -> (released: Vec<String>)
        requires
            old(self).well_formed(),
        ensures
            final(self).well_formed(),
            final(self)@ == (ShardedView { shards: Map::empty(), stopped: true, ..old(self)@ }),
            crate::task::texts(released@).no_duplicates(),
            forall|shard: Seq<char>| #[trigger]
                crate::task::texts(released@).contains(shard) <==> old(
                    self,
                )@.shards.contains_key(shard),
    {
        let ghost was = self@;
        let released = self.shards.keys();
        assert(was.shards.dom() =~= self.shards@.dom());
        self.shards = StringTable::new();
        self.stop_flag = true;
        assert(self@ =~= (ShardedView { shards: Map::empty(), stopped: true, ..was }));
        released
    }
}

/// Of what waits for a pool in the first `n` shards nothing outranks what is served first in
/// shard `b`.
spec fn leads(
    shards: Map<Seq<char>, QueueView>,
    keys: Seq<Seq<char>>,
    n: int,
    pool: Seq<char>,
    b: int,
) -> bool {
    &&& shards[keys[b]].waits_for(pool)
    &&& forall|t: TaskView, j: int, u: TaskView|
        0 <= j < n && shards[keys[j]].lines.contains_key(pool)
            && #[trigger] crate::priority::served_first(shards[keys[b]].lines[pool], t)
            && #[trigger] shards[keys[j]].lines[pool].contains(u) ==> !crate::priority::outranks(
            u,
            t,
        )
}

/// The leader of the first `n` shards or the next shard leads with that shard taken in.
proof fn lemma_next(
    shards: Map<Seq<char>, QueueView>,
    keys: Seq<Seq<char>>,
    n: int,
    pool: Seq<char>,
    b: int,
    t: TaskView,
    u: TaskView,
)
    requires
        0 <= b < n < keys.len(),
        leads(shards, keys, n, pool, b),
        shards[keys[n]].waits_for(pool),
        crate::priority::served_first(shards[keys[n]].lines[pool], t),
        crate::priority::served_first(shards[keys[b]].lines[pool], u),
    ensures
        if crate::priority::outranks(t, u) {
            leads(shards, keys, n + 1, pool, n)
        } else {
            leads(shards, keys, n + 1, pool, b)
        },
{
}

/// Where nothing waits for a pool in the first `n` shards the next shard leads.
proof fn lemma_only(
    shards: Map<Seq<char>, QueueView>,
    keys: Seq<Seq<char>>,
    n: int,
    pool: Seq<char>,
)
    requires
        0 <= n < keys.len(),
        forall|j: int| 0 <= j < n ==> !shards[#[trigger] keys[j]].waits_for(pool),
        shards[keys[n]].waits_for(pool),
    ensures
        leads(shards, keys, n + 1, pool, n),
{
    broadcast use vstd::multiset::group_multiset_axioms;

}

/// What is served first in the shard that leads all others goes first of all.
proof fn lemma_leader_goes_first(
    e: ShardedView,
    keys: Seq<Seq<char>>,
    pool: Seq<char>,
    b: int,
)
    requires
        0 <= b < keys.len(),
        forall|k: Seq<char>| #[trigger] keys.contains(k) <==> e.shards.contains_key(k),
        leads(e.shards, keys, keys.len() as int, pool, b),
    ensures
        forall|t: TaskView| #[trigger]
            crate::priority::served_first(e.shards[keys[b]].lines[pool], t) ==> e.goes_first(
                pool,
                keys[b],
                t,
            ),
{
    assert(keys.contains(keys[b]));
    assert forall|t: TaskView| #[trigger]
        crate::priority::served_first(e.shards[keys[b]].lines[pool], t) implies e.goes_first(
        pool,
        keys[b],
        t,
    ) by {
        assert forall|other: Seq<char>, u: TaskView|
            e.shards.contains_key(other) && e.shards[other].lines.contains_key(pool)
                && #[trigger] e.shards[other].lines[pool].contains(
                u,
            ) implies !crate::priority::outranks(u, t) by {
            assert(keys.contains(other));
            let j = choose|j: int| 0 <= j < keys.len() && keys[j] == other;
            assert(e.shards[keys[j]].lines[pool].contains(u));
        }
    }
}

/// One more text in a list.
proof fn lemma_push(list: Seq<Seq<char>>, x: Seq<char>)
    ensures
        forall|k: Seq<char>| #[trigger] list.push(x).contains(k) <==> list.contains(k) || k == x,
        list.no_duplicates() && !list.contains(x) ==> list.push(x).no_duplicates(),
{
    let more = list.push(x);
    assert forall|k: Seq<char>| #[trigger] more.contains(k) <==> list.contains(k) || k == x by {
        if list.contains(k) {
            let j = choose|j: int| 0 <= j < list.len() && list[j] == k;
            assert(more[j] == k);
        }
        if k == x {
            assert(more[list.len() as int] == k);
        }
        if more.contains(k) && k != x {
            let j = choose|j: int| 0 <= j < more.len() && more[j] == k;
            assert(list[j] == k);
        }
    }
    if list.no_duplicates() && !list.contains(x) {
        assert forall|a: int, b: int| 0 <= a < b < more.len() implies more[a] != more[b] by {
            if b == list.len() {
                assert(list.contains(list[a]));
            }
        }
    }
}

/// The types of task in a list.
pub open spec fn types_listed(types: Seq<String>) -> Set<Seq<char>> {
    Set::new(|k: Seq<char>| crate::task::texts(types).contains(k))
}

/// The queue with handlers of a kind for all these types of task.
pub open spec fn with_handlers(q: QueueView, kind: HandlerKind, types: Set<Seq<char>>) -> QueueView {
    match kind {
        HandlerKind::Run => QueueView { handlers: q.handlers.union(types), ..q },
        HandlerKind::GiveUp => QueueView {
            max_retry_handlers: q.max_retry_handlers.union(types),
            ..q
        },
    }
}

/// Notes that the tasks of these types have a handler of a kind.
fn register_all(queue: &mut SnerdQueue, kind: HandlerKind, types: &Vec<String>)
    requires
        old(queue).well_formed(),
    ensures
        final(queue).well_formed(),
        final(queue)@ == with_handlers(old(queue)@, kind, types_listed(types@)),
{
    let ghost start = queue@;
    let ghost names = crate::task::texts(types@);
    let mut i: usize = 0;
    assert(queue@ =~= with_handlers(start, kind, Set::new(|k: Seq<char>| names.take(0).contains(k))));
    while i < types.len()
        invariant
            i <= types@.len(),
            names == crate::task::texts(types@),
            queue.well_formed(),
            queue@ == with_handlers(
                start,
                kind,
                Set::new(|k: Seq<char>| names.take(i as int).contains(k)),
            ),
        decreases types@.len() - i,
    {
        queue.register_handler(kind, types[i].as_str());
        proof {
            let before = Set::new(|k: Seq<char>| names.take(i as int).contains(k));
            let after = Set::new(|k: Seq<char>| names.take(i + 1).contains(k));
            assert(names.take(i + 1) =~= names.take(i as int).push(names[i as int]));
            lemma_push(names.take(i as int), names[i as int]);
            assert(after =~= before.insert(names[i as int]));
            assert(queue@ =~= with_handlers(start, kind, after));
        }
        i = i + 1;
    }
    assert(names.take(types@.len() as int) =~= names);
    assert(queue@ =~= with_handlers(start, kind, types_listed(types@)));
}

/// Whether a text is in a list.
fn listed(list: &Vec<String>, text: &str) -> (r: bool)
    ensures
        r == crate::task::texts(list@).contains(text@),
{
    let ghost all = crate::task::texts(list@);
    let mut i: usize = 0;
    while i < list.len()
        invariant
            i <= list@.len(),
            all == crate::task::texts(list@),
            forall|j: int| 0 <= j < i ==> #[trigger] all[j] != text@,
        decreases list@.len() - i,
    {
        if same_text(list[i].as_str(), text) {
            assert(all[i as int] == text@);
            return true;
        }
        i = i + 1;
    }
    false
}

/// What came of the attempt to claim a shard.
#[derive(Clone, Copy, Debug, PartialEq, Eq, Structural)]
pub enum ClaimOutcome {
    /// The shard was free.
    Claimed,
    /// The lease of another holder had run out.
    TakenOver,
    /// The shard was held already.
    Renewed,
}

/// What a heartbeat is to do about a shard that it has tried to claim.
#[derive(Clone, Copy, Debug, PartialEq, Eq, Structural)]
pub enum ShardAction {
    /// The claim failed: nothing.
    Leave,
    /// The lock of the shard is held elsewhere: the claim is to be taken back.
    Revert,
    /// The shard is held on.
    Keep,
    /// The shard is new: its queue is to be started.
    Start,
}

/// What a heartbeat does about a shard, by the outcome of the claim, where it came through,
/// and by whether the shard's lock was had.
pub open spec fn shard_action(outcome: Option<ClaimOutcome>, locked: bool) -> ShardAction {
    match outcome {
        None => ShardAction::Leave,
        Some(o) => if !locked {
            ShardAction::Revert
        } else if o == ClaimOutcome::Renewed {
            ShardAction::Keep
        } else {
            ShardAction::Start
        },
    }
}

/// A shard is held after a heartbeat with this outcome.
pub open spec fn holds(outcome: Option<ClaimOutcome>, locked: bool) -> bool {
    outcome is Some && locked
}

/// The shards that one heartbeat has found to be held.
pub struct Heartbeat {
    owned: Vec<String>,
}

impl Heartbeat {
    /// The shards that are held.
    pub closed spec fn view(&self) -> Seq<Seq<char>> {
        crate::task::texts(self.owned@)
    }

    /// A heartbeat that has not looked at any shard.
    pub fn new() -> (r: Heartbeat)
        ensures
            r@ == Seq::<Seq<char>>::empty(),
    {
        let r = Heartbeat { owned: Vec::new() };
        assert(r@ =~= Seq::<Seq<char>>::empty());
        r
    }

    /// Takes in what came of a claim on a shard, and says what is to be done.
    pub fn claimed(&mut self, shard: &str, outcome: Option<ClaimOutcome>, locked: bool) -> (r:
        ShardAction)
        ensures
            r == shard_action(outcome, locked),
            final(self)@ == (if holds(outcome, locked) {
                old(self)@.push(shard@)
            } else {
                old(self)@
            }),
    {
        match outcome {
            None => ShardAction::Leave,
            Some(o) => {
                if !locked {
                    return ShardAction::Revert;
                }
                self.owned.push(shard.to_string());
                assert(self@ =~= old(self)@.push(shard@));
                match o {
                    ClaimOutcome::Renewed => ShardAction::Keep,
                    _ => ShardAction::Start,
                }
            },
        }
    }

    /// The shards that are held.
    pub fn owned(&self) -> (r: &Vec<String>)
        ensures
            crate::task::texts(r@) == self@,
    {
        &self.owned
    }
}

/// After a heartbeat an engine runs a shard only where it holds the lease and the lock, the
/// shards that it keeps are untouched and in order, and one that has lost all its shards takes no
/// tasks.
pub proof fn law_only_held_shards_run(
    e: ShardedView,
    pools: Map<Seq<char>, PoolView>,
    owned: Seq<Seq<char>>,
    shard: Seq<char>,
)
    ensures
        e.restricted(owned).shards.contains_key(shard) <==> e.shards.contains_key(shard)
            && owned.contains(shard),
        e.restricted(owned).shards.contains_key(shard) ==> e.restricted(owned).shards[shard]
            == e.shards[shard],
        owned.len() == 0 ==> e.restricted(owned).shards.len() == 0,
        e.consistent() ==> e.restricted(owned).consistent(),
        e.in_order(pools) ==> e.restricted(owned).in_order(pools),
        e.restricted(owned).restricted(owned) == e.restricted(owned),
{
    let once = e.restricted(owned);
    if owned.len() == 0 {
        assert(once.shards.dom() =~= Set::<Seq<char>>::empty());
    }
    assert(once.restricted(owned).shards =~= once.shards);
    assert(once.restricted(owned) =~= once);
    if e.in_order(pools) {
        assert forall|k: Seq<char>| #[trigger] once.shards.contains_key(k) implies shard_in_order(
            once.shards[k],
            pools,
        ) by {
            assert(e.shards.contains_key(k));
        }
    }
    if e.consistent() {
        assert forall|k: Seq<char>| #[trigger] once.shards.contains_key(k) implies {
            &&& once.shards[k].handlers == once.handlers
            &&& once.shards[k].max_retry_handlers == once.max_retry_handlers
        } by {
            assert(e.shards.contains_key(k));
        }
    }
}

/// A handler counts for every shard of the engine, whether it is registered before the shard
/// starts or after.
pub proof fn law_every_shard_knows_every_handler(
    e: ShardedView,
    store: crate::file_store::StoreView,
    pools: Set<Seq<char>>,
    shard: Seq<char>,
    kind: HandlerKind,
    task_type: Seq<char>,
)
    requires
        e.consistent(),
        !e.shards.contains_key(shard),
    ensures
        ({
            let before = e.with_handler(kind, task_type);
            let after = e.with_shard(shard, e.started(store, pools));
            &&& before.started(store, pools) == after.with_handler(kind, task_type).shards[shard]
            &&& before.consistent()
            &&& after.consistent()
            &&& after.with_handler(kind, task_type).consistent()
        }),
{
    let before = e.with_handler(kind, task_type);
    let after = e.with_shard(shard, e.started(store, pools));
    let both = after.with_handler(kind, task_type);
    assert forall|k: Seq<char>| #[trigger] before.shards.contains_key(k) implies {
        &&& before.shards[k].handlers == before.handlers
        &&& before.shards[k].max_retry_handlers == before.max_retry_handlers
    } by {
        assert(e.shards.contains_key(k));
    }
    assert forall|k: Seq<char>| #[trigger] after.shards.contains_key(k) implies {
        &&& after.shards[k].handlers == after.handlers
        &&& after.shards[k].max_retry_handlers == after.max_retry_handlers
    } by {
        if k != shard {
            assert(e.shards.contains_key(k));
        }
    }
    assert forall|k: Seq<char>| #[trigger] both.shards.contains_key(k) implies {
        &&& both.shards[k].handlers == both.handlers
        &&& both.shards[k].max_retry_handlers == both.max_retry_handlers
    } by {
        assert(after.shards.contains_key(k));
    }
    assert(before.started(store, pools) =~= both.shards[shard]);
}

/// A shard that starts has nothing lined up, and the others stay as they are.
pub proof fn law_started_shard_is_in_order(
    e: ShardedView,
    store: crate::file_store::StoreView,
    pools: Map<Seq<char>, PoolView>,
    shard: Seq<char>,
)
    requires
        e.in_order(pools),
        store.consistent(),
        pools.contains_key("default"@),
    ensures
        e.with_shard(shard, e.started(store, pools.dom())).in_order(pools),
{
    broadcast use vstd::multiset::group_multiset_axioms;

    let after = e.with_shard(shard, e.started(store, pools.dom()));
    assert forall|k: Seq<char>| #[trigger] after.shards.contains_key(k) implies shard_in_order(
        after.shards[k],
        pools,
    ) by {
        if k != shard {
            assert(e.shards.contains_key(k));
        }
    }
}

/// A sweep of one shard lines up tasks of that shard alone, each once, and leaves the other
/// shards as they are. None waits without a dispatcher after it, in any shard.
pub proof fn law_sweep_of_a_shard_lines_up_its_own(
    e: ShardedView,
    shard: Seq<char>,
    p0: Map<Seq<char>, PoolView>,
    q1: QueueView,
    p1: Map<Seq<char>, PoolView>,
    started: Seq<Seq<char>>,
    now: Timestamp,
)
    requires
        e.in_order(p0),
        e.shards.contains_key(shard),
        crate::queue::swept(e.shards[shard], p0, q1, p1, started, now),
    ensures
        e.with_shard(shard, q1).in_order(p1),
        forall|id: Seq<char>| #[trigger]
            q1.queued.contains(id) && !e.shards[shard].queued.contains(id)
                ==> e.shards[shard].store.tasks.contains_key(id),
        crate::queue_laws::waiting_alive(e.shards[shard]) ==> crate::queue_laws::waiting_alive(q1),
        forall|other: Seq<char>|
            other != shard ==> #[trigger] e.with_shard(shard, q1).shards.contains_key(other)
                == e.shards.contains_key(other) && e.with_shard(shard, q1).shards[other]
                == e.shards[other],
{
    let q0 = e.shards[shard];
    crate::queue_laws::law_sweep_lines_up_once(q0, p0, q1, p1, started, now);
    crate::queue_laws::law_waiting_tasks_are_served(q0, p0, q1, p1, started, now, q0);
    assert(q0.lines.dom().contains("default"@));
    assert(q1.lines.contains_key("default"@));
    if crate::queue_laws::waiting_alive(q0) {
        assert forall|name: Seq<char>, u: TaskView|
            q1.lines.contains_key(name) && #[trigger] q1.lines[name].count(u)
                > 0 implies q1.store.tasks.contains_key(u.task_id) && q1.store.tasks[u.task_id]
            == u by {
            assert(q0.lines.dom().contains(name));
            if q0.lines[name].count(u) == 0 {
                assert(q0.ready(u, now));
            }
        }
    }
    let after = e.with_shard(shard, q1);
    assert forall|k: Seq<char>| #[trigger] after.shards.contains_key(k) implies shard_in_order(
        after.shards[k],
        p1,
    ) by {
        if k != shard {
            assert(e.shards.contains_key(k));
            crate::queue_laws::law_waiting_tasks_are_served(
                q0,
                p0,
                q1,
                p1,
                started,
                now,
                e.shards[k],
            );
        }
    }
}

/// All shards of an engine share the workers and the dispatchers. What a dispatcher takes goes
/// first by its rank whatever shard it waits in, and it is its own shard that hands it out, once,
/// while the other shards stay as they are: no shard takes a task from another, and none is left
/// lined up that another has run. Where what waits is in the shard's store, what is handed out
/// is. Afterwards none waits without a dispatcher, in any shard.
pub proof fn law_dispatch_takes_the_first_of_all_shards(
    e0: ShardedView,
    p0: Map<Seq<char>, PoolView>,
    pool: Seq<char>,
    now: Timestamp,
    e1: ShardedView,
    p1: Map<Seq<char>, PoolView>,
    shard: Option<Seq<char>>,
    d: Dispatch,
)
    requires
        e0.in_order(p0),
        dispatched_for_all(e0, p0, pool, now, e1, p1, shard, d),
    ensures
        e1.in_order(p1),
        d !is Skipped,
        d is Idle <==> !exists|k: Seq<char>| #[trigger]
            e0.shards.contains_key(k) && e0.shards[k].lines.contains_key(pool)
                && e0.shards[k].lines[pool].len() > 0,
        d is Idle <==> shard is None,
        d is Idle ==> {
            &&& e1 == e0
            &&& p1 == p0.insert(pool, p1[pool])
            &&& p1[pool].dispatchers == (p0[pool].dispatchers - 1) as nat
            &&& p1[pool].running == p0[pool].running
            &&& p1[pool].capacity == p0[pool].capacity
        },
        d !is Idle ==> exists|t: TaskView|
            {
                &&& #[trigger] e0.goes_first(pool, shard->0, t)
                &&& crate::queue::released(
                    e0.shards[shard->0],
                    p0,
                    pool,
                    t,
                    now,
                    e1.shards[shard->0],
                    p1,
                    d,
                )
                &&& d matches Dispatch::Execute(task) ==> task@ == t
                &&& d matches Dispatch::Deferred(line) ==> line@ == (TaskView {
                    retry_after_time: line@.retry_after_time,
                    ..t
                })
            },
        d matches Dispatch::Execute(task) ==> {
            let q0 = e0.shards[shard->0];
            let q1 = e1.shards[shard->0];
            &&& e0.goes_first(pool, shard->0, task@)
            &&& q0.queued.contains(task@.task_id)
            &&& q1.executing.contains(task@.task_id)
            &&& !q1.queued.contains(task@.task_id)
            &&& crate::queue_laws::waiting_alive(q0) ==> q0.store.tasks.contains_key(
                task@.task_id,
            ) && q0.store.tasks[task@.task_id] == task@
        },
        shard matches Some(s) ==> crate::queue_laws::waiting_alive(e0.shards[s])
            ==> crate::queue_laws::waiting_alive(e1.shards[s]),
        forall|other: Seq<char>|
            shard != Some(other) ==> #[trigger] e1.shards.contains_key(other)
                == e0.shards.contains_key(other) && e1.shards[other] == e0.shards[other],
{
    broadcast use vstd::multiset::group_multiset_axioms;

    match shard {
        Some(s) => {
            let q0 = e0.shards[s];
            let q1 = e1.shards[s];
            let t = choose|t: TaskView|
                {
                    &&& #[trigger] e0.goes_first(pool, s, t)
                    &&& crate::queue::released(q0, p0, pool, t, now, q1, p1, d)
                };
            assert(q0.lines[pool].count(t) > 0);
            assert(e0.shards.contains_key(s) && q0.lines[pool].len() > 0);
            crate::queue_laws::law_released_task_is_handed_out_once(
                q0,
                p0,
                pool,
                t,
                now,
                q1,
                p1,
                d,
            );
            if crate::queue_laws::waiting_alive(q0) {
                assert forall|name: Seq<char>, u: TaskView|
                    q1.lines.contains_key(name) && #[trigger] q1.lines[name].count(u)
                        > 0 implies q1.store.tasks.contains_key(u.task_id)
                    && q1.store.tasks[u.task_id] == u by {
                    assert(q0.lines[name].count(u) > 0);
                }
            }
            assert forall|k: Seq<char>| #[trigger] e1.shards.contains_key(k) implies shard_in_order(
                e1.shards[k],
                p1,
            ) by {
                assert(e0.shards.contains_key(k));
                crate::queue_laws::law_released_task_leaves_others_served(
                    q0,
                    p0,
                    pool,
                    t,
                    now,
                    q1,
                    p1,
                    d,
                    e0.shards[k],
                );
            }
        },
        None => {
            assert forall|k: Seq<char>| #[trigger] e1.shards.contains_key(k) implies shard_in_order(
                e1.shards[k],
                p1,
            ) by {
                assert(!e0.shards[k].waits_for(pool));
            }
        },
    }
}

/// A more urgent task goes first whatever shards the two wait in, and of two equally urgent ones
/// the older does.
pub proof fn law_urgency_counts_across_shards(
    e: ShardedView,
    pool: Seq<char>,
    shard: Seq<char>,
    t: TaskView,
    other: Seq<char>,
    u: TaskView,
)
    requires
        e.goes_first(pool, shard, t),
        e.shards.contains_key(other),
        e.shards[other].lines.contains_key(pool),
        e.shards[other].lines[pool].contains(u),
    ensures
        e.shards.contains_key(shard),
        e.shards[shard].lines.contains_key(pool),
        e.shards[shard].lines[pool].contains(t),
        u.urgency <= t.urgency,
        u.urgency == t.urgency ==> t.created_at.at_or_before(u.created_at),
{
    assert(!crate::priority::outranks(u, t));
}

/// A heartbeat leaves a shard alone where its claim failed, takes the claim back where the lock
/// is held elsewhere, goes on with a shard that it held, and starts one that is new. It holds the
/// shards that it claimed and locked, and no others.
pub proof fn law_shard_is_held_with_claim_and_lock(
    outcome: Option<ClaimOutcome>,
    locked: bool,
)
    ensures
        shard_action(outcome, locked) == ShardAction::Leave <==> outcome is None,
        shard_action(outcome, locked) == ShardAction::Revert <==> outcome is Some && !locked,
        shard_action(outcome, locked) == ShardAction::Keep <==> outcome == Some(
            ClaimOutcome::Renewed,
        ) && locked,
        shard_action(outcome, locked) == ShardAction::Start <==> (outcome == Some(
            ClaimOutcome::Claimed,
        ) || outcome == Some(ClaimOutcome::TakenOver)) && locked,
        holds(outcome, locked) <==> outcome is Some && locked,
{
}

/// A shard starts on its store with the name and the handlers of the engine, with nothing lined
/// up, running or remembered and with no run on record; the other shards stay as they are.
pub proof fn law_shard_starts_with_the_engines_handlers(
    e: ShardedView,
    store: crate::file_store::StoreView,
    pools: Set<Seq<char>>,
    shard: Seq<char>,
    other: Seq<char>,
    pool: Seq<char>,
    id: Seq<char>,
)
    ensures
        ({
            let after = e.with_shard(shard, e.started(store, pools));
            let q = after.shards[shard];
            &&& after.shards.contains_key(shard)
            &&& q.name == e.name
            &&& q.store == store
            &&& q.handlers == e.handlers
            &&& q.max_retry_handlers == e.max_retry_handlers
            &&& q.lines.contains_key(pool) <==> pools.contains(pool)
            &&& pools.contains(pool) ==> q.lines[pool].len() == 0
            &&& !q.limits.contains_key(id)
            &&& !q.executing.contains(id)
            &&& !q.queued.contains(id)
            &&& !q.completed.contains_key(id)
            &&& other != shard ==> after.shards.contains_key(other) == e.shards.contains_key(other)
            &&& other != shard && e.shards.contains_key(other) ==> after.shards[other]
                == e.shards[other]
            &&& after.name == e.name && after.dir == e.dir && after.stopped == e.stopped
            &&& after.handlers == e.handlers && after.max_retry_handlers == e.max_retry_handlers
        }),
{
    broadcast use vstd::multiset::group_multiset_axioms;

}

/// A handler that is registered with an engine counts for its type, on the engine and on every
/// shard, and nothing else changes.
pub proof fn law_handler_reaches_every_shard(
    e: ShardedView,
    task_type: Seq<char>,
    other: Seq<char>,
    shard: Seq<char>,
)
    ensures
        ({
            let run = e.with_handler(HandlerKind::Run, task_type);
            let given_up = e.with_handler(HandlerKind::GiveUp, task_type);
            &&& run.handlers.contains(other) <==> other == task_type || e.handlers.contains(other)
            &&& run.max_retry_handlers == e.max_retry_handlers
            &&& given_up.max_retry_handlers.contains(other) <==> other == task_type
                || e.max_retry_handlers.contains(other)
            &&& given_up.handlers == e.handlers
            &&& run.shards.contains_key(shard) == e.shards.contains_key(shard)
            &&& given_up.shards.contains_key(shard) == e.shards.contains_key(shard)
            &&& e.shards.contains_key(shard) ==> run.shards[shard] == (QueueView {
                handlers: e.shards[shard].handlers.insert(task_type),
                ..e.shards[shard]
            })
            &&& e.shards.contains_key(shard) ==> given_up.shards[shard] == (QueueView {
                max_retry_handlers: e.shards[shard].max_retry_handlers.insert(task_type),
                ..e.shards[shard]
            })
            &&& run.name == e.name && run.dir == e.dir && run.stopped == e.stopped
            &&& given_up.name == e.name && given_up.dir == e.dir && given_up.stopped == e.stopped
        }),
{
}

/// The name of a shard is told as it is.
pub proof fn law_shard_is_told_by_its_name(name: String)
    ensures
        opt_text(None) is None,
        opt_text(Some(name)) == Some(name@),
{
}

} // verus!
