//! Worker pools: how many tasks run at once, and how many dispatchers hand them out.

use vstd::prelude::*;

use crate::table::StringTable;

verus! {

/// The workers of the default pool where nothing else is said.
pub const DEFAULT_CAPACITY: usize = 100;

/// How many dispatchers may hand out the tasks of a pool at a time.
pub const MAX_DISPATCHERS: usize = 2;

/// A pool of workers.
pub struct Pool {
    capacity: usize,
    running: usize,
    dispatchers: usize,
}

/// What a pool holds.
#[verifier::ext_equal]
pub struct PoolView {
    /// How many tasks may run at a time.
    pub capacity: nat,
    /// How many tasks run.
    pub running: nat,
    /// How many dispatchers hand out tasks.
    pub dispatchers: nat,
}

impl View for Pool {
    type V = PoolView;

    closed spec fn view(&self) -> PoolView {
        PoolView {
            capacity: self.capacity as nat,
            running: self.running as nat,
            dispatchers: self.dispatchers as nat,
        }
    }
}

impl PoolView {
    /// An idle pool.
    pub open spec fn idle(capacity: nat) -> PoolView {
        PoolView { capacity: capacity, running: 0, dispatchers: 0 }
    }

    /// No more tasks run than there are workers, and no more dispatchers are at work than
    /// allowed.
    pub open spec fn within_limits(self) -> bool {
        self.running <= self.capacity && self.dispatchers <= MAX_DISPATCHERS
    }

    /// The pool with one dispatcher more.
    pub open spec fn with_dispatcher(self) -> PoolView {
        PoolView { dispatchers: self.dispatchers + 1, ..self }
    }

    /// The pool with one dispatcher less.
    pub open spec fn without_dispatcher(self) -> PoolView {
        PoolView { dispatchers: (self.dispatchers - 1) as nat, ..self }
    }
}

impl Pool {
    /// The pool keeps its limits.
    pub closed spec fn well_formed(&self) -> bool {
        self@.within_limits()
    }

    fn new(capacity: usize) -> (r: Pool)
        ensures
            r.well_formed(),
            r@ == PoolView::idle(capacity as nat),
    {
        let r = Pool { capacity, running: 0, dispatchers: 0 };
        assert(r@ =~= PoolView::idle(capacity as nat));
        r
    }
}

/// The pools of an engine, by name.
pub struct WorkerPools {
    pools: StringTable<Pool>,
}

/// The pools that a configuration asks for. There is always a default pool.
pub open spec fn configured(sizes: Map<Seq<char>, usize>) -> Map<Seq<char>, PoolView> {
    Map::new(
        |name: Seq<char>| sizes.contains_key(name) || name == "default"@,
        |name: Seq<char>|
            PoolView::idle(
                if sizes.contains_key(name) {
                    sizes[name] as nat
                } else {
                    DEFAULT_CAPACITY as nat
                },
            ),
    )
}

impl WorkerPools {
    /// The pools.
    pub closed spec fn view(&self) -> Map<Seq<char>, PoolView> {
        self.pools@.map_values(|p: Pool| p@)
    }

    /// There is a default pool, and each pool keeps its limits.
    pub closed spec fn well_formed(&self) -> bool {
        &&& self.pools.well_formed()
        &&& self.pools@.contains_key("default"@)
        &&& forall|name: Seq<char>| #[trigger]
            self.pools@.contains_key(name) ==> self.pools@[name].well_formed()
    }

    /// At any time there is a default pool, and in each pool no more tasks run than it has
    /// workers and no more dispatchers are at work than allowed.
    pub proof fn law_limits_hold(&self)
        requires
            self.well_formed(),
        ensures
            self@.contains_key("default"@),
            forall|name: Seq<char>| #[trigger]
                self@.contains_key(name) ==> self@[name].within_limits(),
    {
        assert(self.pools@.contains_key("default"@));
        assert forall|name: Seq<char>| #[trigger] self@.contains_key(name) implies self@[name].within_limits()
        by {
            assert(self.pools@.contains_key(name));
        }
    }

    /// The pools with the given sizes, and a default pool in any case.
    pub fn new(sizes: &StringTable<usize>) -> (r: WorkerPools)
        requires
            sizes.well_formed(),
        ensures
            r.well_formed(),
            r@ == configured(sizes@),
    {
        let mut pools: StringTable<Pool> = StringTable::new();
        let ghost rows = sizes.rows();
        let n: usize = sizes.len();
        proof {
            sizes.lemma_rows();
        }
        let mut i: usize = 0;
        while i < n
            invariant
                i <= n == rows.len(),
                rows == sizes.rows(),
                crate::table::keys_distinct(rows),
                pools.well_formed(),
                forall|name: Seq<char>| #[trigger]
                    pools@.contains_key(name) <==> exists|j: int|
                        0 <= j < i && (#[trigger] rows[j]).0 == name,
                forall|j: int|
                    0 <= j < i ==> pools@[(#[trigger] rows[j]).0]@ == PoolView::idle(
                        rows[j].1 as nat,
                    ) && pools@[rows[j].0].well_formed(),
            decreases n - i,
        {
            let ghost before = pools@;
            let pool = Pool::new(*sizes.value_at(i));
            pools.insert(sizes.key_at(i).clone(), pool);
            proof {
                assert forall|j: int| 0 <= j < i + 1 implies pools@[(#[trigger] rows[j]).0]@
                    == PoolView::idle(rows[j].1 as nat) && pools@[rows[j].0].well_formed() by {
                    if j < i {
                        assert(rows[j].0 != rows[i as int].0);
                        assert(before.contains_key(rows[j].0));
                    }
                }
                assert forall|name: Seq<char>| #[trigger]
                    pools@.contains_key(name) <==> exists|j: int|
                        0 <= j < i + 1 && (#[trigger] rows[j]).0 == name by {
                    if before.contains_key(name) {
                        let j = choose|j: int| 0 <= j < i && (#[trigger] rows[j]).0 == name;
                        assert(rows[j].0 == name);
                    }
                    if name == rows[i as int].0 {
                        assert(rows[i as int].0 == name);
                    }
                }
            }
            i = i + 1;
        }
        let has_default: bool = pools.contains_key("default");
        let ghost before = pools@;
        if !has_default {
            pools.insert("default".to_string(), Pool::new(DEFAULT_CAPACITY));
        }
        let r = WorkerPools { pools };
        proof {
            assert forall|name: Seq<char>| #[trigger] sizes@.contains_key(name) implies before.contains_key(
                name,
            ) && before[name]@ == PoolView::idle(sizes@[name] as nat) by {
                let j = choose|j: int| 0 <= j < rows.len() && (#[trigger] rows[j]).0 == name;
                assert(rows[j].0 == name);
                crate::table::lemma_row_in_contents(rows, j);
            }
            assert forall|name: Seq<char>| #[trigger] before.contains_key(name) implies sizes@.contains_key(
                name,
            ) && before[name].well_formed() by {
                let j = choose|j: int| 0 <= j < rows.len() && (#[trigger] rows[j]).0 == name;
                assert(rows[j].0 == name);
                crate::table::lemma_row_in_contents(rows, j);
            }
            assert(r@ =~= configured(sizes@));
        }
        r
    }

    /// The pools of an engine for which nothing else is said.
    pub fn default_pools() -> (r: WorkerPools)
        ensures
            r.well_formed(),
            r@ == configured(Map::<Seq<char>, usize>::empty()),
    {
        let sizes: StringTable<usize> = StringTable::new();
        WorkerPools::new(&sizes)
    }

    /// The names of the pools.
    pub fn names(&self) -> (r: Vec<String>)
        requires
            self.well_formed(),
        ensures
            crate::task::texts(r@).no_duplicates(),
            forall|name: Seq<char>| #[trigger]
                crate::task::texts(r@).contains(name) <==> self@.contains_key(name),
    {
        self.pools.keys()
    }

    /// Whether there is a pool of that name.
    pub fn contains(&self, name: &str) -> (r: bool)
        requires
            self.well_formed(),
        ensures
            r == self@.contains_key(name@),
    {
        self.pools.contains_key(name)
    }

    /// How many tasks of a pool may run at a time.
    pub fn capacity(&self, name: &str) -> (r: Option<usize>)
        requires
            self.well_formed(),
        ensures
            match r {
                Some(n) => self@.contains_key(name@) && n == self@[name@].capacity,
                None => !self@.contains_key(name@),
            },
    {
        match self.pools.get(name) {
            Some(p) => Some(p.capacity),
            None => None,
        }
    }

    /// Whether a pool has a free worker.
    pub fn has_free_worker(&self, name: &str) -> (r: bool)
        requires
            self.well_formed(),
        ensures
            r == (self@.contains_key(name@) && self@[name@].running < self@[name@].capacity),
    {
        match self.pools.get(name) {
            Some(p) => p.running < p.capacity,
            None => false,
        }
    }

    /// Sets a free worker of a pool to work.
    pub fn occupy_worker(&mut self, name: &str)
        requires
            old(self).well_formed(),
            old(self)@.contains_key(name@),
            old(self)@[name@].running < old(self)@[name@].capacity,
        ensures
            final(self).well_formed(),
            final(self)@ == old(self)@.insert(
                name@,
                (PoolView { running: old(self)@[name@].running + 1, ..old(self)@[name@] }),
            ),
    {
        let ghost before = self@;
        match self.pools.remove(name) {
            Some(mut pool) => {
                pool.running = pool.running + 1;
                self.pools.insert(name.to_string(), pool);
                assert(self@ =~= before.insert(name@, pool@));
            },
            None => {
                assert(false);
            },
        }
    }

    /// Sets a worker free.
    pub fn release_worker(&mut self, name: &str)
        requires
            old(self).well_formed(),
            old(self)@.contains_key(name@),
            old(self)@[name@].running > 0,
        ensures
            final(self).well_formed(),
            final(self)@ == old(self)@.insert(
                name@,
                (PoolView { running: (old(self)@[name@].running - 1) as nat, ..old(self)@[name@] }),
            ),
    {
        let ghost before = self@;
        match self.pools.remove(name) {
            Some(mut pool) => {
                pool.running = pool.running - 1;
                self.pools.insert(name.to_string(), pool);
                assert(self@ =~= before.insert(name@, pool@));
            },
            None => {
                assert(false);
            },
        }
    }

    /// Gives a pool one more dispatcher; `false` where there is no such pool or it has as many
    /// as it may have.
    pub fn add_dispatcher(&mut self, name: &str) -> (r: bool)
        requires
            old(self).well_formed(),
        ensures
            final(self).well_formed(),
            r == (old(self)@.contains_key(name@) && old(self)@[name@].dispatchers
                < MAX_DISPATCHERS),
            final(self)@ == (if r {
                old(self)@.insert(name@, old(self)@[name@].with_dispatcher())
            } else {
                old(self)@
            }),
    {
        let ghost before = self@;
        match self.pools.remove(name) {
            Some(mut pool) => {
                let r: bool = pool.dispatchers < MAX_DISPATCHERS;
                if r {
                    pool.dispatchers = pool.dispatchers + 1;
                }
                self.pools.insert(name.to_string(), pool);
                assert(self@ =~= before.insert(name@, pool@));
                assert(!r ==> self@ =~= before);
                r
            },
            None => {
                assert(self@ =~= before);
                false
            },
        }
    }

    /// Takes a dispatcher away from a pool that has one.
    pub fn remove_dispatcher(&mut self, name: &str)
        requires
            old(self).well_formed(),
            old(self)@.contains_key(name@),
            old(self)@[name@].dispatchers > 0,
        ensures
            final(self).well_formed(),
            final(self)@ == old(self)@.insert(name@, old(self)@[name@].without_dispatcher()),
    {
        let ghost before = self@;
        match self.pools.remove(name) {
            Some(mut pool) => {
                pool.dispatchers = pool.dispatchers - 1;
                self.pools.insert(name.to_string(), pool);
                assert(self@ =~= before.insert(name@, pool@));
            },
            None => {
                assert(false);
            },
        }
    }

    /// How many dispatchers hand out the tasks of a pool.
    pub fn dispatchers(&self, name: &str) -> (r: usize)
        requires
            self.well_formed(),
        ensures
            r == (if self@.contains_key(name@) {
                self@[name@].dispatchers
            } else {
                0
            }),
    {
        match self.pools.get(name) {
            Some(p) => p.dispatchers,
            None => 0,
        }
    }

    /// How many workers of a pool are at work.
    pub fn running(&self, name: &str) -> (r: usize)
        requires
            self.well_formed(),
        ensures
            r == (if self@.contains_key(name@) {
                self@[name@].running
            } else {
                0
            }),
    {
        match self.pools.get(name) {
            Some(p) => p.running,
            None => 0,
        }
    }
}

/// A configuration gives each pool the workers that it asks for, and the default pool a hundred
/// where it asks for none. Nothing runs and no dispatcher is at work to begin with.
pub proof fn law_pools_are_as_configured(sizes: Map<Seq<char>, usize>, name: Seq<char>)
    ensures
        configured(sizes).contains_key(name) <==> sizes.contains_key(name) || name == "default"@,
        sizes.contains_key(name) ==> configured(sizes)[name].capacity == sizes[name],
        !sizes.contains_key("default"@) ==> configured(sizes)["default"@].capacity == 100,
        configured(sizes).contains_key(name) ==> configured(sizes)[name].running == 0
            && configured(sizes)[name].dispatchers == 0,
{
}

/// A pool keeps its limits where no more tasks run than it has workers and no more than two
/// dispatchers are at work; one more dispatcher or one less changes nothing else about it.
pub proof fn law_pool_limits(p: PoolView)
    ensures
        p.within_limits() <==> p.running <= p.capacity && p.dispatchers <= 2,
        p.with_dispatcher().dispatchers == p.dispatchers + 1,
        p.with_dispatcher().running == p.running,
        p.with_dispatcher().capacity == p.capacity,
        p.dispatchers > 0 ==> p.without_dispatcher().dispatchers == p.dispatchers - 1,
        p.without_dispatcher().running == p.running,
        p.without_dispatcher().capacity == p.capacity,
{
}

} // verus!
