//! The waiting lines of a queue: which tasks wait for which pool.

use vstd::multiset::Multiset;
use vstd::prelude::*;

use crate::pools::WorkerPools;
use crate::priority::{PriorityTask, TaskHeap};
use crate::table::StringTable;
use crate::task::{RetryableTask, TaskView};

verus! {

/// A line in which nothing waits for each of these pools.
pub open spec fn idle_lines(pools: Set<Seq<char>>) -> Map<Seq<char>, Multiset<TaskView>> {
    Map::new(
        |name: Seq<char>| pools.contains(name),
        |name: Seq<char>| Multiset::<TaskView>::empty(),
    )
}

/// The waiting lines of a queue, by pool.
pub struct WaitingLines {
    lines: StringTable<TaskHeap>,
}

impl WaitingLines {
    /// What waits for each pool.
    pub closed spec fn view(&self) -> Map<Seq<char>, Multiset<TaskView>> {
        self.lines@.map_values(|line: TaskHeap| line@)
    }

    /// There is a line for the default pool, and each line is in order.
    pub closed spec fn well_formed(&self) -> bool {
        &&& self.lines.well_formed()
        &&& self.lines@.contains_key("default"@)
        &&& forall|name: Seq<char>| #[trigger]
            self.lines@.contains_key(name) ==> self.lines@[name].well_formed()
    }

    /// There is a line for the default pool.
    pub proof fn lemma_default_line(&self)
        requires
            self.well_formed(),
        ensures
            self@.contains_key("default"@),
    {
        assert(self.lines@.contains_key("default"@));
    }

    /// A line in which nothing waits for each pool.
    pub fn new(pools: &WorkerPools) -> (r: WaitingLines)
        requires
            pools.well_formed(),
        ensures
            r.well_formed(),
            r@ == idle_lines(pools@.dom()),
    {
        let names = pools.names();
        let ghost keys = crate::task::texts(names@);
        let mut lines: StringTable<TaskHeap> = StringTable::new();
        let mut i: usize = 0;
        while i < names.len()
            invariant
                i <= names@.len(),
                keys == crate::task::texts(names@),
                lines.well_formed(),
                forall|name: Seq<char>| #[trigger]
                    lines@.contains_key(name) <==> exists|j: int|
                        0 <= j < i && #[trigger] keys[j] == name,
                forall|name: Seq<char>| #[trigger]
                    lines@.contains_key(name) ==> lines@[name].well_formed() && lines@[name]@
                        == Multiset::<TaskView>::empty(),
            decreases names@.len() - i,
        {
            let ghost before = lines@;
            lines.insert(names[i].clone(), TaskHeap::new());
            assert forall|name: Seq<char>| #[trigger]
                lines@.contains_key(name) <==> exists|j: int|
                    0 <= j < i + 1 && #[trigger] keys[j] == name by {
                if before.contains_key(name) {
                    let j = choose|j: int| 0 <= j < i && #[trigger] keys[j] == name;
                    assert(keys[j] == name);
                }
                if keys[i as int] == name {
                    assert(lines@.contains_key(name));
                }
            }
            i = i + 1;
        }
        let r = WaitingLines { lines };
        proof {
            pools.law_limits_hold();
            assert forall|name: Seq<char>| #[trigger] lines@.contains_key(name)
                == pools@.contains_key(name) by {
                assert(keys.contains(name) == pools@.contains_key(name));
                if keys.contains(name) {
                    let j = choose|j: int| 0 <= j < keys.len() && keys[j] == name;
                    assert(keys[j] == name);
                }
                if lines@.contains_key(name) {
                    let j = choose|j: int| 0 <= j < keys.len() && #[trigger] keys[j] == name;
                    assert(keys.contains(name));
                }
            }
            assert(lines@.contains_key("default"@) == pools@.contains_key("default"@));
            assert forall|name: Seq<char>| #[trigger] r@.contains_key(name) implies r@[name]
                == Multiset::<TaskView>::empty() by {
                assert(lines@.contains_key(name));
            }
            assert(r@ =~= idle_lines(pools@.dom()));
        }
        r
    }

    /// Whether there is a line for a pool.
    pub fn contains(&self, name: &str) -> (r: bool)
        requires
            self.well_formed(),
        ensures
            r == self@.contains_key(name@),
    {
        self.lines.contains_key(name)
    }

    /// Lines a task up for a pool.
    pub fn push(&mut self, name: &str, task: RetryableTask)
        requires
            old(self).well_formed(),
            old(self)@.contains_key(name@),
        ensures
            final(self).well_formed(),
            final(self)@ == old(self)@.insert(name@, old(self)@[name@].insert(task@)),
    {
        let ghost before = self@;
        match self.lines.remove(name) {
            Some(mut line) => {
                line.push(PriorityTask(task));
                self.lines.insert(name.to_string(), line);
                assert(self@ =~= before.insert(name@, line@));
            },
            None => {
                assert(false);
            },
        }
    }

    /// The task that is served first of those that wait for a pool.
    pub fn first(&self, name: &str) -> (r: Option<&RetryableTask>)
        requires
            self.well_formed(),
        ensures
            match r {
                Some(t) => {
                    &&& self@.contains_key(name@)
                    &&& crate::priority::served_first(self@[name@], t@)
                },
                None => self@.contains_key(name@) ==> self@[name@].len() == 0,
            },
    {
        match self.lines.get(name) {
            Some(line) => line.first(),
            None => None,
        }
    }

    /// Takes the task that is served first out of a pool's line.
    pub fn pop(&mut self, name: &str) -> (r: Option<RetryableTask>)
        requires
            old(self).well_formed(),
        ensures
            final(self).well_formed(),
            match r {
                Some(t) => {
                    &&& old(self)@.contains_key(name@)
                    &&& crate::priority::served_first(old(self)@[name@], t@)
                    &&& final(self)@ == old(self)@.insert(name@, old(self)@[name@].remove(t@))
                },
                None => {
                    &&& old(self)@.contains_key(name@) ==> old(self)@[name@].len() == 0
                    &&& final(self)@ == old(self)@
                },
            },
    {
        let ghost before = self@;
        match self.lines.remove(name) {
            Some(mut line) => {
                let top = line.pop();
                self.lines.insert(name.to_string(), line);
                assert(self@ =~= before.insert(name@, line@));
                match top {
                    Some(PriorityTask(task)) => Some(task),
                    None => {
                        assert(self@ =~= before);
                        None
                    },
                }
            },
            None => {
                assert(self@ =~= before);
                None
            },
        }
    }

    /// How many tasks wait for a pool.
    pub fn waiting(&self, name: &str) -> (r: usize)
        requires
            self.well_formed(),
        ensures
            r == (if self@.contains_key(name@) {
                self@[name@].len()
            } else {
                0
            }),
    {
        match self.lines.get(name) {
            Some(line) => line.len(),
            None => 0,
        }
    }
}

} // verus!
