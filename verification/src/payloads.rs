//! The payloads of pending tasks.

use vstd::prelude::*;

use crate::task::{RetryableTask, TaskView};
use crate::table::StringTable;

verus! {

/// The digests that live tasks carry.
pub open spec fn hashes_of(tasks: Map<Seq<char>, TaskView>) -> Set<Seq<char>> {
    Set::new(
        |h: Seq<char>|
            exists|id: Seq<char>| #[trigger]
                tasks.contains_key(id) && tasks[id].payload_hash == Some(h),
    )
}

/// The ids of the live tasks with a digest.
pub open spec fn holders(tasks: Map<Seq<char>, TaskView>, h: Seq<char>) -> Set<Seq<char>> {
    tasks.dom().filter(|id: Seq<char>| tasks[id].payload_hash == Some(h))
}

/// How many pending tasks have which payload.
pub struct PendingPayloads {
    counts: StringTable<usize>,
}

impl PendingPayloads {
    /// The digests of pending payloads.
    pub closed spec fn view(&self) -> Set<Seq<char>> {
        self.counts@.dom()
    }

    /// Each digest of a live task is on record with the number of tasks that have it, and no
    /// other is.
    pub closed spec fn tracks(&self, tasks: Map<Seq<char>, TaskView>) -> bool {
        &&& self.counts.well_formed()
        &&& tasks.dom().finite()
        &&& forall|h: Seq<char>| #[trigger]
            self.counts@.contains_key(h) <==> holders(tasks, h).len() > 0
        &&& forall|h: Seq<char>| #[trigger]
            self.counts@.contains_key(h) ==> self.counts@[h] == holders(tasks, h).len()
    }

    /// What is on record are the digests of live tasks.
    pub proof fn lemma_tracks(&self, tasks: Map<Seq<char>, TaskView>)
        requires
            self.tracks(tasks),
        ensures
            self@ == hashes_of(tasks),
    {
        assert forall|h: Seq<char>| #[trigger] self@.contains(h) == hashes_of(tasks).contains(h) by {
            let ids = holders(tasks, h);
            if self.counts@.contains_key(h) {
                let id = ids.choose();
                assert(ids.contains(id));
                assert(tasks.contains_key(id));
            }
            if hashes_of(tasks).contains(h) {
                let id = choose|id: Seq<char>| #[trigger]
                    tasks.contains_key(id) && tasks[id].payload_hash == Some(h);
                assert(ids.contains(id));
                assert(ids.len() > 0);
                assert(self.counts@.contains_key(h));
            }
        }
        assert(self@ =~= hashes_of(tasks));
    }

    /// The payloads where no task is alive.
    pub(crate) fn new() -> (r: PendingPayloads)
        ensures
            r.tracks(Map::<Seq<char>, TaskView>::empty()),
    {
        let r = PendingPayloads { counts: StringTable::new() };
        proof {
            assert forall|h: Seq<char>| true implies #[trigger] holders(
                Map::<Seq<char>, TaskView>::empty(),
                h,
            ) =~= Set::<Seq<char>>::empty() by {
            }
        }
        r
    }

    /// Whether a digest is that of a pending payload.
    pub(crate) fn contains(&self, h: &str, Ghost(tasks): Ghost<Map<Seq<char>, TaskView>>) -> (r: bool)
        requires
            self.tracks(tasks),
        ensures
            r == hashes_of(tasks).contains(h@),
    {
        proof {
            self.lemma_tracks(tasks);
        }
        self.counts.contains_key(h)
    }

    /// Takes note that a task is gone.
    pub(crate) fn remove(&mut self, task: &RetryableTask, Ghost(tasks): Ghost<Map<Seq<char>, TaskView>>)
        requires
            old(self).tracks(tasks),
            tasks.contains_key(task@.task_id),
            tasks[task@.task_id] == task@,
        ensures
            final(self).tracks(tasks.remove(task@.task_id)),
    {
        let ghost id = task@.task_id;
        let ghost after = tasks.remove(id);
        proof {
            assert forall|h: Seq<char>| true implies #[trigger] holders(after, h) =~= holders(
                tasks,
                h,
            ).remove(id) by {
            }
        }
        match &task.payload_hash {
            Some(hash) => {
                proof {
                    assert(holders(tasks, hash@).contains(id));
                    assert(holders(tasks, hash@).len() > 0);
                    assert(self.counts@.contains_key(hash@));
                }
                let n: usize = match self.counts.get(hash.as_str()) {
                    Some(n) => *n,
                    None => 0,
                };
                if n <= 1 {
                    let _ = self.counts.remove(hash.as_str());
                } else {
                    self.counts.insert(hash.clone(), n - 1);
                }
                proof {
                    assert forall|h: Seq<char>| true implies #[trigger] holders(after, h).len()
                        == holders(tasks, h).len() - if h == hash@ {
                        1int
                    } else {
                        0int
                    } by {
                        if h != hash@ {
                            assert(!holders(tasks, h).contains(id));
                        }
                    }
                }
            },
            None => {
                proof {
                    assert forall|h: Seq<char>| true implies #[trigger] holders(after, h)
                        == holders(tasks, h) by {
                        assert(!holders(tasks, h).contains(id));
                    }
                }
            },
        }
    }

    /// Takes note of a live task that is new among the others.
    pub(crate) fn insert(&mut self, task: &RetryableTask, Ghost(tasks): Ghost<Map<Seq<char>, TaskView>>)
        requires
            old(self).tracks(tasks),
            !tasks.contains_key(task@.task_id),
            tasks.dom().len() < usize::MAX,
        ensures
            final(self).tracks(tasks.insert(task@.task_id, task@)),
    {
        let ghost id = task@.task_id;
        let ghost after = tasks.insert(id, task@);
        match &task.payload_hash {
            Some(hash) => {
                proof {
                    vstd::set_lib::lemma_len_subset(holders(tasks, hash@), tasks.dom());
                    assert forall|h: Seq<char>| true implies #[trigger] holders(after, h).len()
                        == holders(tasks, h).len() + if h == hash@ {
                        1int
                    } else {
                        0int
                    } by {
                        if h == hash@ {
                            assert(holders(after, h) =~= holders(tasks, h).insert(id));
                        } else {
                            assert(holders(after, h) =~= holders(tasks, h));
                        }
                    }
                }
                let n: usize = match self.counts.get(hash.as_str()) {
                    Some(n) => *n,
                    None => 0,
                };
                self.counts.insert(hash.clone(), n + 1);
            },
            None => {
                proof {
                    assert forall|h: Seq<char>| true implies #[trigger] holders(after, h)
                        == holders(tasks, h) by {
                        assert(holders(after, h) =~= holders(tasks, h));
                    }
                }
            },
        }
    }
}

} // verus!
