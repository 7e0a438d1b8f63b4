//! The waiting line of a worker pool: a binary heap with the most urgent task on top.

use vstd::multiset::Multiset;
use vstd::prelude::*;

use crate::task::{RetryableTask, TaskView};

verus! {

/// A task in a waiting line.
#[derive(Debug)]
pub struct PriorityTask(pub RetryableTask);

/// `a` goes before `b`: it is more urgent, or as urgent and older.
pub open spec fn outranks(a: TaskView, b: TaskView) -> bool {
    a.urgency > b.urgency || (a.urgency == b.urgency && a.created_at.before(b.created_at))
}

/// `t` waits and none that waits outranks it.
pub open spec fn served_first(waiting: Multiset<TaskView>, t: TaskView) -> bool {
    &&& waiting.contains(t)
    &&& forall|x: TaskView| #[trigger] waiting.contains(x) ==> !outranks(x, t)
}

/// Tasks leave a waiting line by rank: of two that leave one after the other, the second does
/// not outrank the first.
pub proof fn law_tasks_leave_by_rank(waiting: Multiset<TaskView>, first: TaskView, second: TaskView)
    requires
        served_first(waiting, first),
        served_first(waiting.remove(first), second),
    ensures
        !outranks(second, first),
{
    broadcast use vstd::multiset::group_multiset_axioms;

    assert(waiting.contains(second));
}

/// A more urgent task goes before a less urgent one however long that has waited, and of two
/// equally urgent ones the older goes first.
pub proof fn law_urgency_comes_before_age(waiting: Multiset<TaskView>, a: TaskView, b: TaskView)
    requires
        waiting.contains(a),
        a.urgency > b.urgency || (a.urgency == b.urgency && a.created_at.before(b.created_at)),
    ensures
        !served_first(waiting, b),
{
}

/// The tasks of a waiting line, as the heap has them.
pub open spec fn line_of(items: Seq<PriorityTask>) -> Seq<TaskView> {
    Seq::new(items.len(), |i: int| items[i].0@)
}

/// The place above place `i` of a heap.
pub open spec fn parent(i: int) -> int {
    (i - 1) / 2
}

/// No task of the heap outranks the one above it, but perhaps the one at `hole`.
spec fn heap_below(line: Seq<TaskView>, hole: int) -> bool {
    &&& forall|i: int|
        0 < i < line.len() && i != hole ==> !outranks(
            #[trigger] line[i],
            line[parent(i)],
        )
    &&& forall|i: int|
        0 < i < line.len() && 0 < hole && parent(i) == hole ==> !outranks(
            #[trigger] line[i],
            line[parent(hole)],
        )
}

/// No task of the heap outranks the one above it, but perhaps those below `hole`.
spec fn heap_above(line: Seq<TaskView>, hole: int) -> bool {
    &&& forall|i: int|
        0 < i < line.len() && parent(i) != hole ==> !outranks(
            #[trigger] line[i],
            line[parent(i)],
        )
    &&& forall|i: int|
        0 < i < line.len() && 0 < hole && parent(i) == hole ==> !outranks(
            #[trigger] line[i],
            line[parent(hole)],
        )
}

/// No task of the heap outranks the one above it.
spec fn is_heap(line: Seq<TaskView>) -> bool {
    forall|i: int| 0 < i < line.len() ==> !outranks(#[trigger] line[i], line[parent(i)])
}

/// No task of a heap outranks the one on top.
proof fn lemma_top(line: Seq<TaskView>, i: int)
    requires
        is_heap(line),
        0 <= i < line.len(),
    ensures
        !outranks(line[i], line[0]),
    decreases i,
{
    if i > 0 {
        lemma_top(line, parent(i));
        assert(!outranks(line[i], line[parent(i)]));
    }
}

/// The task on top of a heap is served first.
proof fn lemma_top_goes_first(line: Seq<TaskView>)
    requires
        is_heap(line),
        line.len() > 0,
    ensures
        served_first(line.to_multiset(), line[0]),
{
    broadcast use vstd::seq_lib::to_multiset_contains;

    assert(line.contains(line[0]));
    assert forall|x: TaskView| #[trigger] line.to_multiset().contains(x) implies !outranks(
        x,
        line[0],
    ) by {
        let i = choose|i: int| 0 <= i < line.len() && line[i] == x;
        lemma_top(line, i);
    }
}

/// An exchange of two items leaves the same items.
proof fn lemma_exchange(line: Seq<TaskView>, i: int, j: int)
    requires
        0 <= i < line.len(),
        0 <= j < line.len(),
    ensures
        line.update(i, line[j]).update(j, line[i]).to_multiset() == line.to_multiset(),
{
    broadcast use {
        vstd::seq_lib::to_multiset_update,
        vstd::multiset::group_multiset_axioms,
        vstd::seq_lib::to_multiset_contains,
    };

    let once = line.update(i, line[j]);
    let twice = once.update(j, line[i]);
    assert(once[j] == line[j]);
    assert(line.contains(line[i]));
    assert(line.contains(line[j]));
    assert(once.contains(once[j]));
    assert(once.to_multiset() == line.to_multiset().insert(line[j]).remove(line[i]));
    assert(twice.to_multiset() == once.to_multiset().insert(line[i]).remove(once[j]));
    assert(twice.to_multiset() =~= line.to_multiset());
}

/// Exchanges two items.
fn exchange(items: &mut Vec<PriorityTask>, i: usize, j: usize)
    requires
        i < j < old(items)@.len(),
    ensures
        final(items)@ == old(items)@.update(i as int, old(items)@[j as int]).update(
            j as int,
            old(items)@[i as int],
        ),
{
    let last: usize = items.len() - 1;
    let a = items.swap_remove(i);
    items.push(a);
    if j != last {
        let b = items.swap_remove(j);
        items.push(b);
        let c = items.swap_remove(i);
        items.push(c);
    }
    assert(items@ =~= old(items)@.update(i as int, old(items)@[j as int]).update(
        j as int,
        old(items)@[i as int],
    ));
}

/// Whether `a` goes before `b`.
pub(crate) fn goes_before(a: &RetryableTask, b: &RetryableTask) -> (r: bool)
    ensures
        r == outranks(a@, b@),
{
    a.urgency > b.urgency || (a.urgency == b.urgency && a.created_at.lt(&b.created_at))
}

/// A waiting line.
pub struct TaskHeap {
    items: Vec<PriorityTask>,
}

impl TaskHeap {
    /// The tasks that wait.
    pub closed spec fn view(&self) -> Multiset<TaskView> {
        line_of(self.items@).to_multiset()
    }

    /// No task stands below one that it outranks.
    pub closed spec fn well_formed(&self) -> bool {
        is_heap(line_of(self.items@))
    }

    /// An empty line.
    pub fn new() -> (r: TaskHeap)
        ensures
            r.well_formed(),
            r@ == Multiset::<TaskView>::empty(),
    {
        let r = TaskHeap { items: Vec::new() };
        proof {
            broadcast use vstd::seq_lib::to_multiset_len;

            assert(line_of(r.items@) =~= Seq::<TaskView>::empty());
            assert(r@.len() == 0);
            vstd::multiset::lemma_multiset_empty_len(r@);
        }
        r
    }

    /// How many tasks wait.
    pub fn len(&self) -> (n: usize)
        ensures
            n == self@.len(),
    {
        proof {
            broadcast use vstd::seq_lib::to_multiset_len;

        }
        self.items.len()
    }

    /// Lines a task up.
    pub fn push(&mut self, task: PriorityTask)
        requires
            old(self).well_formed(),
        ensures
            final(self).well_formed(),
            final(self)@ == old(self)@.insert(task.0@),
    {
        let ghost before = line_of(self.items@);
        let ghost all = before.push(task.0@).to_multiset();
        self.items.push(task);
        let mut k: usize = self.items.len() - 1;
        proof {
            broadcast use vstd::seq_lib::to_multiset_build;

            assert(line_of(self.items@) =~= before.push(task.0@));
            assert forall|i: int| 0 < i < before.len() implies !outranks(
                #[trigger] line_of(self.items@)[i],
                line_of(self.items@)[parent(i)],
            ) by {
                assert(!outranks(before[i], before[parent(i)]));
            }
        }
        while k > 0
            invariant
                k < self.items@.len(),
                heap_below(line_of(self.items@), k as int),
                line_of(self.items@).to_multiset() == all,
            ensures
                is_heap(line_of(self.items@)),
                line_of(self.items@).to_multiset() == all,
            decreases k,
        {
            let up: usize = (k - 1) / 2;
            let ghost line = line_of(self.items@);
            if !goes_before(&self.items[k].0, &self.items[up].0) {
                assert(!outranks(line[k as int], line[parent(k as int)]));
                break;
            }
            exchange(&mut self.items, up, k);
            proof {
                let next = line_of(self.items@);
                assert(next =~= line.update(up as int, line[k as int]).update(
                    k as int,
                    line[up as int],
                ));
                lemma_exchange(line, up as int, k as int);
                assert forall|i: int| 0 < i < next.len() && i != up implies !outranks(
                    #[trigger] next[i],
                    next[parent(i)],
                ) by {
                    if i != k {
                        assert(!outranks(line[i], line[parent(i)]));
                        if parent(i) == up {
                        } else if parent(i) == k {
                            assert(!outranks(line[i], line[parent(k as int)]));
                        }
                    }
                }
                assert forall|i: int|
                    0 < i < next.len() && 0 < up && parent(i) == up implies !outranks(
                    #[trigger] next[i],
                    next[parent(up as int)],
                ) by {
                    assert(!outranks(line[up as int], line[parent(up as int)]));
                    if i != k {
                        assert(!outranks(line[i], line[parent(i)]));
                    }
                }
            }
            k = up;
        }
    }

    /// The task that is served first.
    pub fn first(&self) -> (r: Option<&RetryableTask>)
        requires
            self.well_formed(),
        ensures
            match r {
                Some(t) => served_first(self@, t@),
                None => self@.len() == 0,
            },
    {
        if self.items.len() == 0 {
            proof {
                broadcast use vstd::seq_lib::to_multiset_len;

            }
            return None;
        }
        proof {
            lemma_top_goes_first(line_of(self.items@));
        }
        Some(&self.items[0].0)
    }

    /// Takes out a task that no other one outranks.
    pub fn pop(&mut self) -> (r: Option<PriorityTask>)
        requires
            old(self).well_formed(),
        ensures
            final(self).well_formed(),
            match r {
                Some(t) => {
                    &&& served_first(old(self)@, t.0@)
                    &&& final(self)@ == old(self)@.remove(t.0@)
                },
                None => old(self)@.len() == 0 && final(self)@ == old(self)@,
            },
    {
        let ghost before = line_of(self.items@);
        if self.items.len() == 0 {
            proof {
                broadcast use vstd::seq_lib::to_multiset_len;

            }
            return None;
        }
        let top = self.items.swap_remove(0);
        let ghost line0 = line_of(self.items@);
        proof {
            assert(line0 =~= before.update(0, before.last()).drop_last());
            lemma_take_top(before);
            lemma_top_goes_first(before);
            assert forall|i: int| 0 < i < line0.len() && parent(i) != 0 implies !outranks(
                #[trigger] line0[i],
                line0[parent(i)],
            ) by {
                assert(!outranks(before[i], before[parent(i)]));
            }
        }
        self.settle();
        Some(top)
    }

    /// Moves the task on top down to where it belongs.
    fn settle(&mut self)
        requires
            heap_above(line_of(old(self).items@), 0),
        ensures
            is_heap(line_of(final(self).items@)),
            final(self)@ == old(self)@,
    {
        let ghost all = self@;
        let n: usize = self.items.len();
        let mut k: usize = 0;
        while k < n / 2
            invariant
                n == self.items@.len(),
                k <= n,
                heap_above(line_of(self.items@), k as int),
                self@ == all,
            ensures
                is_heap(line_of(self.items@)),
                self@ == all,
            decreases n - k,
        {
            let ghost line = line_of(self.items@);
            let left: usize = 2 * k + 1;
            let right: usize = left + 1;
            let child: usize = if right < n && goes_before(
                &self.items[right].0,
                &self.items[left].0,
            ) {
                right
            } else {
                left
            };
            assert forall|i: int| 0 < i < n && parent(i) == k implies i == left || i == right by {}
            if !goes_before(&self.items[child].0, &self.items[k].0) {
                assert forall|i: int| 0 < i < n implies !outranks(
                    #[trigger] line[i],
                    line[parent(i)],
                ) by {
                    if parent(i) == k {
                        assert(!outranks(line[i], line[child as int]));
                    }
                }
                break;
            }
            exchange(&mut self.items, k, child);
            proof {
                let next = line_of(self.items@);
                assert(next =~= line.update(k as int, line[child as int]).update(
                    child as int,
                    line[k as int],
                ));
                lemma_exchange(line, k as int, child as int);
                assert(parent(child as int) == k);
                assert forall|i: int| 0 < i < next.len() && parent(i) != child implies !outranks(
                    #[trigger] next[i],
                    next[parent(i)],
                ) by {
                    if i == k {
                        assert(!outranks(line[child as int], line[parent(k as int)]));
                    } else if i == child {
                    } else if parent(i) == k {
                        assert(!outranks(line[i], line[child as int]));
                    } else {
                        assert(!outranks(line[i], line[parent(i)]));
                    }
                }
                assert forall|i: int|
                    0 < i < next.len() && 0 < child && parent(i) == child implies !outranks(
                    #[trigger] next[i],
                    next[parent(child as int)],
                ) by {
                    assert(i != k && i != child);
                    assert(!outranks(line[i], line[parent(i)]));
                }
            }
            k = child;
        }
    }
}

/// The heap without its top, the last item in the top's place.
proof fn lemma_take_top(line: Seq<TaskView>)
    requires
        line.len() > 0,
    ensures
        line.to_multiset().contains(line[0]),
        line.update(0, line.last()).drop_last().to_multiset() == line.to_multiset().remove(line[0]),
{
    broadcast use {vstd::multiset::group_multiset_axioms, vstd::seq_lib::to_multiset_contains};

    let last = line.len() - 1;
    let moved = line.update(0, line.last());
    vstd::seq_lib::to_multiset_update(line, 0, line.last());
    vstd::seq_lib::to_multiset_remove(moved, last);
    assert(moved.remove(last) =~= moved.drop_last());
    assert(line.contains(line[0]));
    assert(line.contains(line[last]));
    assert(moved[last] == line.last());
    assert(moved.drop_last().to_multiset() =~= line.to_multiset().remove(line[0]));
}

/// What is served first is waited on by none that is more urgent, and by none as urgent that was
/// made earlier, and whatever is so is served first.
pub proof fn law_most_urgent_and_oldest_goes_first(waiting: Multiset<TaskView>, t: TaskView)
    requires
        t.created_at.nanos < 1_000_000_000,
        forall|u: TaskView| #[trigger]
            waiting.contains(u) ==> u.created_at.nanos < 1_000_000_000,
    ensures
        served_first(waiting, t) <==> {
            &&& waiting.contains(t)
            &&& forall|u: TaskView| #[trigger]
                waiting.contains(u) ==> u.urgency < t.urgency || (u.urgency == t.urgency
                    && t.created_at.secs * 1_000_000_000 + t.created_at.nanos <= u.created_at.secs
                    * 1_000_000_000 + u.created_at.nanos)
        },
{
    assert forall|u: TaskView| #[trigger] waiting.contains(u) implies (!outranks(u, t) <==> (
    u.urgency < t.urgency || (u.urgency == t.urgency && t.created_at.secs * 1_000_000_000
        + t.created_at.nanos <= u.created_at.secs * 1_000_000_000 + u.created_at.nanos))) by {
        crate::time::law_times_are_ordered_as_numbers(u.created_at, t.created_at);
    }
}

} // verus!
