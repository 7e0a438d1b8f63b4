//! A limit on how often the tasks of a group run in a minute.

use vstd::prelude::*;

use crate::table::StringTable;
use crate::time::Timestamp;

verus! {

/// The length of the window in which runs are counted.
pub const WINDOW_SECS: i64 = 60;

/// A run at `t` still counts at `now`: less than a window has passed.
pub open spec fn counts(t: Timestamp, now: Timestamp) -> bool {
    now.secs < t.secs + WINDOW_SECS || (now.secs == t.secs + WINDOW_SECS && now.nanos < t.nanos)
}

/// The runs that still count at `now`.
pub open spec fn recent(runs: Seq<Timestamp>, now: Timestamp) -> Seq<Timestamp>
    decreases runs.len(),
{
    if runs.len() == 0 {
        Seq::empty()
    } else if counts(runs.last(), now) {
        recent(runs.drop_last(), now).push(runs.last())
    } else {
        recent(runs.drop_last(), now)
    }
}

/// Times whose nanoseconds are less than a second.
pub open spec fn whole_seconds(times: Seq<Timestamp>) -> bool {
    forall|i: int| 0 <= i < times.len() ==> (#[trigger] times[i]).nanos < 1_000_000_000
}

/// The recorded runs of a group.
pub open spec fn runs_of(groups: Map<Seq<char>, Seq<Timestamp>>, group: Seq<char>) -> Seq<
    Timestamp,
> {
    if groups.contains_key(group) {
        groups[group]
    } else {
        Seq::empty()
    }
}

/// The runs of each group in the last minute.
pub struct RateLimiter {
    groups: StringTable<Vec<Timestamp>>,
}

impl RateLimiter {
    /// The runs of each group.
    pub closed spec fn view(&self) -> Map<Seq<char>, Seq<Timestamp>> {
        self.groups@.map_values(|v: Vec<Timestamp>| v@)
    }

    /// Each group stands once.
    pub closed spec fn well_formed(&self) -> bool {
        self.groups.well_formed()
    }

    /// A limiter that has seen no run.
    pub fn new() -> (r: RateLimiter)
        ensures
            r.well_formed(),
            r@ == Map::<Seq<char>, Seq<Timestamp>>::empty(),
    {
        let r = RateLimiter { groups: StringTable::new() };
        assert(r@ =~= Map::<Seq<char>, Seq<Timestamp>>::empty());
        r
    }

    /// Lets a task of the group run at `now` where fewer than `limit` runs of the group fall
    /// into the minute before, and records the run. Runs that no longer count are forgotten.
    pub fn check_and_increment(&mut self, group: &str, limit: i32, now: Timestamp) -> (granted: bool)
        requires
            old(self).well_formed(),
        ensures
            final(self).well_formed(),
            granted == (recent(runs_of(old(self)@, group@), now).len() < limit),
            final(self)@ == old(self)@.insert(
                group@,
                if granted {
                    recent(runs_of(old(self)@, group@), now).push(now)
                } else {
                    recent(runs_of(old(self)@, group@), now)
                },
            ),
            now.nanos < 1_000_000_000 && whole_seconds(runs_of(old(self)@, group@)) ==> {
                let fresh = |t: Timestamp|
                    (now.secs * 1_000_000_000 + now.nanos) - (t.secs * 1_000_000_000 + t.nanos)
                        < 60_000_000_000;
                let before = if old(self)@.contains_key(group@) {
                    old(self)@[group@].filter(fresh)
                } else {
                    Seq::empty()
                };
                &&& granted == (before.len() < limit)
                &&& final(self)@[group@] == if granted {
                    before.push(now)
                } else {
                    before
                }
            },
    {
        let ghost before = self@;
        let ghost runs = runs_of(before, group@);
        let mut kept: Vec<Timestamp> = Vec::new();
        match self.groups.get(group) {
            Some(all) => {
                assert(runs == all@);
                assert(runs.take(0) =~= Seq::<Timestamp>::empty());
                let mut i: usize = 0;
                while i < all.len()
                    invariant
                        i <= all@.len(),
                        runs == all@,
                        kept@ == recent(runs.take(i as int), now),
                    decreases all@.len() - i,
                {
                    let t: Timestamp = all[i];
                    assert(runs.take(i + 1).drop_last() =~= runs.take(i as int));
                    assert(runs.take(i + 1).last() == t);
                    let bound: i128 = t.secs as i128 + WINDOW_SECS as i128;
                    let at: i128 = now.secs as i128;
                    if at < bound || (at == bound && now.nanos < t.nanos) {
                        kept.push(t);
                    }
                    i = i + 1;
                }
                assert(runs.take(all@.len() as int) =~= runs);
            },
            None => {
                assert(runs =~= Seq::<Timestamp>::empty());
            },
        }
        let granted: bool = limit > 0 && kept.len() < limit as usize;
        if granted {
            kept.push(now);
        }
        self.groups.insert(group.to_string(), kept);
        assert(self@ =~= before.insert(group@, kept@));
        proof {
            if now.nanos < 1_000_000_000 && whole_seconds(runs) {
                law_recent_runs_are_those_of_the_last_minute(runs, now);
                if !before.contains_key(group@) {
                    assert(recent(runs, now) =~= Seq::<Timestamp>::empty());
                }
            }
        }
        granted
    }
}

/// Times that do not go back.
pub open spec fn in_order(times: Seq<Timestamp>) -> bool {
    forall|i: int, j: int|
        0 <= i <= j < times.len() ==> (#[trigger] times[i]).at_or_before(#[trigger] times[j])
}

/// Each run was let through: fewer than `limit` of those before it still counted.
pub open spec fn let_through(times: Seq<Timestamp>, limit: int) -> bool {
    forall|i: int|
        0 <= i < times.len() ==> recent(times.take(i), #[trigger] times[i]).len() < limit
}

/// Where a run counts, so do the runs after it.
proof fn lemma_recent_is_a_tail(times: Seq<Timestamp>, lo: int, n: int, now: Timestamp)
    requires
        in_order(times),
        0 <= lo <= n <= times.len(),
        lo < times.len(),
        counts(times[lo], now),
    ensures
        recent(times.take(n), now).len() >= n - lo,
    decreases n,
{
    if n > lo {
        lemma_recent_is_a_tail(times, lo, n - 1, now);
        assert(times.take(n).drop_last() =~= times.take(n - 1));
        assert(times.take(n).last() == times[n - 1]);
        assert(times[lo].at_or_before(times[n - 1]));
    }
}

/// In no window of a minute do more than `limit` tasks of a group run: of runs that were let
/// through one after the other, two that fall into one window have at most `limit` runs from
/// the one to the other, themselves counted.
pub proof fn law_limit_holds_in_every_window(times: Seq<Timestamp>, limit: int, lo: int, hi: int)
    requires
        in_order(times),
        let_through(times, limit),
        0 <= lo <= hi < times.len(),
        counts(times[lo], times[hi]),
    ensures
        hi - lo + 1 <= limit,
{
    lemma_recent_is_a_tail(times, lo, hi, times[hi]);
}

/// What the limiter forgets does not matter later: the runs that count at a later time are
/// found among those that counted earlier.
pub proof fn law_forgotten_runs_never_count_again(
    runs: Seq<Timestamp>,
    earlier: Timestamp,
    later: Timestamp,
)
    requires
        earlier.at_or_before(later),
    ensures
        recent(recent(runs, earlier), later) == recent(runs, later),
    decreases runs.len(),
{
    if runs.len() > 0 {
        law_forgotten_runs_never_count_again(runs.drop_last(), earlier, later);
        let front = recent(runs.drop_last(), earlier);
        if counts(runs.last(), earlier) {
            assert(front.push(runs.last()).drop_last() =~= front);
        }
    }
}

/// A run counts for sixty seconds: at a time exactly where less than 60,000,000,000 nanoseconds
/// have gone by since.
pub proof fn law_run_counts_for_sixty_seconds(t: Timestamp, now: Timestamp)
    requires
        t.nanos < 1_000_000_000,
        now.nanos < 1_000_000_000,
    ensures
        counts(t, now) <==> (now.secs * 1_000_000_000 + now.nanos) - (t.secs * 1_000_000_000
            + t.nanos) < 60_000_000_000,
{
}

/// The runs that count are those of the last sixty seconds, in their order, and all of them.
pub proof fn law_recent_runs_are_those_of_the_last_minute(runs: Seq<Timestamp>, now: Timestamp)
    requires
        now.nanos < 1_000_000_000,
        forall|i: int| 0 <= i < runs.len() ==> (#[trigger] runs[i]).nanos < 1_000_000_000,
    ensures
        recent(runs, now) == runs.filter(
            |t: Timestamp|
                (now.secs * 1_000_000_000 + now.nanos) - (t.secs * 1_000_000_000 + t.nanos)
                    < 60_000_000_000,
        ),
    decreases runs.len(),
{
    reveal(Seq::filter);
    if runs.len() > 0 {
        let front = runs.drop_last();
        assert forall|i: int| 0 <= i < front.len() implies (#[trigger] front[i]).nanos
            < 1_000_000_000 by {
            assert(front[i] == runs[i]);
        }
        law_recent_runs_are_those_of_the_last_minute(front, now);
        assert(runs[runs.len() - 1].nanos < 1_000_000_000);
        law_run_counts_for_sixty_seconds(runs.last(), now);
    }
}

/// In no sixty seconds do more than `limit` tasks of a group run: where each run came when fewer
/// than `limit` of those before it lay less than sixty seconds back, two runs that lie less than
/// sixty seconds apart have at most `limit` runs from the one to the other, themselves counted.
pub proof fn law_no_sixty_seconds_hold_more_than_the_limit(
    times: Seq<Timestamp>,
    limit: int,
    lo: int,
    hi: int,
)
    requires
        forall|i: int| 0 <= i < times.len() ==> (#[trigger] times[i]).nanos < 1_000_000_000,
        forall|i: int, j: int|
            0 <= i <= j < times.len() ==> (#[trigger] times[i]).secs * 1_000_000_000
                + times[i].nanos <= (#[trigger] times[j]).secs * 1_000_000_000 + times[j].nanos,
        forall|i: int|
            0 <= i < times.len() ==> times.take(i).filter(
                |t: Timestamp|
                    ((#[trigger] times[i]).secs * 1_000_000_000 + times[i].nanos) - (t.secs
                        * 1_000_000_000 + t.nanos) < 60_000_000_000,
            ).len() < limit,
        0 <= lo <= hi < times.len(),
        (times[hi].secs * 1_000_000_000 + times[hi].nanos) - (times[lo].secs * 1_000_000_000
            + times[lo].nanos) < 60_000_000_000,
    ensures
        hi - lo + 1 <= limit,
{
    assert forall|i: int, j: int| 0 <= i <= j < times.len() implies (
    #[trigger] times[i]).at_or_before(#[trigger] times[j]) by {
        crate::time::law_times_are_ordered_as_numbers(times[i], times[j]);
    }
    assert forall|i: int| 0 <= i < times.len() implies recent(
        times.take(i),
        #[trigger] times[i],
    ).len() < limit by {
        assert forall|j: int| 0 <= j < times.take(i).len() implies (#[trigger] times.take(
            i,
        )[j]).nanos < 1_000_000_000 by {
            assert(times.take(i)[j] == times[j]);
        }
        law_recent_runs_are_those_of_the_last_minute(times.take(i), times[i]);
    }
    law_run_counts_for_sixty_seconds(times[lo], times[hi]);
    law_limit_holds_in_every_window(times, limit, lo, hi);
}

} // verus!
