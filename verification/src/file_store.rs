//! The state that is rebuilt from the task log.

use vstd::prelude::*;
use vstd::string::StringExecFns;
use vstd::hash_set::StringHashSet;

use crate::table::StringTable;
use crate::task::{copy_texts, RetryableTask, TaskView};
use crate::text::same_text;
use crate::time::Timestamp;

verus! {

/// The length in bytes above which the log is compacted.
pub const COMPACT_BYTES: u64 = 20_971_520;

/// The number of appended lines above which the log is compacted.
pub const COMPACT_LINES: usize = 10_000;

/// What a store holds.
#[verifier::ext_equal]
pub struct StoreView {
    pub path: Seq<char>,
    /// The live tasks, by id.
    pub tasks: Map<Seq<char>, TaskView>,
    /// Lines with a live task since the last compaction, or the tasks that it kept.
    pub total: nat,
    /// Tombstones since the last compaction.
    pub deleted: nat,
    /// Lines appended since the last compaction.
    pub appended: nat,
    /// Whether a compaction is under way.
    pub compacting: bool,
}

impl StoreView {
    /// The store after a line with task `t` was appended to its log.
    pub open spec fn with_line(self, t: TaskView) -> StoreView {
        if t.deleted_at is Some {
            StoreView {
                tasks: self.tasks.remove(t.task_id),
                deleted: self.deleted + 1,
                appended: self.appended + 1,
                ..self
            }
        } else {
            StoreView {
                tasks: self.tasks.insert(t.task_id, t),
                total: self.total + 1,
                appended: self.appended + 1,
                ..self
            }
        }
    }

    /// Whether the log is to be compacted, given its length in bytes where that is known.
    pub open spec fn compaction_due(self, log_len: Option<u64>) -> bool {
        ||| log_len matches Some(n) && n > COMPACT_BYTES
        ||| self.total > 0 && self.deleted * 2 > self.total
        ||| self.appended > COMPACT_LINES
    }

    /// The store after its log was replaced by one with a line for each of these tasks.
    pub open spec fn compacted(self, tasks: Map<Seq<char>, TaskView>) -> StoreView {
        StoreView { tasks: tasks, total: tasks.len(), deleted: 0, appended: 0, ..self }
    }

    /// The counters can count one more line.
    pub open spec fn has_room(self) -> bool {
        self.total < usize::MAX && self.deleted < usize::MAX && self.appended < usize::MAX
    }

    /// Each task is filed under its id and is live.
    pub open spec fn consistent(self) -> bool {
        forall|id: Seq<char>| #[trigger]
            self.tasks.contains_key(id) ==> self.tasks[id].task_id == id
                && self.tasks[id].deleted_at is None
    }
}

/// The lines of a log; `None` stands for a line that holds no task.
pub open spec fn lines_of(log: Seq<Option<RetryableTask>>) -> Seq<Option<TaskView>> {
    Seq::new(
        log.len(),
        |i: int|
            match log[i] {
                Some(t) => Some(t@),
                None => None,
            },
    )
}

/// The last line of the log that speaks of `id`.
pub open spec fn last_line(log: Seq<Option<TaskView>>, id: Seq<char>) -> Option<TaskView>
    decreases log.len(),
{
    if log.len() == 0 {
        None
    } else {
        match log.last() {
            Some(t) if t.task_id == id => Some(t),
            _ => last_line(log.drop_last(), id),
        }
    }
}

/// The tasks that a log leaves alive: those whose last line is no tombstone, as that line
/// has them.
pub open spec fn live_tasks(log: Seq<Option<TaskView>>) -> Map<Seq<char>, TaskView> {
    Map::new(
        |id: Seq<char>| last_line(log, id) matches Some(t) && t.deleted_at is None,
        |id: Seq<char>| last_line(log, id)->0,
    )
}

/// How many lines hold a live task.
pub open spec fn live_lines(log: Seq<Option<TaskView>>) -> nat
    decreases log.len(),
{
    if log.len() == 0 {
        0
    } else {
        live_lines(log.drop_last()) + match log.last() {
            Some(t) if t.deleted_at is None => 1nat,
            _ => 0nat,
        }
    }
}

/// How many lines hold a tombstone.
pub open spec fn tombstones(log: Seq<Option<TaskView>>) -> nat
    decreases log.len(),
{
    if log.len() == 0 {
        0
    } else {
        tombstones(log.drop_last()) + match log.last() {
            Some(t) if t.deleted_at is Some => 1nat,
            _ => 0nat,
        }
    }
}

/// The store that a log leads to.
pub open spec fn replayed(path: Seq<char>, log: Seq<Option<TaskView>>) -> StoreView {
    StoreView {
        path: path,
        tasks: live_tasks(log),
        total: live_lines(log),
        deleted: tombstones(log),
        appended: live_lines(log) + tombstones(log),
        compacting: false,
    }
}

/// The store in memory is at all times the one that a restart would rebuild: to append a
/// line to the log and replay it all comes to the same as to replay the log and then take
/// the line in. A line that holds no task changes nothing.
pub proof fn law_store_follows_log(path: Seq<char>, log: Seq<Option<TaskView>>, t: TaskView)
    ensures
        replayed(path, log.push(Some(t))) == replayed(path, log).with_line(t),
        replayed(path, log.push(None)) == replayed(path, log),
        replayed(path, log).consistent(),
{
    let more = log.push(Some(t));
    assert(more.drop_last() =~= log);
    assert(log.push(None).drop_last() =~= log);
    assert(live_tasks(log.push(None)) =~= live_tasks(log));
    assert(live_tasks(more) =~= replayed(path, log).with_line(t).tasks);
    assert(replayed(path, more) =~= replayed(path, log).with_line(t));
    assert forall|id: Seq<char>| #[trigger] live_tasks(log).contains_key(id) implies live_tasks(
        log,
    )[id].task_id == id by {
        lemma_last_line_id(log, id);
    }
}

/// The last line of an id carries that id.
proof fn lemma_last_line_id(log: Seq<Option<TaskView>>, id: Seq<char>)
    ensures
        last_line(log, id) matches Some(t) ==> t.task_id == id,
    decreases log.len(),
{
    if log.len() > 0 {
        lemma_last_line_id(log.drop_last(), id);
    }
}

/// The store after lines were appended to its log one after the other.
pub open spec fn after_lines(store: StoreView, lines: Seq<TaskView>) -> StoreView
    decreases lines.len(),
{
    if lines.len() == 0 {
        store
    } else {
        after_lines(store, lines.drop_last()).with_line(lines.last())
    }
}

/// A restart loses nothing: whatever was appended since the log was read first, to read it
/// again gives the store that there was.
pub proof fn law_restart_finds_the_same_store(
    path: Seq<char>,
    log: Seq<Option<TaskView>>,
    lines: Seq<TaskView>,
)
    ensures
        replayed(path, log + as_log(lines)) == after_lines(replayed(path, log), lines),
    decreases lines.len(),
{
    if lines.len() == 0 {
        assert(log + as_log(lines) =~= log);
    } else {
        let front = lines.drop_last();
        law_restart_finds_the_same_store(path, log, front);
        assert(log + as_log(lines) =~= (log + as_log(front)).push(Some(lines.last())));
        law_store_follows_log(path, log + as_log(front), lines.last());
    }
}

/// The tasks of a table.
pub open spec fn task_views(m: Map<Seq<char>, RetryableTask>) -> Map<Seq<char>, TaskView> {
    m.map_values(|t: RetryableTask| t@)
}

/// The live tasks of a log, with the counts that decide on its compaction.
pub struct FileStore {
    file_path: String,
    total_tasks: usize,
    deleted_tasks: usize,
    append_count: usize,
    compacting: bool,
    tasks_cache: StringTable<RetryableTask>,
}

impl FileStore {
    /// What the store holds.
    pub closed spec fn view(&self) -> StoreView {
        StoreView {
            path: self.file_path@,
            tasks: task_views(self.tasks_cache@),
            total: self.total_tasks as nat,
            deleted: self.deleted_tasks as nat,
            appended: self.append_count as nat,
            compacting: self.compacting,
        }
    }

    /// Each task stands once, under its id, and is live.
    pub closed spec fn well_formed(&self) -> bool {
        self.tasks_cache.well_formed() && self@.consistent()
    }

    /// What well-formedness says of the contents.
    pub proof fn lemma_consistent(&self)
        requires
            self.well_formed(),
        ensures
            self@.consistent(),
            self@.tasks.dom().finite(),
            self@.tasks.dom().len() <= usize::MAX,
    {
        self.tasks_cache.lemma_rows();
        assert(self@.tasks.dom() =~= self.tasks_cache@.dom());
    }

    /// The store of the log at `path`, whose lines are given in order.
    pub fn new(path: String, log: &Vec<Option<RetryableTask>>) -> (r: FileStore)
        ensures
            r.well_formed(),
            r@ == replayed(path@, lines_of(log@)),
    {
        let mut store = FileStore {
            file_path: path,
            total_tasks: 0,
            deleted_tasks: 0,
            append_count: 0,
            compacting: false,
            tasks_cache: StringTable::new(),
        };
        assert(store@.tasks =~= Map::<Seq<char>, TaskView>::empty());
        store.rebuild_metadata(log);
        store
    }

    /// Replays a log into an empty store: a live line files its task, a tombstone takes
    /// its task out, and a line without a task is passed over.
    fn rebuild_metadata(&mut self, log: &Vec<Option<RetryableTask>>)
        requires
            old(self).well_formed(),
            old(self)@.tasks == Map::<Seq<char>, TaskView>::empty(),
            old(self)@.total == 0,
            old(self)@.deleted == 0,
            old(self)@.appended == 0,
            !old(self)@.compacting,
        ensures
            final(self).well_formed(),
            final(self)@ == replayed(old(self)@.path, lines_of(log@)),
    {
        let ghost lines = lines_of(log@);
        let ghost path = self@.path;
        assert(lines.take(0) =~= Seq::<Option<TaskView>>::empty());
        assert(live_tasks(lines.take(0)) =~= Map::<Seq<char>, TaskView>::empty());
        let mut i: usize = 0;
        while i < log.len()
            invariant
                i <= log@.len(),
                lines == lines_of(log@),
                self.well_formed(),
                self@ == replayed(path, lines.take(i as int)),
                self@.total + self@.deleted == self@.appended <= i,
            decreases log@.len() - i,
        {
            proof {
                assert(lines.take(i + 1) =~= lines.take(i as int).push(lines[i as int]));
                if lines[i as int] is Some {
                    law_store_follows_log(path, lines.take(i as int), lines[i as int]->0);
                } else {
                    let any: TaskView = arbitrary();
                    law_store_follows_log(path, lines.take(i as int), any);
                }
            }
            match &log[i] {
                Some(task) => {
                    self.apply_line(task);
                },
                None => {},
            }
            i = i + 1;
        }
        assert(lines.take(log@.len() as int) =~= lines);
    }

    /// Takes in a line that was appended to the log.
    fn apply_line(&mut self, task: &RetryableTask)
        requires
            old(self).well_formed(),
            old(self)@.has_room(),
        ensures
            final(self).well_formed(),
            final(self)@ == old(self)@.with_line(task@),
    {
        let ghost before = self@;
        self.append_count = self.append_count + 1;
        if task.deleted_at.is_some() {
            self.deleted_tasks = self.deleted_tasks + 1;
            let _ = self.tasks_cache.remove(task.task_id.as_str());
            assert(self@.tasks =~= before.tasks.remove(task.task_id@));
        } else {
            self.total_tasks = self.total_tasks + 1;
            self.tasks_cache.insert(task.task_id.clone(), task.clone());
            assert(self@.tasks =~= before.tasks.insert(task.task_id@, task@));
        }
        assert(self@ =~= before.with_line(task@));
    }

    /// The path of the log.
    pub fn file_path(&self) -> (r: &str)
        ensures
            r@ == self@.path,
    {
        self.file_path.as_str()
    }

    /// Whether the counters can count one more line.
    pub fn can_append(&self) -> (r: bool)
        ensures
            r == self@.has_room(),
    {
        self.total_tasks < usize::MAX && self.deleted_tasks < usize::MAX && self.append_count
            < usize::MAX
    }

    /// Takes in a line that was appended to the log, and says whether the log is now to be
    /// compacted. `log_len` is the length of the log in bytes, where it is known.
    pub fn save_task(&mut self, task: &RetryableTask, log_len: Option<u64>) -> (compact: bool)
        requires
            old(self).well_formed(),
            old(self)@.has_room(),
        ensures
            final(self).well_formed(),
            final(self)@ == old(self)@.with_line(task@),
            compact == final(self)@.compaction_due(log_len),
    {
        self.save_task_inner(task, true, log_len)
    }

    /// Takes in an appended line; `check_compact` is false for a tombstone, so that many
    /// tasks that end at once do not set off one compaction after the other.
    pub fn save_task_inner(
        &mut self,
        task: &RetryableTask,
        check_compact: bool,
        log_len: Option<u64>,
    ) -> (compact: bool)
        requires
            old(self).well_formed(),
            old(self)@.has_room(),
        ensures
            final(self).well_formed(),
            final(self)@ == old(self)@.with_line(task@),
            compact == (check_compact && final(self)@.compaction_due(log_len)),
    {
        self.apply_line(task);
        check_compact && self.should_compact(log_len)
    }

    /// The live tasks, each once.
    pub fn read_tasks(&self) -> (r: Vec<RetryableTask>)
        requires
            self.well_formed(),
        ensures
            holds_each_once(views_of(r@), self@.tasks),
    {
        let mut out: Vec<RetryableTask> = Vec::new();
        let ghost rows = self.tasks_cache.rows();
        let mut i: usize = 0;
        let n: usize = self.tasks_cache.len();
        while i < n
            invariant
                i <= n == rows.len(),
                rows == self.tasks_cache.rows(),
                out@.len() == i,
                forall|j: int| 0 <= j < i ==> (#[trigger] out@[j])@ == rows[j].1@,
            decreases n - i,
        {
            out.push(self.tasks_cache.value_at(i).clone());
            i = i + 1;
        }
        proof {
            self.tasks_cache.lemma_rows();
            assert(self@.tasks.dom() =~= self.tasks_cache@.dom());
            lemma_rows_hold_each_once(rows, views_of(out@), self@.tasks);
        }
        out
    }

    /// The live task with an id.
    pub fn get_latest_task(&self, task_id: &str) -> (r: Option<RetryableTask>)
        requires
            self.well_formed(),
        ensures
            match r {
                Some(t) => self@.tasks.contains_key(task_id@) && t@ == self@.tasks[task_id@],
                None => !self@.tasks.contains_key(task_id@),
            },
    {
        match self.tasks_cache.get(task_id) {
            Some(t) => Some(t.clone()),
            None => None,
        }
    }

    /// Whether none of the tasks is alive. One that never was counts as completed.
    pub fn are_tasks_completed(&self, task_ids: &Vec<String>) -> (r: bool)
        requires
            self.well_formed(),
        ensures
            r == all_gone(self@.tasks, crate::task::texts(task_ids@)),
    {
        let ghost ids = crate::task::texts(task_ids@);
        let mut i: usize = 0;
        while i < task_ids.len()
            invariant
                i <= task_ids@.len(),
                ids == crate::task::texts(task_ids@),
                self.well_formed(),
                forall|j: int| 0 <= j < i ==> !self@.tasks.contains_key(#[trigger] ids[j]),
            decreases task_ids@.len() - i,
        {
            if self.tasks_cache.contains_key(task_ids[i].as_str()) {
                assert(self@.tasks.contains_key(ids[i as int]));
                return false;
            }
            i = i + 1;
        }
        true
    }

    /// Tells whether a task with the given id and dependencies would wait for itself: `Err`
    /// where the id is among the dependencies or is reached from them over the dependencies
    /// of live tasks.
    pub fn detect_cycle(&self, new_task_id: &str, trigger_after_ids: &Vec<String>) -> (r: Result<
        (),
        String,
    >)
        requires
            self.well_formed(),
        ensures
            r is Err <==> crate::dependencies::reaches(
                self@.tasks,
                crate::task::texts(trigger_after_ids@),
                new_task_id@,
            ),
            r matches Err(m) ==> m@ == "Cycle detected involving task "@ + new_task_id@,
    {
        let ghost tasks = self@.tasks;
        let ghost from = crate::task::texts(trigger_after_ids@);
        let mut visited = StringHashSet::new();
        let mut stack: Vec<String> = copy_texts(trigger_after_ids);
        proof {
            self.lemma_consistent();
            assert forall|i: int| 0 <= i < stack@.len() implies crate::dependencies::reaches(
                tasks,
                from,
                (#[trigger] stack@[i])@,
            ) by {
                assert(crate::task::texts(stack@)[i] == stack@[i]@);
                assert(from.contains(stack@[i]@));
                crate::dependencies::lemma_reaches_start(tasks, from, stack@[i]@);
            }
            assert forall|i: int| 0 <= i < from.len() implies pending(
                visited@,
                stack@,
                #[trigger] from[i],
            ) by {
                assert(crate::task::texts(stack@)[i] == stack@[i]@);
                assert(stack@[i]@ == from[i]);
            }
        }
        while stack.len() > 0
            invariant
                self.well_formed(),
                tasks == self@.tasks,
                tasks.dom().finite(),
                from == crate::task::texts(trigger_after_ids@),
                !visited@.contains(new_task_id@),
                forall|i: int|
                    0 <= i < stack@.len() ==> crate::dependencies::reaches(tasks, from, (#[trigger] stack@[i])@),
                forall|i: int|
                    0 <= i < from.len() ==> pending(visited@, stack@, #[trigger] from[i]),
                forall|v: Seq<char>, i: int|
                    visited@.contains(v) && 0 <= i < crate::dependencies::deps_of(tasks, v).len() ==> pending(
                        visited@,
                        stack@,
                        #[trigger] crate::dependencies::deps_of(tasks, v)[i],
                    ),
            decreases tasks.dom().difference(visited@).len(), stack@.len(),
        {
            let ghost stack0 = stack@;
            let ghost visited0 = visited@;
            let current: String = stack.pop().unwrap();
            assert(current@ == stack0[stack0.len() - 1]@);
            if same_text(current.as_str(), new_task_id) {
                let mut message: String = "Cycle detected involving task ".to_string();
                message.append(new_task_id);
                return Err(message);
            }
            let fresh: bool = visited.insert(current.clone());
            proof {
                assert forall|x: Seq<char>| #[trigger]
                    pending(visited0, stack0, x) implies pending(visited@, stack@, x) by {
                    if !visited0.contains(x) {
                        let k = choose|k: int|
                            0 <= k < stack0.len() && (#[trigger] stack0[k])@ == x;
                        if k < stack@.len() {
                            assert(stack@[k]@ == x);
                        }
                    }
                }
                assert forall|i: int| 0 <= i < stack@.len() implies crate::dependencies::reaches(
                    tasks,
                    from,
                    (#[trigger] stack@[i])@,
                ) by {
                    assert(stack@[i] == stack0[i]);
                }
            }
            if !fresh {
                assert(visited@ =~= visited0);
                continue;
            }
            match self.tasks_cache.get(current.as_str()) {
                Some(task) => {
                    assert(tasks.contains_key(current@) && tasks[current@] == task@);
                    proof {
                        assert(tasks.dom().difference(visited@) =~= tasks.dom().difference(
                            visited0,
                        ).remove(current@));
                        assert(tasks.dom().difference(visited0).contains(current@));
                    }
                    match &task.trigger_after_ids {
                        Some(deps) => {
                            let ghost ids = crate::task::texts(deps@);
                            assert(crate::dependencies::deps_of(tasks, current@) == ids);
                            let ghost stack1 = stack@;
                            let mut j: usize = 0;
                            while j < deps.len()
                                invariant
                                    j <= deps@.len(),
                                    ids == crate::task::texts(deps@),
                                    crate::dependencies::deps_of(tasks, current@) == ids,
                                    crate::dependencies::reaches(tasks, from, current@),
                                    stack@.len() == stack1.len() + j,
                                    forall|i: int|
                                        0 <= i < stack1.len() ==> #[trigger] stack@[i] == stack1[i],
                                    forall|i: int|
                                        0 <= i < j ==> (#[trigger] stack@[stack1.len() + i])@
                                            == ids[i],
                                    forall|i: int|
                                        0 <= i < stack@.len() ==> crate::dependencies::reaches(
                                            tasks,
                                            from,
                                            (#[trigger] stack@[i])@,
                                        ),
                                decreases deps@.len() - j,
                            {
                                let dep: String = deps[j].clone();
                                proof {
                                    assert(ids[j as int] == dep@);
                                    assert(ids.contains(dep@));
                                    crate::dependencies::lemma_reaches_step(
                                        tasks,
                                        from,
                                        current@,
                                        dep@,
                                    );
                                }
                                stack.push(dep);
                                j = j + 1;
                            }
                            proof {
                                assert forall|x: Seq<char>| #[trigger]
                                    pending(visited@, stack1, x) implies pending(
                                    visited@,
                                    stack@,
                                    x,
                                ) by {
                                    if !visited@.contains(x) {
                                        let k = choose|k: int|
                                            0 <= k < stack1.len() && (#[trigger] stack1[k])@ == x;
                                        assert(stack@[k]@ == x);
                                    }
                                }
                                assert forall|v: Seq<char>, i: int|
                                    visited@.contains(v) && 0 <= i < crate::dependencies::deps_of(
                                        tasks,
                                        v,
                                    ).len() implies pending(
                                    visited@,
                                    stack@,
                                    #[trigger] crate::dependencies::deps_of(tasks, v)[i],
                                ) by {
                                    if v == current@ {
                                        assert(stack@[stack1.len() + i]@ == ids[i]);
                                    } else {
                                        assert(visited0.contains(v));
                                        assert(pending(visited0, stack0, crate::dependencies::deps_of(tasks, v)[i]));
                                        assert(pending(visited@, stack1, crate::dependencies::deps_of(tasks, v)[i]));
                                    }
                                }
                            }
                        },
                        None => {
                            assert forall|v: Seq<char>, i: int|
                                visited@.contains(v) && 0 <= i < crate::dependencies::deps_of(
                                    tasks,
                                    v,
                                ).len() implies pending(
                                visited@,
                                stack@,
                                #[trigger] crate::dependencies::deps_of(tasks, v)[i],
                            ) by {
                                assert(v != current@);
                                assert(pending(visited0, stack0, crate::dependencies::deps_of(tasks, v)[i]));
                            }
                        },
                    }
                },
                None => {
                    proof {
                        assert(tasks.dom().difference(visited@) =~= tasks.dom().difference(
                            visited0,
                        ));
                        assert forall|v: Seq<char>, i: int|
                            visited@.contains(v) && 0 <= i < crate::dependencies::deps_of(tasks, v).len() implies pending(
                            visited@,
                            stack@,
                            #[trigger] crate::dependencies::deps_of(tasks, v)[i],
                        ) by {
                            assert(v != current@);
                            assert(pending(visited0, stack0, crate::dependencies::deps_of(tasks, v)[i]));
                        }
                    }
                },
            }
        }
        proof {
            assert forall|i: int| 0 <= i < from.len() implies visited@.contains(
                #[trigger] from[i],
            ) by {
                assert(pending(visited@, stack@, from[i]));
            }
            assert forall|v: Seq<char>, i: int|
                visited@.contains(v) && 0 <= i < crate::dependencies::deps_of(tasks, v).len() implies visited@.contains(
                #[trigger] crate::dependencies::deps_of(tasks, v)[i],
            ) by {
                assert(pending(visited@, stack@, crate::dependencies::deps_of(tasks, v)[i]));
            }
            if crate::dependencies::reaches(tasks, from, new_task_id@) {
                crate::dependencies::lemma_closed_set(tasks, from, visited@, new_task_id@);
            }
        }
        Ok(())
    }

    /// Whether the log is to be compacted.
    pub fn should_compact(&self, log_len: Option<u64>) -> (r: bool)
        ensures
            r == self@.compaction_due(log_len),
    {
        match log_len {
            Some(n) => {
                if n > COMPACT_BYTES {
                    return true;
                }
            },
            None => {},
        }
        if self.total_tasks > 0 && self.deleted_tasks > self.total_tasks / 2 {
            return true;
        }
        self.append_count > COMPACT_LINES
    }

    /// Begins a compaction; `false` where one is under way already.
    pub fn begin_compaction(&mut self) -> (r: bool)
        requires
            old(self).well_formed(),
        ensures
            final(self).well_formed(),
            r == !old(self)@.compacting,
            final(self)@ == (StoreView { compacting: true, ..old(self)@ }),
    {
        let r: bool = !self.compacting;
        self.compacting = true;
        assert(self@ =~= (StoreView { compacting: true, ..old(self)@ }));
        r
    }

    /// Ends a compaction, whether it came through or not.
    pub fn end_compaction(&mut self)
        requires
            old(self).well_formed(),
        ensures
            final(self).well_formed(),
            final(self)@ == (StoreView { compacting: false, ..old(self)@ }),
    {
        self.compacting = false;
        assert(self@ =~= (StoreView { compacting: false, ..old(self)@ }));
    }

    /// Takes over the tasks of a log that has been replaced by its compacted form.
    pub fn compact_log(&mut self, plan: Compaction)
        requires
            old(self).well_formed(),
            plan.well_formed(),
        ensures
            final(self).well_formed(),
            final(self)@ == old(self)@.compacted(plan@),
    {
        proof {
            plan.tasks.lemma_rows();
            assert(plan@.dom() =~= plan.tasks@.dom());
        }
        self.total_tasks = plan.tasks.len();
        self.deleted_tasks = 0;
        self.append_count = 0;
        self.tasks_cache = plan.tasks;
    }

    /// The live task with an id.
    pub(crate) fn stored(&self, task_id: &str) -> (r: Option<&RetryableTask>)
        requires
            self.well_formed(),
        ensures
            match r {
                Some(t) => self@.tasks.contains_key(task_id@) && t@ == self@.tasks[task_id@],
                None => !self@.tasks.contains_key(task_id@),
            },
    {
        self.tasks_cache.get(task_id)
    }

    /// The tombstone of a task that is given up after this error; `None` where no such task is
    /// alive.
    pub fn dead_letter(&self, task_id: &str, error: String, now: Timestamp) -> (r: Option<
        RetryableTask,
    >)
        requires
            self.well_formed(),
        ensures
            match r {
                Some(t) => {
                    &&& self@.tasks.contains_key(task_id@)
                    &&& t@ == self@.tasks[task_id@].given_up(error@, now)
                },
                None => !self@.tasks.contains_key(task_id@),
            },
    {
        match self.tasks_cache.get(task_id) {
            Some(t) => {
                let mut tomb: RetryableTask = t.clone();
                tomb.mark_given_up(error, now);
                Some(tomb)
            },
            None => None,
        }
    }

    /// The tombstone that deletes a task; `None` where no such task is alive.
    pub fn tombstone(&self, task_id: &str, now: Timestamp) -> (r: Option<RetryableTask>)
        requires
            self.well_formed(),
        ensures
            match r {
                Some(t) => self@.tasks.contains_key(task_id@) && t@ == self@.tasks[task_id@].deleted(
                    now,
                ),
                None => !self@.tasks.contains_key(task_id@),
            },
    {
        match self.tasks_cache.get(task_id) {
            Some(t) => {
                let mut tomb: RetryableTask = t.clone();
                tomb.mark_deleted(now);
                Some(tomb)
            },
            None => None,
        }
    }

    /// Deletes a task and returns its tombstone, which belongs at the end of the log. Where
    /// no such task is alive nothing happens.
    pub fn delete_task(&mut self, task_id: &str, now: Timestamp) -> (r: Option<RetryableTask>)
        requires
            old(self).well_formed(),
            old(self)@.has_room(),
        ensures
            final(self).well_formed(),
            match r {
                Some(t) => {
                    &&& old(self)@.tasks.contains_key(task_id@)
                    &&& t@ == old(self)@.tasks[task_id@].deleted(now)
                    &&& final(self)@ == old(self)@.with_line(t@)
                },
                None => {
                    &&& !old(self)@.tasks.contains_key(task_id@)
                    &&& final(self)@ == old(self)@
                },
            },
    {
        match self.tombstone(task_id, now) {
            Some(tomb) => {
                let _ = self.save_task_inner(&tomb, false, None);
                Some(tomb)
            },
            None => None,
        }
    }
}

/// The tasks of a log that is being compacted.
pub struct Compaction {
    tasks: StringTable<RetryableTask>,
}

impl Compaction {
    /// The tasks that stay, by id.
    pub closed spec fn view(&self) -> Map<Seq<char>, TaskView> {
        task_views(self.tasks@)
    }

    /// Each task stands once, under its id, and is live.
    pub closed spec fn well_formed(&self) -> bool {
        &&& self.tasks.well_formed()
        &&& forall|id: Seq<char>| #[trigger]
            self@.contains_key(id) ==> self@[id].task_id == id && self@[id].deleted_at is None
    }

    /// Works out which tasks of a log stay: those that are alive, as their last line has them.
    pub fn plan(log: &Vec<Option<RetryableTask>>) -> (r: Compaction)
        ensures
            r.well_formed(),
            r@ == live_tasks(lines_of(log@)),
    {
        let ghost lines = lines_of(log@);
        let mut tasks: StringTable<RetryableTask> = StringTable::new();
        assert(task_views(tasks@) =~= live_tasks(lines.take(0)));
        let mut i: usize = 0;
        while i < log.len()
            invariant
                i <= log@.len(),
                lines == lines_of(log@),
                tasks.well_formed(),
                task_views(tasks@) == live_tasks(lines.take(i as int)),
            decreases log@.len() - i,
        {
            let ghost before = task_views(tasks@);
            let ghost shorter = lines.take(i as int);
            assert(lines.take(i + 1).drop_last() =~= shorter);
            match &log[i] {
                Some(task) => {
                    proof {
                        law_store_follows_log(Seq::empty(), shorter, task@);
                        assert(lines.take(i + 1) =~= shorter.push(Some(task@)));
                    }
                    if task.deleted_at.is_some() {
                        let _ = tasks.remove(task.task_id.as_str());
                        assert(task_views(tasks@) =~= before.remove(task@.task_id));
                    } else {
                        tasks.insert(task.task_id.clone(), task.clone());
                        assert(task_views(tasks@) =~= before.insert(task@.task_id, task@));
                    }
                },
                None => {
                    proof {
                        law_store_follows_log(Seq::empty(), shorter, arbitrary());
                        assert(lines.take(i + 1) =~= shorter.push(None));
                    }
                },
            }
            i = i + 1;
        }
        proof {
            assert(lines.take(log@.len() as int) =~= lines);
            law_store_follows_log(Seq::empty(), lines, arbitrary());
        }
        Compaction { tasks }
    }

    /// The lines of the compacted log: the tasks that stay, each once.
    pub fn lines(&self) -> (r: Vec<RetryableTask>)
        requires
            self.well_formed(),
        ensures
            holds_each_once(crate::file_store::views_of(r@), self@),
    {
        let mut out: Vec<RetryableTask> = Vec::new();
        let ghost rows = self.tasks.rows();
        let mut i: usize = 0;
        let n: usize = self.tasks.len();
        while i < n
            invariant
                i <= n == rows.len(),
                rows == self.tasks.rows(),
                out@.len() == i,
                forall|j: int| 0 <= j < i ==> (#[trigger] out@[j])@ == rows[j].1@,
            decreases n - i,
        {
            out.push(self.tasks.value_at(i).clone());
            i = i + 1;
        }
        proof {
            self.tasks.lemma_rows();
            assert(self@.dom() =~= self.tasks@.dom());
            lemma_rows_hold_each_once(rows, views_of(out@), self@);
        }
        out
    }
}

/// What tasks hold.
pub open spec fn views_of(v: Seq<RetryableTask>) -> Seq<TaskView> {
    Seq::new(v.len(), |i: int| v[i]@)
}

/// `list` holds each task of `tasks` once and nothing else.
pub open spec fn holds_each_once(list: Seq<TaskView>, tasks: Map<Seq<char>, TaskView>) -> bool {
    &&& list.len() == tasks.len()
    &&& forall|i: int|
        0 <= i < list.len() ==> tasks.contains_key((#[trigger] list[i]).task_id)
            && tasks[list[i].task_id] == list[i]
    &&& forall|i: int, j: int|
        0 <= i < j < list.len() ==> (#[trigger] list[i]).task_id != (#[trigger] list[j]).task_id
    &&& forall|id: Seq<char>| #[trigger]
        tasks.contains_key(id) ==> exists|i: int|
            0 <= i < list.len() && (#[trigger] list[i]).task_id == id
}

/// The values of a table of tasks hold each of them once.
proof fn lemma_rows_hold_each_once(
    rows: Seq<(Seq<char>, RetryableTask)>,
    list: Seq<TaskView>,
    tasks: Map<Seq<char>, TaskView>,
)
    requires
        crate::table::keys_distinct(rows),
        tasks == task_views(crate::table::contents_of(rows)),
        tasks.len() == rows.len(),
        list.len() == rows.len(),
        forall|i: int| 0 <= i < list.len() ==> #[trigger] list[i] == rows[i].1@,
        forall|id: Seq<char>| #[trigger] tasks.contains_key(id) ==> tasks[id].task_id == id,
    ensures
        holds_each_once(list, tasks),
{
    assert forall|i: int| 0 <= i < rows.len() implies tasks.contains_key((#[trigger] rows[i]).0)
        && tasks[rows[i].0] == list[i] && list[i].task_id == rows[i].0 by {
        crate::table::lemma_row_in_contents(rows, i);
        assert(tasks.contains_key(rows[i].0));
    }
    assert forall|i: int| 0 <= i < list.len() implies tasks.contains_key(
        (#[trigger] list[i]).task_id,
    ) && tasks[list[i].task_id] == list[i] by {
        assert(tasks.contains_key(rows[i].0));
    }
    assert forall|i: int, j: int| 0 <= i < j < list.len() implies (#[trigger] list[i]).task_id != (
    #[trigger] list[j]).task_id by {
        assert(tasks.contains_key(rows[i].0));
        assert(tasks.contains_key(rows[j].0));
        assert(rows[i].0 != rows[j].0);
    }
    assert forall|id: Seq<char>| #[trigger] tasks.contains_key(id) implies exists|i: int|
        0 <= i < list.len() && (#[trigger] list[i]).task_id == id by {
        let k = choose|k: int| 0 <= k < rows.len() && (#[trigger] rows[k]).0 == id;
        assert(list[k].task_id == id);
    }
}

/// An id that the search has seen or still has before it.
spec fn pending(visited: Set<Seq<char>>, stack: Seq<String>, x: Seq<char>) -> bool {
    visited.contains(x) || exists|k: int| 0 <= k < stack.len() && (#[trigger] stack[k])@ == x
}

/// None of the ids is that of a live task.
pub open spec fn all_gone(tasks: Map<Seq<char>, TaskView>, ids: Seq<Seq<char>>) -> bool {
    forall|i: int| 0 <= i < ids.len() ==> !tasks.contains_key(#[trigger] ids[i])
}

/// A live task that is saved is read back as it was saved, a deleted one is gone, and a line
/// about one task leaves the others as they were.
pub proof fn law_read_gives_back_what_was_written(store: StoreView, t: TaskView, other: Seq<char>)
    requires
        other != t.task_id,
    ensures
        t.deleted_at is None ==> store.with_line(t).tasks.contains_key(t.task_id)
            && store.with_line(t).tasks[t.task_id] == t,
        t.deleted_at is Some ==> !store.with_line(t).tasks.contains_key(t.task_id),
        store.with_line(t).tasks.contains_key(other) == store.tasks.contains_key(other),
        store.tasks.contains_key(other) ==> store.with_line(t).tasks[other] == store.tasks[other],
        store.consistent() ==> store.with_line(t).consistent(),
{
}

/// Deletion completes a task for those that wait for it: once it has its tombstone, they
/// wait for the others alone, and what was complete before stays so.
pub proof fn law_deletion_completes(store: StoreView, ids: Seq<Seq<char>>, t: TaskView)
    requires
        t.deleted_at is Some,
    ensures
        all_gone(store.tasks, ids) ==> all_gone(store.with_line(t).tasks, ids),
        all_gone(store.with_line(t).tasks, ids) <==> all_gone(
            store.tasks,
            ids.filter(|id: Seq<char>| id != t.task_id),
        ),
{
    let after = store.with_line(t).tasks;
    let p = |id: Seq<char>| id != t.task_id;
    let rest = ids.filter(p);
    if all_gone(after, ids) {
        assert forall|i: int| 0 <= i < rest.len() implies !store.tasks.contains_key(
            #[trigger] rest[i],
        ) by {
            ids.lemma_filter_contains_rev(p, rest[i]);
            let k = choose|k: int| 0 <= k < ids.len() && ids[k] == rest[i];
            assert(!after.contains_key(ids[k]));
            assert(p(rest[i]));
        }
    }
    if all_gone(store.tasks, rest) {
        assert forall|i: int| 0 <= i < ids.len() implies !after.contains_key(#[trigger] ids[i]) by {
            if ids[i] != t.task_id {
                assert(p(ids[i]));
                ids.lemma_filter_contains(p, i);
                assert(rest.contains(ids[i]));
                let k = choose|k: int| 0 <= k < rest.len() && rest[k] == ids[i];
                assert(!store.tasks.contains_key(rest[k]));
            }
        }
    }
}

/// The lines of a compacted log.
pub open spec fn as_log(list: Seq<TaskView>) -> Seq<Option<TaskView>> {
    Seq::new(list.len(), |i: int| Some(list[i]))
}

/// A restart on a log that holds each of these tasks once finds them. This is so in whatever
/// order the lines are written.
pub proof fn law_compacted_log_replays(
    path: Seq<char>,
    list: Seq<TaskView>,
    tasks: Map<Seq<char>, TaskView>,
)
    requires
        holds_each_once(list, tasks),
        forall|id: Seq<char>| #[trigger] tasks.contains_key(id) ==> tasks[id].deleted_at is None,
    ensures
        replayed(path, as_log(list)).tasks == tasks,
        replayed(path, as_log(list)).total == tasks.len(),
        replayed(path, as_log(list)).deleted == 0,
{
    let log = as_log(list);
    lemma_distinct_lines(list, tasks, list.len() as int);
    assert(log.take(list.len() as int) =~= log);
    assert(live_tasks(log) =~= tasks) by {
        assert forall|id: Seq<char>| #[trigger] live_tasks(log).contains_key(id)
            == tasks.contains_key(id) by {
            if tasks.contains_key(id) {
                let i = choose|i: int| 0 <= i < list.len() && (#[trigger] list[i]).task_id == id;
                assert(last_line(log, list[i].task_id) == Some(list[i]));
            } else if live_tasks(log).contains_key(id) {
                lemma_last_line_somewhere(log, id);
                let i = choose|i: int| 0 <= i < log.len() && log[i] == last_line(log, id);
                assert(tasks.contains_key(list[i].task_id));
                lemma_last_line_id(log, id);
            }
        }
        assert forall|id: Seq<char>| #[trigger] live_tasks(log).contains_key(id) implies live_tasks(
            log,
        )[id] == tasks[id] by {
            let i = choose|i: int| 0 <= i < list.len() && (#[trigger] list[i]).task_id == id;
            assert(last_line(log, list[i].task_id) == Some(list[i]));
        }
    }
}

/// A compaction changes no task: the store keeps the last state of each, and a restart on the
/// compacted log finds the same.
pub proof fn law_compaction_keeps_live_tasks(
    path: Seq<char>,
    log: Seq<Option<TaskView>>,
    list: Seq<TaskView>,
)
    requires
        holds_each_once(list, live_tasks(log)),
    ensures
        replayed(path, log).compacted(live_tasks(log)).tasks == replayed(path, log).tasks,
        replayed(path, as_log(list)).tasks == replayed(path, log).tasks,
        replayed(path, as_log(list)).consistent(),
{
    law_compacted_log_replays(path, list, live_tasks(log));
    law_store_follows_log(path, as_log(list), arbitrary());
}

/// The last line of an id is one of the log.
proof fn lemma_last_line_somewhere(log: Seq<Option<TaskView>>, id: Seq<char>)
    ensures
        last_line(log, id) is Some ==> exists|i: int|
            0 <= i < log.len() && log[i] == last_line(log, id),
    decreases log.len(),
{
    if log.len() > 0 {
        let front = log.drop_last();
        lemma_last_line_somewhere(front, id);
        if last_line(front, id) is Some {
            let i = choose|i: int| 0 <= i < front.len() && front[i] == last_line(front, id);
            assert(log[i] == front[i]);
        }
        assert(log[log.len() - 1] == log.last());
    }
}

/// In a log without two lines for one id, each line is the last one of its id.
proof fn lemma_distinct_lines(list: Seq<TaskView>, tasks: Map<Seq<char>, TaskView>, n: int)
    requires
        holds_each_once(list, tasks),
        forall|id: Seq<char>| #[trigger] tasks.contains_key(id) ==> tasks[id].deleted_at is None,
        0 <= n <= list.len(),
    ensures
        ({
            let log = as_log(list).take(n);
            &&& live_lines(log) == n
            &&& tombstones(log) == 0
            &&& forall|i: int|
                0 <= i < n ==> last_line(log, (#[trigger] list[i]).task_id) == Some(list[i])
        }),
    decreases n,
{
    let log = as_log(list).take(n);
    if n > 0 {
        lemma_distinct_lines(list, tasks, n - 1);
        assert(log.drop_last() =~= as_log(list).take(n - 1));
        assert(log.last() == Some(list[n - 1]));
        assert(tasks.contains_key(list[n - 1].task_id));
    }
}

/// The last line of an id is a line of the log that speaks of it, with none after it that does;
/// there is none only where no line speaks of it.
pub proof fn law_last_line_is_the_last(log: Seq<Option<TaskView>>, id: Seq<char>, i: int)
    ensures
        last_line(log, id) matches Some(t) ==> exists|k: int|
            {
                &&& 0 <= k < log.len()
                &&& #[trigger] log[k] == Some(t)
                &&& t.task_id == id
                &&& forall|j: int|
                    k < j < log.len() ==> ((#[trigger] log[j]) matches Some(u) ==> u.task_id != id)
            },
        last_line(log, id) is None && 0 <= i < log.len() ==> (log[i] matches Some(u) ==> u.task_id
            != id),
    decreases log.len(),
{
    if log.len() > 0 {
        let front = log.drop_last();
        if log.last() matches Some(t) && t.task_id == id {
            assert(log[log.len() - 1] == last_line(log, id));
        } else {
            law_last_line_is_the_last(front, id, i);
            if last_line(front, id) is Some {
                let t = last_line(front, id)->0;
                let k = choose|k: int|
                    {
                        &&& 0 <= k < front.len()
                        &&& #[trigger] front[k] == Some(t)
                        &&& t.task_id == id
                        &&& forall|j: int|
                            k < j < front.len() ==> ((#[trigger] front[j]) matches Some(u)
                                ==> u.task_id != id)
                    };
                assert(log[k] == Some(t));
                assert forall|j: int| k < j < log.len() implies ((#[trigger] log[j]) matches Some(u)
                    ==> u.task_id != id) by {
                    if j < front.len() {
                        assert(front[j] == log[j]);
                    }
                }
            } else if 0 <= i < front.len() {
                assert(front[i] == log[i]);
            }
        }
    }
}

/// A log leaves a task alive exactly where its last line is no tombstone, and as that line has it:
/// where a line at `k` speaks of the task and no line after it does, that line decides.
pub proof fn law_last_line_decides(log: Seq<Option<TaskView>>, k: int)
    requires
        0 <= k < log.len(),
        log[k] is Some,
        forall|j: int|
            k < j < log.len() ==> ((#[trigger] log[j]) matches Some(u) ==> u.task_id
                != log[k]->0.task_id),
    ensures
        live_tasks(log).contains_key(log[k]->0.task_id) <==> log[k]->0.deleted_at is None,
        log[k]->0.deleted_at is None ==> live_tasks(log)[log[k]->0.task_id] == log[k]->0,
    decreases log.len() - k,
{
    let id = log[k]->0.task_id;
    law_last_line_is_the_last(log, id, k);
    let t = last_line(log, id)->0;
    let j = choose|j: int|
        {
            &&& 0 <= j < log.len()
            &&& #[trigger] log[j] == Some(t)
            &&& t.task_id == id
            &&& forall|i: int|
                j < i < log.len() ==> ((#[trigger] log[i]) matches Some(u) ==> u.task_id != id)
        };
    assert(j == k);
}

/// No task comes alive out of a log that no line speaks of.
pub proof fn law_only_written_tasks_live(log: Seq<Option<TaskView>>, id: Seq<char>)
    requires
        forall|i: int| 0 <= i < log.len() ==> ((#[trigger] log[i]) matches Some(u) ==> u.task_id != id),
    ensures
        !live_tasks(log).contains_key(id),
{
    if last_line(log, id) is Some {
        law_last_line_is_the_last(log, id, 0);
        let t = last_line(log, id)->0;
        let k = choose|k: int|
            {
                &&& 0 <= k < log.len()
                &&& #[trigger] log[k] == Some(t)
                &&& t.task_id == id
                &&& forall|j: int|
                    k < j < log.len() ==> ((#[trigger] log[j]) matches Some(u) ==> u.task_id != id)
            };
        assert(log[k] is Some);
    }
}

/// The lines are counted as they are: those with a live task, those with a tombstone, and both.
pub proof fn law_lines_are_counted(path: Seq<char>, log: Seq<Option<TaskView>>)
    ensures
        live_lines(log) == log.filter(
            |l: Option<TaskView>| l matches Some(t) && t.deleted_at is None,
        ).len(),
        tombstones(log) == log.filter(
            |l: Option<TaskView>| l matches Some(t) && t.deleted_at is Some,
        ).len(),
        replayed(path, log).path == path,
        replayed(path, log).total == live_lines(log),
        replayed(path, log).deleted == tombstones(log),
        replayed(path, log).appended == live_lines(log) + tombstones(log),
        !replayed(path, log).compacting,
    decreases log.len(),
{
    reveal(Seq::filter);
    if log.len() > 0 {
        law_lines_are_counted(path, log.drop_last());
    }
}

/// The log is to be compacted exactly where it is longer than 20 MiB, where more than half as many
/// lines are tombstones as hold a live task, or where more than ten thousand were appended.
pub proof fn law_log_is_compacted_when_it_has_grown(store: StoreView, log_len: Option<u64>)
    ensures
        store.compaction_due(log_len) <==> {
            ||| log_len is Some && log_len->0 > 20 * 1024 * 1024
            ||| store.total > 0 && store.deleted > store.total / 2
            ||| store.appended > 10_000
        },
{
}

/// A line is counted as what it is, and a compaction begins the counts anew; neither touches the
/// path.
pub proof fn law_counts_follow_the_lines(
    store: StoreView,
    t: TaskView,
    tasks: Map<Seq<char>, TaskView>,
)
    ensures
        store.with_line(t).appended == store.appended + 1,
        t.deleted_at is Some ==> store.with_line(t).deleted == store.deleted + 1
            && store.with_line(t).total == store.total,
        t.deleted_at is None ==> store.with_line(t).total == store.total + 1
            && store.with_line(t).deleted == store.deleted,
        store.with_line(t).path == store.path,
        store.with_line(t).compacting == store.compacting,
        store.compacted(tasks).tasks == tasks,
        store.compacted(tasks).total == tasks.len(),
        store.compacted(tasks).deleted == 0,
        store.compacted(tasks).appended == 0,
        store.compacted(tasks).path == store.path,
        store.compacted(tasks).compacting == store.compacting,
{
}

/// The lines of a log are the tasks that they hold.
pub proof fn law_lines_are_what_they_hold(log: Seq<Option<RetryableTask>>, i: int)
    requires
        0 <= i < log.len(),
    ensures
        lines_of(log).len() == log.len(),
        log[i] is None <==> lines_of(log)[i] is None,
        log[i] matches Some(t) ==> lines_of(log)[i] == Some(t@),
{
}

/// A list of the live tasks holds every one of them once, as it stands, and nothing else.
pub proof fn law_list_holds_every_live_task_once(
    list: Seq<TaskView>,
    tasks: Map<Seq<char>, TaskView>,
    id: Seq<char>,
    i: int,
    j: int,
)
    requires
        holds_each_once(list, tasks),
    ensures
        list.len() == tasks.len(),
        tasks.contains_key(id) ==> list.contains(tasks[id]),
        0 <= i < list.len() ==> tasks.contains_key(list[i].task_id) && tasks[list[i].task_id]
            == list[i],
        0 <= i < list.len() && 0 <= j < list.len() && list[i].task_id == list[j].task_id ==> i
            == j,
{
    if tasks.contains_key(id) {
        let k = choose|k: int| 0 <= k < list.len() && (#[trigger] list[k]).task_id == id;
        assert(list[k] == tasks[id]);
    }
    if 0 <= i < list.len() && 0 <= j < list.len() {
        if i < j {
            assert(list[i].task_id != list[j].task_id);
        } else if j < i {
            assert(list[j].task_id != list[i].task_id);
        }
    }
}

/// Tasks are complete exactly where none of them is alive, and what a list of tasks holds is what
/// each of them holds.
pub proof fn law_complete_is_no_longer_alive(
    tasks: Map<Seq<char>, TaskView>,
    ids: Seq<Seq<char>>,
    v: Seq<RetryableTask>,
    i: int,
)
    ensures
        all_gone(tasks, ids) <==> forall|id: Seq<char>| #[trigger]
            ids.contains(id) ==> !tasks.contains_key(id),
        views_of(v).len() == v.len(),
        0 <= i < v.len() ==> views_of(v)[i] == v[i]@,
{
    if forall|id: Seq<char>| #[trigger] ids.contains(id) ==> !tasks.contains_key(id) {
        assert forall|k: int| 0 <= k < ids.len() implies !tasks.contains_key(#[trigger] ids[k]) by {
            assert(ids.contains(ids[k]));
        }
    }
}

/// A line can be counted where no counter is at its end.
pub proof fn law_lines_can_be_counted_up_to_the_end(store: StoreView)
    ensures
        store.has_room() <==> store.total < usize::MAX && store.deleted < usize::MAX
            && store.appended < usize::MAX,
{
}

} // verus!
