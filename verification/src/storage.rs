//! The task store: one row per task identifier, a closed status state
//! machine, and the queries and bulk transitions the run loop is built on.

use vstd::prelude::*;

use crate::ExecCommandResult;
use crate::ExecCommandResultView;

verus! {

/// Status of a task in the store's state machine.
///
/// `Completed` and `Error` are terminal; every other status can still move.
#[derive(Clone, Copy, PartialEq, Eq, Structural, Debug)]
pub enum TaskStatus {
    New,
    Scheduled,
    Resheduled,
    Processing,
    Completed,
    Error,
    Aborted,
}

impl TaskStatus {
    /// The stored string form of this status.
    pub open spec fn spec_str(self) -> Seq<char> {
        match self {
            TaskStatus::New => "new"@,
            TaskStatus::Scheduled => "scheduled"@,
            TaskStatus::Resheduled => "rescheduled"@,
            TaskStatus::Processing => "processing"@,
            TaskStatus::Completed => "completed"@,
            TaskStatus::Error => "error"@,
            TaskStatus::Aborted => "aborted"@,
        }
    }

    /// Renders this status in its stored string form.
    pub fn to_str(self) -> (r: &'static str)
        ensures
            r@ == self.spec_str(),
    {
        match self {
            TaskStatus::New => "new",
            TaskStatus::Scheduled => "scheduled",
            TaskStatus::Resheduled => "rescheduled",
            TaskStatus::Processing => "processing",
            TaskStatus::Completed => "completed",
            TaskStatus::Error => "error",
            TaskStatus::Aborted => "aborted",
        }
    }

    /// Parses the stored string form; an unknown string is rejected rather
    /// than defaulted, so a corrupted row surfaces as `None`.
    pub fn from_str(s: &str) -> (r: Option<TaskStatus>)
        ensures
            r == spec_parse_status(s@),
    {
        if crate::text::str_eq(s, "new") {
            Some(TaskStatus::New)
        } else if crate::text::str_eq(s, "scheduled") {
            Some(TaskStatus::Scheduled)
        } else if crate::text::str_eq(s, "rescheduled") {
            Some(TaskStatus::Resheduled)
        } else if crate::text::str_eq(s, "processing") {
            Some(TaskStatus::Processing)
        } else if crate::text::str_eq(s, "completed") {
            Some(TaskStatus::Completed)
        } else if crate::text::str_eq(s, "error") {
            Some(TaskStatus::Error)
        } else if crate::text::str_eq(s, "aborted") {
            Some(TaskStatus::Aborted)
        } else {
            None
        }
    }

    /// Whether no further automatic transition leaves this status.
    pub open spec fn spec_is_terminal(self) -> bool {
        self == TaskStatus::Completed || self == TaskStatus::Error
    }

    /// Decides whether this status is terminal.
    pub fn is_terminal(self) -> (r: bool)
        ensures
            r == self.spec_is_terminal(),
    {
        match self {
            TaskStatus::Completed => true,
            TaskStatus::Error => true,
            _ => false,
        }
    }
}

/// The status whose stored string form is `s`, if any.
pub open spec fn spec_parse_status(s: Seq<char>) -> Option<TaskStatus> {
    if s == "new"@ {
        Some(TaskStatus::New)
    } else if s == "scheduled"@ {
        Some(TaskStatus::Scheduled)
    } else if s == "rescheduled"@ {
        Some(TaskStatus::Resheduled)
    } else if s == "processing"@ {
        Some(TaskStatus::Processing)
    } else if s == "completed"@ {
        Some(TaskStatus::Completed)
    } else if s == "error"@ {
        Some(TaskStatus::Error)
    } else if s == "aborted"@ {
        Some(TaskStatus::Aborted)
    } else {
        None
    }
}

/// One row of the task table.
///
/// `command` holds the template with the placeholder substituted at import
/// time and is rewritten with the exact command executed when the task
/// reaches a terminal attempt; `elapsed_time_ms`, `stdout` and `stderr` stay
/// empty until then.
pub struct Task {
    pub task_id: String,
    pub status: TaskStatus,
    pub command: String,
    pub elapsed_time_ms: u128,
    pub reshedule_count: u32,
    pub ignore_till: Option<u64>,
    pub stdout: String,
    pub stderr: String,
}

/// Mathematical value of one task row.
pub ghost struct TaskView {
    pub task_id: Seq<char>,
    pub status: TaskStatus,
    pub command: Seq<char>,
    pub elapsed_time_ms: u128,
    pub reshedule_count: u32,
    pub ignore_till: Option<u64>,
    pub stdout: Seq<char>,
    pub stderr: Seq<char>,
}

impl View for Task {
    type V = TaskView;

    open spec fn view(&self) -> TaskView {
        TaskView {
            task_id: self.task_id@,
            status: self.status,
            command: self.command@,
            elapsed_time_ms: self.elapsed_time_ms,
            reshedule_count: self.reshedule_count,
            ignore_till: self.ignore_till,
            stdout: self.stdout@,
            stderr: self.stderr@,
        }
    }
}

/// No two rows share a task identifier.
pub open spec fn unique_ids(s: Seq<TaskView>) -> bool {
    forall|i: int, j: int| 0 <= i < j < s.len() ==> s[i].task_id != s[j].task_id
}

/// Every row carries a non-empty identifier and identifiers are unique.
pub open spec fn wf_tasks(s: Seq<TaskView>) -> bool {
    &&& unique_ids(s)
    &&& forall|i: int| 0 <= i < s.len() ==> s[i].task_id.len() > 0
}

/// Whether some row carries the identifier `id`.
pub open spec fn contains_task(s: Seq<TaskView>, id: Seq<char>) -> bool {
    exists|i: int| 0 <= i < s.len() && s[i].task_id == id
}

/// The index of the row carrying `id`; meaningful only when `contains_task`
/// holds and identifiers are unique.
pub open spec fn task_idx(s: Seq<TaskView>, id: Seq<char>) -> int {
    choose|i: int| 0 <= i < s.len() && s[i].task_id == id
}

/// The row carrying `id`; meaningful only when `contains_task` holds and
/// identifiers are unique.
pub open spec fn task_with_id(s: Seq<TaskView>, id: Seq<char>) -> TaskView {
    s[task_idx(s, id)]
}

/// With unique identifiers, any row whose identifier is `id` is the row that
/// `task_with_id` denotes.
pub proof fn lemma_task_idx(s: Seq<TaskView>, id: Seq<char>, i: int)
    requires
        unique_ids(s),
        0 <= i < s.len(),
        s[i].task_id == id,
    ensures
        task_idx(s, id) == i,
        task_with_id(s, id) == s[i],
{
    assert(contains_task(s, id));
    let k = task_idx(s, id);
    assert(0 <= k < s.len() && s[k].task_id == id);
    if k != i {
        assert(s[k].task_id != s[i].task_id);
    }
}

/// The task store: the single source of truth for where every task stands.
///
/// The table is reachable only through the operations below, which keep
/// `wf()`; a caller that mirrors the table durably replays each mutation and
/// rebuilds the table with [`restore_task`] at startup.
pub struct ConnHandle {
    tasks: Vec<Task>,
}

impl View for ConnHandle {
    type V = Seq<TaskView>;

    closed spec fn view(&self) -> Seq<TaskView> {
        self.tasks@.map_values(|t: Task| t@)
    }
}

impl ConnHandle {
    /// The store's invariant: unique, non-empty task identifiers.
    pub open spec fn wf(&self) -> bool {
        wf_tasks(self@)
    }

    /// An empty store.
    pub fn new() -> (r: ConnHandle)
        ensures
            r@ == Seq::<TaskView>::empty(),
            r.wf(),
    {
        let r = ConnHandle { tasks: Vec::new() };
        proof {
            assert(r@ =~= Seq::<TaskView>::empty());
        }
        r
    }

    /// The index of the row carrying `task_id`, scanning from the front.
    fn find(&self, task_id: &str) -> (r: Option<usize>)
        ensures
            match r {
                Some(i) => {
                    &&& i < self@.len()
                    &&& self@[i as int].task_id == task_id@
                    &&& forall|j: int| 0 <= j < i ==> self@[j].task_id != task_id@
                },
                None => !contains_task(self@, task_id@),
            },
    {
        let n = self.tasks.len();
        let mut i: usize = 0;
        while i < n
            invariant
                n == self.tasks.len(),
                i <= n,
                self@.len() == n,
                forall|j: int| 0 <= j < i ==> self@[j].task_id != task_id@,
            decreases n - i,
        {
            if crate::text::str_eq(self.tasks[i].task_id.as_str(), task_id) {
                return Some(i);
            }
            i = i + 1;
        }
        None
    }
}

/// A freshly imported row: status `New`, zero reschedules, no cooldown, no
/// captured output yet.
pub open spec fn spec_new_task(id: Seq<char>, command: Seq<char>) -> TaskView {
    TaskView {
        task_id: id,
        status: TaskStatus::New,
        command: command,
        elapsed_time_ms: 0,
        reshedule_count: 0,
        ignore_till: None,
        stdout: Seq::<char>::empty(),
        stderr: Seq::<char>::empty(),
    }
}

/// The table after importing `id` with `template`: unchanged when `id` is
/// empty or already present (first import wins), else extended by one fresh
/// row whose command is the template with the placeholder substituted.
pub open spec fn spec_import(s: Seq<TaskView>, id: Seq<char>, template: Seq<char>) -> Seq<
    TaskView,
> {
    if id.len() == 0 || contains_task(s, id) {
        s
    } else {
        s.push(spec_new_task(id, crate::text::spec_substitute(template, id)))
    }
}

/// Imports one task: a no-op if `task` is empty or already present,
/// otherwise inserts a fresh `New` row bound to the substituted command.
pub fn import_task(handle: &mut ConnHandle, task: &str, command_template: &str)
    requires
        old(handle).wf(),
    ensures
        final(handle).wf(),
        final(handle)@ == spec_import(old(handle)@, task@, command_template@),
{
    if task.is_empty() {
        return ;
    }
    if handle.find(task).is_some() {
        return ;
    }
    let command = crate::text::substitute(command_template, task);
    let row = Task {
        task_id: task.to_owned(),
        status: TaskStatus::New,
        command: command,
        elapsed_time_ms: 0,
        reshedule_count: 0,
        ignore_till: None,
        stdout: String::new(),
        stderr: String::new(),
    };
    let ghost before = handle@;
    handle.tasks.push(row);
    proof {
        assert(handle@ =~= spec_import(before, task@, command_template@));
    }
}

/// Puts one already-existing row back into the table, as read from a durable
/// mirror: a no-op if the identifier is empty or already present.
pub fn restore_task(handle: &mut ConnHandle, task: Task)
    requires
        old(handle).wf(),
    ensures
        final(handle).wf(),
        final(handle)@ == spec_restore(old(handle)@, task@),
{
    if task.task_id.as_str().is_empty() {
        return ;
    }
    if handle.find(task.task_id.as_str()).is_some() {
        return ;
    }
    let ghost before = handle@;
    handle.tasks.push(task);
    proof {
        assert(handle@ =~= spec_restore(before, task@));
    }
}

/// The table after restoring a full row: unchanged when the identifier is
/// empty or already present, else extended by exactly that row.
pub open spec fn spec_restore(s: Seq<TaskView>, t: TaskView) -> Seq<TaskView> {
    if t.task_id.len() == 0 || contains_task(s, t.task_id) {
        s
    } else {
        s.push(t)
    }
}

/// Point lookup: the stored string form of the task's status.
pub fn get_task_status(handle: &ConnHandle, task_id: &str) -> (r: Option<String>)
    requires
        handle.wf(),
    ensures
        r is Some <==> contains_task(handle@, task_id@),
        r is Some ==> r.unwrap()@ == task_with_id(handle@, task_id@).status.spec_str(),
{
    match handle.find(task_id) {
        Some(i) => {
            proof {
                lemma_task_idx(handle@, task_id@, i as int);
            }
            Some(handle.tasks[i].status.to_str().to_owned())
        },
        None => None,
    }
}

/// Point lookup: the command bound to the task.
pub fn get_task_command(handle: &ConnHandle, task_id: &str) -> (r: Option<String>)
    requires
        handle.wf(),
    ensures
        r is Some <==> contains_task(handle@, task_id@),
        r is Some ==> r.unwrap()@ == task_with_id(handle@, task_id@).command,
{
    match handle.find(task_id) {
        Some(i) => {
            proof {
                lemma_task_idx(handle@, task_id@, i as int);
            }
            Some(handle.tasks[i].command.clone())
        },
        None => None,
    }
}

/// Point lookup: how many times the task has been put back into cooldown.
pub fn get_task_reshedule_count(handle: &ConnHandle, task_id: &str) -> (r: Option<u32>)
    requires
        handle.wf(),
    ensures
        r is Some <==> contains_task(handle@, task_id@),
        r is Some ==> r.unwrap() == task_with_id(handle@, task_id@).reshedule_count,
{
    match handle.find(task_id) {
        Some(i) => {
            proof {
                lemma_task_idx(handle@, task_id@, i as int);
            }
            Some(handle.tasks[i].reshedule_count)
        },
        None => None,
    }
}

/// `t` with its status replaced and every other field kept.
pub open spec fn spec_with_status(t: TaskView, st: TaskStatus) -> TaskView {
    TaskView { status: st, ..t }
}

/// The table after an unconditional status write to `id`: that row's status
/// replaced, every other row untouched.
pub open spec fn spec_set_status(s: Seq<TaskView>, id: Seq<char>, st: TaskStatus) -> Seq<
    TaskView,
> {
    s.map_values(
        |t: TaskView|
            if t.task_id == id {
                spec_with_status(t, st)
            } else {
                t
            },
    )
}

/// A table whose rows keep their identifiers row by row stays well formed.
proof fn lemma_ids_preserved(s1: Seq<TaskView>, s2: Seq<TaskView>)
    requires
        wf_tasks(s1),
        s1.len() == s2.len(),
        forall|i: int| 0 <= i < s1.len() ==> s1[i].task_id == s2[i].task_id,
    ensures
        wf_tasks(s2),
{
    assert forall|i: int, j: int| 0 <= i < j < s2.len() implies s2[i].task_id
        != s2[j].task_id by {
        assert(s1[i].task_id != s1[j].task_id);
    }
}

/// Rows other than the one carrying `id` carry other identifiers.
proof fn lemma_other_ids(s: Seq<TaskView>, id: Seq<char>, i: int)
    requires
        unique_ids(s),
        0 <= i < s.len(),
        s[i].task_id == id,
    ensures
        forall|j: int| 0 <= j < s.len() && j != i ==> s[j].task_id != id,
{
    assert forall|j: int| 0 <= j < s.len() && j != i implies s[j].task_id != id by {
        if j < i {
            assert(s[j].task_id != s[i].task_id);
        } else {
            assert(s[i].task_id != s[j].task_id);
        }
    }
}

/// Unconditional status write: sets the status of the row carrying `task_id`
/// and reports how many rows changed (one when present, zero when absent).
pub fn set_task_status(handle: &mut ConnHandle, task_id: &str, status: TaskStatus) -> (r: usize)
    requires
        old(handle).wf(),
    ensures
        final(handle).wf(),
        final(handle)@ == spec_set_status(old(handle)@, task_id@, status),
        r == (if contains_task(old(handle)@, task_id@) {
            1usize
        } else {
            0usize
        }),
{
    let ghost before = handle@;
    match handle.find(task_id) {
        Some(i) => {
            handle.tasks[i].status = status;
            proof {
                lemma_other_ids(before, task_id@, i as int);
                assert(handle@ =~= spec_set_status(before, task_id@, status));
                lemma_ids_preserved(before, handle@);
            }
            1
        },
        None => {
            proof {
                assert(handle@ =~= spec_set_status(before, task_id@, status));
            }
            0
        },
    }
}

/// A reschedule count grows by one until it saturates at the largest
/// representable value; it never decreases.
pub open spec fn spec_inc_count(c: u32) -> u32 {
    if c < u32::MAX {
        (c + 1) as u32
    } else {
        c
    }
}

/// The moment until which a rescheduled task is held back: `seconds` past
/// `now`, saturating at the largest representable moment.
pub open spec fn spec_cooldown_till(now: u64, seconds: u32) -> u64 {
    if now + seconds <= u64::MAX {
        (now + seconds) as u64
    } else {
        u64::MAX
    }
}

/// `t` put back into cooldown at `now`: status `Resheduled`, one more
/// reschedule, held back for `seconds`.
pub open spec fn spec_rescheduled(t: TaskView, seconds: u32, now: u64) -> TaskView {
    TaskView {
        status: TaskStatus::Resheduled,
        reshedule_count: spec_inc_count(t.reshedule_count),
        ignore_till: Some(spec_cooldown_till(now, seconds)),
        ..t
    }
}

/// The table after rescheduling `id` at `now` with a cooldown of `seconds`.
pub open spec fn spec_reschedule(
    s: Seq<TaskView>,
    id: Seq<char>,
    seconds: u32,
    now: u64,
) -> Seq<TaskView> {
    s.map_values(
        |t: TaskView|
            if t.task_id == id {
                spec_rescheduled(t, seconds, now)
            } else {
                t
            },
    )
}

/// Puts the row carrying `task_id` back into cooldown: status `Resheduled`,
/// reschedule count one higher, not eligible again until `seconds` past
/// `now`. Reports how many rows changed.
pub fn reshedule_task(handle: &mut ConnHandle, task_id: &str, seconds: u32, now: u64) -> (r:
    usize)
    requires
        old(handle).wf(),
    ensures
        final(handle).wf(),
        final(handle)@ == spec_reschedule(old(handle)@, task_id@, seconds, now),
        r == (if contains_task(old(handle)@, task_id@) {
            1usize
        } else {
            0usize
        }),
{
    let ghost before = handle@;
    match handle.find(task_id) {
        Some(i) => {
            let c = handle.tasks[i].reshedule_count;
            let new_count = if c < u32::MAX {
                c + 1
            } else {
                c
            };
            let till = if now <= u64::MAX - (seconds as u64) {
                now + (seconds as u64)
            } else {
                u64::MAX
            };
            handle.tasks[i].status = TaskStatus::Resheduled;
            handle.tasks[i].reshedule_count = new_count;
            handle.tasks[i].ignore_till = Some(till);
            proof {
                lemma_other_ids(before, task_id@, i as int);
                assert(handle@ =~= spec_reschedule(before, task_id@, seconds, now));
                lemma_ids_preserved(before, handle@);
            }
            1
        },
        None => {
            proof {
                assert(handle@ =~= spec_reschedule(before, task_id@, seconds, now));
            }
            0
        },
    }
}

/// `t` after its terminal attempt `r`: `Completed` on success, `Error` on
/// failure, with the executed command and the captured output persisted.
pub open spec fn spec_apply_result(t: TaskView, r: ExecCommandResultView) -> TaskView {
    TaskView {
        status: if r.success {
            TaskStatus::Completed
        } else {
            TaskStatus::Error
        },
        command: r.command,
        elapsed_time_ms: r.elapsed_time_ms,
        stdout: r.stdout,
        stderr: r.stderr,
        ..t
    }
}

/// The table after recording the terminal attempt `r` on the row it names.
pub open spec fn spec_update_from_result(s: Seq<TaskView>, r: ExecCommandResultView) -> Seq<
    TaskView,
> {
    s.map_values(
        |t: TaskView|
            if t.task_id == r.task_id {
                spec_apply_result(t, r)
            } else {
                t
            },
    )
}

/// Terminal write: records a finished attempt on the row it names, moving it
/// to `Completed` or `Error`. Reports how many rows changed.
pub fn update_task_from_result(handle: &mut ConnHandle, result: &ExecCommandResult) -> (r: usize)
    requires
        old(handle).wf(),
    ensures
        final(handle).wf(),
        final(handle)@ == spec_update_from_result(old(handle)@, result@),
        r == (if contains_task(old(handle)@, result@.task_id) {
            1usize
        } else {
            0usize
        }),
{
    let ghost before = handle@;
    match handle.find(result.task_id.as_str()) {
        Some(i) => {
            handle.tasks[i].status = if result.success {
                TaskStatus::Completed
            } else {
                TaskStatus::Error
            };
            handle.tasks[i].command = result.command.clone();
            handle.tasks[i].elapsed_time_ms = result.elapsed_time_ms;
            handle.tasks[i].stdout = result.stdout.clone();
            handle.tasks[i].stderr = result.stderr.clone();
            proof {
                lemma_other_ids(before, result@.task_id, i as int);
                assert(handle@ =~= spec_update_from_result(before, result@));
                lemma_ids_preserved(before, handle@);
            }
            1
        },
        None => {
            proof {
                assert(handle@ =~= spec_update_from_result(before, result@));
            }
            0
        },
    }
}

/// How many rows stand at status `st`.
pub open spec fn count_status(s: Seq<TaskView>, st: TaskStatus) -> nat
    decreases s.len(),
{
    if s.len() == 0 {
        0nat
    } else {
        count_status(s.drop_last(), st) + (if s.last().status == st {
            1nat
        } else {
            0nat
        })
    }
}

/// How many rows have not reached a terminal status.
///
/// `Aborted` deliberately counts as incomplete: a run restarted against the
/// same store surfaces aborted work again instead of treating it as settled.
pub open spec fn count_incomplete(s: Seq<TaskView>) -> nat
    decreases s.len(),
{
    if s.len() == 0 {
        0nat
    } else {
        count_incomplete(s.drop_last()) + (if s.last().status.spec_is_terminal() {
            0nat
        } else {
            1nat
        })
    }
}

pub proof fn lemma_count_status_push(s: Seq<TaskView>, t: TaskView, st: TaskStatus)
    ensures
        count_status(s.push(t), st) == count_status(s, st) + (if t.status == st {
            1nat
        } else {
            0nat
        }),
{
    assert(s.push(t).drop_last() =~= s);
}

pub proof fn lemma_count_incomplete_push(s: Seq<TaskView>, t: TaskView)
    ensures
        count_incomplete(s.push(t)) == count_incomplete(s) + (if t.status.spec_is_terminal() {
            0nat
        } else {
            1nat
        }),
{
    assert(s.push(t).drop_last() =~= s);
}

pub proof fn lemma_count_status_le_len(s: Seq<TaskView>, st: TaskStatus)
    ensures
        count_status(s, st) <= s.len(),
    decreases s.len(),
{
    if s.len() > 0 {
        lemma_count_status_le_len(s.drop_last(), st);
    }
}

/// The table after a bulk transition: every row at `from` moved to `to`,
/// every other row untouched.
pub open spec fn spec_mark(s: Seq<TaskView>, from: TaskStatus, to: TaskStatus) -> Seq<TaskView> {
    s.map_values(
        |t: TaskView|
            if t.status == from {
                spec_with_status(t, to)
            } else {
                t
            },
    )
}

/// Moves every row at `from` to `to`, reporting how many rows changed.
fn mark_status(handle: &mut ConnHandle, from: TaskStatus, to: TaskStatus) -> (r: usize)
    requires
        old(handle).wf(),
    ensures
        final(handle).wf(),
        final(handle)@ == spec_mark(old(handle)@, from, to),
        r == count_status(old(handle)@, from),
{
    let ghost before = handle@;
    let n = handle.tasks.len();
    let mut count: usize = 0;
    let mut i: usize = 0;
    proof {
        assert(before.subrange(0, 0) =~= Seq::<TaskView>::empty());
    }
    while i < n
        invariant
            old(handle).wf(),
            before == old(handle)@,
            n == handle.tasks.len(),
            handle@.len() == n,
            before.len() == n,
            i <= n,
            count <= i,
            count == count_status(before.subrange(0, i as int), from),
            forall|j: int|
                0 <= j < i ==> handle@[j] == (if before[j].status == from {
                    spec_with_status(before[j], to)
                } else {
                    before[j]
                }),
            forall|j: int| i <= j < n ==> handle@[j] == before[j],
        decreases n - i,
    {
        proof {
            assert(before.subrange(0, i as int + 1) =~= before.subrange(0, i as int).push(
                before[i as int],
            ));
            lemma_count_status_push(before.subrange(0, i as int), before[i as int], from);
        }
        let ghost mid = handle@;
        if handle.tasks[i].status == from {
            handle.tasks[i].status = to;
            count = count + 1;
        }
        i = i + 1;
        proof {
            assert forall|j: int| 0 <= j < i implies handle@[j] == (if before[j].status == from {
                spec_with_status(before[j], to)
            } else {
                before[j]
            }) by {
                if j == i - 1 {
                    assert(mid[j] == before[j]);
                } else {
                    assert(handle@[j] == mid[j]);
                }
            }
        }
    }
    proof {
        assert(before.subrange(0, n as int) =~= before);
        assert(handle@ =~= spec_mark(before, from, to));
        lemma_ids_preserved(before, handle@);
    }
    count
}

/// Bulk recovery of interrupted work: every `Processing` row becomes
/// `Aborted`. Reports how many rows changed.
pub fn mark_pending_tasks_as_aborted(handle: &mut ConnHandle) -> (r: usize)
    requires
        old(handle).wf(),
    ensures
        final(handle).wf(),
        final(handle)@ == spec_mark(old(handle)@, TaskStatus::Processing, TaskStatus::Aborted),
        r == count_status(old(handle)@, TaskStatus::Processing),
{
    mark_status(handle, TaskStatus::Processing, TaskStatus::Aborted)
}

/// Startup repair: every row orphaned in `Scheduled` by a prior crash becomes
/// `New` again. Reports how many rows changed.
pub fn mark_scheduled_tasks_as_new(handle: &mut ConnHandle) -> (r: usize)
    requires
        old(handle).wf(),
    ensures
        final(handle).wf(),
        final(handle)@ == spec_mark(old(handle)@, TaskStatus::Scheduled, TaskStatus::New),
        r == count_status(old(handle)@, TaskStatus::Scheduled),
{
    mark_status(handle, TaskStatus::Scheduled, TaskStatus::New)
}

/// Counts the rows that have not reached a terminal status.
pub fn get_number_of_incomplete_tasks(handle: &ConnHandle) -> (r: usize)
    ensures
        r == count_incomplete(handle@),
{
    let ghost s = handle@;
    let n = handle.tasks.len();
    let mut count: usize = 0;
    let mut i: usize = 0;
    proof {
        assert(s.subrange(0, 0) =~= Seq::<TaskView>::empty());
    }
    while i < n
        invariant
            s == handle@,
            n == handle.tasks.len(),
            s.len() == n,
            i <= n,
            count <= i,
            count == count_incomplete(s.subrange(0, i as int)),
        decreases n - i,
    {
        proof {
            assert(s.subrange(0, i as int + 1) =~= s.subrange(0, i as int).push(s[i as int]));
            lemma_count_incomplete_push(s.subrange(0, i as int), s[i as int]);
        }
        if !handle.tasks[i].status.is_terminal() {
            count = count + 1;
        }
        i = i + 1;
    }
    proof {
        assert(s.subrange(0, n as int) =~= s);
    }
    count
}

/// Per-status task counts, plus the total number of rows, as one snapshot.
#[derive(Clone, Copy, PartialEq, Eq, Structural, Debug)]
pub struct TaskStatsResult {
    pub new: u64,
    pub scheduled: u64,
    pub rescheduled: u64,
    pub processing: u64,
    pub completed: u64,
    pub error: u64,
    pub aborted: u64,
    pub total: u64,
}

impl TaskStatsResult {
    /// The snapshot of an empty store: every count zero.
    pub open spec fn spec_zero() -> TaskStatsResult {
        TaskStatsResult {
            new: 0,
            scheduled: 0,
            rescheduled: 0,
            processing: 0,
            completed: 0,
            error: 0,
            aborted: 0,
            total: 0,
        }
    }
}

impl Default for TaskStatsResult {
    fn default() -> (r: Self)
        ensures
            r == TaskStatsResult::spec_zero(),
    {
        TaskStatsResult {
            new: 0,
            scheduled: 0,
            rescheduled: 0,
            processing: 0,
            completed: 0,
            error: 0,
            aborted: 0,
            total: 0,
        }
    }
}

/// The snapshot that a table yields: one count per status, total the number
/// of rows.
pub open spec fn spec_stats(s: Seq<TaskView>) -> TaskStatsResult {
    TaskStatsResult {
        new: count_status(s, TaskStatus::New) as u64,
        scheduled: count_status(s, TaskStatus::Scheduled) as u64,
        rescheduled: count_status(s, TaskStatus::Resheduled) as u64,
        processing: count_status(s, TaskStatus::Processing) as u64,
        completed: count_status(s, TaskStatus::Completed) as u64,
        error: count_status(s, TaskStatus::Error) as u64,
        aborted: count_status(s, TaskStatus::Aborted) as u64,
        total: s.len() as u64,
    }
}

/// Aggregates the table into per-status counts for dashboards and
/// machine-readable output.
pub fn get_stats_struct(handle: &ConnHandle) -> (r: TaskStatsResult)
    ensures
        r == spec_stats(handle@),
{
    let ghost s = handle@;
    let n = handle.tasks.len();
    let mut r: TaskStatsResult = Default::default();
    let mut i: usize = 0;
    proof {
        assert(s.subrange(0, 0) =~= Seq::<TaskView>::empty());
    }
    while i < n
        invariant
            s == handle@,
            n == handle.tasks.len(),
            s.len() == n,
            n <= u64::MAX,
            i <= n,
            r == spec_stats(s.subrange(0, i as int)),
        decreases n - i,
    {
        let ghost prefix = s.subrange(0, i as int);
        proof {
            assert(s.subrange(0, i as int + 1) =~= prefix.push(s[i as int]));
            lemma_count_status_push(prefix, s[i as int], TaskStatus::New);
            lemma_count_status_push(prefix, s[i as int], TaskStatus::Scheduled);
            lemma_count_status_push(prefix, s[i as int], TaskStatus::Resheduled);
            lemma_count_status_push(prefix, s[i as int], TaskStatus::Processing);
            lemma_count_status_push(prefix, s[i as int], TaskStatus::Completed);
            lemma_count_status_push(prefix, s[i as int], TaskStatus::Error);
            lemma_count_status_push(prefix, s[i as int], TaskStatus::Aborted);
            lemma_count_status_le_len(prefix, TaskStatus::New);
            lemma_count_status_le_len(prefix, TaskStatus::Scheduled);
            lemma_count_status_le_len(prefix, TaskStatus::Resheduled);
            lemma_count_status_le_len(prefix, TaskStatus::Processing);
            lemma_count_status_le_len(prefix, TaskStatus::Completed);
            lemma_count_status_le_len(prefix, TaskStatus::Error);
            lemma_count_status_le_len(prefix, TaskStatus::Aborted);
        }
        match handle.tasks[i].status {
            TaskStatus::New => {
                r.new = r.new + 1;
            },
            TaskStatus::Scheduled => {
                r.scheduled = r.scheduled + 1;
            },
            TaskStatus::Resheduled => {
                r.rescheduled = r.rescheduled + 1;
            },
            TaskStatus::Processing => {
                r.processing = r.processing + 1;
            },
            TaskStatus::Completed => {
                r.completed = r.completed + 1;
            },
            TaskStatus::Error => {
                r.error = r.error + 1;
            },
            TaskStatus::Aborted => {
                r.aborted = r.aborted + 1;
            },
        }
        r.total = r.total + 1;
        i = i + 1;
    }
    proof {
        assert(s.subrange(0, n as int) =~= s);
    }
    r
}

/// Whether the scheduler may dispatch `t` at time `now` under `max_tries`:
/// every `New` task, and a `Resheduled` task whose reschedule count has not
/// passed `max_tries` once the clock has passed its cooldown.
pub open spec fn spec_eligible(t: TaskView, max_tries: u32, now: u64) -> bool {
    ||| t.status == TaskStatus::New
    ||| {
        &&& t.status == TaskStatus::Resheduled
        &&& t.reshedule_count <= max_tries
        &&& match t.ignore_till {
            Some(till) => now > till,
            None => false,
        }
    }
}

/// Decides eligibility of one row.
fn eligible(task: &Task, max_tries: u32, now: u64) -> (r: bool)
    ensures
        r == spec_eligible(task@, max_tries, now),
{
    match task.status {
        TaskStatus::New => true,
        TaskStatus::Resheduled => task.reshedule_count <= max_tries && match task.ignore_till {
            Some(till) => now > till,
            None => false,
        },
        _ => false,
    }
}

/// Hands the scheduler the first task eligible for dispatch at `now`, or
/// nothing when no task is eligible; safe to call repeatedly in a poll loop.
pub fn get_next_task(handle: &ConnHandle, max_tries: u32, now: u64) -> (r: Option<String>)
    ensures
        match r {
            None => forall|i: int|
                0 <= i < handle@.len() ==> !spec_eligible(handle@[i], max_tries, now),
            Some(id) => exists|i: int|
                {
                    &&& 0 <= i < handle@.len()
                    &&& #[trigger] handle@[i].task_id == id@
                    &&& spec_eligible(handle@[i], max_tries, now)
                    &&& forall|j: int| 0 <= j < i ==> !spec_eligible(handle@[j], max_tries, now)
                },
        },
{
    let n = handle.tasks.len();
    let mut i: usize = 0;
    while i < n
        invariant
            n == handle.tasks.len(),
            handle@.len() == n,
            i <= n,
            forall|j: int| 0 <= j < i ==> !spec_eligible(handle@[j], max_tries, now),
        decreases n - i,
    {
        if eligible(&handle.tasks[i], max_tries, now) {
            let id = handle.tasks[i].task_id.clone();
            proof {
                assert(handle@[i as int].task_id == id@ && spec_eligible(
                    handle@[i as int],
                    max_tries,
                    now,
                ));
            }
            return Some(id);
        }
        i = i + 1;
    }
    None
}

/// The table after the administrative bulk override: every row whose
/// identifier is listed moved to `st`, every other row untouched.
pub open spec fn spec_set_many(s: Seq<TaskView>, ids: Seq<Seq<char>>, st: TaskStatus) -> Seq<
    TaskView,
> {
    s.map_values(
        |t: TaskView|
            if ids.contains(t.task_id) {
                spec_with_status(t, st)
            } else {
                t
            },
    )
}

/// Administrative escape hatch: sets every listed task's status directly,
/// bypassing the state machine; identifiers that are absent change nothing.
pub fn set_tasks_status(handle: &mut ConnHandle, tasks: &Vec<String>, status: TaskStatus)
    requires
        old(handle).wf(),
    ensures
        final(handle).wf(),
        final(handle)@ == spec_set_many(old(handle)@, tasks.deep_view(), status),
{
    let ghost before = handle@;
    let ghost ids = tasks.deep_view();
    let m = tasks.len();
    let mut k: usize = 0;
    while k < m
        invariant
            old(handle).wf(),
            before == old(handle)@,
            ids == tasks.deep_view(),
            m == tasks.len(),
            ids.len() == m,
            k <= m,
            handle.wf(),
            handle@.len() == before.len(),
            forall|i: int|
                0 <= i < before.len() ==> handle@[i] == (if ids.subrange(0, k as int).contains(
                    before[i].task_id,
                ) {
                    spec_with_status(before[i], status)
                } else {
                    before[i]
                }),
        decreases m - k,
    {
        let ghost mid = handle@;
        set_task_status(handle, tasks[k].as_str(), status);
        k = k + 1;
        proof {
            assert(ids[k - 1] == tasks@[k - 1]@);
            assert forall|i: int| 0 <= i < before.len() implies handle@[i] == (if ids.subrange(
                0,
                k as int,
            ).contains(before[i].task_id) {
                spec_with_status(before[i], status)
            } else {
                before[i]
            }) by {
                let prev = ids.subrange(0, k - 1);
                let cur = ids.subrange(0, k as int);
                assert(cur =~= prev.push(ids[k - 1]));
                assert(handle@[i] == (if mid[i].task_id == ids[k - 1] {
                    spec_with_status(mid[i], status)
                } else {
                    mid[i]
                }));
                if cur.contains(before[i].task_id) {
                    if prev.contains(before[i].task_id) {
                        assert(mid[i] == spec_with_status(before[i], status));
                    } else {
                        assert(cur.last() == before[i].task_id);
                    }
                } else {
                    assert(!prev.contains(before[i].task_id));
                    assert(mid[i] == before[i]);
                    assert(cur[k - 1] == ids[k - 1]);
                    assert(before[i].task_id != ids[k - 1]);
                }
            }
        }
    }
    proof {
        assert(ids.subrange(0, m as int) =~= ids);
        assert(handle@ =~= spec_set_many(before, ids, status));
    }
}

/// A reschedule count never decreases: no store mutation lowers any row's
/// count — the unconditional and bulk status writes, the terminal result
/// write and the bulk transitions keep it, and a reschedule only raises it.
pub proof fn lemma_reschedule_count_never_decreases(
    s: Seq<TaskView>,
    id: Seq<char>,
    st: TaskStatus,
    seconds: u32,
    now: u64,
    r: ExecCommandResultView,
    ids: Seq<Seq<char>>,
    from: TaskStatus,
    to: TaskStatus,
)
    ensures
        forall|i: int|
            0 <= i < s.len() ==> #[trigger] spec_set_status(s, id, st)[i].reshedule_count
                == s[i].reshedule_count,
        forall|i: int|
            0 <= i < s.len() ==> #[trigger] spec_reschedule(s, id, seconds, now)[i].reshedule_count
                >= s[i].reshedule_count,
        forall|i: int|
            0 <= i < s.len() ==> #[trigger] spec_update_from_result(s, r)[i].reshedule_count
                == s[i].reshedule_count,
        forall|i: int|
            0 <= i < s.len() ==> #[trigger] spec_mark(s, from, to)[i].reshedule_count
                == s[i].reshedule_count,
        forall|i: int|
            0 <= i < s.len() ==> #[trigger] spec_set_many(s, ids, st)[i].reshedule_count
                == s[i].reshedule_count,
{
}

/// Import is idempotent: importing an identifier a second time changes
/// nothing, whatever template the second import carries. When the first
/// import actually inserted, the row it created carries the command built
/// from the first template, and the table stays well formed.
pub proof fn lemma_import_idempotent(
    s: Seq<TaskView>,
    id: Seq<char>,
    t1: Seq<char>,
    t2: Seq<char>,
)
    requires
        wf_tasks(s),
    ensures
        spec_import(spec_import(s, id, t1), id, t2) == spec_import(s, id, t1),
        wf_tasks(spec_import(s, id, t1)),
        id.len() > 0 && !contains_task(s, id) ==> contains_task(spec_import(s, id, t1), id)
            && task_with_id(spec_import(s, id, t1), id).command == crate::text::spec_substitute(
            t1,
            id,
        ),
{
    let s1 = spec_import(s, id, t1);
    if id.len() > 0 && !contains_task(s, id) {
        let n = s.len() as int;
        assert(s1[n].task_id == id);
        assert(contains_task(s1, id));
        assert forall|i: int, j: int| 0 <= i < j < s1.len() implies s1[i].task_id
            != s1[j].task_id by {
            if j < n {
                assert(s[i].task_id != s[j].task_id);
            } else {
                assert(!(0 <= i < s.len() && s[i].task_id == id));
            }
        }
        lemma_task_idx(s1, id, n);
    }
}

/// Cooldown gates eligibility: a rescheduled task whose `ignore_till` lies in
/// the future is not eligible, so the scheduler never returns it; once the
/// clock passes `ignore_till`, it is eligible again provided its reschedule
/// count has not passed `max_tries`.
pub proof fn lemma_cooldown_gate(t: TaskView, max_tries: u32, now: u64, till: u64)
    requires
        t.status == TaskStatus::Resheduled,
        t.ignore_till == Some(till),
    ensures
        now <= till ==> !spec_eligible(t, max_tries, now),
        now > till && t.reshedule_count <= max_tries ==> spec_eligible(t, max_tries, now),
{
}

/// Startup repair: after moving every `Scheduled` row to `New`, no row stands
/// at `Scheduled`; the rows that stood there are `New` and every other row is
/// untouched.
pub proof fn lemma_mark_scheduled_as_new(s: Seq<TaskView>)
    ensures
        spec_mark(s, TaskStatus::Scheduled, TaskStatus::New).len() == s.len(),
        forall|i: int|
            0 <= i < s.len() ==> spec_mark(s, TaskStatus::Scheduled, TaskStatus::New)[i].status
                != TaskStatus::Scheduled,
        forall|i: int|
            0 <= i < s.len() && s[i].status == TaskStatus::Scheduled ==> spec_mark(
                s,
                TaskStatus::Scheduled,
                TaskStatus::New,
            )[i] == spec_with_status(s[i], TaskStatus::New),
        forall|i: int|
            0 <= i < s.len() && s[i].status != TaskStatus::Scheduled ==> spec_mark(
                s,
                TaskStatus::Scheduled,
                TaskStatus::New,
            )[i] == s[i],
{
}

/// Interrupt handling: after moving every `Processing` row to `Aborted`, no
/// row stands at `Processing`; the rows that stood there are `Aborted` and
/// every other row is untouched.
pub proof fn lemma_mark_processing_as_aborted(s: Seq<TaskView>)
    ensures
        spec_mark(s, TaskStatus::Processing, TaskStatus::Aborted).len() == s.len(),
        forall|i: int|
            0 <= i < s.len() ==> spec_mark(s, TaskStatus::Processing, TaskStatus::Aborted)[i].status
                != TaskStatus::Processing,
        forall|i: int|
            0 <= i < s.len() && s[i].status == TaskStatus::Processing ==> spec_mark(
                s,
                TaskStatus::Processing,
                TaskStatus::Aborted,
            )[i] == spec_with_status(s[i], TaskStatus::Aborted),
        forall|i: int|
            0 <= i < s.len() && s[i].status != TaskStatus::Processing ==> spec_mark(
                s,
                TaskStatus::Processing,
                TaskStatus::Aborted,
            )[i] == s[i],
{
}

/// The incomplete count reaches exactly zero if and only if every task in the
/// table has reached a terminal status.
pub proof fn lemma_count_incomplete_zero(s: Seq<TaskView>)
    ensures
        (count_incomplete(s) == 0) <==> (forall|i: int|
            0 <= i < s.len() ==> s[i].status.spec_is_terminal()),
    decreases s.len(),
{
    if s.len() > 0 {
        let d = s.drop_last();
        lemma_count_incomplete_zero(d);
        assert(forall|i: int| 0 <= i < d.len() ==> d[i] == s[i]);
        assert(s.last() == s[s.len() - 1]);
        if forall|i: int| 0 <= i < s.len() ==> s[i].status.spec_is_terminal() {
            assert forall|i: int| 0 <= i < d.len() implies d[i].status.spec_is_terminal() by {
                assert(s[i].status.spec_is_terminal());
            }
            assert(count_incomplete(d) == 0);
            assert(s[s.len() - 1].status.spec_is_terminal());
        } else {
            let i = choose|i: int| 0 <= i < s.len() && !s[i].status.spec_is_terminal();
            if i < s.len() - 1 {
                assert(!d[i].status.spec_is_terminal());
                assert(count_incomplete(d) != 0);
            }
            assert(count_incomplete(s) != 0);
        }
    }
}

/// Bulk override: every listed task's status becomes the target, regardless
/// of what it was; every task not listed is untouched. A stats snapshot taken
/// afterwards reflects the change at once, because `get_stats_struct` is a
/// function of the table alone.
pub proof fn lemma_bulk_override(s: Seq<TaskView>, ids: Seq<Seq<char>>, st: TaskStatus)
    ensures
        spec_set_many(s, ids, st).len() == s.len(),
        forall|i: int|
            0 <= i < s.len() && ids.contains(s[i].task_id) ==> spec_set_many(s, ids, st)[i].status
                == st,
        forall|i: int|
            0 <= i < s.len() && !ids.contains(s[i].task_id) ==> spec_set_many(s, ids, st)[i]
                == s[i],
{
}

/// The string and enum forms of a status name each other, both ways: the
/// stored form of every status parses back to that status and to no other.
pub proof fn lemma_status_str_roundtrip(st: TaskStatus)
    ensures
        spec_parse_status(st.spec_str()) == Some(st),
{
    broadcast use vstd::string::group_string_axioms;

    reveal_strlit("new");
    reveal_strlit("scheduled");
    reveal_strlit("rescheduled");
    reveal_strlit("processing");
    reveal_strlit("completed");
    reveal_strlit("error");
    reveal_strlit("aborted");
    assert("scheduled"@[0] != "completed"@[0]);
    assert("new"@.len() == 3 && "scheduled"@.len() == 9 && "rescheduled"@.len() == 11
        && "processing"@.len() == 10 && "completed"@.len() == 9 && "error"@.len() == 5
        && "aborted"@.len() == 7);
}

} // verus!
