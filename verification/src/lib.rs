//! Core of a local batch job runner: a task table with a durable-style status
//! state machine, the scheduling and retry decisions made over it, and the
//! aggregate counters shown while a run is in progress.
//!
//! The store of record is the verified [`storage::ConnHandle`]; callers that
//! keep a durable mirror (a database file) replay each mutation there and
//! rebuild the table from it at startup.

use vstd::prelude::*;

pub mod storage;
pub mod terminal;
pub mod text;

use crate::storage::TaskStatus;

verus! {

/// Outcome of one completed execution attempt of a task's shell command.
///
/// `success` holds whether the process exited with status zero; the command
/// string is echoed back exactly as executed so the store can persist it.
#[derive(Debug)]
pub struct ExecCommandResult {
    pub task_id: String,
    pub success: bool,
    pub command: String,
    pub stdout: String,
    pub stderr: String,
    pub elapsed_time_ms: u128,
}

/// Mathematical value of an [`ExecCommandResult`].
pub ghost struct ExecCommandResultView {
    pub task_id: Seq<char>,
    pub success: bool,
    pub command: Seq<char>,
    pub stdout: Seq<char>,
    pub stderr: Seq<char>,
    pub elapsed_time_ms: u128,
}

impl View for ExecCommandResult {
    type V = ExecCommandResultView;

    open spec fn view(&self) -> ExecCommandResultView {
        ExecCommandResultView {
            task_id: self.task_id@,
            success: self.success,
            command: self.command@,
            stdout: self.stdout@,
            stderr: self.stderr@,
            elapsed_time_ms: self.elapsed_time_ms,
        }
    }
}

/// The table after the coordinator applies one worker-reported result `r`
/// under the retry policy: a failing attempt with retries enabled and budget
/// left puts the task back into cooldown; every other outcome is recorded as
/// terminal (`Completed` on success, `Error` on failure).
pub open spec fn spec_handle_result(
    s: Seq<storage::TaskView>,
    r: ExecCommandResultView,
    retries: u32,
    seconds: u32,
    now: u64,
) -> Seq<storage::TaskView> {
    s.map_values(
        |t: storage::TaskView|
            if t.task_id == r.task_id {
                if !r.success && retries > 0 && t.reshedule_count < retries {
                    storage::spec_rescheduled(t, seconds, now)
                } else {
                    storage::spec_apply_result(t, r)
                }
            } else {
                t
            },
    )
}

/// Coordinator step: applies one result message to the store.
///
/// A run that succeeded, or failed with retries disabled (`retries == 0`), is
/// recorded as terminal. A failure with retries enabled reads the task's
/// reschedule count: under `retries` it is put back into cooldown for
/// `retry_delay` seconds past `now`, otherwise the budget is exhausted and
/// the failure is recorded as terminal `Error`.
pub fn handle_command_result(
    handle: &mut storage::ConnHandle,
    result: &ExecCommandResult,
    retries: u32,
    retry_delay: u32,
    now: u64,
)
    requires
        old(handle).wf(),
        storage::contains_task(old(handle)@, result@.task_id),
    ensures
        final(handle).wf(),
        final(handle)@ == spec_handle_result(old(handle)@, result@, retries, retry_delay, now),
{
    let ghost before = handle@;
    if !result.success && retries > 0 {
        let count = storage::get_task_reshedule_count(handle, result.task_id.as_str());
        let c = count.unwrap();
        if c < retries {
            storage::reshedule_task(handle, result.task_id.as_str(), retry_delay, now);
        } else {
            storage::update_task_from_result(handle, result);
        }
        proof {
            assert forall|i: int| 0 <= i < before.len() implies handle@[i] == spec_handle_result(
                before,
                result@,
                retries,
                retry_delay,
                now,
            )[i] by {
                if before[i].task_id == result@.task_id {
                    storage::lemma_task_idx(before, result@.task_id, i);
                }
            }
            assert(handle@ =~= spec_handle_result(before, result@, retries, retry_delay, now));
        }
    } else {
        storage::update_task_from_result(handle, result);
        proof {
            assert(handle@ =~= spec_handle_result(before, result@, retries, retry_delay, now));
        }
    }
}

/// One step of the scheduler's drain: picks the first task eligible for
/// dispatch at `now`, marks it `Scheduled`, and hands back its identifier and
/// command; `None` ends the pass, with the store untouched and no task
/// eligible.
pub fn claim_next_task(handle: &mut storage::ConnHandle, max_tries: u32, now: u64) -> (r: Option<
    (String, String),
>)
    requires
        old(handle).wf(),
    ensures
        final(handle).wf(),
        match r {
            None => {
                &&& final(handle)@ == old(handle)@
                &&& forall|i: int|
                    0 <= i < old(handle)@.len() ==> !storage::spec_eligible(
                        old(handle)@[i],
                        max_tries,
                        now,
                    )
            },
            Some(pair) => {
                &&& storage::contains_task(old(handle)@, pair.0@)
                &&& storage::spec_eligible(
                    storage::task_with_id(old(handle)@, pair.0@),
                    max_tries,
                    now,
                )
                &&& pair.1@ == storage::task_with_id(old(handle)@, pair.0@).command
                &&& final(handle)@ == storage::spec_set_status(
                    old(handle)@,
                    pair.0@,
                    TaskStatus::Scheduled,
                )
            },
        },
{
    match storage::get_next_task(handle, max_tries, now) {
        None => None,
        Some(id) => {
            proof {
                let i = choose|i: int|
                    {
                        &&& 0 <= i < handle@.len()
                        &&& #[trigger] handle@[i].task_id == id@
                        &&& storage::spec_eligible(handle@[i], max_tries, now)
                        &&& forall|j: int|
                            0 <= j < i ==> !storage::spec_eligible(handle@[j], max_tries, now)
                    };
                storage::lemma_task_idx(handle@, id@, i);
            }
            let cmd = storage::get_task_command(handle, id.as_str()).unwrap();
            storage::set_task_status(handle, id.as_str(), TaskStatus::Scheduled);
            Some((id, cmd))
        },
    }
}

/// What one failing or succeeding attempt does to the task it names,
/// independent of where the task stands in the table: back into cooldown
/// while the reschedule count is under the budget on a failure with retries
/// enabled, terminal otherwise.
pub open spec fn spec_fail_step(
    t: storage::TaskView,
    r: ExecCommandResultView,
    retries: u32,
    seconds: u32,
    now: u64,
) -> storage::TaskView {
    if !r.success && retries > 0 && t.reshedule_count < retries {
        storage::spec_rescheduled(t, seconds, now)
    } else {
        storage::spec_apply_result(t, r)
    }
}

/// The task after `j` consecutive applications of the same attempt outcome.
pub open spec fn spec_fail_steps(
    t: storage::TaskView,
    j: nat,
    r: ExecCommandResultView,
    retries: u32,
    seconds: u32,
    now: u64,
) -> storage::TaskView
    decreases j,
{
    if j == 0 {
        t
    } else {
        spec_fail_step(spec_fail_steps(t, (j - 1) as nat, r, retries, seconds, now), r, retries, seconds, now)
    }
}

/// Retry policy over a failing task: while the reschedule count is under the
/// budget `retries`, the failing attempt puts the task back into cooldown
/// with the count exactly one higher; the failing attempt that finds the
/// count at (or past) the budget finalizes the task as `Error`, leaving the
/// count unchanged.
pub proof fn lemma_retry_policy(
    s: Seq<storage::TaskView>,
    r: ExecCommandResultView,
    retries: u32,
    seconds: u32,
    now: u64,
    i: int,
)
    requires
        0 <= i < s.len(),
        s[i].task_id == r.task_id,
        !r.success,
        retries > 0,
    ensures
        s[i].reshedule_count < retries ==> {
            &&& spec_handle_result(s, r, retries, seconds, now)[i] == storage::spec_rescheduled(
                s[i],
                seconds,
                now,
            )
            &&& spec_handle_result(s, r, retries, seconds, now)[i].status
                == TaskStatus::Resheduled
            &&& spec_handle_result(s, r, retries, seconds, now)[i].reshedule_count == s[i].reshedule_count
                + 1
        },
        s[i].reshedule_count >= retries ==> {
            &&& spec_handle_result(s, r, retries, seconds, now)[i] == storage::spec_apply_result(
                s[i],
                r,
            )
            &&& spec_handle_result(s, r, retries, seconds, now)[i].status == TaskStatus::Error
            &&& spec_handle_result(s, r, retries, seconds, now)[i].reshedule_count == s[i].reshedule_count
        },
        spec_handle_result(s, r, retries, seconds, now)[i] == spec_fail_step(
            s[i],
            r,
            retries,
            seconds,
            now,
        ),
{
}

/// Applying a result never lowers the named task's reschedule count either:
/// a reschedule raises it and a terminal write keeps it.
pub proof fn lemma_handle_result_count_monotonic(
    s: Seq<storage::TaskView>,
    r: ExecCommandResultView,
    retries: u32,
    seconds: u32,
    now: u64,
)
    ensures
        forall|i: int|
            0 <= i < s.len() ==> #[trigger] spec_handle_result(
                s,
                r,
                retries,
                seconds,
                now,
            )[i].reshedule_count >= s[i].reshedule_count,
{
}

/// A task imported fresh (reschedule count zero) whose command fails on every
/// attempt under a retry budget of `k > 0` is rescheduled exactly `k` times —
/// the `j`-th failing attempt, for `j` from one through `k`, leaves it
/// `Resheduled` with its count at exactly `j` — and the next failing attempt
/// finalizes it as `Error` with its count still at exactly `k`.
pub proof fn lemma_retry_exhaustion(
    t: storage::TaskView,
    r: ExecCommandResultView,
    k: u32,
    seconds: u32,
    now: u64,
    j: nat,
)
    requires
        t.reshedule_count == 0,
        !r.success,
        k > 0,
        1 <= j <= k + 1,
    ensures
        j <= k ==> spec_fail_steps(t, j, r, k, seconds, now).status == TaskStatus::Resheduled
            && spec_fail_steps(t, j, r, k, seconds, now).reshedule_count == j,
        j == k + 1 ==> spec_fail_steps(t, j, r, k, seconds, now).status == TaskStatus::Error
            && spec_fail_steps(t, j, r, k, seconds, now).reshedule_count == k,
    decreases j,
{
    assert(spec_fail_steps(t, j, r, k, seconds, now) == spec_fail_step(
        spec_fail_steps(t, (j - 1) as nat, r, k, seconds, now),
        r,
        k,
        seconds,
        now,
    ));
    if j == 1 {
        assert(spec_fail_steps(t, 0, r, k, seconds, now) == t);
    } else {
        lemma_retry_exhaustion(t, r, k, seconds, now, (j - 1) as nat);
    }
}

} // verus!
