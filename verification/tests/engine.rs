use workman::storage::{
    get_next_task, get_number_of_incomplete_tasks, get_stats_struct, get_task_reshedule_count,
    get_task_status, import_task, mark_pending_tasks_as_aborted, mark_scheduled_tasks_as_new,
    set_task_status, ConnHandle, TaskStatus,
};
use workman::terminal::LayoutData;
use workman::{claim_next_task, handle_command_result, ExecCommandResult};

fn result_of_run(task_id: &str, command: &str, success: bool) -> ExecCommandResult {
    ExecCommandResult {
        task_id: task_id.to_owned(),
        success,
        command: command.to_owned(),
        stdout: String::new(),
        stderr: String::new(),
        elapsed_time_ms: 10,
    }
}

#[test]
fn claim_next_task_marks_scheduled_and_hands_out_command() {
    let mut store = ConnHandle::new();
    import_task(&mut store, "host1", "ping {{task}}");
    let claimed = claim_next_task(&mut store, 0, 0).expect("one task is eligible");
    assert_eq!(claimed.0, "host1");
    assert_eq!(claimed.1, "ping host1");
    assert_eq!(get_task_status(&store, "host1").as_deref(), Some("scheduled"));
    assert!(claim_next_task(&mut store, 0, 0).is_none());
}

#[test]
fn claim_next_task_none_on_empty_store() {
    let mut store = ConnHandle::new();
    assert!(claim_next_task(&mut store, 0, 0).is_none());
}

// A run of three tasks whose command always succeeds, drained by two worker
// slots with retries disabled: every task completes and nothing stays
// incomplete.
#[test]
fn scenario_all_tasks_succeed() {
    let mut store = ConnHandle::new();
    import_task(&mut store, "t1", "true {{task}}");
    import_task(&mut store, "t2", "true {{task}}");
    import_task(&mut store, "t3", "true {{task}}");
    mark_scheduled_tasks_as_new(&mut store);

    let workers = 2;
    let now = 0;
    while get_number_of_incomplete_tasks(&store) > 0 {
        // One scheduling pass: fill the free worker slots.
        let mut slots: Vec<(String, String)> = Vec::new();
        while slots.len() < workers {
            match claim_next_task(&mut store, 0, now) {
                Some(claimed) => slots.push(claimed),
                None => break,
            }
        }
        // Drain the result channel: each worker reports Processing, then its
        // result, and the coordinator applies both in order.
        for (task_id, command) in slots {
            set_task_status(&mut store, &task_id, TaskStatus::Processing);
            let result = result_of_run(&task_id, &command, true);
            handle_command_result(&mut store, &result, 0, 1, now);
        }
    }

    let stats = get_stats_struct(&store);
    assert_eq!(stats.completed, 3);
    assert_eq!(stats.total, 3);
    assert_eq!(stats.error, 0);
    assert_eq!(get_number_of_incomplete_tasks(&store), 0);
}

// One task whose command always fails, under a retry budget of two and a zero
// cooldown: exactly two reschedule transitions are observed, and the task
// finalizes as `error` with its reschedule count at exactly two.
#[test]
fn scenario_retries_exhausted() {
    let mut store = ConnHandle::new();
    import_task(&mut store, "t1", "false {{task}}");
    let retries = 2;
    let cooldown = 0;

    let mut observed_reschedules = 0;
    let mut now: u64 = 100;
    loop {
        let claimed = match claim_next_task(&mut store, retries, now) {
            Some(claimed) => claimed,
            None => {
                if get_number_of_incomplete_tasks(&store) == 0 {
                    break;
                }
                // The cooldown window has not elapsed yet: poll again later.
                now += 1;
                continue;
            }
        };
        set_task_status(&mut store, &claimed.0, TaskStatus::Processing);
        let result = result_of_run(&claimed.0, &claimed.1, false);
        handle_command_result(&mut store, &result, retries, cooldown, now);
        if get_task_status(&store, "t1").as_deref() == Some("rescheduled") {
            observed_reschedules += 1;
        }
    }

    assert_eq!(observed_reschedules, 2);
    assert_eq!(get_task_status(&store, "t1").as_deref(), Some("error"));
    assert_eq!(get_task_reshedule_count(&store, "t1"), Some(2));
}

// Two tasks, interrupted while one is processing: that task is aborted, and a
// fresh run against the same store repairs the task left in `scheduled` back
// to `new` while the aborted, completed and error rows are left untouched.
#[test]
fn scenario_interrupt_and_recover() {
    let mut store = ConnHandle::new();
    import_task(&mut store, "t1", "sleep {{task}}");
    import_task(&mut store, "t2", "sleep {{task}}");
    import_task(&mut store, "t3", "sleep {{task}}");
    set_task_status(&mut store, "t3", TaskStatus::Completed);

    // Both pending tasks get claimed; only the first was dispatched and is
    // processing when the operator interrupts the run.
    let first = claim_next_task(&mut store, 0, 0).expect("t1 eligible");
    claim_next_task(&mut store, 0, 0).expect("t2 eligible");
    set_task_status(&mut store, &first.0, TaskStatus::Processing);
    mark_pending_tasks_as_aborted(&mut store);
    assert_eq!(get_task_status(&store, "t1").as_deref(), Some("aborted"));
    assert_eq!(get_task_status(&store, "t2").as_deref(), Some("scheduled"));

    // Fresh run against the same store: startup repair.
    mark_scheduled_tasks_as_new(&mut store);
    assert_eq!(get_task_status(&store, "t1").as_deref(), Some("aborted"));
    assert_eq!(get_task_status(&store, "t2").as_deref(), Some("new"));
    assert_eq!(get_task_status(&store, "t3").as_deref(), Some("completed"));
    assert_eq!(get_next_task(&store, 0, 0).as_deref(), Some("t2"));
}

#[test]
fn failure_with_retries_disabled_is_terminal() {
    let mut store = ConnHandle::new();
    import_task(&mut store, "t1", "false {{task}}");
    let claimed = claim_next_task(&mut store, 0, 0).expect("t1 eligible");
    set_task_status(&mut store, &claimed.0, TaskStatus::Processing);
    let result = result_of_run(&claimed.0, &claimed.1, false);
    handle_command_result(&mut store, &result, 0, 1, 0);
    assert_eq!(get_task_status(&store, "t1").as_deref(), Some("error"));
    assert_eq!(get_task_reshedule_count(&store, "t1"), Some(0));
}

#[test]
fn layout_starts_empty() {
    let ld: LayoutData = Default::default();
    assert_eq!(ld.log_message, "");
    assert_eq!(ld.processed_tasks_count, 0);
    assert_eq!(ld.total_elapsed_time, 0);
    assert_eq!(ld.min_elapsed_time, None);
    assert_eq!(ld.max_elapsed_time, None);
    assert_eq!(ld.tasks_stats_struct.total, 0);
    assert_eq!(ld.average_elapsed_time(), 0);
}

#[test]
fn layout_records_result_aggregates() {
    let mut ld: LayoutData = Default::default();
    ld.record_result(30);
    ld.record_result(10);
    ld.record_result(20);
    assert_eq!(ld.processed_tasks_count, 3);
    assert_eq!(ld.total_elapsed_time, 60);
    assert_eq!(ld.min_elapsed_time, Some(10));
    assert_eq!(ld.max_elapsed_time, Some(30));
    assert_eq!(ld.average_elapsed_time(), 20);
}
