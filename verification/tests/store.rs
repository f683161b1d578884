use workman::storage::{
    get_next_task, get_number_of_incomplete_tasks, get_stats_struct, get_task_command,
    get_task_reshedule_count, get_task_status, import_task, mark_pending_tasks_as_aborted,
    mark_scheduled_tasks_as_new, reshedule_task, set_task_status, set_tasks_status, ConnHandle,
    TaskStatus,
};
use workman::ExecCommandResult;

fn result_for(task_id: &str, success: bool) -> ExecCommandResult {
    ExecCommandResult {
        task_id: task_id.to_owned(),
        success,
        command: format!("run {}", task_id),
        stdout: String::from("out"),
        stderr: String::from("err"),
        elapsed_time_ms: 42,
    }
}

#[test]
fn import_is_idempotent() {
    let mut store = ConnHandle::new();
    import_task(&mut store, "host1", "ping {{task}}");
    import_task(&mut store, "host1", "traceroute {{task}}");
    assert_eq!(
        get_task_command(&store, "host1").as_deref(),
        Some("ping host1")
    );
    assert_eq!(get_stats_struct(&store).total, 1);
    assert_eq!(get_task_status(&store, "host1").as_deref(), Some("new"));
}

#[test]
fn import_empty_id_is_noop() {
    let mut store = ConnHandle::new();
    import_task(&mut store, "", "echo {{task}}");
    assert_eq!(get_stats_struct(&store).total, 0);
}

#[test]
fn lookups_on_missing_task_are_none() {
    let store = ConnHandle::new();
    assert_eq!(get_task_status(&store, "ghost"), None);
    assert_eq!(get_task_command(&store, "ghost"), None);
    assert_eq!(get_task_reshedule_count(&store, "ghost"), None);
}

#[test]
fn set_task_status_changes_one_row() {
    let mut store = ConnHandle::new();
    import_task(&mut store, "a", "echo {{task}}");
    import_task(&mut store, "b", "echo {{task}}");
    let changed = set_task_status(&mut store, "a", TaskStatus::Processing);
    assert_eq!(changed, 1);
    assert_eq!(get_task_status(&store, "a").as_deref(), Some("processing"));
    assert_eq!(get_task_status(&store, "b").as_deref(), Some("new"));
    assert_eq!(set_task_status(&mut store, "missing", TaskStatus::Error), 0);
}

#[test]
fn reschedule_sets_count_and_cooldown() {
    let mut store = ConnHandle::new();
    import_task(&mut store, "a", "echo {{task}}");
    let changed = reshedule_task(&mut store, "a", 5, 100);
    assert_eq!(changed, 1);
    assert_eq!(get_task_status(&store, "a").as_deref(), Some("rescheduled"));
    assert_eq!(get_task_reshedule_count(&store, "a"), Some(1));
    // Within the cooldown window the task must never be handed out.
    assert_eq!(get_next_task(&store, 1, 100), None);
    assert_eq!(get_next_task(&store, 1, 105), None);
    // Once the clock passes ignore_till (100 + 5) it is eligible again.
    assert_eq!(get_next_task(&store, 1, 106).as_deref(), Some("a"));
}

#[test]
fn reschedule_count_gates_eligibility() {
    let mut store = ConnHandle::new();
    import_task(&mut store, "a", "echo {{task}}");
    reshedule_task(&mut store, "a", 0, 10);
    reshedule_task(&mut store, "a", 0, 10);
    assert_eq!(get_task_reshedule_count(&store, "a"), Some(2));
    // Count 2 is within a budget of 2 but over a budget of 1.
    assert_eq!(get_next_task(&store, 2, 11).as_deref(), Some("a"));
    assert_eq!(get_next_task(&store, 1, 11), None);
}

#[test]
fn next_task_returns_first_new_task() {
    let mut store = ConnHandle::new();
    import_task(&mut store, "a", "echo {{task}}");
    import_task(&mut store, "b", "echo {{task}}");
    assert_eq!(get_next_task(&store, 0, 0).as_deref(), Some("a"));
    set_task_status(&mut store, "a", TaskStatus::Scheduled);
    assert_eq!(get_next_task(&store, 0, 0).as_deref(), Some("b"));
    set_task_status(&mut store, "b", TaskStatus::Completed);
    assert_eq!(get_next_task(&store, 0, 0), None);
}

#[test]
fn update_from_result_records_terminal_row() {
    let mut store = ConnHandle::new();
    import_task(&mut store, "a", "echo {{task}}");
    import_task(&mut store, "b", "echo {{task}}");
    let ok = workman::storage::update_task_from_result(&mut store, &result_for("a", true));
    assert_eq!(ok, 1);
    let failed = workman::storage::update_task_from_result(&mut store, &result_for("b", false));
    assert_eq!(failed, 1);
    assert_eq!(get_task_status(&store, "a").as_deref(), Some("completed"));
    assert_eq!(get_task_status(&store, "b").as_deref(), Some("error"));
    assert_eq!(get_task_command(&store, "a").as_deref(), Some("run a"));
}

#[test]
fn mark_scheduled_tasks_become_new() {
    let mut store = ConnHandle::new();
    import_task(&mut store, "a", "echo {{task}}");
    import_task(&mut store, "b", "echo {{task}}");
    import_task(&mut store, "c", "echo {{task}}");
    set_task_status(&mut store, "a", TaskStatus::Scheduled);
    set_task_status(&mut store, "b", TaskStatus::Scheduled);
    set_task_status(&mut store, "c", TaskStatus::Completed);
    let changed = mark_scheduled_tasks_as_new(&mut store);
    assert_eq!(changed, 2);
    let stats = get_stats_struct(&store);
    assert_eq!(stats.scheduled, 0);
    assert_eq!(stats.new, 2);
    assert_eq!(stats.completed, 1);
}

#[test]
fn mark_processing_tasks_become_aborted() {
    let mut store = ConnHandle::new();
    import_task(&mut store, "a", "echo {{task}}");
    import_task(&mut store, "b", "echo {{task}}");
    set_task_status(&mut store, "a", TaskStatus::Processing);
    let changed = mark_pending_tasks_as_aborted(&mut store);
    assert_eq!(changed, 1);
    assert_eq!(get_task_status(&store, "a").as_deref(), Some("aborted"));
    assert_eq!(get_task_status(&store, "b").as_deref(), Some("new"));
    let stats = get_stats_struct(&store);
    assert_eq!(stats.processing, 0);
    assert_eq!(stats.aborted, 1);
}

#[test]
fn incomplete_count_is_zero_exactly_when_all_terminal() {
    let mut store = ConnHandle::new();
    import_task(&mut store, "a", "echo {{task}}");
    import_task(&mut store, "b", "echo {{task}}");
    assert_eq!(get_number_of_incomplete_tasks(&store), 2);
    set_task_status(&mut store, "a", TaskStatus::Completed);
    assert_eq!(get_number_of_incomplete_tasks(&store), 1);
    // Aborted does not count as terminal: a restarted run surfaces it again.
    set_task_status(&mut store, "b", TaskStatus::Aborted);
    assert_eq!(get_number_of_incomplete_tasks(&store), 1);
    set_task_status(&mut store, "b", TaskStatus::Error);
    assert_eq!(get_number_of_incomplete_tasks(&store), 0);
}

#[test]
fn stats_count_every_status() {
    let mut store = ConnHandle::new();
    let plan = [
        ("t1", TaskStatus::New),
        ("t2", TaskStatus::Scheduled),
        ("t3", TaskStatus::Resheduled),
        ("t4", TaskStatus::Processing),
        ("t5", TaskStatus::Completed),
        ("t6", TaskStatus::Error),
        ("t7", TaskStatus::Aborted),
        ("t8", TaskStatus::Completed),
    ];
    for (id, st) in plan {
        import_task(&mut store, id, "echo {{task}}");
        set_task_status(&mut store, id, st);
    }
    let stats = get_stats_struct(&store);
    assert_eq!(stats.new, 1);
    assert_eq!(stats.scheduled, 1);
    assert_eq!(stats.rescheduled, 1);
    assert_eq!(stats.processing, 1);
    assert_eq!(stats.completed, 2);
    assert_eq!(stats.error, 1);
    assert_eq!(stats.aborted, 1);
    assert_eq!(stats.total, 8);
}

#[test]
fn bulk_override_sets_every_listed_task() {
    let mut store = ConnHandle::new();
    import_task(&mut store, "a", "echo {{task}}");
    import_task(&mut store, "b", "echo {{task}}");
    import_task(&mut store, "c", "echo {{task}}");
    set_task_status(&mut store, "a", TaskStatus::Error);
    set_task_status(&mut store, "b", TaskStatus::Processing);
    let listed = vec![String::from("a"), String::from("b")];
    set_tasks_status(&mut store, &listed, TaskStatus::Completed);
    assert_eq!(get_task_status(&store, "a").as_deref(), Some("completed"));
    assert_eq!(get_task_status(&store, "b").as_deref(), Some("completed"));
    assert_eq!(get_task_status(&store, "c").as_deref(), Some("new"));
    let stats = get_stats_struct(&store);
    assert_eq!(stats.completed, 2);
    assert_eq!(stats.new, 1);
}

#[test]
fn restore_task_rebuilds_rows_once() {
    let mut store = ConnHandle::new();
    let row = workman::storage::Task {
        task_id: String::from("a"),
        status: TaskStatus::Resheduled,
        command: String::from("echo a"),
        elapsed_time_ms: 7,
        reshedule_count: 3,
        ignore_till: Some(50),
        stdout: String::new(),
        stderr: String::new(),
    };
    workman::storage::restore_task(&mut store, row);
    let again = workman::storage::Task {
        task_id: String::from("a"),
        status: TaskStatus::New,
        command: String::from("other"),
        elapsed_time_ms: 0,
        reshedule_count: 0,
        ignore_till: None,
        stdout: String::new(),
        stderr: String::new(),
    };
    workman::storage::restore_task(&mut store, again);
    assert_eq!(get_stats_struct(&store).total, 1);
    assert_eq!(get_task_status(&store, "a").as_deref(), Some("rescheduled"));
    assert_eq!(get_task_reshedule_count(&store, "a"), Some(3));
    // The restored cooldown gates eligibility just like a live reschedule.
    assert_eq!(get_next_task(&store, 3, 50), None);
    assert_eq!(get_next_task(&store, 3, 51).as_deref(), Some("a"));
}
