use conductor::settings::GoalSettings;
use conductor::store::{CreateGoalSpace, CreateTask, Store, UpdateTask};
use conductor::supervisor::{budget_exceeded, budget_message, cost_after, final_status};
use conductor::parser::{parse_stream_json_line, ParsedEvent};

fn goal_input(name: &str) -> CreateGoalSpace {
    CreateGoalSpace {
        name: name.to_string(),
        description: "Desc".to_string(),
        repo_path: "/tmp/repo".to_string(),
        settings: GoalSettings::none(),
    }
}

fn task_input(title: &str, deps: Vec<String>) -> CreateTask {
    CreateTask {
        title: title.to_string(),
        description: "D".to_string(),
        priority: 0,
        depends_on: deps,
        settings: GoalSettings::none(),
    }
}

#[test]
fn test_create_goal_space() {
    let mut db = Store::new();
    db.create_goal_space("g1".to_string(), goal_input("Test Goal"), 1).unwrap();
    let goal = db.get_goal_space("g1").unwrap();
    assert_eq!(goal.name, "Test Goal");
    assert_eq!(goal.status.as_str(), "active");
}

#[test]
fn test_duplicate_goal_id_rejected() {
    let mut db = Store::new();
    db.create_goal_space("g1".to_string(), goal_input("A"), 1).unwrap();
    assert!(db.create_goal_space("g1".to_string(), goal_input("B"), 2).is_err());
}

#[test]
fn test_list_goal_spaces() {
    let mut db = Store::new();
    assert!(db.list_goal_spaces().is_empty());
    db.create_goal_space("g1".to_string(), goal_input("Goal 1"), 1).unwrap();
    db.create_goal_space("g2".to_string(), goal_input("Goal 2"), 2).unwrap();
    let goals = db.list_goal_spaces();
    assert_eq!(goals.len(), 2);
    // most recently created first
    assert_eq!(goals[0].name, "Goal 2");
}

#[test]
fn test_get_goal_space() {
    let mut db = Store::new();
    db.create_goal_space("find-me".to_string(), goal_input("Find Me"), 1).unwrap();
    let found = db.get_goal_space("find-me").unwrap();
    assert_eq!(found.name, "Find Me");
    assert!(db.get_goal_space("nonexistent").is_none());
}

#[test]
fn test_update_goal_space() {
    let mut db = Store::new();
    db.create_goal_space("g1".to_string(), goal_input("Original"), 1).unwrap();
    db.update_goal_space("g1", Some("Updated"), None, None, 2).unwrap();
    let updated = db.get_goal_space("g1").unwrap();
    assert_eq!(updated.name, "Updated");
    assert_eq!(updated.description, "Desc"); // unchanged
}

#[test]
fn test_update_goal_space_cannot_set_completed() {
    let mut db = Store::new();
    db.create_goal_space("g1".to_string(), goal_input("G"), 1).unwrap();
    assert!(db.update_goal_space("g1", None, None, Some("completed"), 2).is_err());
    assert!(db.update_goal_space("g1", None, None, Some("archived"), 3).is_ok());
}

#[test]
fn test_delete_goal_space_archives() {
    let mut db = Store::new();
    db.create_goal_space("g1".to_string(), goal_input("To Archive"), 1).unwrap();
    db.delete_goal_space("g1", 2);
    let archived = db.get_goal_space("g1").unwrap();
    assert_eq!(archived.status.as_str(), "archived");
}

#[test]
fn test_create_task() {
    let mut db = Store::new();
    db.create_goal_space("g".to_string(), goal_input("G"), 1).unwrap();
    let mut input = task_input("Task 1", vec![]);
    input.description = "Do something".to_string();
    input.priority = 5;
    db.create_task("g", "t1".to_string(), input, 2).unwrap();
    let task = db.get_task("t1").unwrap();
    assert_eq!(task.title, "Task 1");
    assert_eq!(task.status.as_str(), "pending");
    assert_eq!(task.priority, 5);
    assert!(task.depends_on.is_empty());
}

#[test]
fn test_create_task_rejects_foreign_dependency() {
    let mut db = Store::new();
    db.create_goal_space("g1".to_string(), goal_input("G1"), 1).unwrap();
    db.create_goal_space("g2".to_string(), goal_input("G2"), 2).unwrap();
    db.create_task("g1", "t1".to_string(), task_input("T1", vec![]), 3).unwrap();
    // a dependency on a task of another goal is refused
    let r = db.create_task("g2", "t2".to_string(), task_input("T2", vec!["t1".to_string()]), 4);
    assert!(r.is_err());
    // a dependency on an unknown id is refused
    let r = db.create_task("g1", "t3".to_string(), task_input("T3", vec!["nope".to_string()]), 5);
    assert!(r.is_err());
}

#[test]
fn test_update_task_rejects_dependency_cycle() {
    let mut db = Store::new();
    db.create_goal_space("g".to_string(), goal_input("G"), 1).unwrap();
    db.create_task("g", "a".to_string(), task_input("A", vec![]), 2).unwrap();
    db.create_task("g", "b".to_string(), task_input("B", vec!["a".to_string()]), 3).unwrap();
    // making A depend on B closes the cycle A -> B -> A
    let mut up = UpdateTask::none();
    up.depends_on = Some(vec!["b".to_string()]);
    assert!(db.update_task("a", &up, 4).is_err());
}

#[test]
fn test_list_tasks_ordered_by_priority() {
    let mut db = Store::new();
    db.create_goal_space("g".to_string(), goal_input("G"), 1).unwrap();
    let mut low = task_input("Low", vec![]);
    low.priority = 1;
    let mut high = task_input("High", vec![]);
    high.priority = 10;
    let mut med = task_input("Med", vec![]);
    med.priority = 5;
    db.create_task("g", "t1".to_string(), low, 2).unwrap();
    db.create_task("g", "t2".to_string(), high, 3).unwrap();
    db.create_task("g", "t3".to_string(), med, 4).unwrap();
    let tasks = db.list_tasks("g");
    assert_eq!(tasks.len(), 3);
    assert_eq!(tasks[0].title, "High");
    assert_eq!(tasks[1].title, "Med");
    assert_eq!(tasks[2].title, "Low");
}

#[test]
fn test_get_task() {
    let mut db = Store::new();
    db.create_goal_space("g".to_string(), goal_input("G"), 1).unwrap();
    db.create_task("g", "t".to_string(), task_input("T", vec![]), 2).unwrap();
    assert_eq!(db.get_task("t").unwrap().title, "T");
    assert!(db.get_task("nope").is_none());
}

#[test]
fn test_update_task() {
    let mut db = Store::new();
    db.create_goal_space("g".to_string(), goal_input("G"), 1).unwrap();
    db.create_task("g", "t".to_string(), task_input("Original", vec![]), 2).unwrap();
    let mut up = UpdateTask::none();
    up.title = Some("Updated".to_string());
    up.status = Some("running".to_string());
    db.update_task("t", &up, 3).unwrap();
    let updated = db.get_task("t").unwrap();
    assert_eq!(updated.title, "Updated");
    assert_eq!(updated.status.as_str(), "running");
}

#[test]
fn test_update_task_rejects_bad_transition() {
    let mut db = Store::new();
    db.create_goal_space("g".to_string(), goal_input("G"), 1).unwrap();
    db.create_task("g", "t".to_string(), task_input("T", vec![]), 2).unwrap();
    let up = UpdateTask::status_only("done");
    // pending -> done is not a legal move
    let err = db.update_task("t", &up, 3).unwrap_err();
    assert!(err.message().contains("Invalid"));
    assert_eq!(db.get_task("t").unwrap().status.as_str(), "pending");
}

#[test]
fn test_task_with_dependencies() {
    let mut db = Store::new();
    db.create_goal_space("g".to_string(), goal_input("G"), 1).unwrap();
    db.create_task("g", "t1".to_string(), task_input("T1", vec![]), 2).unwrap();
    db.create_task("g", "t2".to_string(), task_input("T2", vec!["t1".to_string()]), 3).unwrap();
    let found = db.get_task("t2").unwrap();
    assert_eq!(found.depends_on, vec!["t1".to_string()]);
}

#[test]
fn test_get_unblocked_tasks() {
    let mut db = Store::new();
    db.create_goal_space("g".to_string(), goal_input("G"), 1).unwrap();
    db.create_task("g", "t1".to_string(), task_input("Independent", vec![]), 2).unwrap();
    db.create_task("g", "t2".to_string(), task_input("Depends on T1", vec!["t1".to_string()]), 3)
        .unwrap();

    // Initially only t1 is unblocked
    let unblocked = db.get_unblocked_tasks("g");
    assert_eq!(unblocked.len(), 1);
    assert_eq!(unblocked[0].title, "Independent");

    // Mark t1 as done
    db.update_task("t1", &UpdateTask::status_only("running"), 4).unwrap();
    db.update_task("t1", &UpdateTask::status_only("done"), 5).unwrap();

    // Now t2 is unblocked
    let unblocked = db.get_unblocked_tasks("g");
    assert_eq!(unblocked.len(), 1);
    assert_eq!(unblocked[0].id, "t2");
}

#[test]
fn test_get_unblocked_tasks_all_independent() {
    let mut db = Store::new();
    db.create_goal_space("g".to_string(), goal_input("G"), 1).unwrap();
    db.create_task("g", "a".to_string(), task_input("A", vec![]), 2).unwrap();
    db.create_task("g", "b".to_string(), task_input("B", vec![]), 3).unwrap();
    db.create_task("g", "c".to_string(), task_input("C", vec![]), 4).unwrap();
    assert_eq!(db.get_unblocked_tasks("g").len(), 3);
}

#[test]
fn test_get_unblocked_excludes_non_pending() {
    let mut db = Store::new();
    db.create_goal_space("g".to_string(), goal_input("G"), 1).unwrap();
    db.create_task("g", "t".to_string(), task_input("Already running", vec![]), 2).unwrap();
    db.update_task("t", &UpdateTask::status_only("running"), 3).unwrap();
    assert!(db.get_unblocked_tasks("g").is_empty());
}

#[test]
fn test_create_and_get_agent_run() {
    let mut db = Store::new();
    db.create_goal_space("g".to_string(), goal_input("G"), 1).unwrap();
    db.create_task("g", "t".to_string(), task_input("T", vec![]), 2).unwrap();
    db.create_agent_run("t", "g", "r1".to_string(), Some("/tmp/wt"), Some("branch-1"), "sonnet", Some(5_000_000), 3)
        .unwrap();
    let run = db.get_agent_run("r1").unwrap();
    assert_eq!(run.status.as_str(), "spawning");
    assert_eq!(run.model, "sonnet");
    assert_eq!(run.cost_micros, 0);
    assert_eq!(run.max_budget_micros, Some(5_000_000));
    assert_eq!(run.worktree_path, Some("/tmp/wt".to_string()));
}

#[test]
fn test_at_most_one_live_run_per_task() {
    let mut db = Store::new();
    db.create_goal_space("g".to_string(), goal_input("G"), 1).unwrap();
    db.create_task("g", "t".to_string(), task_input("T", vec![]), 2).unwrap();
    db.create_agent_run("t", "g", "r1".to_string(), None, None, "sonnet", None, 3).unwrap();
    // a second live run on the same task is refused
    assert!(db.create_agent_run("t", "g", "r2".to_string(), None, None, "sonnet", None, 4).is_err());
    // once the first is terminal, a new one is fine
    db.update_agent_run_status("r1", "failed", 5).unwrap();
    assert!(db.create_agent_run("t", "g", "r2".to_string(), None, None, "sonnet", None, 6).is_ok());
}

#[test]
fn test_update_agent_run_status() {
    let mut db = Store::new();
    db.create_goal_space("g".to_string(), goal_input("G"), 1).unwrap();
    db.create_task("g", "t".to_string(), task_input("T", vec![]), 2).unwrap();
    db.create_agent_run("t", "g", "r".to_string(), None, None, "sonnet", None, 3).unwrap();

    db.update_agent_run_status("r", "running", 4).unwrap();
    let updated = db.get_agent_run("r").unwrap();
    assert_eq!(updated.status.as_str(), "running");
    assert!(updated.finished_at.is_none());

    db.update_agent_run_status("r", "done", 5).unwrap();
    let done = db.get_agent_run("r").unwrap();
    assert_eq!(done.status.as_str(), "done");
    assert!(done.finished_at.is_some());
}

#[test]
fn test_terminal_run_never_moves_again() {
    let mut db = Store::new();
    db.create_goal_space("g".to_string(), goal_input("G"), 1).unwrap();
    db.create_task("g", "t".to_string(), task_input("T", vec![]), 2).unwrap();
    db.create_agent_run("t", "g", "r".to_string(), None, None, "sonnet", None, 3).unwrap();
    db.update_agent_run_status("r", "running", 4).unwrap();
    db.update_agent_run_status("r", "done", 5).unwrap();
    assert!(db.update_agent_run_status("r", "running", 6).is_err());
    assert!(db.update_agent_run_status("r", "failed", 7).is_err());
}

#[test]
fn test_update_agent_run_cost() {
    let mut db = Store::new();
    db.create_goal_space("g".to_string(), goal_input("G"), 1).unwrap();
    db.create_task("g", "t".to_string(), task_input("T", vec![]), 2).unwrap();
    db.create_agent_run("t", "g", "r".to_string(), None, None, "sonnet", None, 3).unwrap();
    db.update_agent_run_cost("r", 1_230_000, 1000, 500, 4).unwrap();
    let updated = db.get_agent_run("r").unwrap();
    assert_eq!(updated.cost_micros, 1_230_000);
    assert_eq!(updated.input_tokens, 1000);
    assert_eq!(updated.output_tokens, 500);
    assert!(updated.last_activity_at.is_some());
}

#[test]
fn test_update_agent_run_session_id() {
    let mut db = Store::new();
    db.create_goal_space("g".to_string(), goal_input("G"), 1).unwrap();
    db.create_task("g", "t".to_string(), task_input("T", vec![]), 2).unwrap();
    db.create_agent_run("t", "g", "r".to_string(), None, None, "sonnet", None, 3).unwrap();
    assert!(db.get_agent_run("r").unwrap().claude_session_id.is_none());
    db.update_agent_run_session_id("r", "sess-abc-123").unwrap();
    assert_eq!(
        db.get_agent_run("r").unwrap().claude_session_id,
        Some("sess-abc-123".to_string())
    );
}

#[test]
fn test_list_agent_runs() {
    let mut db = Store::new();
    db.create_goal_space("g".to_string(), goal_input("G"), 1).unwrap();
    db.create_task("g", "t".to_string(), task_input("T", vec![]), 2).unwrap();
    assert!(db.list_agent_runs().is_empty());
    db.create_agent_run("t", "g", "r1".to_string(), None, None, "sonnet", None, 3).unwrap();
    db.update_agent_run_status("r1", "failed", 4).unwrap();
    db.create_agent_run("t", "g", "r2".to_string(), None, None, "opus", None, 5).unwrap();
    assert_eq!(db.list_agent_runs().len(), 2);
}

#[test]
fn test_list_active_agent_runs() {
    let mut db = Store::new();
    db.create_goal_space("g".to_string(), goal_input("G"), 1).unwrap();
    db.create_task("g", "t1".to_string(), task_input("T1", vec![]), 2).unwrap();
    db.create_task("g", "t2".to_string(), task_input("T2", vec![]), 2).unwrap();
    db.create_agent_run("t1", "g", "r1".to_string(), None, None, "sonnet", None, 3).unwrap();
    db.create_agent_run("t2", "g", "r2".to_string(), None, None, "sonnet", None, 4).unwrap();
    db.update_agent_run_status("r2", "running", 5).unwrap();
    db.update_agent_run_status("r2", "done", 6).unwrap();
    let active = db.list_active_agent_runs();
    assert_eq!(active.len(), 1);
    assert_eq!(active[0].id, "r1");
}

#[test]
fn test_insert_and_list_events() {
    let mut db = Store::new();
    db.create_goal_space("g".to_string(), goal_input("G"), 1).unwrap();
    db.create_task("g", "t".to_string(), task_input("T", vec![]), 2).unwrap();
    db.create_agent_run("t", "g", "r".to_string(), None, None, "sonnet", None, 3).unwrap();
    db.insert_agent_event("r", "tool_call", Some("Read"), "Reading src/main.rs", None, None, 4)
        .unwrap();
    db.insert_agent_event("r", "cost_update", None, "API call", None, Some(50_000), 5).unwrap();
    db.insert_agent_event("r", "text_output", None, "Hello", None, None, 6).unwrap();
    let events = db.list_agent_events("r");
    assert_eq!(events.len(), 3);
    assert_eq!(events[0].event_type, "tool_call");
    assert_eq!(events[0].tool_name, Some("Read".to_string()));
    assert_eq!(events[1].cost_delta_micros, Some(50_000));
    assert_eq!(events[2].summary, "Hello");
}

#[test]
fn test_events_ordered_by_id() {
    let mut db = Store::new();
    db.create_goal_space("g".to_string(), goal_input("G"), 1).unwrap();
    db.create_task("g", "t".to_string(), task_input("T", vec![]), 2).unwrap();
    db.create_agent_run("t", "g", "r".to_string(), None, None, "sonnet", None, 3).unwrap();
    db.insert_agent_event("r", "a", None, "first", None, None, 4).unwrap();
    db.insert_agent_event("r", "b", None, "second", None, None, 5).unwrap();
    db.insert_agent_event("r", "c", None, "third", None, None, 6).unwrap();
    let events = db.list_agent_events("r");
    assert!(events[0].id < events[1].id);
    assert!(events[1].id < events[2].id);
    assert_eq!(events[0].summary, "first");
    assert_eq!(events[2].summary, "third");
}

// ── Goal completion ──

#[test]
fn test_check_goal_completion_no_tasks() {
    let mut db = Store::new();
    db.create_goal_space("g".to_string(), goal_input("G"), 1).unwrap();
    assert!(!db.check_goal_completion("g", 2));
    assert_eq!(db.get_goal_space("g").unwrap().status.as_str(), "active");
}

#[test]
fn test_check_goal_completion_all_done() {
    let mut db = Store::new();
    db.create_goal_space("g".to_string(), goal_input("G"), 1).unwrap();
    db.create_task("g", "t1".to_string(), task_input("T1", vec![]), 2).unwrap();
    db.create_task("g", "t2".to_string(), task_input("T2", vec![]), 3).unwrap();
    for t in ["t1", "t2"] {
        db.update_task(t, &UpdateTask::status_only("running"), 4).unwrap();
        db.update_task(t, &UpdateTask::status_only("done"), 5).unwrap();
    }
    assert!(db.check_goal_completion("g", 6));
    assert_eq!(db.get_goal_space("g").unwrap().status.as_str(), "completed");
}

#[test]
fn test_check_goal_completion_not_all_done() {
    let mut db = Store::new();
    db.create_goal_space("g".to_string(), goal_input("G"), 1).unwrap();
    db.create_task("g", "t1".to_string(), task_input("T1", vec![]), 2).unwrap();
    db.create_task("g", "t2".to_string(), task_input("T2", vec![]), 3).unwrap();
    db.update_task("t1", &UpdateTask::status_only("running"), 4).unwrap();
    db.update_task("t1", &UpdateTask::status_only("done"), 5).unwrap();
    assert!(!db.check_goal_completion("g", 6));
    assert_eq!(db.get_goal_space("g").unwrap().status.as_str(), "active");
}

#[test]
fn test_goal_summary_counts() {
    let mut db = Store::new();
    db.create_goal_space("g".to_string(), goal_input("G"), 1).unwrap();
    db.create_task("g", "t1".to_string(), task_input("T1", vec![]), 2).unwrap();
    db.create_task("g", "t2".to_string(), task_input("T2", vec![]), 3).unwrap();
    db.create_task("g", "t3".to_string(), task_input("T3", vec![]), 4).unwrap();
    db.update_task("t1", &UpdateTask::status_only("running"), 5).unwrap();
    db.update_task("t1", &UpdateTask::status_only("done"), 6).unwrap();
    db.update_task("t2", &UpdateTask::status_only("running"), 7).unwrap();
    let summary = db.goal_summary("g");
    assert_eq!(summary.total, 3);
    assert_eq!(summary.done, 1);
    assert_eq!(summary.running, 1);
    assert_eq!(summary.pending, 1);
    assert_eq!(summary.failed, 0);
}

#[test]
fn test_check_goal_completion_atomic_with_pending_task() {
    // Even when a task was just added, the atomic check must not mark the
    // goal completed while that task is pending.
    let mut db = Store::new();
    db.create_goal_space("g".to_string(), goal_input("G"), 1).unwrap();
    db.create_task("g", "t1".to_string(), task_input("T1", vec![]), 2).unwrap();
    db.update_task("t1", &UpdateTask::status_only("running"), 3).unwrap();
    db.update_task("t1", &UpdateTask::status_only("done"), 4).unwrap();
    // the race: a new pending task arrives just before the check
    db.create_task("g", "t2".to_string(), task_input("T2", vec![]), 5).unwrap();
    assert!(!db.check_goal_completion("g", 6));
    assert_eq!(db.get_goal_space("g").unwrap().status.as_str(), "active");
}

#[test]
fn test_atomic_completion_returns_false_when_already_completed() {
    let mut db = Store::new();
    db.create_goal_space("g".to_string(), goal_input("G"), 1).unwrap();
    db.create_task("g", "t1".to_string(), task_input("T1", vec![]), 2).unwrap();
    db.update_task("t1", &UpdateTask::status_only("running"), 3).unwrap();
    db.update_task("t1", &UpdateTask::status_only("done"), 4).unwrap();
    assert!(db.check_goal_completion("g", 5));
    assert!(!db.check_goal_completion("g", 6));
}

// ── Settings ──

#[test]
fn test_settings_merge_task_wins() {
    let mut goal = GoalSettings::none();
    goal.model = Some("opus".to_string());
    goal.max_budget_micros = Some(5_000_000);
    let mut task = GoalSettings::none();
    task.max_budget_micros = Some(100_000);
    let merged = goal.merge(&task);
    assert_eq!(merged.model, Some("opus".to_string()));
    assert_eq!(merged.max_budget_micros, Some(100_000));
    // defaults fill what neither sets
    assert_eq!(merged.max_turns(), 50);
    assert_eq!(merged.model(), "opus");
    assert_eq!(GoalSettings::none().model(), "sonnet");
    assert_eq!(GoalSettings::none().allowed_tools().len(), 6);
}

// ── Session supervision boundaries ──

#[test]
fn test_empty_stream_finalizes_failed() {
    // no events, clean exit: no work was recorded, so the run failed
    let (run, task) = final_status(false, false, true, 0);
    assert_eq!(run.as_str(), "failed");
    assert_eq!(task.as_str(), "failed");
}

#[test]
fn test_single_zero_cost_result_finalizes_failed() {
    let line = r#"{"type":"result","session_id":"s1","result":"done"}"#;
    let event = parse_stream_json_line(line).unwrap();
    let cost = cost_after(0, &event);
    assert_eq!(cost, 0);
    let (run, task) = final_status(false, false, true, cost);
    assert_eq!(run.as_str(), "failed");
    assert_eq!(task.as_str(), "failed");
}

#[test]
fn test_budget_kill_between_events() {
    // goal budget of $0.10, an incremental cost record of $0.15
    let line = r#"{"type":"api_request","model":"sonnet","cost_usd":0.15}"#;
    let event = parse_stream_json_line(line).unwrap();
    let cost = cost_after(0, &event);
    assert_eq!(cost, 150_000);
    let cap = Some(100_000);
    assert!(budget_exceeded(cost, cap));
    assert_eq!(
        budget_message(cost, 100_000),
        "Budget exceeded: $0.1500 > $0.1000"
    );
    let (run, task) = final_status(false, true, false, cost);
    assert_eq!(run.as_str(), "killed");
    assert_eq!(task.as_str(), "failed");
}

#[test]
fn test_happy_path_stream_totals() {
    // the stream of the simple end-to-end scenario: one tool call, one result
    let l1 = r#"{"type":"assistant","message":{"content":[{"type":"tool_use","name":"Read","input":{"file_path":"src/m.rs"}}]}}"#;
    let l2 = r#"{"type":"result","session_id":"s1","result":"done","total_cost_usd":0.25,"usage":{"input_tokens":100,"output_tokens":40}}"#;
    let e1 = parse_stream_json_line(l1).unwrap();
    match &e1 {
        ParsedEvent::ToolUse { input_summary, .. } => assert_eq!(input_summary, "Reading src/m.rs"),
        _ => panic!("Expected ToolUse"),
    }
    let e2 = parse_stream_json_line(l2).unwrap();
    let cost = cost_after(cost_after(0, &e1), &e2);
    assert_eq!(cost, 250_000);
    let (run, task) = final_status(false, false, true, cost);
    assert_eq!(run.as_str(), "done");
    assert_eq!(task.as_str(), "done");

    // the store follows: run done, task done, goal completed
    let mut db = Store::new();
    db.create_goal_space("g".to_string(), goal_input("G"), 1).unwrap();
    db.create_task("g", "t".to_string(), task_input("add feature x", vec![]), 2).unwrap();
    db.create_agent_run("t", "g", "r".to_string(), None, Some("conductor/r/add-feature-x"), "sonnet", None, 3)
        .unwrap();
    db.update_task("t", &UpdateTask::status_only("running"), 4).unwrap();
    db.update_agent_run_status("r", "running", 5).unwrap();
    db.update_agent_run_cost("r", cost, 100, 40, 6).unwrap();
    db.update_agent_run_status("r", run.as_str(), 7).unwrap();
    db.update_task("t", &UpdateTask::status_only(task.as_str()), 8).unwrap();
    assert!(db.check_goal_completion("g", 9));
    assert_eq!(db.get_goal_space("g").unwrap().status.as_str(), "completed");
}

#[test]
fn test_stall_then_recovery_statuses() {
    // running -> stalled -> running -> done is a legal walk of the run
    // state machine, and the store takes each step
    let mut db = Store::new();
    db.create_goal_space("g".to_string(), goal_input("G"), 1).unwrap();
    db.create_task("g", "t".to_string(), task_input("T", vec![]), 2).unwrap();
    db.create_agent_run("t", "g", "r".to_string(), None, None, "sonnet", None, 3).unwrap();
    db.update_agent_run_status("r", "running", 4).unwrap();
    db.update_agent_run_status("r", "stalled", 5).unwrap();
    assert_eq!(db.get_agent_run("r").unwrap().status.as_str(), "stalled");
    db.update_agent_run_status("r", "running", 6).unwrap();
    db.update_agent_run_status("r", "done", 7).unwrap();
    assert_eq!(db.get_agent_run("r").unwrap().status.as_str(), "done");
}

#[test]
fn test_dependency_ordering_dispatch() {
    // only A is ready at first; once A is done, B becomes ready
    let mut db = Store::new();
    db.create_goal_space("g".to_string(), goal_input("G"), 1).unwrap();
    db.create_task("g", "a".to_string(), task_input("A", vec![]), 2).unwrap();
    db.create_task("g", "b".to_string(), task_input("B", vec!["a".to_string()]), 3).unwrap();
    let ready = db.get_unblocked_tasks("g");
    assert_eq!(ready.len(), 1);
    assert_eq!(ready[0].id, "a");
    db.update_task("a", &UpdateTask::status_only("running"), 4).unwrap();
    db.update_task("a", &UpdateTask::status_only("done"), 5).unwrap();
    let ready = db.get_unblocked_tasks("g");
    assert_eq!(ready.len(), 1);
    assert_eq!(ready[0].id, "b");
}

#[test]
fn test_event_order_is_deterministic() {
    // the same input lines always store the same event types and summaries
    let lines = [
        r#"{"type":"assistant","message":{"content":[{"type":"tool_use","name":"Read","input":{"file_path":"a.rs"}}]}}"#,
        r#"{"type":"system","message":"up"}"#,
        r#"not json"#,
        r#"{"type":"error","error":"boom"}"#,
    ];
    let run_once = || -> Vec<Option<ParsedEvent>> {
        lines.iter().map(|l| parse_stream_json_line(l)).collect()
    };
    assert_eq!(run_once(), run_once());
}
