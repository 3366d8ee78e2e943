use conductor::settings::GoalSettings;
use conductor::store::{CreateGoalSpace, CreateTask, Store, UpdateTask};
use conductor::supervisor::{
    dispatch_plan, record_merge_outcome, watchdog_decision, DispatchStep, WatchdogVerdict,
};

fn goal_input(name: &str) -> CreateGoalSpace {
    CreateGoalSpace {
        name: name.to_string(),
        description: "Desc".to_string(),
        repo_path: "/tmp/repo".to_string(),
        settings: GoalSettings::none(),
    }
}

fn task_input(title: &str, deps: Vec<String>) -> CreateTask {
    CreateTask {
        title: title.to_string(),
        description: "D".to_string(),
        priority: 0,
        depends_on: deps,
        settings: GoalSettings::none(),
    }
}

#[test]
fn test_cleanup_marks_stale_runs_failed_and_resets_tasks() {
    // one run running, one spawning, then a restart with no live ids
    let mut db = Store::new();
    db.create_goal_space("g".to_string(), goal_input("G"), 1).unwrap();
    db.create_task("g", "t1".to_string(), task_input("T1", vec![]), 2).unwrap();
    db.create_task("g", "t2".to_string(), task_input("T2", vec![]), 2).unwrap();
    db.create_agent_run("t1", "g", "r1".to_string(), None, None, "sonnet", None, 3).unwrap();
    db.update_agent_run_status("r1", "running", 4).unwrap();
    db.update_task("t1", &UpdateTask::status_only("running"), 4).unwrap();
    db.create_agent_run("t2", "g", "r2".to_string(), None, None, "sonnet", None, 5).unwrap();

    let n = db.fail_stale_runs(&vec![], 6);
    assert_eq!(n, 2);
    assert_eq!(db.get_agent_run("r1").unwrap().status.as_str(), "failed");
    assert!(db.get_agent_run("r1").unwrap().finished_at.is_some());
    assert_eq!(db.get_agent_run("r2").unwrap().status.as_str(), "failed");
    assert_eq!(db.get_task("t1").unwrap().status.as_str(), "pending");
    assert_eq!(db.get_task("t2").unwrap().status.as_str(), "pending");
}

#[test]
fn test_cleanup_spares_live_and_terminal_runs() {
    let mut db = Store::new();
    db.create_goal_space("g".to_string(), goal_input("G"), 1).unwrap();
    db.create_task("g", "t1".to_string(), task_input("T1", vec![]), 2).unwrap();
    db.create_task("g", "t2".to_string(), task_input("T2", vec![]), 2).unwrap();
    db.create_agent_run("t1", "g", "r1".to_string(), None, None, "sonnet", None, 3).unwrap();
    db.update_agent_run_status("r1", "running", 4).unwrap();
    db.create_agent_run("t2", "g", "r2".to_string(), None, None, "sonnet", None, 5).unwrap();
    db.update_agent_run_status("r2", "running", 6).unwrap();
    db.update_agent_run_status("r2", "done", 7).unwrap();

    // r1 is still owned by a live supervisor; r2 is already terminal
    let n = db.fail_stale_runs(&vec!["r1".to_string()], 8);
    assert_eq!(n, 0);
    assert_eq!(db.get_agent_run("r1").unwrap().status.as_str(), "running");
    assert_eq!(db.get_agent_run("r2").unwrap().status.as_str(), "done");
}

#[test]
fn test_cleanup_leaves_done_tasks_alone() {
    // a task finished through the stop hook while its run still looked live
    let mut db = Store::new();
    db.create_goal_space("g".to_string(), goal_input("G"), 1).unwrap();
    db.create_task("g", "t".to_string(), task_input("T", vec![]), 2).unwrap();
    db.create_agent_run("t", "g", "r".to_string(), None, None, "sonnet", None, 3).unwrap();
    db.update_agent_run_status("r", "running", 4).unwrap();
    db.update_task("t", &UpdateTask::status_only("running"), 4).unwrap();
    db.update_task("t", &UpdateTask::status_only("done"), 5).unwrap();

    let n = db.fail_stale_runs(&vec![], 6);
    assert_eq!(n, 1);
    assert_eq!(db.get_agent_run("r").unwrap().status.as_str(), "failed");
    assert_eq!(db.get_task("t").unwrap().status.as_str(), "done");
}

#[test]
fn test_stop_hook_completes_run_and_task() {
    let mut db = Store::new();
    db.create_goal_space("g".to_string(), goal_input("G"), 1).unwrap();
    db.create_task("g", "t".to_string(), task_input("T", vec![]), 2).unwrap();
    db.create_agent_run("t", "g", "r".to_string(), None, None, "sonnet", None, 3).unwrap();
    db.update_agent_run_status("r", "running", 4).unwrap();
    db.update_task("t", &UpdateTask::status_only("running"), 4).unwrap();
    db.update_agent_run_session_id("r", "sess-9").unwrap();

    let gid = db.complete_by_session_id("sess-9", 5);
    assert_eq!(gid, Some("g".to_string()));
    assert_eq!(db.get_agent_run("r").unwrap().status.as_str(), "done");
    assert_eq!(db.get_task("t").unwrap().status.as_str(), "done");
    // the goal can now complete
    assert!(db.check_goal_completion("g", 6));
}

#[test]
fn test_stop_hook_unknown_session_changes_nothing() {
    let mut db = Store::new();
    db.create_goal_space("g".to_string(), goal_input("G"), 1).unwrap();
    db.create_task("g", "t".to_string(), task_input("T", vec![]), 2).unwrap();
    db.create_agent_run("t", "g", "r".to_string(), None, None, "sonnet", None, 3).unwrap();
    db.update_agent_run_status("r", "running", 4).unwrap();
    assert_eq!(db.complete_by_session_id("sess-none", 5), None);
    assert_eq!(db.get_agent_run("r").unwrap().status.as_str(), "running");
}

#[test]
fn test_dispatch_plan_spawns_only_ready_tasks() {
    let mut db = Store::new();
    db.create_goal_space("g".to_string(), goal_input("G"), 1).unwrap();
    db.create_task("g", "a".to_string(), task_input("A", vec![]), 2).unwrap();
    db.create_task("g", "b".to_string(), task_input("B", vec!["a".to_string()]), 3).unwrap();

    let (step, specs) = dispatch_plan(&db, "g");
    assert!(matches!(step, DispatchStep::SpawnReady));
    assert_eq!(specs.len(), 1);
    assert_eq!(specs[0].task_id, "a");
    assert!(specs[0].prompt.contains("Task: A"));

    // once A is done, B is the one to spawn
    db.update_task("a", &UpdateTask::status_only("running"), 4).unwrap();
    db.update_task("a", &UpdateTask::status_only("done"), 5).unwrap();
    let (step, specs) = dispatch_plan(&db, "g");
    assert!(matches!(step, DispatchStep::SpawnReady));
    assert_eq!(specs.len(), 1);
    assert_eq!(specs[0].task_id, "b");
}

#[test]
fn test_dispatch_plan_other_steps() {
    let mut db = Store::new();
    let (step, specs) = dispatch_plan(&db, "missing");
    assert!(matches!(step, DispatchStep::MissingGoal));
    assert!(specs.is_empty());

    db.create_goal_space("g".to_string(), goal_input("G"), 1).unwrap();
    db.create_task("g", "t".to_string(), task_input("T", vec![]), 2).unwrap();
    db.update_task("t", &UpdateTask::status_only("running"), 3).unwrap();
    let (step, _) = dispatch_plan(&db, "g");
    assert!(matches!(step, DispatchStep::RunCompletionCheck));

    db.delete_goal_space("g", 4);
    let (step, _) = dispatch_plan(&db, "g");
    assert!(matches!(step, DispatchStep::GoalFinished));
}

#[test]
fn test_merge_failure_records_event_and_loop_proceeds() {
    let mut db = Store::new();
    db.create_goal_space("g".to_string(), goal_input("G"), 1).unwrap();
    db.create_task("g", "t".to_string(), task_input("T", vec![]), 2).unwrap();
    db.create_agent_run("t", "g", "r".to_string(), None, Some("conductor/r/t"), "sonnet", None, 3)
        .unwrap();
    let id = record_merge_outcome(&mut db, "r", "conductor/r/t", false, "merge conflict", 4)
        .unwrap();
    assert_eq!(id, 1);
    let events = db.list_agent_events("r");
    assert_eq!(events.len(), 1);
    assert_eq!(events[0].event_type, "merge_failed");
    assert_eq!(
        events[0].summary,
        "Failed to merge branch conductor/r/t: merge conflict"
    );
    // the run itself is untouched; dispatch goes on to the next message
    assert_eq!(db.get_agent_run("r").unwrap().status.as_str(), "spawning");

    let id = record_merge_outcome(&mut db, "r", "conductor/r/t", true, "", 5).unwrap();
    assert_eq!(id, 2);
    let events = db.list_agent_events("r");
    assert_eq!(events[1].event_type, "merge_completed");
    assert_eq!(events[1].summary, "Merged branch conductor/r/t into main");
}

#[test]
fn test_get_stats_counts() {
    let mut db = Store::new();
    let s = db.get_stats();
    assert_eq!(s.active_agents, 0);
    assert_eq!(s.total_cost_micros, 0);
    assert_eq!(s.tasks_completed, 0);
    assert_eq!(s.tasks_total, 0);
    assert_eq!(s.goals_active, 0);

    db.create_goal_space("g".to_string(), goal_input("G"), 1).unwrap();
    db.create_task("g", "t1".to_string(), task_input("T1", vec![]), 2).unwrap();
    db.create_task("g", "t2".to_string(), task_input("T2", vec![]), 3).unwrap();
    db.update_task("t1", &UpdateTask::status_only("running"), 4).unwrap();
    db.update_task("t1", &UpdateTask::status_only("done"), 5).unwrap();
    db.create_agent_run("t2", "g", "r".to_string(), None, None, "sonnet", None, 6).unwrap();
    db.update_agent_run_status("r", "running", 7).unwrap();
    db.update_agent_run_cost("r", 2_500_000, 5000, 2000, 8).unwrap();

    let s = db.get_stats();
    assert_eq!(s.active_agents, 1);
    assert_eq!(s.total_cost_micros, 2_500_000);
    assert_eq!(s.tasks_completed, 1);
    assert_eq!(s.tasks_total, 2);
    assert_eq!(s.goals_active, 1);
}

#[test]
fn test_watchdog_thresholds() {
    // ten idle minutes stall a session once; twenty total minutes end it
    let start = 1_000_000u64;
    assert!(matches!(
        watchdog_decision(start + 1_000, start, start + 500, false),
        WatchdogVerdict::Proceed
    ));
    assert!(matches!(
        watchdog_decision(start + 600_000, start, start, false),
        WatchdogVerdict::Stall
    ));
    assert!(matches!(
        watchdog_decision(start + 600_000, start, start, true),
        WatchdogVerdict::Proceed
    ));
    assert!(matches!(
        watchdog_decision(start + 1_200_000, start, start + 1_100_000, false),
        WatchdogVerdict::HardTimeout
    ));
}
