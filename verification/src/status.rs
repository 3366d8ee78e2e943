//! The status vocabularies of the data model and their state machines:
//! goal statuses, task statuses with the task transition table, and
//! agent-run statuses with the run transition table.

use vstd::prelude::*;

use crate::errors::ConductorError;
use crate::text::str_eq;

verus! {

// ── Goal status ──

/// Status of a goal.
#[derive(Clone, Copy, Debug, PartialEq, Eq, Structural)]
pub enum GoalStatus {
    Active,
    Completed,
    Archived,
}

/// The wire name of a goal status.
pub open spec fn spec_goal_status_name(s: GoalStatus) -> Seq<char> {
    match s {
        GoalStatus::Active => "active"@,
        GoalStatus::Completed => "completed"@,
        GoalStatus::Archived => "archived"@,
    }
}

impl GoalStatus {
    /// The wire name of this status.
    pub fn as_str(self) -> (r: &'static str)
        ensures
            r@ == spec_goal_status_name(self),
    {
        match self {
            GoalStatus::Active => "active",
            GoalStatus::Completed => "completed",
            GoalStatus::Archived => "archived",
        }
    }
}

/// The goal status named by a string, if any.
pub open spec fn spec_parse_goal_status(s: Seq<char>) -> Option<GoalStatus> {
    if s == "active"@ {
        Some(GoalStatus::Active)
    } else if s == "completed"@ {
        Some(GoalStatus::Completed)
    } else if s == "archived"@ {
        Some(GoalStatus::Archived)
    } else {
        None
    }
}

/// Parse a goal status from its wire name.
pub fn parse_goal_status(s: &str) -> (r: Option<GoalStatus>)
    ensures
        r == spec_parse_goal_status(s@),
{
    if str_eq(s, "active") {
        Some(GoalStatus::Active)
    } else if str_eq(s, "completed") {
        Some(GoalStatus::Completed)
    } else if str_eq(s, "archived") {
        Some(GoalStatus::Archived)
    } else {
        None
    }
}

// ── Task status ──

/// Status of a task.
#[derive(Clone, Copy, Debug, PartialEq, Eq, Structural)]
pub enum TaskStatus {
    Pending,
    Assigned,
    Running,
    Stalled,
    Done,
    Failed,
    Killed,
    Blocked,
}

/// The wire name of a task status.
pub open spec fn spec_task_status_name(s: TaskStatus) -> Seq<char> {
    match s {
        TaskStatus::Pending => "pending"@,
        TaskStatus::Assigned => "assigned"@,
        TaskStatus::Running => "running"@,
        TaskStatus::Stalled => "stalled"@,
        TaskStatus::Done => "done"@,
        TaskStatus::Failed => "failed"@,
        TaskStatus::Killed => "killed"@,
        TaskStatus::Blocked => "blocked"@,
    }
}

impl TaskStatus {
    /// The wire name of this status.
    pub fn as_str(self) -> (r: &'static str)
        ensures
            r@ == spec_task_status_name(self),
    {
        match self {
            TaskStatus::Pending => "pending",
            TaskStatus::Assigned => "assigned",
            TaskStatus::Running => "running",
            TaskStatus::Stalled => "stalled",
            TaskStatus::Done => "done",
            TaskStatus::Failed => "failed",
            TaskStatus::Killed => "killed",
            TaskStatus::Blocked => "blocked",
        }
    }
}

/// The task status named by a string, if any.
pub open spec fn spec_parse_task_status(s: Seq<char>) -> Option<TaskStatus> {
    if s == "pending"@ {
        Some(TaskStatus::Pending)
    } else if s == "assigned"@ {
        Some(TaskStatus::Assigned)
    } else if s == "running"@ {
        Some(TaskStatus::Running)
    } else if s == "stalled"@ {
        Some(TaskStatus::Stalled)
    } else if s == "done"@ {
        Some(TaskStatus::Done)
    } else if s == "failed"@ {
        Some(TaskStatus::Failed)
    } else if s == "killed"@ {
        Some(TaskStatus::Killed)
    } else if s == "blocked"@ {
        Some(TaskStatus::Blocked)
    } else {
        None
    }
}

/// Parse a task status from its wire name.
pub fn parse_task_status(s: &str) -> (r: Option<TaskStatus>)
    ensures
        r == spec_parse_task_status(s@),
{
    if str_eq(s, "pending") {
        Some(TaskStatus::Pending)
    } else if str_eq(s, "assigned") {
        Some(TaskStatus::Assigned)
    } else if str_eq(s, "running") {
        Some(TaskStatus::Running)
    } else if str_eq(s, "stalled") {
        Some(TaskStatus::Stalled)
    } else if str_eq(s, "done") {
        Some(TaskStatus::Done)
    } else if str_eq(s, "failed") {
        Some(TaskStatus::Failed)
    } else if str_eq(s, "killed") {
        Some(TaskStatus::Killed)
    } else if str_eq(s, "blocked") {
        Some(TaskStatus::Blocked)
    } else {
        None
    }
}

/// The directed edges of the task state machine, identity aside.
pub open spec fn spec_task_edge(from: TaskStatus, to: TaskStatus) -> bool {
    ||| (from == TaskStatus::Pending && to == TaskStatus::Assigned)
    ||| (from == TaskStatus::Pending && to == TaskStatus::Blocked)
    ||| (from == TaskStatus::Pending && to == TaskStatus::Running)
    ||| (from == TaskStatus::Assigned && to == TaskStatus::Running)
    ||| (from == TaskStatus::Assigned && to == TaskStatus::Pending)
    ||| (from == TaskStatus::Running && to == TaskStatus::Done)
    ||| (from == TaskStatus::Running && to == TaskStatus::Failed)
    ||| (from == TaskStatus::Running && to == TaskStatus::Stalled)
    ||| (from == TaskStatus::Stalled && to == TaskStatus::Running)
    ||| (from == TaskStatus::Stalled && to == TaskStatus::Failed)
    ||| (from == TaskStatus::Stalled && to == TaskStatus::Killed)
    ||| (from == TaskStatus::Failed && to == TaskStatus::Pending)
    ||| (from == TaskStatus::Blocked && to == TaskStatus::Pending)
}

/// Whether a task may move from one status to another: identity is always
/// allowed, anything else must be an edge of the state machine.
pub open spec fn spec_task_transition_ok(from: TaskStatus, to: TaskStatus) -> bool {
    from == to || spec_task_edge(from, to)
}

/// Whether a task may move between two statuses given by wire name:
/// equal names are always allowed; otherwise both must name statuses
/// joined by an edge of the state machine.
pub open spec fn spec_transition_valid(from: Seq<char>, to: Seq<char>) -> bool {
    from == to || {
        match (spec_parse_task_status(from), spec_parse_task_status(to)) {
            (Some(f), Some(t)) => spec_task_edge(f, t),
            _ => false,
        }
    }
}

/// Check a task status transition given by wire names, refusing any move
/// not allowed by the task state machine.
pub fn validate_transition(from: &str, to: &str) -> (r: Result<(), ConductorError>)
    ensures
        r is Ok <==> spec_transition_valid(from@, to@),
        r matches Err(e) ==> e matches ConductorError::Validation(m) && m@ == (
        "Invalid task status transition: "@ + from@ + " -> "@ + to@),
{
    if str_eq(from, to) {
        return Ok(());
    }
    let ok = match (parse_task_status(from), parse_task_status(to)) {
        (Some(f), Some(t)) => task_edge(f, t),
        _ => false,
    };
    if ok {
        Ok(())
    } else {
        let mut msg = String::from_str("Invalid task status transition: ");
        msg.append(from);
        msg.append(" -> ");
        msg.append(to);
        Err(ConductorError::Validation(msg))
    }
}

/// Whether the task state machine has an edge from one status to another.
pub fn task_edge(from: TaskStatus, to: TaskStatus) -> (r: bool)
    ensures
        r == spec_task_edge(from, to),
{
    match (from, to) {
        (TaskStatus::Pending, TaskStatus::Assigned) => true,
        (TaskStatus::Pending, TaskStatus::Blocked) => true,
        (TaskStatus::Pending, TaskStatus::Running) => true,
        (TaskStatus::Assigned, TaskStatus::Running) => true,
        (TaskStatus::Assigned, TaskStatus::Pending) => true,
        (TaskStatus::Running, TaskStatus::Done) => true,
        (TaskStatus::Running, TaskStatus::Failed) => true,
        (TaskStatus::Running, TaskStatus::Stalled) => true,
        (TaskStatus::Stalled, TaskStatus::Running) => true,
        (TaskStatus::Stalled, TaskStatus::Failed) => true,
        (TaskStatus::Stalled, TaskStatus::Killed) => true,
        (TaskStatus::Failed, TaskStatus::Pending) => true,
        (TaskStatus::Blocked, TaskStatus::Pending) => true,
        _ => false,
    }
}

// ── Agent-run status ──

/// Status of an agent run.
#[derive(Clone, Copy, Debug, PartialEq, Eq, Structural)]
pub enum AgentStatus {
    Spawning,
    Running,
    Stalled,
    Done,
    Failed,
    Killed,
}

/// The wire name of an agent-run status.
pub open spec fn spec_agent_status_name(s: AgentStatus) -> Seq<char> {
    match s {
        AgentStatus::Spawning => "spawning"@,
        AgentStatus::Running => "running"@,
        AgentStatus::Stalled => "stalled"@,
        AgentStatus::Done => "done"@,
        AgentStatus::Failed => "failed"@,
        AgentStatus::Killed => "killed"@,
    }
}

impl AgentStatus {
    /// The wire name of this status.
    pub fn as_str(self) -> (r: &'static str)
        ensures
            r@ == spec_agent_status_name(self),
    {
        match self {
            AgentStatus::Spawning => "spawning",
            AgentStatus::Running => "running",
            AgentStatus::Stalled => "stalled",
            AgentStatus::Done => "done",
            AgentStatus::Failed => "failed",
            AgentStatus::Killed => "killed",
        }
    }

    /// Whether this status ends the run: a run terminates exactly once
    /// into `done`, `failed` or `killed`.
    pub open spec fn spec_terminal(self) -> bool {
        self == AgentStatus::Done || self == AgentStatus::Failed || self == AgentStatus::Killed
    }

    /// Whether this status ends the run.
    pub fn is_terminal(self) -> (r: bool)
        ensures
            r == self.spec_terminal(),
    {
        match self {
            AgentStatus::Done | AgentStatus::Failed | AgentStatus::Killed => true,
            _ => false,
        }
    }
}

/// The agent-run status named by a string, if any.
pub open spec fn spec_parse_agent_status(s: Seq<char>) -> Option<AgentStatus> {
    if s == "spawning"@ {
        Some(AgentStatus::Spawning)
    } else if s == "running"@ {
        Some(AgentStatus::Running)
    } else if s == "stalled"@ {
        Some(AgentStatus::Stalled)
    } else if s == "done"@ {
        Some(AgentStatus::Done)
    } else if s == "failed"@ {
        Some(AgentStatus::Failed)
    } else if s == "killed"@ {
        Some(AgentStatus::Killed)
    } else {
        None
    }
}

/// Parse an agent-run status from its wire name.
pub fn parse_agent_status(s: &str) -> (r: Option<AgentStatus>)
    ensures
        r == spec_parse_agent_status(s@),
{
    if str_eq(s, "spawning") {
        Some(AgentStatus::Spawning)
    } else if str_eq(s, "running") {
        Some(AgentStatus::Running)
    } else if str_eq(s, "stalled") {
        Some(AgentStatus::Stalled)
    } else if str_eq(s, "done") {
        Some(AgentStatus::Done)
    } else if str_eq(s, "failed") {
        Some(AgentStatus::Failed)
    } else if str_eq(s, "killed") {
        Some(AgentStatus::Killed)
    } else {
        None
    }
}

/// The directed edges of the agent-run state machine, identity aside.
pub open spec fn spec_agent_edge(from: AgentStatus, to: AgentStatus) -> bool {
    ||| (from == AgentStatus::Spawning && to == AgentStatus::Running)
    ||| (from == AgentStatus::Spawning && to == AgentStatus::Failed)
    ||| (from == AgentStatus::Running && to == AgentStatus::Stalled)
    ||| (from == AgentStatus::Running && to == AgentStatus::Done)
    ||| (from == AgentStatus::Running && to == AgentStatus::Failed)
    ||| (from == AgentStatus::Running && to == AgentStatus::Killed)
    ||| (from == AgentStatus::Stalled && to == AgentStatus::Running)
    ||| (from == AgentStatus::Stalled && to == AgentStatus::Failed)
    ||| (from == AgentStatus::Stalled && to == AgentStatus::Killed)
}

/// Whether an agent run may move from one status to another: identity is
/// allowed while the run is live, and a terminal run never moves again.
pub open spec fn spec_agent_transition_ok(from: AgentStatus, to: AgentStatus) -> bool {
    (from == to && !from.spec_terminal()) || spec_agent_edge(from, to)
}

/// Whether the agent-run state machine allows a move between two statuses.
pub fn agent_transition_ok(from: AgentStatus, to: AgentStatus) -> (r: bool)
    ensures
        r == spec_agent_transition_ok(from, to),
{
    if from == to {
        return !from.is_terminal();
    }
    match (from, to) {
        (AgentStatus::Spawning, AgentStatus::Running) => true,
        (AgentStatus::Spawning, AgentStatus::Failed) => true,
        (AgentStatus::Running, AgentStatus::Stalled) => true,
        (AgentStatus::Running, AgentStatus::Done) => true,
        (AgentStatus::Running, AgentStatus::Failed) => true,
        (AgentStatus::Running, AgentStatus::Killed) => true,
        (AgentStatus::Stalled, AgentStatus::Running) => true,
        (AgentStatus::Stalled, AgentStatus::Failed) => true,
        (AgentStatus::Stalled, AgentStatus::Killed) => true,
        _ => false,
    }
}

} // verus!
