//! Decisions of the session supervisor and dispatcher: naming a fresh
//! run and its branch, budget enforcement, the final status of a run,
//! and the completion message handed to the dispatch loop.  The
//! subprocesses, timers and channels run outside and feed these
//! functions plain values.

use vstd::prelude::*;

use crate::errors::ConductorError;
use crate::parser::ParsedEvent;
use crate::settings::{spec_merge, GoalSettings};
use crate::status::{AgentStatus, GoalStatus, TaskStatus};
use crate::store::{find_goal, has_goal, has_run, spec_unblocked, GoalSpace, Store, Task};
use crate::text::{format_usd4, spec_usd4};
use crate::worktree::{branch_name, spec_branch_name};

verus! {

/// What the dispatch loop is told when an agent finishes or a dispatch
/// is requested.
#[derive(Debug)]
pub struct DispatchMessage {
    pub goal_space_id: String,
    pub branch_to_merge: Option<String>,
    pub repo_path: Option<String>,
    pub agent_run_id: Option<String>,
}

/// What the out-of-band stop hook carries: the external session id of
/// the agent that finished.
#[derive(Debug)]
pub struct StopHookPayload {
    pub session_id: Option<String>,
    pub stop_hook_active: Option<bool>,
}

/// Relies on `uuid::Uuid::new_v4` and its `to_string`: a freshly drawn
/// random identifier, rendered in its canonical text form.  Nothing is
/// promised of the value: callers treat collisions as errors.
#[verifier::external_body]
fn fresh_id() -> (r: String)
{
    uuid::Uuid::new_v4().to_string()
}

/// Name a new run and the branch it will work on.  The id is freshly
/// drawn; the branch name is the canonical one for that id and title.
pub fn new_run_plan(task_title: &str) -> (r: (String, String))
    ensures
        r.1@ == spec_branch_name(r.0@, task_title@),
{
    let id = fresh_id();
    let branch = branch_name(id.as_str(), task_title);
    (id, branch)
}

/// Whether an accumulated cost has passed a budget cap, when one is set.
pub open spec fn spec_budget_exceeded(cost_micros: u64, cap: Option<u64>) -> bool {
    match cap {
        Some(b) => cost_micros > b,
        None => false,
    }
}

/// Check an accumulated cost against a budget cap.
pub fn budget_exceeded(cost_micros: u64, cap: Option<u64>) -> (r: bool)
    ensures
        r == spec_budget_exceeded(cost_micros, cap),
{
    match cap {
        Some(b) => cost_micros > b,
        None => false,
    }
}

/// The synthetic error text appended when a budget is exceeded.
pub open spec fn spec_budget_message(cost_micros: u64, cap: u64) -> Seq<char> {
    "Budget exceeded: "@ + spec_usd4(cost_micros as nat) + " > "@ + spec_usd4(cap as nat)
}

/// Render the budget-overage message.
pub fn budget_message(cost_micros: u64, cap: u64) -> (r: String)
    ensures
        r@ == spec_budget_message(cost_micros, cap),
{
    let mut out = String::from_str("Budget exceeded: ");
    let a = format_usd4(cost_micros);
    out.append(a.as_str());
    out.append(" > ");
    let b = format_usd4(cap);
    out.append(b.as_str());
    out
}

/// The statuses an agent run and its task end in, from how the session
/// ended: a hard timeout fails both; a budget overage kills the run and
/// fails the task; otherwise a clean exit with real work recorded is
/// done, and anything else failed.
pub open spec fn spec_final_status(
    timed_out: bool,
    budget_exceeded: bool,
    exit_success: bool,
    cost_micros: u64,
) -> (AgentStatus, TaskStatus) {
    if timed_out {
        (AgentStatus::Failed, TaskStatus::Failed)
    } else if budget_exceeded {
        (AgentStatus::Killed, TaskStatus::Failed)
    } else if exit_success && cost_micros > 0 {
        (AgentStatus::Done, TaskStatus::Done)
    } else {
        (AgentStatus::Failed, TaskStatus::Failed)
    }
}

/// Decide the final statuses of a finished session.
pub fn final_status(
    timed_out: bool,
    budget_exceeded: bool,
    exit_success: bool,
    cost_micros: u64,
) -> (r: (AgentStatus, TaskStatus))
    ensures
        r == spec_final_status(timed_out, budget_exceeded, exit_success, cost_micros),
{
    if timed_out {
        (AgentStatus::Failed, TaskStatus::Failed)
    } else if budget_exceeded {
        (AgentStatus::Killed, TaskStatus::Failed)
    } else if exit_success && cost_micros > 0 {
        (AgentStatus::Done, TaskStatus::Done)
    } else {
        (AgentStatus::Failed, TaskStatus::Failed)
    }
}

/// A session killed over budget always shows a cost above its cap, and a
/// clean exit without recorded work never counts as done.
pub proof fn lemma_final_status_budget(
    timed_out: bool,
    over: bool,
    exit_success: bool,
    cost_micros: u64,
    cap: u64,
)
    requires
        over == spec_budget_exceeded(cost_micros, Some(cap)),
    ensures
        spec_final_status(timed_out, over, exit_success, cost_micros).0 == AgentStatus::Killed
            ==> cost_micros > cap,
        !timed_out && !over && exit_success && cost_micros == 0 ==> spec_final_status(
            timed_out,
            over,
            exit_success,
            cost_micros,
        ) == (AgentStatus::Failed, TaskStatus::Failed),
{
}

/// How a stored event affects the live session's accumulators: an
/// incremental cost record adds to the running total, and a result
/// record replaces it with the final figure.
pub open spec fn spec_cost_after(prior: u64, e: crate::parser::ParsedEventView) -> u64 {
    match e {
        crate::parser::ParsedEventView::ApiRequest { cost_micros, .. } => if prior + cost_micros
            > u64::MAX {
            u64::MAX
        } else {
            (prior + cost_micros) as u64
        },
        crate::parser::ParsedEventView::Result { cost_micros, .. } => cost_micros,
        _ => prior,
    }
}

/// Fold one parsed event into the accumulated cost.
pub fn cost_after(prior: u64, e: &ParsedEvent) -> (r: u64)
    ensures
        r == spec_cost_after(prior, e@),
{
    match e {
        ParsedEvent::ApiRequest { cost_micros, .. } => {
            if *cost_micros > u64::MAX - prior {
                u64::MAX
            } else {
                prior + *cost_micros
            }
        },
        ParsedEvent::Result { cost_micros, .. } => *cost_micros,
        _ => prior,
    }
}


/// Idle time before a session counts as stalled.
pub const STALL_LIMIT_MILLIS: u64 = 600000;

/// Total time before a session is forcibly failed.
pub const HARD_LIMIT_MILLIS: u64 = 1200000;

/// What the periodic watchdog does: nothing, mark the session stalled,
/// or end it over the hard timeout.
#[derive(Debug, Clone, Copy, PartialEq, Eq, Structural)]
pub enum WatchdogVerdict {
    Proceed,
    Stall,
    HardTimeout,
}

/// The watchdog rule: a session that has run for the hard limit fails;
/// one quiet for the stall limit is marked stalled once; anything else
/// goes on.  Clock readings earlier than the reference count as no time
/// passed.
pub open spec fn spec_watchdog(
    now: u64,
    started_at: u64,
    last_event_at: u64,
    already_stalled: bool,
) -> WatchdogVerdict {
    let total = if now > started_at {
        now - started_at
    } else {
        0
    };
    let idle = if now > last_event_at {
        now - last_event_at
    } else {
        0
    };
    if total >= HARD_LIMIT_MILLIS {
        WatchdogVerdict::HardTimeout
    } else if idle >= STALL_LIMIT_MILLIS && !already_stalled {
        WatchdogVerdict::Stall
    } else {
        WatchdogVerdict::Proceed
    }
}

/// Decide what a watchdog tick does.
pub fn watchdog_decision(now: u64, started_at: u64, last_event_at: u64, already_stalled: bool)
    -> (r: WatchdogVerdict)
    ensures
        r == spec_watchdog(now, started_at, last_event_at, already_stalled),
{
    let total: u64 = if now > started_at {
        now - started_at
    } else {
        0
    };
    let idle: u64 = if now > last_event_at {
        now - last_event_at
    } else {
        0
    };
    if total >= HARD_LIMIT_MILLIS {
        WatchdogVerdict::HardTimeout
    } else if idle >= STALL_LIMIT_MILLIS && !already_stalled {
        WatchdogVerdict::Stall
    } else {
        WatchdogVerdict::Proceed
    }
}


// ── The dispatcher's step ──

/// One agent to spawn: its task, the prompt it gets, and its effective
/// settings.
#[derive(Debug)]
pub struct SpawnSpec {
    pub task_id: String,
    pub prompt: String,
    pub settings: GoalSettings,
}

/// What a dispatch message leads to: nothing for an unknown goal, nothing
/// for a finished one, the atomic completion check when no task is
/// ready, or one spawn per ready task.
#[derive(Debug, Clone, Copy, PartialEq, Eq, Structural)]
pub enum DispatchStep {
    MissingGoal,
    GoalFinished,
    RunCompletionCheck,
    SpawnReady,
}

/// The prompt handed to an agent, from the goal description and the
/// task's title and description.
pub open spec fn spec_prompt(goal_desc: Seq<char>, title: Seq<char>, desc: Seq<char>) -> Seq<
    char,
> {
    "You are working on the following task as part of the goal: "@ + goal_desc + "\n\nTask: "@
        + title + "\n\nDescription: "@ + desc
        + "\n\nWork in the current directory. Make your changes, test them, and commit when done."@
}

/// Build the prompt for one task.
pub fn build_prompt(goal_description: &str, title: &str, description: &str) -> (r: String)
    ensures
        r@ == spec_prompt(goal_description@, title@, description@),
{
    let mut out = String::from_str(
        "You are working on the following task as part of the goal: ",
    );
    out.append(goal_description);
    out.append("\n\nTask: ");
    out.append(title);
    out.append("\n\nDescription: ");
    out.append(description);
    out.append(
        "\n\nWork in the current directory. Make your changes, test them, and commit when done.",
    );
    out
}

/// Whether a spawn entry is the right one for a task under a goal: the
/// task's id, its prompt, and the goal's settings overlaid with the
/// task's.
pub open spec fn spec_spawn_for(s: SpawnSpec, t: Task, g: GoalSpace) -> bool {
    &&& s.task_id@ == t.id@
    &&& s.prompt@ == spec_prompt(g.description@, t.title@, t.description@)
    &&& s.settings@ == spec_merge(g.settings@, t.settings@)
}

/// Decide what one dispatch message does, per the store: skip an unknown
/// goal; skip a completed or archived one; run the completion check when
/// nothing is ready; otherwise spawn exactly the ready tasks, each with
/// its prompt and its effective settings.
#[verifier::spinoff_prover]
#[verifier::rlimit(100)]
pub fn dispatch_plan(store: &Store, goal_space_id: &str) -> (r: (DispatchStep, Vec<SpawnSpec>))
    requires
        store.wf(),
    ensures
        r.0 is MissingGoal <==> !has_goal(store.goals@, goal_space_id@),
        r.0 is GoalFinished <==> exists|g: int|
            0 <= g < store.goals@.len() && (#[trigger] store.goals@[g]).id@ == goal_space_id@
                && store.goals@[g].status != GoalStatus::Active,
        r.0 is RunCompletionCheck ==> forall|j: int|
            0 <= j < store.tasks@.len() && (#[trigger] store.tasks@[j]).goal_space_id@
                == goal_space_id@ ==> !spec_unblocked(store.tasks@[j], store.tasks@),
        !(r.0 is SpawnReady) ==> r.1@.len() == 0,
        r.0 is SpawnReady ==> {
            let gx = find_goal(store.goals@, goal_space_id@).unwrap();
            &&& find_goal(store.goals@, goal_space_id@) is Some
            &&& 0 <= gx < store.goals@.len()
            &&& store.goals@[gx].id@ == goal_space_id@
            &&& store.goals@[gx].status == GoalStatus::Active
            &&& r.1@.len() >= 1
            &&& (forall|j: int|
                0 <= j < store.tasks@.len() && (#[trigger] store.tasks@[j]).goal_space_id@
                    == goal_space_id@ && spec_unblocked(store.tasks@[j], store.tasks@)
                    ==> exists|k: int|
                    0 <= k < r.1@.len() && spec_spawn_for(
                        #[trigger] r.1@[k],
                        store.tasks@[j],
                        store.goals@[gx],
                    ))
        },
{
    let goal = match store.get_goal_space(goal_space_id) {
        Some(g) => g,
        None => {
            return (DispatchStep::MissingGoal, Vec::new());
        },
    };
    let ghost gi = choose|g: int|
        0 <= g < store.goals@.len() && store.goals@[g] == *goal && goal.id@ == goal_space_id@;
    proof {
        assert forall|g: int|
            0 <= g < store.goals@.len() && (#[trigger] store.goals@[g]).id@ == goal_space_id@
            implies store.goals@[g].status == goal.status by {
            if g < gi {
                assert(store.goals@[g].id@ != store.goals@[gi].id@);
            } else if g > gi {
                assert(store.goals@[gi].id@ != store.goals@[g].id@);
            }
        }
    }
    if !matches!(goal.status, GoalStatus::Active) {
        return (DispatchStep::GoalFinished, Vec::new());
    }
    let ready = store.get_unblocked_tasks(goal_space_id);
    if ready.len() == 0 {
        proof {
            assert forall|j: int|
                0 <= j < store.tasks@.len() && (#[trigger] store.tasks@[j]).goal_space_id@
                    == goal_space_id@ implies !spec_unblocked(store.tasks@[j], store.tasks@) by {
                if spec_unblocked(store.tasks@[j], store.tasks@) {
                    let k = choose|k: int|
                        0 <= k < ready@.len() && *(#[trigger] ready@[k]) == store.tasks@[j];
                    assert(false);
                }
            }
        }
        return (DispatchStep::RunCompletionCheck, Vec::new());
    }
    let mut specs: Vec<SpawnSpec> = Vec::new();
    let mut a: usize = 0;
    while a < ready.len()
        invariant
            store.wf(),
            a <= ready@.len(),
            specs@.len() == a,
            0 <= gi < store.goals@.len(),
            store.goals@[gi] == *goal,
            forall|k: int|
                0 <= k < ready@.len() ==> (#[trigger] ready@[k]).goal_space_id@
                    == goal_space_id@ && spec_unblocked(*ready@[k], store.tasks@) && (exists|
                    j: int,
                | 0 <= j < store.tasks@.len() && store.tasks@[j] == *ready@[k]),
            forall|k: int|
                0 <= k < a ==> spec_spawn_for(#[trigger] specs@[k], *ready@[k], store.goals@[gi]),
        decreases ready@.len() - a,
    {
        let t = ready[a];
        let prompt = build_prompt(
            goal.description.as_str(),
            t.title.as_str(),
            t.description.as_str(),
        );
        specs.push(
            SpawnSpec { task_id: t.id.clone(), prompt, settings: goal.settings.merge(&t.settings) },
        );
        a = a + 1;
    }
    proof {
        assert(find_goal(store.goals@, goal_space_id@) == Some(gi)) by {
            let gx = choose|g: int|
                0 <= g < store.goals@.len() && (#[trigger] store.goals@[g]).id@
                    == goal_space_id@;
            if gx < gi {
                assert(store.goals@[gx].id@ != store.goals@[gi].id@);
            } else if gx > gi {
                assert(store.goals@[gi].id@ != store.goals@[gx].id@);
            }
        }
        let ghost gx = find_goal(store.goals@, goal_space_id@).unwrap();
        assert(gx == gi);
        assert forall|j: int|
            0 <= j < store.tasks@.len() && (#[trigger] store.tasks@[j]).goal_space_id@
                == goal_space_id@ && spec_unblocked(store.tasks@[j], store.tasks@)
            implies exists|k: int|
            0 <= k < specs@.len() && spec_spawn_for(
                #[trigger] specs@[k],
                store.tasks@[j],
                store.goals@[gi],
            ) by {
            let k = choose|k: int|
                0 <= k < ready@.len() && *(#[trigger] ready@[k]) == store.tasks@[j];
            assert(spec_spawn_for(specs@[k], store.tasks@[j], store.goals@[gi]));
        }
    }
    (DispatchStep::SpawnReady, specs)
}


// ── Merge outcomes ──

/// The event type recorded for a merge attempt's outcome.
pub open spec fn spec_merge_event_type(merged: bool) -> Seq<char> {
    if merged {
        "merge_completed"@
    } else {
        "merge_failed"@
    }
}

/// The log line recorded for a merge attempt's outcome.
pub open spec fn spec_merge_message(merged: bool, branch: Seq<char>, reason: Seq<char>) -> Seq<
    char,
> {
    if merged {
        "Merged branch "@ + branch + " into main"@
    } else {
        "Failed to merge branch "@ + branch + ": "@ + reason
    }
}

/// Record a merge attempt's outcome on the run that produced the branch:
/// a `merge_completed` event on success, a `merge_failed` event naming
/// the branch and the reason on failure.  Either way the caller's loop
/// proceeds; a failed merge leaves the branch in place for review.
pub fn record_merge_outcome(
    store: &mut Store,
    agent_run_id: &str,
    branch: &str,
    merged: bool,
    reason: &str,
    now: u64,
) -> (r: Result<u64, ConductorError>)
    requires
        old(store).wf(),
        old(store).events@.len() < usize::MAX,
    ensures
        final(store).wf(),
        r is Err ==> final(store).goals@ == old(store).goals@ && final(store).tasks@ == old(
            store,
        ).tasks@ && final(store).runs@ == old(store).runs@ && final(store).events@ == old(
            store,
        ).events@ && final(store).history@ == old(store).history@,
        r is Ok <==> has_run(old(store).runs@, agent_run_id@),
        r matches Ok(id) ==> {
            &&& id == old(store).events@.len() + 1
            &&& final(store).events@.len() == old(store).events@.len() + 1
            &&& final(store).events@.drop_last() == old(store).events@
            &&& final(store).events@.last().agent_run_id@ == agent_run_id@
            &&& final(store).events@.last().event_type@ == spec_merge_event_type(merged)
            &&& final(store).events@.last().summary@ == spec_merge_message(
                merged,
                branch@,
                reason@,
            )
            &&& final(store).events@.last().tool_name is None
            &&& final(store).events@.last().cost_delta_micros is None
            &&& final(store).goals@ == old(store).goals@
            &&& final(store).tasks@ == old(store).tasks@
            &&& final(store).runs@ == old(store).runs@
            &&& final(store).history@ == old(store).history@
        },
{
    let mut message: String;
    if merged {
        message = String::from_str("Merged branch ");
        message.append(branch);
        message.append(" into main");
    } else {
        message = String::from_str("Failed to merge branch ");
        message.append(branch);
        message.append(": ");
        message.append(reason);
    }
    let event_type = if merged {
        "merge_completed"
    } else {
        "merge_failed"
    };
    store.insert_agent_event(agent_run_id, event_type, None, message.as_str(), None, None, now)
}

} // verus!
