//! The durable state model: goals, tasks, agent runs, the append-only
//! event log, and the audit history.  Every operation keeps the store's
//! invariants: unique ids, referential integrity, dependency closure
//! within a goal, an acyclic dependency graph, goal completion only with
//! every task done, at most one live run per task, and terminal runs
//! exactly the finished ones.
//!
//! Timestamps are opaque milliseconds supplied by the caller; ids are
//! supplied by the caller too.  Persistence is the caller's business:
//! this store is the authoritative in-memory projection.

use vstd::prelude::*;
use vstd::seq_lib::lemma_multiset_commutative;

use crate::errors::ConductorError;
use crate::graph::{graph_view, has_cycle, spec_reaches, str_views};
use crate::settings::{clone_strings, GoalSettings};
use crate::status::{
    parse_agent_status, parse_goal_status, parse_task_status, spec_agent_transition_ok,
    spec_parse_agent_status, spec_parse_goal_status, spec_parse_task_status,
    spec_transition_valid, validate_transition, AgentStatus, GoalStatus, TaskStatus,
};
use crate::text::str_eq;

verus! {

// ── Records ──

/// A goal: a user-supplied objective tied to one repository.
#[derive(Debug)]
pub struct GoalSpace {
    pub id: String,
    pub name: String,
    pub description: String,
    pub status: GoalStatus,
    pub repo_path: String,
    pub created_at: u64,
    pub updated_at: u64,
    pub settings: GoalSettings,
}

/// What a request supplies to create a goal.
#[derive(Debug)]
pub struct CreateGoalSpace {
    pub name: String,
    pub description: String,
    pub repo_path: String,
    pub settings: GoalSettings,
}

/// A task: one unit of work within a goal.
#[derive(Debug)]
pub struct Task {
    pub id: String,
    pub goal_space_id: String,
    pub title: String,
    pub description: String,
    pub status: TaskStatus,
    pub priority: i32,
    pub depends_on: Vec<String>,
    pub settings: GoalSettings,
    pub created_at: u64,
    pub updated_at: u64,
}

/// What a request supplies to create a task.
#[derive(Debug)]
pub struct CreateTask {
    pub title: String,
    pub description: String,
    pub priority: i32,
    pub depends_on: Vec<String>,
    pub settings: GoalSettings,
}

/// The optional field updates of a task.
#[derive(Debug)]
pub struct UpdateTask {
    pub title: Option<String>,
    pub description: Option<String>,
    pub status: Option<String>,
    pub priority: Option<i32>,
    pub depends_on: Option<Vec<String>>,
    pub settings: Option<GoalSettings>,
}

impl UpdateTask {
    /// An update that changes nothing.
    pub fn none() -> (r: UpdateTask)
        ensures
            r.title is None,
            r.description is None,
            r.status is None,
            r.priority is None,
            r.depends_on is None,
            r.settings is None,
    {
        UpdateTask {
            title: None,
            description: None,
            status: None,
            priority: None,
            depends_on: None,
            settings: None,
        }
    }

    /// An update that only moves the status.
    pub fn status_only(status: &str) -> (r: UpdateTask)
        ensures
            r.title is None,
            r.description is None,
            r.status matches Some(s) && s@ == status@,
            r.priority is None,
            r.depends_on is None,
            r.settings is None,
    {
        UpdateTask {
            title: None,
            description: None,
            status: Some(String::from_str(status)),
            priority: None,
            depends_on: None,
            settings: None,
        }
    }
}

/// One attempt by an agent subprocess to carry out one task.
#[derive(Debug)]
pub struct AgentRun {
    pub id: String,
    pub task_id: String,
    pub goal_space_id: String,
    pub claude_session_id: Option<String>,
    pub worktree_path: Option<String>,
    pub branch: Option<String>,
    pub status: AgentStatus,
    pub model: String,
    pub cost_micros: u64,
    pub input_tokens: i64,
    pub output_tokens: i64,
    pub max_budget_micros: Option<u64>,
    pub started_at: u64,
    pub last_activity_at: Option<u64>,
    pub finished_at: Option<u64>,
}

/// One event observed on an agent's stream, in insertion order.
#[derive(Debug)]
pub struct AgentEvent {
    pub id: u64,
    pub agent_run_id: String,
    pub event_type: String,
    pub tool_name: Option<String>,
    pub summary: String,
    pub raw_json: Option<String>,
    pub cost_delta_micros: Option<u64>,
    pub created_at: u64,
}

/// One line of a goal's audit trail.
#[derive(Debug)]
pub struct GoalHistory {
    pub goal_space_id: String,
    pub event_type: String,
    pub description: String,
    pub metadata: Option<String>,
    pub created_at: u64,
}

/// Aggregate counters for an operator overview.
#[derive(Debug)]
pub struct Stats {
    pub active_agents: u64,
    pub total_cost_micros: u64,
    pub tasks_completed: u64,
    pub tasks_total: u64,
    pub goals_active: u64,
}

/// The whole durable state.
#[derive(Debug)]
pub struct Store {
    pub goals: Vec<GoalSpace>,
    pub tasks: Vec<Task>,
    pub runs: Vec<AgentRun>,
    pub events: Vec<AgentEvent>,
    pub history: Vec<GoalHistory>,
}

// ── Look-up helpers, at the specification level ──

/// The index of the goal with the given id.
pub open spec fn find_goal(goals: Seq<GoalSpace>, id: Seq<char>) -> Option<int> {
    if exists|i: int| 0 <= i < goals.len() && (#[trigger] goals[i]).id@ == id {
        Some(choose|i: int| 0 <= i < goals.len() && (#[trigger] goals[i]).id@ == id)
    } else {
        None
    }
}

/// The index of the task with the given id.
pub open spec fn find_task(tasks: Seq<Task>, id: Seq<char>) -> Option<int> {
    if exists|i: int| 0 <= i < tasks.len() && (#[trigger] tasks[i]).id@ == id {
        Some(choose|i: int| 0 <= i < tasks.len() && (#[trigger] tasks[i]).id@ == id)
    } else {
        None
    }
}

/// The index of the run with the given id.
pub open spec fn find_run(runs: Seq<AgentRun>, id: Seq<char>) -> Option<int> {
    if exists|i: int| 0 <= i < runs.len() && (#[trigger] runs[i]).id@ == id {
        Some(choose|i: int| 0 <= i < runs.len() && (#[trigger] runs[i]).id@ == id)
    } else {
        None
    }
}

/// Whether a goal id names a goal.
pub open spec fn has_goal(goals: Seq<GoalSpace>, id: Seq<char>) -> bool {
    exists|i: int| 0 <= i < goals.len() && (#[trigger] goals[i]).id@ == id
}

/// Whether a task id names a task.
pub open spec fn has_task(tasks: Seq<Task>, id: Seq<char>) -> bool {
    exists|i: int| 0 <= i < tasks.len() && (#[trigger] tasks[i]).id@ == id
}

/// Whether a run id names a run.
pub open spec fn has_run(runs: Seq<AgentRun>, id: Seq<char>) -> bool {
    exists|i: int| 0 <= i < runs.len() && (#[trigger] runs[i]).id@ == id
}

/// The dependency graph of all tasks: each task id with its
/// prerequisite ids.
pub open spec fn task_graph(tasks: Seq<Task>) -> Seq<(Seq<char>, Seq<Seq<char>>)> {
    tasks.map_values(|t: Task| (t.id@, str_views(t.depends_on@)))
}

/// Whether every task is free of self-reachability: no walk along
/// dependency edges leads from a task's prerequisites back to itself.
pub open spec fn acyclic(tasks: Seq<Task>) -> bool {
    forall|i: int|
        0 <= i < tasks.len() ==> !spec_reaches(
            task_graph(tasks),
            str_views((#[trigger] tasks[i]).depends_on@),
            tasks[i].id@,
        )
}

/// Whether `dep` names a task of goal `gid`.
pub open spec fn dep_targets_goal(tasks: Seq<Task>, dep: Seq<char>, gid: Seq<char>) -> bool {
    exists|u: int|
        0 <= u < tasks.len() && (#[trigger] tasks[u]).id@ == dep && tasks[u].goal_space_id@ == gid
}

/// Whether every one of `deps` names a task of goal `gid`.
pub open spec fn deps_all_in_goal(tasks: Seq<Task>, deps: Seq<String>, gid: Seq<char>) -> bool {
    forall|d: int| 0 <= d < deps.len() ==> dep_targets_goal(tasks, (#[trigger] deps[d])@, gid)
}

/// Whether every prerequisite of `t` names a task of the same goal.
pub open spec fn deps_in_goal(t: Task, tasks: Seq<Task>) -> bool {
    deps_all_in_goal(tasks, t.depends_on@, t.goal_space_id@)
}

/// Whether all tasks of a goal are done, and there is at least one.
pub open spec fn all_tasks_done(tasks: Seq<Task>, goal_id: Seq<char>) -> bool {
    &&& exists|i: int| 0 <= i < tasks.len() && (#[trigger] tasks[i]).goal_space_id@ == goal_id
    &&& forall|i: int|
        0 <= i < tasks.len() && (#[trigger] tasks[i]).goal_space_id@ == goal_id ==> tasks[i].status
            == TaskStatus::Done
}


/// Well-formedness is kept when only non-identifying fields of goals
/// change: every id stays, nothing else moves, and no goal becomes
/// `completed` unless it was or its tasks are all done.
proof fn lemma_wf_goals_updated(pre: Store, post: Store)
    requires
        pre.wf(),
        post.tasks@ == pre.tasks@,
        post.runs@ == pre.runs@,
        post.events@ == pre.events@,
        post.history@ == pre.history@,
        post.goals@.len() == pre.goals@.len(),
        forall|k: int|
            0 <= k < pre.goals@.len() ==> (#[trigger] post.goals@[k]).id@ == pre.goals@[k].id@,
        forall|k: int|
            0 <= k < pre.goals@.len() && (#[trigger] post.goals@[k]).status
                == GoalStatus::Completed ==> (pre.goals@[k].status == GoalStatus::Completed
                || all_tasks_done(pre.tasks@, pre.goals@[k].id@)),
    ensures
        post.wf(),
{
    assert forall|i: int|
        0 <= i < post.tasks@.len() implies has_goal(
        post.goals@,
        (#[trigger] post.tasks@[i]).goal_space_id@,
    ) by {
        let k = choose|k: int|
            0 <= k < pre.goals@.len() && (#[trigger] pre.goals@[k]).id@
                == pre.tasks@[i].goal_space_id@;
        assert(post.goals@[k].id@ == post.tasks@[i].goal_space_id@);
    }
    assert forall|i: int|
        0 <= i < post.runs@.len() implies has_task(post.tasks@, (#[trigger] post.runs@[i]).task_id@)
        && has_goal(post.goals@, post.runs@[i].goal_space_id@) by {
        assert(has_task(pre.tasks@, pre.runs@[i].task_id@));
        let k = choose|k: int|
            0 <= k < pre.goals@.len() && (#[trigger] pre.goals@[k]).id@
                == pre.runs@[i].goal_space_id@;
        assert(post.goals@[k].id@ == post.runs@[i].goal_space_id@);
    }
    assert forall|i: int|
        0 <= i < post.history@.len() implies has_goal(
        post.goals@,
        (#[trigger] post.history@[i]).goal_space_id@,
    ) by {
        let k = choose|k: int|
            0 <= k < pre.goals@.len() && (#[trigger] pre.goals@[k]).id@
                == pre.history@[i].goal_space_id@;
        assert(post.goals@[k].id@ == post.history@[i].goal_space_id@);
    }
    assert forall|i: int|
        0 <= i < post.goals@.len() && (#[trigger] post.goals@[i]).status == GoalStatus::Completed
        implies all_tasks_done(post.tasks@, post.goals@[i].id@) by {
        if pre.goals@[i].status == GoalStatus::Completed {
            assert(all_tasks_done(pre.tasks@, pre.goals@[i].id@));
        }
    }
}

impl Store {
    /// The store's invariants, kept by every operation.
    pub open spec fn wf(&self) -> bool {
        // ids are unique
        &&& (forall|i: int, j: int|
            0 <= i < j < self.goals@.len() ==> (#[trigger] self.goals@[i]).id@ != (
            #[trigger] self.goals@[j]).id@)
        &&& (forall|i: int, j: int|
            0 <= i < j < self.tasks@.len() ==> (#[trigger] self.tasks@[i]).id@ != (
            #[trigger] self.tasks@[j]).id@)
        &&& (forall|i: int, j: int|
            0 <= i < j < self.runs@.len() ==> (#[trigger] self.runs@[i]).id@ != (
            #[trigger] self.runs@[j]).id@)
        // event ids are dense and strictly increasing in insertion order
        &&& (forall|i: int|
            0 <= i < self.events@.len() ==> (#[trigger] self.events@[i]).id == i + 1)
        // referential integrity
        &&& (forall|i: int|
            0 <= i < self.tasks@.len() ==> has_goal(
                self.goals@,
                (#[trigger] self.tasks@[i]).goal_space_id@,
            ))
        &&& (forall|i: int|
            0 <= i < self.runs@.len() ==> has_task(
                self.tasks@,
                (#[trigger] self.runs@[i]).task_id@,
            ) && has_goal(self.goals@, self.runs@[i].goal_space_id@))
        &&& (forall|i: int|
            0 <= i < self.events@.len() ==> has_run(
                self.runs@,
                (#[trigger] self.events@[i]).agent_run_id@,
            ))
        &&& (forall|i: int|
            0 <= i < self.history@.len() ==> has_goal(
                self.goals@,
                (#[trigger] self.history@[i]).goal_space_id@,
            ))
        // every prerequisite names a task of the same goal
        &&& (forall|i: int|
            0 <= i < self.tasks@.len() ==> deps_in_goal(#[trigger] self.tasks@[i], self.tasks@))
        // the dependency graph has no cycle
        &&& acyclic(self.tasks@)
        // a completed goal has at least one task and every task done
        &&& (forall|i: int|
            0 <= i < self.goals@.len() && (#[trigger] self.goals@[i]).status
                == GoalStatus::Completed ==> all_tasks_done(self.tasks@, self.goals@[i].id@))
        // at most one live run per task
        &&& (forall|i: int, j: int|
            0 <= i < j < self.runs@.len() && (#[trigger] self.runs@[i]).task_id@ == (
            #[trigger] self.runs@[j]).task_id@ ==> self.runs@[i].status.spec_terminal()
                || self.runs@[j].status.spec_terminal())
        // a run is terminal exactly when it is finished
        &&& (forall|i: int|
            0 <= i < self.runs@.len() ==> ((#[trigger] self.runs@[i]).status.spec_terminal()
                <==> self.runs@[i].finished_at is Some))
    }

    /// An empty store.
    pub fn new() -> (r: Store)
        ensures
            r.wf(),
            r.goals@.len() == 0,
            r.tasks@.len() == 0,
            r.runs@.len() == 0,
            r.events@.len() == 0,
            r.history@.len() == 0,
    {
        Store {
            goals: Vec::new(),
            tasks: Vec::new(),
            runs: Vec::new(),
            events: Vec::new(),
            history: Vec::new(),
        }
    }

    // ── Exec look-ups ──

    /// The position of a goal by id.
    fn goal_index(&self, id: &str) -> (r: Option<usize>)
        ensures
            match r {
                Some(i) => i < self.goals@.len() && self.goals@[i as int].id@ == id@,
                None => !has_goal(self.goals@, id@),
            },
    {
        let mut i: usize = 0;
        while i < self.goals.len()
            invariant
                i <= self.goals@.len(),
                forall|j: int| 0 <= j < i ==> (#[trigger] self.goals@[j]).id@ != id@,
            decreases self.goals@.len() - i,
        {
            if str_eq(self.goals[i].id.as_str(), id) {
                return Some(i);
            }
            i = i + 1;
        }
        None
    }

    /// The position of a task by id.
    fn task_index(&self, id: &str) -> (r: Option<usize>)
        ensures
            match r {
                Some(i) => i < self.tasks@.len() && self.tasks@[i as int].id@ == id@,
                None => !has_task(self.tasks@, id@),
            },
    {
        let mut i: usize = 0;
        while i < self.tasks.len()
            invariant
                i <= self.tasks@.len(),
                forall|j: int| 0 <= j < i ==> (#[trigger] self.tasks@[j]).id@ != id@,
            decreases self.tasks@.len() - i,
        {
            if str_eq(self.tasks[i].id.as_str(), id) {
                return Some(i);
            }
            i = i + 1;
        }
        None
    }

    /// The position of a run by id.
    fn run_index(&self, id: &str) -> (r: Option<usize>)
        ensures
            match r {
                Some(i) => i < self.runs@.len() && self.runs@[i as int].id@ == id@,
                None => !has_run(self.runs@, id@),
            },
    {
        let mut i: usize = 0;
        while i < self.runs.len()
            invariant
                i <= self.runs@.len(),
                forall|j: int| 0 <= j < i ==> (#[trigger] self.runs@[j]).id@ != id@,
            decreases self.runs@.len() - i,
        {
            if str_eq(self.runs[i].id.as_str(), id) {
                return Some(i);
            }
            i = i + 1;
        }
        None
    }

    // ── Goals ──

    /// Create a goal with the given fresh id: refused when the id is
    /// taken; otherwise the goal is appended as `active` and a `created`
    /// history line is written.
    pub fn create_goal_space(&mut self, id: String, input: CreateGoalSpace, now: u64) -> (r:
        Result<(), ConductorError>)
        requires
            old(self).wf(),
        ensures
            final(self).wf(),
            r is Ok <==> !has_goal(old(self).goals@, id@),
            r is Err ==> *final(self) == *old(self) && (r matches Err(
                ConductorError::Validation(_),
            )),
            r is Ok ==> {
                &&& final(self).goals@.len() == old(self).goals@.len() + 1
                &&& final(self).goals@.last().id@ == id@
                &&& final(self).goals@.last().name@ == input.name@
                &&& final(self).goals@.last().description@ == input.description@
                &&& final(self).goals@.last().repo_path@ == input.repo_path@
                &&& final(self).goals@.last().status == GoalStatus::Active
                &&& final(self).goals@.last().created_at == now
                &&& final(self).goals@.last().updated_at == now
                &&& final(self).goals@.last().settings@ == input.settings@
                &&& final(self).goals@.drop_last() == old(self).goals@
                &&& final(self).tasks@ == old(self).tasks@
                &&& final(self).runs@ == old(self).runs@
                &&& final(self).events@ == old(self).events@
                &&& final(self).history@.len() == old(self).history@.len() + 1
                &&& final(self).history@.drop_last() == old(self).history@
                &&& final(self).history@.last().goal_space_id@ == id@
                &&& final(self).history@.last().event_type@ == "created"@
                &&& final(self).history@.last().created_at == now
            },
    {
        if self.goal_index(id.as_str()).is_some() {
            return Err(
                ConductorError::Validation(String::from_str("goal id already exists")),
            );
        }
        let mut descr = String::from_str("Goal space '");
        descr.append(input.name.as_str());
        descr.append("' created");
        let gid = id.clone();
        let goal = GoalSpace {
            id,
            name: input.name,
            description: input.description,
            status: GoalStatus::Active,
            repo_path: input.repo_path,
            created_at: now,
            updated_at: now,
            settings: input.settings,
        };
        self.goals.push(goal);
        self.history.push(
            GoalHistory {
                goal_space_id: gid,
                event_type: String::from_str("created"),
                description: descr,
                metadata: None,
                created_at: now,
            },
        );
        proof {
            assert(self.goals@.drop_last() =~= old(self).goals@);
            assert(self.history@.drop_last() =~= old(self).history@);
            assert forall|i: int|
                0 <= i < self.tasks@.len() implies has_goal(
                self.goals@,
                (#[trigger] self.tasks@[i]).goal_space_id@,
            ) by {
                let k = choose|k: int|
                    0 <= k < old(self).goals@.len() && (#[trigger] old(self).goals@[k]).id@
                        == self.tasks@[i].goal_space_id@;
                assert(self.goals@[k].id@ == self.tasks@[i].goal_space_id@);
            }
            assert forall|i: int|
                0 <= i < self.runs@.len() implies has_task(
                self.tasks@,
                (#[trigger] self.runs@[i]).task_id@,
            ) && has_goal(self.goals@, self.runs@[i].goal_space_id@) by {
                let k = choose|k: int|
                    0 <= k < old(self).goals@.len() && (#[trigger] old(self).goals@[k]).id@
                        == self.runs@[i].goal_space_id@;
                assert(self.goals@[k].id@ == self.runs@[i].goal_space_id@);
            }
            assert forall|i: int|
                0 <= i < self.history@.len() implies has_goal(
                self.goals@,
                (#[trigger] self.history@[i]).goal_space_id@,
            ) by {
                if i < old(self).history@.len() {
                    let k = choose|k: int|
                        0 <= k < old(self).goals@.len() && (#[trigger] old(self).goals@[k]).id@
                            == self.history@[i].goal_space_id@;
                    assert(self.goals@[k].id@ == self.history@[i].goal_space_id@);
                } else {
                    assert(self.goals@.last().id@ == self.history@[i].goal_space_id@);
                }
            }
            assert forall|i: int|
                0 <= i < self.goals@.len() && (#[trigger] self.goals@[i]).status
                    == GoalStatus::Completed implies all_tasks_done(
                self.tasks@,
                self.goals@[i].id@,
            ) by {
                if i < old(self).goals@.len() {
                    assert(old(self).goals@[i].status == GoalStatus::Completed);
                }
            }
        }
        Ok(())
    }

    /// Fetch a goal by id.
    pub fn get_goal_space(&self, id: &str) -> (r: Option<&GoalSpace>)
        ensures
            match r {
                Some(g) => has_goal(self.goals@, id@) && exists|i: int|
                    0 <= i < self.goals@.len() && self.goals@[i] == *g && g.id@ == id@,
                None => !has_goal(self.goals@, id@),
            },
    {
        match self.goal_index(id) {
            Some(i) => {
                let g = &self.goals[i];
                proof {
                    assert(self.goals@[i as int] == *g);
                }
                Some(g)
            },
            None => None,
        }
    }

    /// List all goals, most recently created first.
    pub fn list_goal_spaces(&self) -> (r: Vec<&GoalSpace>)
        ensures
            r@.len() == self.goals@.len(),
            forall|i: int|
                0 <= i < r@.len() ==> *(#[trigger] r@[i]) == self.goals@[
                    self.goals@.len() - 1 - i
                ],
    {
        let mut out: Vec<&GoalSpace> = Vec::new();
        let mut i: usize = self.goals.len();
        while i > 0
            invariant
                i <= self.goals@.len(),
                out@.len() == self.goals@.len() - i,
                forall|k: int|
                    0 <= k < out@.len() ==> *(#[trigger] out@[k]) == self.goals@[
                        self.goals@.len() - 1 - k
                    ],
            decreases i,
        {
            i = i - 1;
            out.push(&self.goals[i]);
        }
        out
    }

    /// Update a goal's name, description or status.  A status may move
    /// only between `active` and `archived`: `completed` is reached only
    /// through the atomic completion check, and an unknown status word is
    /// refused.
    pub fn update_goal_space(
        &mut self,
        id: &str,
        name: Option<&str>,
        description: Option<&str>,
        status: Option<&str>,
        now: u64,
    ) -> (r: Result<(), ConductorError>)
        requires
            old(self).wf(),
        ensures
            final(self).wf(),
            r is Err ==> *final(self) == *old(self),
            r is Ok <==> has_goal(old(self).goals@, id@) && (match status {
                Some(s) => spec_parse_goal_status(s@) matches Some(st)
                    && st != GoalStatus::Completed,
                None => true,
            }),
            r is Ok ==> exists|i: int|
                {
                    &&& 0 <= i < old(self).goals@.len()
                    &&& (#[trigger] old(self).goals@[i]).id@ == id@
                    &&& final(self).goals@ == old(self).goals@.update(
                        i,
                        GoalSpace {
                            name: if name is Some {
                                final(self).goals@[i].name
                            } else {
                                old(self).goals@[i].name
                            },
                            description: if description is Some {
                                final(self).goals@[i].description
                            } else {
                                old(self).goals@[i].description
                            },
                            status: match status {
                                Some(s) => spec_parse_goal_status(s@).unwrap(),
                                None => old(self).goals@[i].status,
                            },
                            updated_at: now,
                            ..old(self).goals@[i]
                        },
                    )
                    &&& (name matches Some(n) ==> final(self).goals@[i].name@ == n@)
                    &&& (description matches Some(d) ==> final(self).goals@[i].description@ == d@)
                    &&& final(self).tasks@ == old(self).tasks@
                    &&& final(self).runs@ == old(self).runs@
                    &&& final(self).events@ == old(self).events@
                    &&& final(self).history@ == old(self).history@
                },
    {
        let i = match self.goal_index(id) {
            Some(i) => i,
            None => {
                return Err(ConductorError::NotFound(String::from_str("goal not found")));
            },
        };
        let new_status: Option<GoalStatus> = match status {
            Some(s) => match parse_goal_status(s) {
                Some(GoalStatus::Completed) => {
                    return Err(
                        ConductorError::Validation(
                            String::from_str(
                                "a goal becomes completed only when every task is done",
                            ),
                        ),
                    );
                },
                Some(st) => Some(st),
                None => {
                    return Err(
                        ConductorError::Validation(String::from_str("unknown goal status")),
                    );
                },
            },
            None => None,
        };
        let g = &mut self.goals[i];
        if let Some(n) = name {
            g.name = String::from_str(n);
        }
        if let Some(d) = description {
            g.description = String::from_str(d);
        }
        if let Some(st) = new_status {
            g.status = st;
        }
        g.updated_at = now;
        proof {
            let gv = self.goals@[i as int];
            assert(self.goals@ =~= old(self).goals@.update(i as int, gv));
            assert forall|k: int|
                0 <= k < self.goals@.len() && (#[trigger] self.goals@[k]).status
                    == GoalStatus::Completed implies old(self).goals@[k].status
                == GoalStatus::Completed by {
                if k == i {
                    match new_status {
                        Some(st) => {
                            assert(gv.status == st && st != GoalStatus::Completed);
                        },
                        None => {
                            assert(gv.status == old(self).goals@[k].status);
                        },
                    }
                }
            }
            lemma_wf_goals_updated(*old(self), *self);
        }
        Ok(())
    }

    /// Replace a goal's settings.
    pub fn update_goal_settings(&mut self, id: &str, settings: &GoalSettings, now: u64) -> (r:
        Result<(), ConductorError>)
        requires
            old(self).wf(),
        ensures
            final(self).wf(),
            r is Err ==> *final(self) == *old(self) && !has_goal(old(self).goals@, id@),
            r is Ok <==> has_goal(old(self).goals@, id@),
            r is Ok ==> exists|i: int|
                {
                    &&& 0 <= i < old(self).goals@.len()
                    &&& (#[trigger] old(self).goals@[i]).id@ == id@
                    &&& final(self).goals@ == old(self).goals@.update(
                        i,
                        GoalSpace {
                            settings: final(self).goals@[i].settings,
                            updated_at: now,
                            ..old(self).goals@[i]
                        },
                    )
                    &&& final(self).goals@[i].settings@ == settings@
                    &&& final(self).tasks@ == old(self).tasks@
                    &&& final(self).runs@ == old(self).runs@
                    &&& final(self).events@ == old(self).events@
                    &&& final(self).history@ == old(self).history@
                },
    {
        let i = match self.goal_index(id) {
            Some(i) => i,
            None => {
                return Err(ConductorError::NotFound(String::from_str("goal not found")));
            },
        };
        let g = &mut self.goals[i];
        g.settings = settings.duplicate();
        g.updated_at = now;
        proof {
            let gv = self.goals@[i as int];
            assert(self.goals@ =~= old(self).goals@.update(i as int, gv));
            lemma_wf_goals_updated(*old(self), *self);
        }
        Ok(())
    }

    /// Archive a goal (a soft delete).  Archiving an unknown id changes
    /// nothing and is not an error.
    pub fn delete_goal_space(&mut self, id: &str, now: u64)
        requires
            old(self).wf(),
        ensures
            final(self).wf(),
            !has_goal(old(self).goals@, id@) ==> *final(self) == *old(self),
            has_goal(old(self).goals@, id@) ==> exists|i: int|
                {
                    &&& 0 <= i < old(self).goals@.len()
                    &&& (#[trigger] old(self).goals@[i]).id@ == id@
                    &&& final(self).goals@ == old(self).goals@.update(
                        i,
                        GoalSpace {
                            status: GoalStatus::Archived,
                            updated_at: now,
                            ..old(self).goals@[i]
                        },
                    )
                    &&& final(self).tasks@ == old(self).tasks@
                    &&& final(self).runs@ == old(self).runs@
                    &&& final(self).events@ == old(self).events@
                    &&& final(self).history@ == old(self).history@
                },
    {
        let i = match self.goal_index(id) {
            Some(i) => i,
            None => {
                return ;
            },
        };
        let g = &mut self.goals[i];
        g.status = GoalStatus::Archived;
        g.updated_at = now;
        proof {
            let gv = self.goals@[i as int];
            assert(self.goals@ =~= old(self).goals@.update(i as int, gv));
            lemma_wf_goals_updated(*old(self), *self);
        }
    }

    /// Mark a goal `completed` exactly when it exists, is not already
    /// completed, has at least one task, and every task is done; say
    /// whether that happened.  This is the only way a goal becomes
    /// completed, and it is one atomic store operation.
    pub fn mark_goal_completed_if_all_tasks_done(&mut self, goal_space_id: &str, now: u64) -> (r:
        bool)
        requires
            old(self).wf(),
        ensures
            final(self).wf(),
            r <==> (exists|i: int|
                0 <= i < old(self).goals@.len() && (#[trigger] old(self).goals@[i]).id@
                    == goal_space_id@ && old(self).goals@[i].status != GoalStatus::Completed)
                && all_tasks_done(old(self).tasks@, goal_space_id@),
            !r ==> *final(self) == *old(self),
            r ==> exists|i: int|
                {
                    &&& 0 <= i < old(self).goals@.len()
                    &&& (#[trigger] old(self).goals@[i]).id@ == goal_space_id@
                    &&& final(self).goals@ == old(self).goals@.update(
                        i,
                        GoalSpace {
                            status: GoalStatus::Completed,
                            updated_at: now,
                            ..old(self).goals@[i]
                        },
                    )
                    &&& final(self).tasks@ == old(self).tasks@
                    &&& final(self).runs@ == old(self).runs@
                    &&& final(self).events@ == old(self).events@
                    &&& final(self).history@ == old(self).history@
                },
    {
        let i = match self.goal_index(goal_space_id) {
            Some(i) => i,
            None => {
                return false;
            },
        };
        if matches!(self.goals[i].status, GoalStatus::Completed) {
            return false;
        }
        // every task of the goal must be done, and there must be one
        let mut seen_any: bool = false;
        let mut k: usize = 0;
        while k < self.tasks.len()
            invariant
                old(self).wf(),
                *self == *old(self),
                k <= self.tasks@.len(),
                seen_any <==> exists|j: int|
                    0 <= j < k && (#[trigger] self.tasks@[j]).goal_space_id@ == goal_space_id@,
                forall|j: int|
                    0 <= j < k && (#[trigger] self.tasks@[j]).goal_space_id@ == goal_space_id@
                        ==> self.tasks@[j].status == TaskStatus::Done,
            decreases self.tasks@.len() - k,
        {
            if str_eq(self.tasks[k].goal_space_id.as_str(), goal_space_id) {
                seen_any = true;
                if !matches!(self.tasks[k].status, TaskStatus::Done) {
                    return false;
                }
            }
            k = k + 1;
        }
        if !seen_any {
            return false;
        }
        let ghost done_goal = self.goals@[i as int].id@;
        proof {
            assert(all_tasks_done(self.tasks@, done_goal));
        }
        let g = &mut self.goals[i];
        g.status = GoalStatus::Completed;
        g.updated_at = now;
        proof {
            let gv = self.goals@[i as int];
            assert(self.goals@ =~= old(self).goals@.update(i as int, gv));
            lemma_wf_goals_updated(*old(self), *self);
        }
        true
    }

    /// Run the atomic completion check and, when the goal completed,
    /// append a `goal_completed` history line.
    pub fn check_goal_completion(&mut self, goal_space_id: &str, now: u64) -> (r: bool)
        requires
            old(self).wf(),
        ensures
            final(self).wf(),
            r <==> (exists|i: int|
                0 <= i < old(self).goals@.len() && (#[trigger] old(self).goals@[i]).id@
                    == goal_space_id@ && old(self).goals@[i].status != GoalStatus::Completed)
                && all_tasks_done(old(self).tasks@, goal_space_id@),
            !r ==> *final(self) == *old(self),
            r ==> has_goal(final(self).goals@, goal_space_id@) && (forall|i: int|
                0 <= i < final(self).goals@.len() && (#[trigger] final(self).goals@[i]).id@ == goal_space_id@
                    ==> final(self).goals@[i].status == GoalStatus::Completed)
                && final(self).history@.len() == old(self).history@.len() + 1
                && final(self).history@.last().event_type@ == "goal_completed"@
                && final(self).tasks@ == old(self).tasks@ && final(self).runs@ == old(self).runs@
                && final(self).events@ == old(self).events@,
    {
        let done = self.mark_goal_completed_if_all_tasks_done(goal_space_id, now);
        if done {
            self.history.push(
                GoalHistory {
                    goal_space_id: String::from_str(goal_space_id),
                    event_type: String::from_str("goal_completed"),
                    description: String::from_str("All tasks completed"),
                    metadata: None,
                    created_at: now,
                },
            );
            proof {
                assert(self.history@.drop_last() =~= old(self).history@);
                assert forall|i: int|
                    0 <= i < self.history@.len() implies has_goal(
                    self.goals@,
                    (#[trigger] self.history@[i]).goal_space_id@,
                ) by {
                    if i == self.history@.len() - 1 {
                        let k = choose|k: int|
                            0 <= k < old(self).goals@.len() && (#[trigger] old(self).goals@[k]).id@ == goal_space_id@ && old(self).goals@[k].status
                                != GoalStatus::Completed;
                        assert(self.goals@[k].id@ == goal_space_id@);
                    }
                }
                assert forall|i: int|
                    0 <= i < self.goals@.len() && (#[trigger] self.goals@[i]).id@
                        == goal_space_id@ implies self.goals@[i].status
                    == GoalStatus::Completed by {
                    let k = choose|k: int|
                        0 <= k < old(self).goals@.len() && (#[trigger] old(self).goals@[k]).id@
                            == goal_space_id@ && old(self).goals@[k].status
                            != GoalStatus::Completed;
                    if i != k {
                        assert(old(self).goals@[i].id@ == old(self).goals@[k].id@);
                    }
                }
            }
        }
        done
    }
}


/// Whether a dependency graph is free of cycles: no node's
/// prerequisites walk back to it.
pub open spec fn graph_acyclic(g: Seq<(Seq<char>, Seq<Seq<char>>)>) -> bool {
    forall|i: int| 0 <= i < g.len() ==> !spec_reaches(g, (#[trigger] g[i]).1, g[i].0)
}

/// Check a whole edge list for cycles.
fn check_graph_acyclic(pairs: &Vec<(String, Vec<String>)>) -> (r: bool)
    ensures
        r == graph_acyclic(graph_view(pairs@)),
{
    let ghost g = graph_view(pairs@);
    let mut i: usize = 0;
    while i < pairs.len()
        invariant
            i <= pairs@.len(),
            g == graph_view(pairs@),
            forall|j: int| 0 <= j < i ==> !spec_reaches(g, (#[trigger] g[j]).1, g[j].0),
        decreases pairs@.len() - i,
    {
        if has_cycle(pairs[i].0.as_str(), &pairs[i].1, pairs.as_slice()) {
            assert(spec_reaches(g, g[i as int].1, g[i as int].0));
            return false;
        }
        i = i + 1;
    }
    true
}

impl Store {
    /// The edge list of all tasks, with the entry for `replace_id` (when
    /// given) carrying `replace_deps` instead of its stored
    /// prerequisites, and one extra entry appended (when given).
    fn build_graph(
        &self,
        replace_id: Option<&str>,
        replace_deps: Option<&Vec<String>>,
        extra: Option<(&str, &Vec<String>)>,
    ) -> (r: Vec<(String, Vec<String>)>)
        requires
            replace_id is Some <==> replace_deps is Some,
        ensures
            graph_view(r@) == {
                let base = self.tasks@.map_values(
                    |t: Task|
                        (
                            t.id@,
                            match (replace_id, replace_deps) {
                                (Some(rid), Some(rd)) => if t.id@ == rid@ {
                                    str_views(rd@)
                                } else {
                                    str_views(t.depends_on@)
                                },
                                _ => str_views(t.depends_on@),
                            },
                        ),
                );
                match extra {
                    Some((xid, xdeps)) => base.push((xid@, str_views(xdeps@))),
                    None => base,
                }
            },
    {
        let ghost target = {
            let base = self.tasks@.map_values(
                |t: Task|
                    (
                        t.id@,
                        match (replace_id, replace_deps) {
                            (Some(rid), Some(rd)) => if t.id@ == rid@ {
                                str_views(rd@)
                            } else {
                                str_views(t.depends_on@)
                            },
                            _ => str_views(t.depends_on@),
                        },
                    ),
            );
            match extra {
                Some((xid, xdeps)) => base.push((xid@, str_views(xdeps@))),
                None => base,
            }
        };
        let mut out: Vec<(String, Vec<String>)> = Vec::new();
        let mut i: usize = 0;
        while i < self.tasks.len()
            invariant
                i <= self.tasks@.len(),
                replace_id is Some <==> replace_deps is Some,
                out@.len() == i,
                forall|j: int|
                    0 <= j < i ==> (#[trigger] out@[j]).0@ == self.tasks@[j].id@,
                forall|j: int|
                    0 <= j < i ==> str_views((#[trigger] out@[j]).1@) == (match (
                        replace_id,
                        replace_deps,
                    ) {
                        (Some(rid), Some(rd)) => if self.tasks@[j].id@ == rid@ {
                            str_views(rd@)
                        } else {
                            str_views(self.tasks@[j].depends_on@)
                        },
                        _ => str_views(self.tasks@[j].depends_on@),
                    }),
            decreases self.tasks@.len() - i,
        {
            let t = &self.tasks[i];
            let deps: Vec<String> = match (replace_id, replace_deps) {
                (Some(rid), Some(rd)) => {
                    if str_eq(t.id.as_str(), rid) {
                        clone_strings(rd)
                    } else {
                        clone_strings(&t.depends_on)
                    }
                },
                _ => clone_strings(&t.depends_on),
            };
            out.push((t.id.clone(), deps));
            i = i + 1;
        }
        match extra {
            Some((xid, xdeps)) => {
                out.push((String::from_str(xid), clone_strings(xdeps)));
            },
            None => {},
        }
        proof {
            assert(graph_view(out@) =~= target);
        }
        out
    }

    /// Whether every id in `deps` names a task of the given goal.
    fn deps_in_goal_check(&self, goal_space_id: &str, deps: &Vec<String>) -> (r: bool)
        requires
            forall|i: int, j: int|
                0 <= i < j < self.tasks@.len() ==> (#[trigger] self.tasks@[i]).id@ != (
                #[trigger] self.tasks@[j]).id@,
        ensures
            r == deps_all_in_goal(self.tasks@, deps@, goal_space_id@),
    {
        let mut d: usize = 0;
        while d < deps.len()
            invariant
                d <= deps@.len(),
                forall|i: int, j: int|
                    0 <= i < j < self.tasks@.len() ==> (#[trigger] self.tasks@[i]).id@ != (
                    #[trigger] self.tasks@[j]).id@,
                forall|j: int|
                    0 <= j < d ==> dep_targets_goal(
                        self.tasks@,
                        (#[trigger] deps@[j])@,
                        goal_space_id@,
                    ),
            decreases deps@.len() - d,
        {
            match self.task_index(deps[d].as_str()) {
                Some(u) => {
                    if !str_eq(self.tasks[u].goal_space_id.as_str(), goal_space_id) {
                        proof {
                            assert forall|v: int|
                                0 <= v < self.tasks@.len() && (#[trigger] self.tasks@[v]).id@
                                    == deps@[d as int]@ implies v == u as int by {
                                if v < u as int {
                                    assert(self.tasks@[v].id@ != self.tasks@[u as int].id@);
                                } else if v > u as int {
                                    assert(self.tasks@[u as int].id@ != self.tasks@[v].id@);
                                }
                            }
                            assert(!dep_targets_goal(
                                self.tasks@,
                                deps@[d as int]@,
                                goal_space_id@,
                            ));
                        }
                        return false;
                    }
                    proof {
                        assert(self.tasks@[u as int].id@ == deps@[d as int]@);
                        assert(dep_targets_goal(self.tasks@, deps@[d as int]@, goal_space_id@));
                    }
                },
                None => {
                    proof {
                        assert(!dep_targets_goal(self.tasks@, deps@[d as int]@, goal_space_id@));
                    }
                    return false;
                },
            }
            d = d + 1;
        }
        true
    }

    /// Create a task with the given fresh id in the given goal.  The call
    /// is refused when the goal is unknown, the goal is already
    /// completed, the id is taken, a prerequisite does not name a task of
    /// the same goal, or the new dependency graph would have a cycle;
    /// otherwise the task is appended as `pending` and a `task_added`
    /// history line is written.
    #[verifier::spinoff_prover]
    pub fn create_task(&mut self, goal_space_id: &str, id: String, input: CreateTask, now: u64)
        -> (r: Result<(), ConductorError>)
        requires
            old(self).wf(),
        ensures
            final(self).wf(),
            r is Err ==> final(self).goals@ == old(self).goals@ && final(self).tasks@ == old(self).tasks@ && final(self).runs@ == old(self).runs@ && final(self).events@ == old(self).events@ && final(self).history@ == old(self).history@,
            r is Ok <==> {
                &&& has_goal(old(self).goals@, goal_space_id@)
                &&& (forall|i: int|
                    0 <= i < old(self).goals@.len() && (#[trigger] old(self).goals@[i]).id@
                        == goal_space_id@ ==> old(self).goals@[i].status
                        != GoalStatus::Completed)
                &&& !has_task(old(self).tasks@, id@)
                &&& deps_all_in_goal(old(self).tasks@, input.depends_on@, goal_space_id@)
                &&& graph_acyclic(
                    task_graph(old(self).tasks@).push((id@, str_views(input.depends_on@))),
                )
            },
            r is Ok ==> {
                &&& final(self).tasks@.len() == old(self).tasks@.len() + 1
                &&& final(self).tasks@.drop_last() == old(self).tasks@
                &&& final(self).tasks@.last().id@ == id@
                &&& final(self).tasks@.last().goal_space_id@ == goal_space_id@
                &&& final(self).tasks@.last().title@ == input.title@
                &&& final(self).tasks@.last().description@ == input.description@
                &&& final(self).tasks@.last().status == TaskStatus::Pending
                &&& final(self).tasks@.last().priority == input.priority
                &&& str_views(final(self).tasks@.last().depends_on@) == str_views(
                    input.depends_on@,
                )
                &&& final(self).tasks@.last().settings@ == input.settings@
                &&& final(self).tasks@.last().created_at == now
                &&& final(self).tasks@.last().updated_at == now
                &&& final(self).goals@ == old(self).goals@
                &&& final(self).runs@ == old(self).runs@
                &&& final(self).events@ == old(self).events@
                &&& final(self).history@.len() == old(self).history@.len() + 1
                &&& final(self).history@.drop_last() == old(self).history@
                &&& final(self).history@.last().event_type@ == "task_added"@
            },
    {
        let gi = match self.goal_index(goal_space_id) {
            Some(i) => i,
            None => {
                return Err(ConductorError::NotFound(String::from_str("goal not found")));
            },
        };
        if matches!(self.goals[gi].status, GoalStatus::Completed) {
            proof {
                assert forall|i: int|
                    0 <= i < self.goals@.len() && (#[trigger] self.goals@[i]).id@
                        == goal_space_id@ implies self.goals@[i].status
                    == GoalStatus::Completed by {
                    if i != gi {
                        assert(self.goals@[i].id@ == self.goals@[gi as int].id@);
                    }
                }
            }
            return Err(
                ConductorError::Validation(
                    String::from_str("the goal is completed; new tasks are not accepted"),
                ),
            );
        }
        match self.task_index(id.as_str()) {
            Some(ti) => {
                proof {
                    assert(has_task(self.tasks@, id@));
                }
                return Err(
                    ConductorError::Validation(String::from_str("task id already exists")),
                );
            },
            None => {},
        }
        if !self.deps_in_goal_check(goal_space_id, &input.depends_on) {
            return Err(
                ConductorError::Validation(
                    String::from_str("a prerequisite does not name a task of this goal"),
                ),
            );
        }
        let pairs = self.build_graph(None, None, Some((id.as_str(), &input.depends_on)));
        let ghost candidate = task_graph(self.tasks@).push((id@, str_views(input.depends_on@)));
        proof {
            assert(graph_view(pairs@) =~= candidate);
        }
        if !check_graph_acyclic(&pairs) {
            return Err(
                ConductorError::Validation(
                    String::from_str("these prerequisites would close a dependency cycle"),
                ),
            );
        }
        let mut descr = String::from_str("Task '");
        descr.append(input.title.as_str());
        descr.append("' added");
        let tid = id.clone();
        let task = Task {
            id,
            goal_space_id: String::from_str(goal_space_id),
            title: input.title,
            description: input.description,
            status: TaskStatus::Pending,
            priority: input.priority,
            depends_on: input.depends_on,
            settings: input.settings,
            created_at: now,
            updated_at: now,
        };
        self.tasks.push(task);
        self.history.push(
            GoalHistory {
                goal_space_id: String::from_str(goal_space_id),
                event_type: String::from_str("task_added"),
                description: descr,
                metadata: None,
                created_at: now,
            },
        );
        proof {
            assert(self.tasks@.drop_last() =~= old(self).tasks@);
            assert(self.history@.drop_last() =~= old(self).history@);
            assert(task_graph(self.tasks@) =~= candidate);
            lemma_wf_after_task_push(*old(self), *self, gi as int);
        }
        Ok(())
    }

    /// Fetch a task by id.
    pub fn get_task(&self, id: &str) -> (r: Option<&Task>)
        ensures
            match r {
                Some(t) => has_task(self.tasks@, id@) && exists|i: int|
                    0 <= i < self.tasks@.len() && self.tasks@[i] == *t && t.id@ == id@,
                None => !has_task(self.tasks@, id@),
            },
    {
        match self.task_index(id) {
            Some(i) => {
                let t = &self.tasks[i];
                proof {
                    assert(self.tasks@[i as int] == *t);
                }
                Some(t)
            },
            None => None,
        }
    }
}

/// Pushing a fresh task keeps the store well-formed, given the checks
/// that guard task creation.
proof fn lemma_wf_after_task_push(pre: Store, post: Store, gi: int)
    requires
        pre.wf(),
        post.goals@ == pre.goals@,
        post.runs@ == pre.runs@,
        post.events@ == pre.events@,
        post.tasks@.len() == pre.tasks@.len() + 1,
        post.tasks@.drop_last() == pre.tasks@,
        post.history@.len() == pre.history@.len() + 1,
        post.history@.drop_last() == pre.history@,
        0 <= gi < pre.goals@.len(),
        pre.goals@[gi].id@ == post.tasks@.last().goal_space_id@,
        pre.goals@[gi].status != GoalStatus::Completed,
        post.history@.last().goal_space_id@ == post.tasks@.last().goal_space_id@,
        post.tasks@.last().status == TaskStatus::Pending,
        !has_task(pre.tasks@, post.tasks@.last().id@),
        deps_all_in_goal(
            pre.tasks@,
            post.tasks@.last().depends_on@,
            post.tasks@.last().goal_space_id@,
        ),
        graph_acyclic(task_graph(post.tasks@)),
    ensures
        post.wf(),
{
    let n = pre.tasks@.len() as int;
    assert forall|i: int, j: int|
        0 <= i < j < post.tasks@.len() implies (#[trigger] post.tasks@[i]).id@ != (
    #[trigger] post.tasks@[j]).id@ by {
        if j < n {
            assert(pre.tasks@[i].id@ != pre.tasks@[j].id@);
        } else {
            assert(post.tasks@[i] == pre.tasks@[i]);
            assert(!has_task(pre.tasks@, post.tasks@.last().id@));
        }
    }
    assert forall|i: int|
        0 <= i < post.tasks@.len() implies has_goal(
        post.goals@,
        (#[trigger] post.tasks@[i]).goal_space_id@,
    ) by {
        if i < n {
            assert(has_goal(pre.goals@, pre.tasks@[i].goal_space_id@));
        } else {
            assert(post.goals@[gi].id@ == post.tasks@[i].goal_space_id@);
        }
    }
    assert forall|i: int|
        0 <= i < post.runs@.len() implies has_task(post.tasks@, (#[trigger] post.runs@[i]).task_id@)
        && has_goal(post.goals@, post.runs@[i].goal_space_id@) by {
        let u = choose|u: int|
            0 <= u < pre.tasks@.len() && (#[trigger] pre.tasks@[u]).id@ == pre.runs@[i].task_id@;
        assert(post.tasks@[u].id@ == post.runs@[i].task_id@);
    }
    assert forall|i: int|
        0 <= i < post.history@.len() implies has_goal(
        post.goals@,
        (#[trigger] post.history@[i]).goal_space_id@,
    ) by {
        if i < pre.history@.len() {
            assert(post.history@[i] == pre.history@[i]);
            assert(has_goal(pre.goals@, pre.history@[i].goal_space_id@));
        } else {
            assert(post.goals@[gi].id@ == post.history@[i].goal_space_id@);
        }
    }
    assert forall|i: int|
        0 <= i < post.tasks@.len() implies deps_in_goal(#[trigger] post.tasks@[i], post.tasks@) by {
        let t = post.tasks@[i];
        let pre_ok: bool = if i < n {
            deps_in_goal(pre.tasks@[i], pre.tasks@)
        } else {
            deps_all_in_goal(pre.tasks@, t.depends_on@, t.goal_space_id@)
        };
        if i < n {
            assert(post.tasks@[i] == pre.tasks@[i]);
            assert(deps_in_goal(pre.tasks@[i], pre.tasks@));
        }
        assert(deps_all_in_goal(pre.tasks@, t.depends_on@, t.goal_space_id@));
        assert forall|d: int|
            0 <= d < t.depends_on@.len() implies dep_targets_goal(
            post.tasks@,
            (#[trigger] t.depends_on@[d])@,
            t.goal_space_id@,
        ) by {
            assert(dep_targets_goal(pre.tasks@, t.depends_on@[d]@, t.goal_space_id@));
            let u = choose|u: int|
                0 <= u < pre.tasks@.len() && (#[trigger] pre.tasks@[u]).id@ == t.depends_on@[d]@
                    && pre.tasks@[u].goal_space_id@ == t.goal_space_id@;
            assert(post.tasks@[u] == pre.tasks@[u]);
        }
    }
    assert(acyclic(post.tasks@)) by {
        assert forall|i: int|
            0 <= i < post.tasks@.len() implies !spec_reaches(
            task_graph(post.tasks@),
            str_views((#[trigger] post.tasks@[i]).depends_on@),
            post.tasks@[i].id@,
        ) by {
            assert(task_graph(post.tasks@)[i].1 == str_views(post.tasks@[i].depends_on@));
            assert(task_graph(post.tasks@)[i].0 == post.tasks@[i].id@);
            assert(!spec_reaches(
                task_graph(post.tasks@),
                task_graph(post.tasks@)[i].1,
                task_graph(post.tasks@)[i].0,
            ));
        }
    }
    assert forall|i: int|
        0 <= i < post.goals@.len() && (#[trigger] post.goals@[i]).status == GoalStatus::Completed
        implies all_tasks_done(post.tasks@, post.goals@[i].id@) by {
        assert(all_tasks_done(pre.tasks@, pre.goals@[i].id@));
        let w = choose|w: int|
            0 <= w < pre.tasks@.len() && (#[trigger] pre.tasks@[w]).goal_space_id@
                == pre.goals@[i].id@;
        assert(post.tasks@[w].goal_space_id@ == post.goals@[i].id@);
        assert forall|k: int|
            0 <= k < post.tasks@.len() && (#[trigger] post.tasks@[k]).goal_space_id@
                == post.goals@[i].id@ implies post.tasks@[k].status == TaskStatus::Done by {
            if k < pre.tasks@.len() {
                assert(post.tasks@[k] == pre.tasks@[k]);
            } else {
                // the new task's goal is not completed, so it is not this goal
                if i == gi {
                    assert(false);
                } else {
                    assert(pre.goals@[i].id@ != pre.goals@[gi].id@);
                    assert(false);
                }
            }
        }
    }
}


/// Every status name parses back to its status.
#[verifier::rlimit(50)]
pub proof fn lemma_status_name_parses(st: TaskStatus)
    ensures
        spec_parse_task_status(crate::status::spec_task_status_name(st)) == Some(st),
{
    reveal_strlit("pending");
    reveal_strlit("assigned");
    reveal_strlit("running");
    reveal_strlit("stalled");
    reveal_strlit("done");
    reveal_strlit("failed");
    reveal_strlit("killed");
    reveal_strlit("blocked");
    assert("pending"@.len() == 7 && "assigned"@.len() == 8 && "running"@.len() == 7 && "stalled"@.len() == 7 && "done"@.len() == 4 && "failed"@.len() == 6 && "killed"@.len() == 6 && "blocked"@.len() == 7);
    assert("pending"@[0] == 'p' && "running"@[0] == 'r' && "stalled"@[0] == 's' && "blocked"@[0] == 'b' && "failed"@[0] == 'f' && "killed"@[0] == 'k');
}

/// Updating one task's fields keeps the store well-formed, given the
/// checks that guard a task update.
proof fn lemma_wf_after_task_update(pre: Store, post: Store, i: int)
    requires
        pre.wf(),
        post.goals@ == pre.goals@,
        post.runs@ == pre.runs@,
        post.events@ == pre.events@,
        post.history@ == pre.history@,
        post.tasks@.len() == pre.tasks@.len(),
        0 <= i < pre.tasks@.len(),
        forall|k: int| 0 <= k < pre.tasks@.len() && k != i ==> post.tasks@[k] == pre.tasks@[k],
        post.tasks@[i].id@ == pre.tasks@[i].id@,
        post.tasks@[i].goal_space_id@ == pre.tasks@[i].goal_space_id@,
        deps_all_in_goal(
            pre.tasks@,
            post.tasks@[i].depends_on@,
            post.tasks@[i].goal_space_id@,
        ),
        graph_acyclic(task_graph(post.tasks@)),
        crate::status::spec_task_transition_ok(pre.tasks@[i].status, post.tasks@[i].status),
    ensures
        post.wf(),
{
    assert forall|a: int, b: int|
        0 <= a < b < post.tasks@.len() implies (#[trigger] post.tasks@[a]).id@ != (
    #[trigger] post.tasks@[b]).id@ by {
        assert(pre.tasks@[a].id@ != pre.tasks@[b].id@);
        assert(post.tasks@[a].id@ == pre.tasks@[a].id@);
        assert(post.tasks@[b].id@ == pre.tasks@[b].id@);
    }
    assert forall|k: int|
        0 <= k < post.tasks@.len() implies has_goal(
        post.goals@,
        (#[trigger] post.tasks@[k]).goal_space_id@,
    ) by {
        assert(post.tasks@[k].goal_space_id@ == pre.tasks@[k].goal_space_id@);
        assert(has_goal(pre.goals@, pre.tasks@[k].goal_space_id@));
    }
    assert forall|k: int|
        0 <= k < post.runs@.len() implies has_task(post.tasks@, (#[trigger] post.runs@[k]).task_id@)
        && has_goal(post.goals@, post.runs@[k].goal_space_id@) by {
        let u = choose|u: int|
            0 <= u < pre.tasks@.len() && (#[trigger] pre.tasks@[u]).id@ == pre.runs@[k].task_id@;
        assert(post.tasks@[u].id@ == pre.tasks@[u].id@);
    }
    assert forall|k: int|
        0 <= k < post.tasks@.len() implies deps_in_goal(#[trigger] post.tasks@[k], post.tasks@) by {
        let t = post.tasks@[k];
        if k != i {
            assert(deps_in_goal(pre.tasks@[k], pre.tasks@));
        }
        assert(deps_all_in_goal(pre.tasks@, t.depends_on@, t.goal_space_id@));
        assert forall|d: int|
            0 <= d < t.depends_on@.len() implies dep_targets_goal(
            post.tasks@,
            (#[trigger] t.depends_on@[d])@,
            t.goal_space_id@,
        ) by {
            assert(dep_targets_goal(pre.tasks@, t.depends_on@[d]@, t.goal_space_id@));
            let u = choose|u: int|
                0 <= u < pre.tasks@.len() && (#[trigger] pre.tasks@[u]).id@ == t.depends_on@[d]@
                    && pre.tasks@[u].goal_space_id@ == t.goal_space_id@;
            assert(post.tasks@[u].id@ == pre.tasks@[u].id@ && post.tasks@[u].goal_space_id@
                == pre.tasks@[u].goal_space_id@);
        }
    }
    assert(acyclic(post.tasks@)) by {
        assert forall|k: int|
            0 <= k < post.tasks@.len() implies !spec_reaches(
            task_graph(post.tasks@),
            str_views((#[trigger] post.tasks@[k]).depends_on@),
            post.tasks@[k].id@,
        ) by {
            assert(task_graph(post.tasks@)[k].1 == str_views(post.tasks@[k].depends_on@));
            assert(task_graph(post.tasks@)[k].0 == post.tasks@[k].id@);
            assert(!spec_reaches(
                task_graph(post.tasks@),
                task_graph(post.tasks@)[k].1,
                task_graph(post.tasks@)[k].0,
            ));
        }
    }
    assert forall|g: int|
        0 <= g < post.goals@.len() && (#[trigger] post.goals@[g]).status == GoalStatus::Completed
        implies all_tasks_done(post.tasks@, post.goals@[g].id@) by {
        assert(pre.goals@[g].status == GoalStatus::Completed);
        assert(all_tasks_done(pre.tasks@, pre.goals@[g].id@));
        let w = choose|w: int|
            0 <= w < pre.tasks@.len() && (#[trigger] pre.tasks@[w]).goal_space_id@
                == pre.goals@[g].id@;
        assert(post.tasks@[w].goal_space_id@ == post.goals@[g].id@);
        assert forall|k: int|
            0 <= k < post.tasks@.len() && (#[trigger] post.tasks@[k]).goal_space_id@
                == post.goals@[g].id@ implies post.tasks@[k].status == TaskStatus::Done by {
            assert(pre.tasks@[k].goal_space_id@ == post.tasks@[k].goal_space_id@);
            assert(pre.tasks@[k].status == TaskStatus::Done);
            if k == i {
                // a done task may only stay done
                assert(crate::status::spec_task_transition_ok(
                    TaskStatus::Done,
                    post.tasks@[i].status,
                ));
            }
        }
    }
}

impl Store {
    /// Update a task's fields.  A status change must follow the task
    /// state machine; a prerequisite change must keep every prerequisite
    /// in the task's goal and the dependency graph acyclic; any other
    /// field changes freely.  The update timestamp moves on success.
    #[verifier::spinoff_prover]
    pub fn update_task(&mut self, id: &str, input: &UpdateTask, now: u64) -> (r: Result<
        (),
        ConductorError,
    >)
        requires
            old(self).wf(),
        ensures
            final(self).wf(),
            r is Err ==> final(self).goals@ == old(self).goals@ && final(self).tasks@ == old(self).tasks@ && final(self).runs@ == old(self).runs@ && final(self).events@ == old(self).events@ && final(self).history@ == old(self).history@,
            r is Ok <==> exists|i: int|
                {
                    &&& 0 <= i < old(self).tasks@.len()
                    &&& (#[trigger] old(self).tasks@[i]).id@ == id@
                    &&& (match input.status {
                        Some(s) => spec_transition_valid(
                            crate::status::spec_task_status_name(old(self).tasks@[i].status),
                            s@,
                        ),
                        None => true,
                    })
                    &&& (match input.depends_on {
                        Some(nd) => deps_all_in_goal(
                            old(self).tasks@,
                            nd@,
                            old(self).tasks@[i].goal_space_id@,
                        ) && graph_acyclic(
                            task_graph(old(self).tasks@).update(
                                i,
                                (old(self).tasks@[i].id@, str_views(nd@)),
                            ),
                        ),
                        None => true,
                    })
                },
            r is Ok ==> exists|i: int|
                {
                    &&& 0 <= i < old(self).tasks@.len()
                    &&& (#[trigger] old(self).tasks@[i]).id@ == id@
                    &&& final(self).tasks@.len() == old(self).tasks@.len()
                    &&& (forall|k: int|
                        0 <= k < old(self).tasks@.len() && k != i ==> final(self).tasks@[k]
                            == old(self).tasks@[k])
                    &&& final(self).tasks@[i].id@ == id@
                    &&& final(self).tasks@[i].goal_space_id@ == old(self).tasks@[i].goal_space_id@
                    &&& final(self).tasks@[i].created_at == old(self).tasks@[i].created_at
                    &&& final(self).tasks@[i].updated_at == now
                    &&& final(self).tasks@[i].title@ == (match input.title {
                        Some(t) => t@,
                        None => old(self).tasks@[i].title@,
                    })
                    &&& final(self).tasks@[i].description@ == (match input.description {
                        Some(d) => d@,
                        None => old(self).tasks@[i].description@,
                    })
                    &&& final(self).tasks@[i].status == (match input.status {
                        Some(s) => spec_parse_task_status(s@).unwrap(),
                        None => old(self).tasks@[i].status,
                    })
                    &&& final(self).tasks@[i].priority == (match input.priority {
                        Some(p) => p,
                        None => old(self).tasks@[i].priority,
                    })
                    &&& str_views(final(self).tasks@[i].depends_on@) == (match input
                        .depends_on {
                        Some(nd) => str_views(nd@),
                        None => str_views(old(self).tasks@[i].depends_on@),
                    })
                    &&& final(self).tasks@[i].settings@ == (match input.settings {
                        Some(s) => s@,
                        None => old(self).tasks@[i].settings@,
                    })
                    &&& final(self).goals@ == old(self).goals@
                    &&& final(self).runs@ == old(self).runs@
                    &&& final(self).events@ == old(self).events@
                    &&& final(self).history@ == old(self).history@
                },
    {
        let i = match self.task_index(id) {
            Some(i) => i,
            None => {
                return Err(ConductorError::NotFound(String::from_str("task not found")));
            },
        };
        proof {
            assert forall|k: int|
                0 <= k < self.tasks@.len() && (#[trigger] self.tasks@[k]).id@ == id@
                implies k == i as int by {
                if k < i as int {
                    assert(self.tasks@[k].id@ != self.tasks@[i as int].id@);
                } else if k > i as int {
                    assert(self.tasks@[i as int].id@ != self.tasks@[k].id@);
                }
            }
        }
        // a status change must follow the state machine
        let new_status: Option<TaskStatus> = match &input.status {
            Some(s) => {
                let cur = self.tasks[i].status;
                match validate_transition(cur.as_str(), s.as_str()) {
                    Ok(()) => {},
                    Err(e) => {
                        return Err(e);
                    },
                }
                match parse_task_status(s.as_str()) {
                    Some(st) => Some(st),
                    None => {
                        proof {
                            lemma_status_name_parses(cur);
                        }
                        return Err(
                            ConductorError::Validation(String::from_str("unknown task status")),
                        );
                    },
                }
            },
            None => None,
        };
        // a prerequisite change must stay within the goal, without cycles
        let ghost old_graph = task_graph(self.tasks@);
        match &input.depends_on {
            Some(nd) => {
                let gid = self.tasks[i].goal_space_id.clone();
                if !self.deps_in_goal_check(gid.as_str(), nd) {
                    return Err(
                        ConductorError::Validation(
                            String::from_str(
                                "a prerequisite does not name a task of this goal",
                            ),
                        ),
                    );
                }
                let tid = self.tasks[i].id.clone();
                let pairs = self.build_graph(Some(tid.as_str()), Some(nd), None);
                proof {
                    assert(graph_view(pairs@) =~= old_graph.update(
                        i as int,
                        (self.tasks@[i as int].id@, str_views(nd@)),
                    )) by {
                        assert forall|k: int|
                            0 <= k < old_graph.len() implies graph_view(pairs@)[k]
                            == old_graph.update(
                            i as int,
                            (self.tasks@[i as int].id@, str_views(nd@)),
                        )[k] by {
                            if k != i as int {
                                assert(self.tasks@[k].id@ != self.tasks@[i as int].id@);
                            }
                        }
                    }
                }
                if !check_graph_acyclic(&pairs) {
                    return Err(
                        ConductorError::Validation(
                            String::from_str(
                                "these prerequisites would close a dependency cycle",
                            ),
                        ),
                    );
                }
            },
            None => {},
        }
        // commit
        let t = &mut self.tasks[i];
        match &input.title {
            Some(x) => {
                t.title = x.clone();
            },
            None => {},
        }
        match &input.description {
            Some(x) => {
                t.description = x.clone();
            },
            None => {},
        }
        match new_status {
            Some(st) => {
                t.status = st;
            },
            None => {},
        }
        match input.priority {
            Some(p) => {
                t.priority = p;
            },
            None => {},
        }
        match &input.depends_on {
            Some(nd) => {
                t.depends_on = clone_strings(nd);
            },
            None => {},
        }
        match &input.settings {
            Some(s) => {
                t.settings = s.duplicate();
            },
            None => {},
        }
        t.updated_at = now;
        proof {
            if input.depends_on is None {
                assert(task_graph(self.tasks@) =~= old_graph);
                assert(deps_all_in_goal(
                    old(self).tasks@,
                    self.tasks@[i as int].depends_on@,
                    self.tasks@[i as int].goal_space_id@,
                ));
            } else {
                assert(task_graph(self.tasks@) =~= old_graph.update(
                    i as int,
                    (old(self).tasks@[i as int].id@, str_views(
                        self.tasks@[i as int].depends_on@,
                    )),
                ));
            }
            lemma_status_name_parses(old(self).tasks@[i as int].status);
            assert(crate::status::spec_task_transition_ok(
                old(self).tasks@[i as int].status,
                self.tasks@[i as int].status,
            ));
            lemma_wf_after_task_update(*old(self), *self, i as int);
        }
        Ok(())
    }
}


/// Whether `dep` names a task that is done.
pub open spec fn dep_done(tasks: Seq<Task>, dep: Seq<char>) -> bool {
    exists|u: int|
        0 <= u < tasks.len() && (#[trigger] tasks[u]).id@ == dep && tasks[u].status
            == TaskStatus::Done
}

/// Whether every one of `deps` names a done task.
#[verifier::opaque]
pub open spec fn all_deps_done(tasks: Seq<Task>, deps: Seq<String>) -> bool {
    forall|d: int| 0 <= d < deps.len() ==> dep_done(tasks, (#[trigger] deps[d])@)
}

/// Whether a task is ready for dispatch: pending, with every
/// prerequisite done.
pub open spec fn spec_unblocked(t: Task, tasks: Seq<Task>) -> bool {
    t.status == TaskStatus::Pending && all_deps_done(tasks, t.depends_on@)
}

/// How many elements of a sequence satisfy a predicate.
pub open spec fn count_if<A>(s: Seq<A>, p: spec_fn(A) -> bool) -> int
    decreases s.len(),
{
    if s.len() == 0 {
        0
    } else {
        count_if(s.drop_last(), p) + if p(s.last()) {
            1int
        } else {
            0int
        }
    }
}

/// A saturating sum of micro-dollar amounts.
pub open spec fn cost_sum_sat(runs: Seq<AgentRun>) -> u64
    decreases runs.len(),
{
    if runs.len() == 0 {
        0u64
    } else {
        let rest = cost_sum_sat(runs.drop_last());
        if rest + runs.last().cost_micros > u64::MAX {
            u64::MAX
        } else {
            (rest + runs.last().cost_micros) as u64
        }
    }
}

/// Whether a run is stale: live in the store but not among the ids the
/// running process knows.
pub open spec fn spec_stale(r: AgentRun, live: Seq<Seq<char>>) -> bool {
    !r.status.spec_terminal() && !live.contains(r.id@)
}


/// Whether a run of task references is ordered by priority, highest
/// first.
pub open spec fn refs_sorted(s: Seq<&Task>) -> bool {
    forall|a: int, b: int|
        0 <= a < b < s.len() ==> (#[trigger] s[a]).priority >= (#[trigger] s[b]).priority
}

/// Inserting an element between its larger and smaller neighbours keeps
/// the run ordered.
proof fn lemma_sorted_insert(prev: Seq<&Task>, p: int, t: &Task)
    requires
        0 <= p <= prev.len(),
        refs_sorted(prev),
        forall|k: int| p <= k < prev.len() ==> (#[trigger] prev[k]).priority < t.priority,
        p > 0 ==> prev[p - 1].priority >= t.priority,
    ensures
        refs_sorted(prev.insert(p, t)),
{
    let cur = prev.insert(p, t);
    assert(forall|k: int| 0 <= k < p ==> cur[k] == prev[k]);
    assert(forall|k: int| p < k < cur.len() ==> cur[k] == prev[k - 1]);
    assert(cur[p] == t);
    assert forall|a: int, b: int|
        0 <= a < b < cur.len() implies (#[trigger] cur[a]).priority >= (
    #[trigger] cur[b]).priority by {
        if b < p {
            assert(cur[a] == prev[a] && cur[b] == prev[b]);
        } else if a > p {
            assert(cur[a] == prev[a - 1] && cur[b] == prev[b - 1]);
        } else if a < p && b > p {
            assert(cur[a] == prev[a] && cur[b] == prev[b - 1]);
        } else if b == p {
            assert(cur[a] == prev[a]);
            assert(prev[a].priority >= prev[p - 1].priority);
        } else {
            assert(a == p && b > p);
            assert(cur[b] == prev[b - 1]);
        }
    }
}

/// Order task references by priority, highest first.  The result is a
/// rearrangement of the input.
fn sort_by_priority<'a>(v: Vec<&'a Task>) -> (r: Vec<&'a Task>)
    ensures
        r@.to_multiset() == v@.to_multiset(),
        refs_sorted(r@),
{
    let mut out: Vec<&Task> = Vec::new();
    let mut i: usize = 0;
    proof {
        assert(v@.take(0) =~= Seq::<&Task>::empty());
        out@.to_multiset_ensures();
        v@.take(0).to_multiset_ensures();
        assert(out@.to_multiset() =~= v@.take(0).to_multiset());
    }
    while i < v.len()
        invariant
            i <= v@.len(),
            out@.to_multiset() == v@.take(i as int).to_multiset(),
            refs_sorted(out@),
        decreases v@.len() - i,
    {
        let ghost prev = out@;
        let mut pos: usize = out.len();
        while pos > 0 && out[pos - 1].priority < v[i].priority
            invariant
                i < v@.len(),
                pos <= out@.len(),
                out@ == prev,
                forall|k: int|
                    pos <= k < out@.len() ==> (#[trigger] out@[k]).priority < v@[i as int].priority,
            decreases pos,
        {
            pos = pos - 1;
        }
        out.insert(pos, v[i]);
        proof {
            lemma_sorted_insert(prev, pos as int, v@[i as int]);
            // the multiset gains exactly the new element
            let p = pos as int;
            assert(prev.take(p).push(v@[i as int]) + prev.skip(p) == out@);
            lemma_multiset_commutative(prev.take(p).push(v@[i as int]), prev.skip(p));
            lemma_multiset_commutative(prev.take(p), prev.skip(p));
            prev.take(p).to_multiset_ensures();
            assert(prev.take(p) + prev.skip(p) =~= prev);
            assert(out@.to_multiset() =~= prev.to_multiset().insert(v@[i as int]));
            assert(v@.take(i + 1).drop_last() =~= v@.take(i as int));
            assert(v@.take(i as int).push(v@[i as int]) =~= v@.take(i + 1));
            v@.take(i as int).to_multiset_ensures();
            assert(v@.take(i + 1).to_multiset() =~= v@.take(i as int).to_multiset().insert(
                v@[i as int],
            ));
        }
        i = i + 1;
    }
    proof {
        assert(v@.take(i as int) =~= v@);
    }
    out
}


/// Whether every prerequisite in `deps` names a done task of `tasks`.
fn deps_done_in(tasks: &Vec<Task>, deps: &Vec<String>) -> (r: bool)
    requires
        forall|i: int, j: int|
            0 <= i < j < tasks@.len() ==> (#[trigger] tasks@[i]).id@ != (
            #[trigger] tasks@[j]).id@,
    ensures
        r == all_deps_done(tasks@, deps@),
{
    proof {
        reveal(all_deps_done);
    }
    let mut d: usize = 0;
    while d < deps.len()
        invariant
            d <= deps@.len(),
            forall|i: int, j: int|
                0 <= i < j < tasks@.len() ==> (#[trigger] tasks@[i]).id@ != (
                #[trigger] tasks@[j]).id@,
            forall|j: int| 0 <= j < d ==> dep_done(tasks@, (#[trigger] deps@[j])@),
        decreases deps@.len() - d,
    {
        let mut u: usize = 0;
        let mut found: bool = false;
        while !found && u < tasks.len()
            invariant
                u <= tasks@.len(),
                d < deps@.len(),
                found ==> dep_done(tasks@, deps@[d as int]@),
                !found ==> forall|v: int|
                    0 <= v < u ==> (#[trigger] tasks@[v]).id@ != deps@[d as int]@,
                forall|i: int, j: int|
                    0 <= i < j < tasks@.len() ==> (#[trigger] tasks@[i]).id@ != (
                    #[trigger] tasks@[j]).id@,
            decreases tasks@.len() - u, (if found { 0int } else { 1int }),
        {
            if str_eq(tasks[u].id.as_str(), deps[d].as_str()) {
                if !matches!(tasks[u].status, TaskStatus::Done) {
                    proof {
                        assert forall|v: int|
                            0 <= v < tasks@.len() && (#[trigger] tasks@[v]).id@
                                == deps@[d as int]@ implies v == u as int by {
                            if v < u as int {
                                assert(tasks@[v].id@ != tasks@[u as int].id@);
                            } else if v > u as int {
                                assert(tasks@[u as int].id@ != tasks@[v].id@);
                            }
                        }
                        assert(!dep_done(tasks@, deps@[d as int]@));
                        reveal(all_deps_done);
                    }
                    return false;
                }
                proof {
                    assert(tasks@[u as int].id@ == deps@[d as int]@);
                    assert(dep_done(tasks@, deps@[d as int]@));
                }
                found = true;
            } else {
                u = u + 1;
            }
        }
        if !found {
            proof {
                assert(!dep_done(tasks@, deps@[d as int]@));
                reveal(all_deps_done);
            }
            return false;
        }
        d = d + 1;
    }
    proof {
        reveal(all_deps_done);
    }
    true
}


impl Store {
    /// The tasks of a goal, in store order.
    fn collect_goal_tasks(&self, goal_space_id: &str) -> (r: Vec<&Task>)
        ensures
            forall|k: int|
                0 <= k < r@.len() ==> (#[trigger] r@[k]).goal_space_id@ == goal_space_id@ && (
                exists|j: int| 0 <= j < self.tasks@.len() && self.tasks@[j] == *r@[k]),
            forall|j: int|
                0 <= j < self.tasks@.len() && (#[trigger] self.tasks@[j]).goal_space_id@
                    == goal_space_id@ ==> exists|k: int|
                    0 <= k < r@.len() && *(#[trigger] r@[k]) == self.tasks@[j],
    {
        let mut out: Vec<&Task> = Vec::new();
        let mut i: usize = 0;
        while i < self.tasks.len()
            invariant
                i <= self.tasks@.len(),
                forall|k: int|
                    0 <= k < out@.len() ==> (#[trigger] out@[k]).goal_space_id@
                        == goal_space_id@ && (exists|j: int|
                        0 <= j < self.tasks@.len() && self.tasks@[j] == *out@[k]),
                forall|j: int|
                    0 <= j < i && (#[trigger] self.tasks@[j]).goal_space_id@ == goal_space_id@
                        ==> exists|k: int|
                        0 <= k < out@.len() && *(#[trigger] out@[k]) == self.tasks@[j],
            decreases self.tasks@.len() - i,
        {
            let ghost prev = out@;
            if str_eq(self.tasks[i].goal_space_id.as_str(), goal_space_id) {
                out.push(&self.tasks[i]);
                proof {
                    assert(self.tasks@[i as int] == *out@[out@.len() - 1]);
                    assert forall|j: int|
                        0 <= j < i + 1 && (#[trigger] self.tasks@[j]).goal_space_id@
                            == goal_space_id@ implies exists|k: int|
                        0 <= k < out@.len() && *(#[trigger] out@[k]) == self.tasks@[j] by {
                        if j < i {
                            let k = choose|k: int|
                                0 <= k < prev.len() && *(#[trigger] prev[k]) == self.tasks@[j];
                            assert(*out@[k] == self.tasks@[j]);
                        } else {
                            assert(*out@[out@.len() - 1] == self.tasks@[j]);
                        }
                    }
                }
            }
            i = i + 1;
        }
        out
    }

    /// List the tasks of a goal, highest priority first.
    #[verifier::spinoff_prover]
    pub fn list_tasks(&self, goal_space_id: &str) -> (r: Vec<&Task>)
        ensures
            forall|k: int|
                0 <= k < r@.len() ==> (#[trigger] r@[k]).goal_space_id@ == goal_space_id@ && (
                exists|j: int| 0 <= j < self.tasks@.len() && self.tasks@[j] == *r@[k]),
            forall|j: int|
                0 <= j < self.tasks@.len() && (#[trigger] self.tasks@[j]).goal_space_id@
                    == goal_space_id@ ==> exists|k: int| 0 <= k < r@.len() && *r@[k]
                    == self.tasks@[j],
            forall|k1: int, k2: int|
                0 <= k1 < k2 < r@.len() ==> (#[trigger] r@[k1]).priority >= (
                #[trigger] r@[k2]).priority,
    {
        let picked = self.collect_goal_tasks(goal_space_id);
        let ghost src = picked@;
        let sorted = sort_by_priority(picked);
        proof {
            src.to_multiset_ensures();
            sorted@.to_multiset_ensures();
            assert forall|k: int|
                0 <= k < sorted@.len() implies (#[trigger] sorted@[k]).goal_space_id@
                == goal_space_id@ && (exists|j: int|
                0 <= j < self.tasks@.len() && self.tasks@[j] == *sorted@[k]) by {
                assert(sorted@.to_multiset().count(sorted@[k]) > 0);
                assert(src.contains(sorted@[k]));
                let j = choose|j: int| 0 <= j < src.len() && src[j] == sorted@[k];
                assert(src[j].goal_space_id@ == goal_space_id@);
            }
            assert forall|j: int|
                0 <= j < self.tasks@.len() && (#[trigger] self.tasks@[j]).goal_space_id@
                    == goal_space_id@ implies exists|k: int|
                0 <= k < sorted@.len() && *sorted@[k] == self.tasks@[j] by {
                let a = choose|a: int| 0 <= a < src.len() && *(#[trigger] src[a]) == self.tasks@[j];
                assert(src.contains(src[a]));
                assert(sorted@.to_multiset().count(src[a]) > 0);
                assert(sorted@.contains(src[a]));
                let k = choose|k: int| 0 <= k < sorted@.len() && sorted@[k] == src[a];
                assert(*sorted@[k] == self.tasks@[j]);
            }
        }
        sorted
    }

    /// Whether every prerequisite of `deps` names a done task.
    fn deps_done_check(&self, deps: &Vec<String>) -> (r: bool)
        requires
            forall|i: int, j: int|
                0 <= i < j < self.tasks@.len() ==> (#[trigger] self.tasks@[i]).id@ != (
                #[trigger] self.tasks@[j]).id@,
        ensures
            r == all_deps_done(self.tasks@, deps@),
    {
        proof {
            reveal(all_deps_done);
        }
        let mut d: usize = 0;
        while d < deps.len()
            invariant
                d <= deps@.len(),
                forall|i: int, j: int|
                    0 <= i < j < self.tasks@.len() ==> (#[trigger] self.tasks@[i]).id@ != (
                    #[trigger] self.tasks@[j]).id@,
                forall|j: int| 0 <= j < d ==> dep_done(self.tasks@, (#[trigger] deps@[j])@),
            decreases deps@.len() - d,
        {
            match self.task_index(deps[d].as_str()) {
                Some(u) => {
                    if !matches!(self.tasks[u].status, TaskStatus::Done) {
                        proof {
                            assert forall|v: int|
                                0 <= v < self.tasks@.len() && (#[trigger] self.tasks@[v]).id@
                                    == deps@[d as int]@ implies v == u as int by {
                                if v < u as int {
                                    assert(self.tasks@[v].id@ != self.tasks@[u as int].id@);
                                } else if v > u as int {
                                    assert(self.tasks@[u as int].id@ != self.tasks@[v].id@);
                                }
                            }
                            assert(!dep_done(self.tasks@, deps@[d as int]@));
                            reveal(all_deps_done);
                        }
                        return false;
                    }
                    proof {
                        assert(self.tasks@[u as int].id@ == deps@[d as int]@);
                        assert(dep_done(self.tasks@, deps@[d as int]@));
                    }
                },
                None => {
                    proof {
                        assert(!dep_done(self.tasks@, deps@[d as int]@));
                        reveal(all_deps_done);
                    }
                    return false;
                },
            }
            d = d + 1;
        }
        proof {
            reveal(all_deps_done);
        }
        true
    }

    /// The tasks of a goal that are ready for dispatch, in store order.
    fn collect_unblocked(&self, goal_space_id: &str) -> (r: Vec<&Task>)
        requires
            forall|i: int, j: int|
                0 <= i < j < self.tasks@.len() ==> (#[trigger] self.tasks@[i]).id@ != (
                #[trigger] self.tasks@[j]).id@,
        ensures
            forall|k: int|
                0 <= k < r@.len() ==> (#[trigger] r@[k]).goal_space_id@ == goal_space_id@
                    && spec_unblocked(*r@[k], self.tasks@) && (exists|j: int|
                    0 <= j < self.tasks@.len() && self.tasks@[j] == *r@[k]),
            forall|j: int|
                0 <= j < self.tasks@.len() && (#[trigger] self.tasks@[j]).goal_space_id@
                    == goal_space_id@ && spec_unblocked(self.tasks@[j], self.tasks@)
                    ==> exists|k: int|
                    0 <= k < r@.len() && *(#[trigger] r@[k]) == self.tasks@[j],
    {
        let mut out: Vec<&Task> = Vec::new();
        let mut i: usize = 0;
        while i < self.tasks.len()
            invariant
                i <= self.tasks@.len(),
                forall|a: int, b: int|
                    0 <= a < b < self.tasks@.len() ==> (#[trigger] self.tasks@[a]).id@ != (
                    #[trigger] self.tasks@[b]).id@,
                forall|k: int|
                    0 <= k < out@.len() ==> (#[trigger] out@[k]).goal_space_id@
                        == goal_space_id@ && spec_unblocked(*out@[k], self.tasks@) && (exists|
                        j: int,
                    | 0 <= j < self.tasks@.len() && self.tasks@[j] == *out@[k]),
                forall|j: int|
                    0 <= j < i && (#[trigger] self.tasks@[j]).goal_space_id@ == goal_space_id@
                        && spec_unblocked(self.tasks@[j], self.tasks@) ==> exists|k: int|
                        0 <= k < out@.len() && *(#[trigger] out@[k]) == self.tasks@[j],
            decreases self.tasks@.len() - i,
        {
            let ghost prev = out@;
            let t = &self.tasks[i];
            let goal_matches = str_eq(t.goal_space_id.as_str(), goal_space_id);
            let is_pending = matches!(t.status, TaskStatus::Pending);
            if goal_matches && is_pending && deps_done_in(&self.tasks, &t.depends_on) {
                out.push(t);
                proof {
                    assert(self.tasks@[i as int] == *out@[out@.len() - 1]);
                    assert forall|j: int|
                        0 <= j < i + 1 && (#[trigger] self.tasks@[j]).goal_space_id@
                            == goal_space_id@ && spec_unblocked(self.tasks@[j], self.tasks@)
                        implies exists|k: int|
                        0 <= k < out@.len() && *(#[trigger] out@[k]) == self.tasks@[j] by {
                        if j < i {
                            let k = choose|k: int|
                                0 <= k < prev.len() && *(#[trigger] prev[k]) == self.tasks@[j];
                            assert(*out@[k] == self.tasks@[j]);
                        } else {
                            assert(*out@[out@.len() - 1] == self.tasks@[j]);
                        }
                    }
                }
            } else {
                proof {
                    assert(!(self.tasks@[i as int].goal_space_id@ == goal_space_id@
                        && spec_unblocked(self.tasks@[i as int], self.tasks@)));
                }
            }
            i = i + 1;
        }
        out
    }

    /// The tasks of a goal that are ready for dispatch — exactly the
    /// pending tasks of the goal whose prerequisites are all done —
    /// highest priority first.
    pub fn get_unblocked_tasks(&self, goal_space_id: &str) -> (r: Vec<&Task>)
        requires
            forall|i: int, j: int|
                0 <= i < j < self.tasks@.len() ==> (#[trigger] self.tasks@[i]).id@ != (
                #[trigger] self.tasks@[j]).id@,
        ensures
            forall|k: int|
                0 <= k < r@.len() ==> (#[trigger] r@[k]).goal_space_id@ == goal_space_id@
                    && spec_unblocked(*r@[k], self.tasks@) && (exists|j: int|
                    0 <= j < self.tasks@.len() && self.tasks@[j] == *r@[k]),
            forall|j: int|
                0 <= j < self.tasks@.len() && (#[trigger] self.tasks@[j]).goal_space_id@
                    == goal_space_id@ && spec_unblocked(self.tasks@[j], self.tasks@)
                    ==> exists|k: int|
                    0 <= k < r@.len() && *(#[trigger] r@[k]) == self.tasks@[j],
            forall|k1: int, k2: int|
                0 <= k1 < k2 < r@.len() ==> (#[trigger] r@[k1]).priority >= (
                #[trigger] r@[k2]).priority,
    {
        let picked = self.collect_unblocked(goal_space_id);
        let ghost src = picked@;
        let sorted = sort_by_priority(picked);
        proof {
            src.to_multiset_ensures();
            sorted@.to_multiset_ensures();
            assert forall|k: int|
                0 <= k < sorted@.len() implies (#[trigger] sorted@[k]).goal_space_id@
                == goal_space_id@ && spec_unblocked(*sorted@[k], self.tasks@) && (exists|j: int|
                0 <= j < self.tasks@.len() && self.tasks@[j] == *sorted@[k]) by {
                assert(sorted@.to_multiset().count(sorted@[k]) > 0);
                assert(src.contains(sorted@[k]));
                let j = choose|j: int| 0 <= j < src.len() && src[j] == sorted@[k];
                assert(src[j].goal_space_id@ == goal_space_id@);
            }
            assert forall|j: int|
                0 <= j < self.tasks@.len() && (#[trigger] self.tasks@[j]).goal_space_id@
                    == goal_space_id@ && spec_unblocked(self.tasks@[j], self.tasks@)
                implies exists|k: int|
                0 <= k < sorted@.len() && *(#[trigger] sorted@[k]) == self.tasks@[j] by {
                let a = choose|a: int| 0 <= a < src.len() && *(#[trigger] src[a]) == self.tasks@[j];
                assert(src.contains(src[a]));
                assert(sorted@.to_multiset().count(src[a]) > 0);
                assert(sorted@.contains(src[a]));
                let k = choose|k: int| 0 <= k < sorted@.len() && sorted@[k] == src[a];
                assert(*sorted@[k] == self.tasks@[j]);
            }
        }
        sorted
    }

    // ── Agent runs ──

    /// Create an agent run for a task, in `spawning`.  The call is
    /// refused when the task or goal is unknown, the id is taken, or the
    /// task already has a live run; an `agent_spawned` history line is
    /// written on success.
    #[verifier::spinoff_prover]
    pub fn create_agent_run(
        &mut self,
        task_id: &str,
        goal_space_id: &str,
        id: String,
        worktree_path: Option<&str>,
        branch: Option<&str>,
        model: &str,
        max_budget_micros: Option<u64>,
        now: u64,
    ) -> (r: Result<(), ConductorError>)
        requires
            old(self).wf(),
        ensures
            final(self).wf(),
            r is Err ==> final(self).goals@ == old(self).goals@ && final(self).tasks@ == old(self).tasks@ && final(self).runs@ == old(self).runs@ && final(self).events@ == old(self).events@ && final(self).history@ == old(self).history@,
            r is Ok <==> {
                &&& has_task(old(self).tasks@, task_id@)
                &&& has_goal(old(self).goals@, goal_space_id@)
                &&& !has_run(old(self).runs@, id@)
                &&& (forall|j: int|
                    0 <= j < old(self).runs@.len() && (#[trigger] old(self).runs@[j]).task_id@
                        == task_id@ ==> old(self).runs@[j].status.spec_terminal())
            },
            r is Ok ==> {
                &&& final(self).runs@.len() == old(self).runs@.len() + 1
                &&& final(self).runs@.drop_last() == old(self).runs@
                &&& final(self).runs@.last().id@ == id@
                &&& final(self).runs@.last().task_id@ == task_id@
                &&& final(self).runs@.last().goal_space_id@ == goal_space_id@
                &&& final(self).runs@.last().status == AgentStatus::Spawning
                &&& final(self).runs@.last().model@ == model@
                &&& final(self).runs@.last().cost_micros == 0
                &&& final(self).runs@.last().input_tokens == 0
                &&& final(self).runs@.last().output_tokens == 0
                &&& final(self).runs@.last().max_budget_micros == max_budget_micros
                &&& final(self).runs@.last().started_at == now
                &&& final(self).runs@.last().last_activity_at is None
                &&& final(self).runs@.last().finished_at is None
                &&& final(self).runs@.last().claude_session_id is None
                &&& (match worktree_path {
                    Some(w) => final(self).runs@.last().worktree_path matches Some(x) && x@
                        == w@,
                    None => final(self).runs@.last().worktree_path is None,
                })
                &&& (match branch {
                    Some(b) => final(self).runs@.last().branch matches Some(x) && x@ == b@,
                    None => final(self).runs@.last().branch is None,
                })
                &&& final(self).goals@ == old(self).goals@
                &&& final(self).tasks@ == old(self).tasks@
                &&& final(self).events@ == old(self).events@
                &&& final(self).history@.len() == old(self).history@.len() + 1
                &&& final(self).history@.drop_last() == old(self).history@
                &&& final(self).history@.last().event_type@ == "agent_spawned"@
            },
    {
        if self.task_index(task_id).is_none() {
            return Err(ConductorError::NotFound(String::from_str("task not found")));
        }
        if self.goal_index(goal_space_id).is_none() {
            return Err(ConductorError::NotFound(String::from_str("goal not found")));
        }
        match self.run_index(id.as_str()) {
            Some(_) => {
                proof {
                    assert(has_run(self.runs@, id@));
                }
                return Err(
                    ConductorError::Validation(String::from_str("agent run id already exists")),
                );
            },
            None => {},
        }
        let mut j: usize = 0;
        while j < self.runs.len()
            invariant
                old(self).wf(),
                *self == *old(self),
                j <= self.runs@.len(),
                forall|k: int|
                    0 <= k < j && (#[trigger] self.runs@[k]).task_id@ == task_id@
                        ==> self.runs@[k].status.spec_terminal(),
            decreases self.runs@.len() - j,
        {
            if str_eq(self.runs[j].task_id.as_str(), task_id) && !self.runs[j].status.is_terminal()
            {
                return Err(
                    ConductorError::Validation(
                        String::from_str("the task already has a live agent run"),
                    ),
                );
            }
            j = j + 1;
        }
        let mut descr = String::from_str("Agent ");
        descr.append(id.as_str());
        descr.append(" spawned for task ");
        descr.append(task_id);
        let rid = id.clone();
        self.runs.push(
            AgentRun {
                id,
                task_id: String::from_str(task_id),
                goal_space_id: String::from_str(goal_space_id),
                claude_session_id: None,
                worktree_path: match worktree_path {
                    Some(w) => Some(String::from_str(w)),
                    None => None,
                },
                branch: match branch {
                    Some(b) => Some(String::from_str(b)),
                    None => None,
                },
                status: AgentStatus::Spawning,
                model: String::from_str(model),
                cost_micros: 0,
                input_tokens: 0,
                output_tokens: 0,
                max_budget_micros,
                started_at: now,
                last_activity_at: None,
                finished_at: None,
            },
        );
        self.history.push(
            GoalHistory {
                goal_space_id: String::from_str(goal_space_id),
                event_type: String::from_str("agent_spawned"),
                description: descr,
                metadata: None,
                created_at: now,
            },
        );
        proof {
            assert(self.runs@.drop_last() =~= old(self).runs@);
            assert(self.history@.drop_last() =~= old(self).history@);
            let n = old(self).runs@.len() as int;
            assert forall|a: int, b: int|
                0 <= a < b < self.runs@.len() implies (#[trigger] self.runs@[a]).id@ != (
            #[trigger] self.runs@[b]).id@ by {
                if b < n {
                    assert(old(self).runs@[a].id@ != old(self).runs@[b].id@);
                } else {
                    assert(self.runs@[a] == old(self).runs@[a]);
                    assert(!has_run(old(self).runs@, self.runs@.last().id@));
                }
            }
            assert forall|a: int, b: int|
                0 <= a < b < self.runs@.len() && (#[trigger] self.runs@[a]).task_id@ == (
            #[trigger] self.runs@[b]).task_id@ implies self.runs@[a].status.spec_terminal()
                || self.runs@[b].status.spec_terminal() by {
                if b < n {
                    assert(self.runs@[a] == old(self).runs@[a]);
                    assert(self.runs@[b] == old(self).runs@[b]);
                } else {
                    assert(self.runs@[a] == old(self).runs@[a]);
                }
            }
            assert forall|k: int|
                0 <= k < self.runs@.len() implies has_task(
                self.tasks@,
                (#[trigger] self.runs@[k]).task_id@,
            ) && has_goal(self.goals@, self.runs@[k].goal_space_id@) by {
                if k < n {
                    assert(self.runs@[k] == old(self).runs@[k]);
                }
            }
            assert forall|k: int|
                0 <= k < self.events@.len() implies has_run(
                self.runs@,
                (#[trigger] self.events@[k]).agent_run_id@,
            ) by {
                let u = choose|u: int|
                    0 <= u < old(self).runs@.len() && (#[trigger] old(self).runs@[u]).id@
                        == self.events@[k].agent_run_id@;
                assert(self.runs@[u].id@ == self.events@[k].agent_run_id@);
            }
            assert forall|k: int|
                0 <= k < self.history@.len() implies has_goal(
                self.goals@,
                (#[trigger] self.history@[k]).goal_space_id@,
            ) by {
                if k < old(self).history@.len() {
                    assert(self.history@[k] == old(self).history@[k]);
                }
            }
        }
        Ok(())
    }

    /// Fetch a run by id.
    pub fn get_agent_run(&self, id: &str) -> (r: Option<&AgentRun>)
        ensures
            match r {
                Some(a) => has_run(self.runs@, id@) && exists|i: int|
                    0 <= i < self.runs@.len() && self.runs@[i] == *a && a.id@ == id@,
                None => !has_run(self.runs@, id@),
            },
    {
        match self.run_index(id) {
            Some(i) => {
                let a = &self.runs[i];
                proof {
                    assert(self.runs@[i as int] == *a);
                }
                Some(a)
            },
            None => None,
        }
    }

    /// List all runs, most recently started first.
    pub fn list_agent_runs(&self) -> (r: Vec<&AgentRun>)
        ensures
            r@.len() == self.runs@.len(),
            forall|i: int|
                0 <= i < r@.len() ==> *(#[trigger] r@[i]) == self.runs@[self.runs@.len() - 1 - i],
    {
        let mut out: Vec<&AgentRun> = Vec::new();
        let mut i: usize = self.runs.len();
        while i > 0
            invariant
                i <= self.runs@.len(),
                out@.len() == self.runs@.len() - i,
                forall|k: int|
                    0 <= k < out@.len() ==> *(#[trigger] out@[k]) == self.runs@[
                        self.runs@.len() - 1 - k
                    ],
            decreases i,
        {
            i = i - 1;
            out.push(&self.runs[i]);
        }
        out
    }

    /// List the live (non-terminal) runs, most recently started first.
    pub fn list_active_agent_runs(&self) -> (r: Vec<&AgentRun>)
        ensures
            forall|k: int|
                0 <= k < r@.len() ==> !(#[trigger] r@[k]).status.spec_terminal() && (exists|
                    j: int,
                | 0 <= j < self.runs@.len() && self.runs@[j] == *r@[k]),
            forall|j: int|
                0 <= j < self.runs@.len() && !(#[trigger] self.runs@[j]).status.spec_terminal()
                    ==> exists|k: int| 0 <= k < r@.len() && *r@[k] == self.runs@[j],
    {
        let mut out: Vec<&AgentRun> = Vec::new();
        let mut i: usize = self.runs.len();
        while i > 0
            invariant
                i <= self.runs@.len(),
                forall|k: int|
                    0 <= k < out@.len() ==> !(#[trigger] out@[k]).status.spec_terminal() && (
                    exists|j: int| 0 <= j < self.runs@.len() && self.runs@[j] == *out@[k]),
                forall|j: int|
                    i <= j < self.runs@.len() && !(
                    #[trigger] self.runs@[j]).status.spec_terminal() ==> exists|k: int|
                        0 <= k < out@.len() && *out@[k] == self.runs@[j],
            decreases i,
        {
            i = i - 1;
            let ghost prev = out@;
            if !self.runs[i].status.is_terminal() {
                out.push(&self.runs[i]);
                proof {
                    assert(self.runs@[i as int] == *out@[out@.len() - 1]);
                    assert forall|j: int|
                        i <= j < self.runs@.len() && !(
                    #[trigger] self.runs@[j]).status.spec_terminal() implies exists|k: int|
                        0 <= k < out@.len() && *out@[k] == self.runs@[j] by {
                        if j > i {
                            let k = choose|k: int|
                                0 <= k < prev.len() && *prev[k] == self.runs@[j];
                            assert(*out@[k] == self.runs@[j]);
                        } else {
                            assert(*out@[out@.len() - 1] == self.runs@[j]);
                        }
                    }
                }
            }
        }
        out
    }

    #[verifier::spinoff_prover]
    #[verifier::rlimit(60)]
    pub fn update_agent_run_status(&mut self, id: &str, status: &str, now: u64) -> (r: Result<
        (),
        ConductorError,
    >)
        requires
            old(self).wf(),
        ensures
            final(self).wf(),
            r is Err ==> final(self).goals@ == old(self).goals@ && final(self).tasks@ == old(self).tasks@ && final(self).runs@ == old(self).runs@ && final(self).events@ == old(self).events@ && final(self).history@ == old(self).history@,
            r is Ok <==> exists|i: int|
                {
                    &&& 0 <= i < old(self).runs@.len()
                    &&& (#[trigger] old(self).runs@[i]).id@ == id@
                    &&& (spec_parse_agent_status(status@) matches Some(st)
                        && spec_agent_transition_ok(old(self).runs@[i].status, st))
                },
            r is Ok ==> exists|i: int|
                {
                    &&& 0 <= i < old(self).runs@.len()
                    &&& (#[trigger] old(self).runs@[i]).id@ == id@
                    &&& final(self).runs@ == old(self).runs@.update(
                        i,
                        AgentRun {
                            status: spec_parse_agent_status(status@).unwrap(),
                            finished_at: if spec_parse_agent_status(
                                status@,
                            ).unwrap().spec_terminal() {
                                Some(now)
                            } else {
                                None
                            },
                            ..old(self).runs@[i]
                        },
                    )
                    &&& final(self).goals@ == old(self).goals@
                    &&& final(self).tasks@ == old(self).tasks@
                    &&& final(self).events@ == old(self).events@
                    &&& final(self).history@ == old(self).history@
                },
    {
        let st = match parse_agent_status(status) {
            Some(st) => st,
            None => {
                return Err(
                    ConductorError::Validation(String::from_str("unknown agent run status")),
                );
            },
        };
        let i = match self.run_index(id) {
            Some(i) => i,
            None => {
                return Err(ConductorError::NotFound(String::from_str("agent run not found")));
            },
        };
        let cur = self.runs[i].status;
        if !crate::status::agent_transition_ok(cur, st) {
            proof {
                assert forall|k: int|
                    0 <= k < self.runs@.len() && (#[trigger] self.runs@[k]).id@ == id@
                    implies k == i as int by {
                    if k < i as int {
                        assert(self.runs@[k].id@ != self.runs@[i as int].id@);
                    } else if k > i as int {
                        assert(self.runs@[i as int].id@ != self.runs@[k].id@);
                    }
                }
            }
            return Err(
                ConductorError::Validation(
                    String::from_str("the agent run state machine forbids this move"),
                ),
            );
        }
        let a = &mut self.runs[i];
        a.status = st;
        if st.is_terminal() {
            a.finished_at = Some(now);
        } else {
            a.finished_at = None;
        }
        proof {
            let av = self.runs@[i as int];
            assert(self.runs@ =~= old(self).runs@.update(i as int, av));
            assert(!cur.spec_terminal());
            assert forall|a2: int, b: int|
                0 <= a2 < b < self.runs@.len() && (#[trigger] self.runs@[a2]).task_id@ == (
            #[trigger] self.runs@[b]).task_id@ implies self.runs@[a2].status.spec_terminal()
                || self.runs@[b].status.spec_terminal() by {
                if a2 != i as int && b != i as int {
                    assert(self.runs@[a2] == old(self).runs@[a2]);
                    assert(self.runs@[b] == old(self).runs@[b]);
                } else {
                    let other = if a2 == i as int {
                        b
                    } else {
                        a2
                    };
                    assert(self.runs@[other] == old(self).runs@[other]);
                    if !st.spec_terminal() {
                        assert(old(self).runs@[other].status.spec_terminal());
                    }
                }
            }
            assert forall|k: int|
                0 <= k < self.runs@.len() implies has_task(
                self.tasks@,
                (#[trigger] self.runs@[k]).task_id@,
            ) && has_goal(self.goals@, self.runs@[k].goal_space_id@) by {
                if k != i as int {
                    assert(self.runs@[k] == old(self).runs@[k]);
                }
            }
            assert forall|k: int|
                0 <= k < self.events@.len() implies has_run(
                self.runs@,
                (#[trigger] self.events@[k]).agent_run_id@,
            ) by {
                let u = choose|u: int|
                    0 <= u < old(self).runs@.len() && (#[trigger] old(self).runs@[u]).id@
                        == self.events@[k].agent_run_id@;
                assert(self.runs@[u].id@ == self.events@[k].agent_run_id@);
            }
        }
        Ok(())
    }
}


/// Per-status task counts for one goal.
#[derive(Debug)]
pub struct GoalSummary {
    pub total: u64,
    pub done: u64,
    pub running: u64,
    pub failed: u64,
    pub pending: u64,
    pub blocked: u64,
}

impl Store {
    /// Count a goal's tasks by status.
    pub fn goal_summary(&self, goal_space_id: &str) -> (r: GoalSummary)
        ensures
            r.total as int == count_if(
                self.tasks@,
                |t: Task| t.goal_space_id@ == goal_space_id@,
            ),
            r.done as int == count_if(
                self.tasks@,
                |t: Task| t.goal_space_id@ == goal_space_id@ && t.status == TaskStatus::Done,
            ),
            r.running as int == count_if(
                self.tasks@,
                |t: Task| t.goal_space_id@ == goal_space_id@ && t.status == TaskStatus::Running,
            ),
            r.failed as int == count_if(
                self.tasks@,
                |t: Task| t.goal_space_id@ == goal_space_id@ && t.status == TaskStatus::Failed,
            ),
            r.pending as int == count_if(
                self.tasks@,
                |t: Task| t.goal_space_id@ == goal_space_id@ && t.status == TaskStatus::Pending,
            ),
            r.blocked as int == count_if(
                self.tasks@,
                |t: Task| t.goal_space_id@ == goal_space_id@ && t.status == TaskStatus::Blocked,
            ),
    {
        let mut out = GoalSummary {
            total: 0,
            done: 0,
            running: 0,
            failed: 0,
            pending: 0,
            blocked: 0,
        };
        let mut i: usize = 0;
        while i < self.tasks.len()
            invariant
                i <= self.tasks@.len(),
                out.total as int == count_if(
                    self.tasks@.take(i as int),
                    |t: Task| t.goal_space_id@ == goal_space_id@,
                ),
                out.done as int == count_if(
                    self.tasks@.take(i as int),
                    |t: Task| t.goal_space_id@ == goal_space_id@ && t.status
                        == TaskStatus::Done,
                ),
                out.running as int == count_if(
                    self.tasks@.take(i as int),
                    |t: Task| t.goal_space_id@ == goal_space_id@ && t.status
                        == TaskStatus::Running,
                ),
                out.failed as int == count_if(
                    self.tasks@.take(i as int),
                    |t: Task| t.goal_space_id@ == goal_space_id@ && t.status
                        == TaskStatus::Failed,
                ),
                out.pending as int == count_if(
                    self.tasks@.take(i as int),
                    |t: Task| t.goal_space_id@ == goal_space_id@ && t.status
                        == TaskStatus::Pending,
                ),
                out.blocked as int == count_if(
                    self.tasks@.take(i as int),
                    |t: Task| t.goal_space_id@ == goal_space_id@ && t.status
                        == TaskStatus::Blocked,
                ),
                out.total <= i,
                out.done <= i,
                out.running <= i,
                out.failed <= i,
                out.pending <= i,
                out.blocked <= i,
            decreases self.tasks@.len() - i,
        {
            proof {
                assert(self.tasks@.take(i + 1).drop_last() =~= self.tasks@.take(i as int));
                assert(self.tasks@.take(i + 1).last() == self.tasks@[i as int]);
            }
            if str_eq(self.tasks[i].goal_space_id.as_str(), goal_space_id) {
                out.total = out.total + 1;
                match self.tasks[i].status {
                    TaskStatus::Done => {
                        out.done = out.done + 1;
                    },
                    TaskStatus::Running => {
                        out.running = out.running + 1;
                    },
                    TaskStatus::Failed => {
                        out.failed = out.failed + 1;
                    },
                    TaskStatus::Pending => {
                        out.pending = out.pending + 1;
                    },
                    TaskStatus::Blocked => {
                        out.blocked = out.blocked + 1;
                    },
                    _ => {},
                }
            }
            i = i + 1;
        }
        proof {
            assert(self.tasks@.take(i as int) =~= self.tasks@);
        }
        out
    }

    /// Append one event to a run's log.  Ids are dense and strictly
    /// increasing in insertion order; the id of the new event is handed
    /// back.
    pub fn insert_agent_event(
        &mut self,
        agent_run_id: &str,
        event_type: &str,
        tool_name: Option<&str>,
        summary: &str,
        raw_json: Option<&str>,
        cost_delta_micros: Option<u64>,
        now: u64,
    ) -> (r: Result<u64, ConductorError>)
        requires
            old(self).wf(),
            old(self).events@.len() < usize::MAX,
        ensures
            final(self).wf(),
            r is Err ==> final(self).goals@ == old(self).goals@ && final(self).tasks@ == old(self).tasks@ && final(self).runs@ == old(self).runs@ && final(self).events@ == old(self).events@ && final(self).history@ == old(self).history@,
            r is Ok <==> has_run(old(self).runs@, agent_run_id@),
            r matches Ok(id) ==> {
                &&& id == old(self).events@.len() + 1
                &&& final(self).events@.len() == old(self).events@.len() + 1
                &&& final(self).events@.drop_last() == old(self).events@
                &&& final(self).events@.last().id == id
                &&& final(self).events@.last().agent_run_id@ == agent_run_id@
                &&& final(self).events@.last().event_type@ == event_type@
                &&& (match tool_name {
                    Some(t) => final(self).events@.last().tool_name matches Some(x) && x@ == t@,
                    None => final(self).events@.last().tool_name is None,
                })
                &&& final(self).events@.last().summary@ == summary@
                &&& (match raw_json {
                    Some(t) => final(self).events@.last().raw_json matches Some(x) && x@ == t@,
                    None => final(self).events@.last().raw_json is None,
                })
                &&& final(self).events@.last().cost_delta_micros == cost_delta_micros
                &&& final(self).events@.last().created_at == now
                &&& final(self).goals@ == old(self).goals@
                &&& final(self).tasks@ == old(self).tasks@
                &&& final(self).runs@ == old(self).runs@
                &&& final(self).history@ == old(self).history@
            },
    {
        if self.run_index(agent_run_id).is_none() {
            return Err(ConductorError::NotFound(String::from_str("agent run not found")));
        }
        let id = self.events.len() as u64 + 1;
        self.events.push(
            AgentEvent {
                id,
                agent_run_id: String::from_str(agent_run_id),
                event_type: String::from_str(event_type),
                tool_name: match tool_name {
                    Some(t) => Some(String::from_str(t)),
                    None => None,
                },
                summary: String::from_str(summary),
                raw_json: match raw_json {
                    Some(t) => Some(String::from_str(t)),
                    None => None,
                },
                cost_delta_micros,
                created_at: now,
            },
        );
        proof {
            assert(self.events@.drop_last() =~= old(self).events@);
            assert forall|k: int|
                0 <= k < self.events@.len() implies (#[trigger] self.events@[k]).id == k + 1 by {
                if k < old(self).events@.len() {
                    assert(self.events@[k] == old(self).events@[k]);
                }
            }
            assert forall|k: int|
                0 <= k < self.events@.len() implies has_run(
                self.runs@,
                (#[trigger] self.events@[k]).agent_run_id@,
            ) by {
                if k < old(self).events@.len() {
                    assert(self.events@[k] == old(self).events@[k]);
                }
            }
        }
        Ok(id)
    }

    /// The events of one run, in ascending id order: exactly the stored
    /// events that name the run, in insertion order, with strictly
    /// increasing ids.
    pub fn list_agent_events(&self, agent_run_id: &str) -> (r: Vec<&AgentEvent>)
        requires
            self.wf(),
        ensures
            forall|a: int|
                0 <= a < r@.len() ==> (#[trigger] r@[a]).agent_run_id@ == agent_run_id@ && (
                exists|j: int| 0 <= j < self.events@.len() && self.events@[j] == *r@[a]),
            forall|j: int|
                0 <= j < self.events@.len() && (#[trigger] self.events@[j]).agent_run_id@
                    == agent_run_id@ ==> exists|a: int|
                    0 <= a < r@.len() && *(#[trigger] r@[a]) == self.events@[j],
            forall|a: int, b: int|
                0 <= a < b < r@.len() ==> (#[trigger] r@[a]).id < (#[trigger] r@[b]).id,
    {
        let mut out: Vec<&AgentEvent> = Vec::new();
        let mut i: usize = 0;
        while i < self.events.len()
            invariant
                self.wf(),
                i <= self.events@.len(),
                forall|a: int|
                    0 <= a < out@.len() ==> (#[trigger] out@[a]).agent_run_id@ == agent_run_id@
                        && (exists|j: int|
                        0 <= j < self.events@.len() && self.events@[j] == *out@[a]),
                forall|j: int|
                    0 <= j < i && (#[trigger] self.events@[j]).agent_run_id@ == agent_run_id@
                        ==> exists|a: int|
                        0 <= a < out@.len() && *(#[trigger] out@[a]) == self.events@[j],
                forall|a: int| 0 <= a < out@.len() ==> (#[trigger] out@[a]).id <= i,
                forall|a: int, b: int|
                    0 <= a < b < out@.len() ==> (#[trigger] out@[a]).id < (
                    #[trigger] out@[b]).id,
            decreases self.events@.len() - i,
        {
            let ghost prev = out@;
            if str_eq(self.events[i].agent_run_id.as_str(), agent_run_id) {
                out.push(&self.events[i]);
                proof {
                    assert(self.events@[i as int] == *out@[out@.len() - 1]);
                    assert(self.events@[i as int].id == i + 1);
                    assert forall|j: int|
                        0 <= j < i + 1 && (#[trigger] self.events@[j]).agent_run_id@
                            == agent_run_id@ implies exists|a: int|
                        0 <= a < out@.len() && *(#[trigger] out@[a]) == self.events@[j] by {
                        if j < i {
                            let a = choose|a: int|
                                0 <= a < prev.len() && *(#[trigger] prev[a]) == self.events@[j];
                            assert(*out@[a] == self.events@[j]);
                        } else {
                            assert(*out@[out@.len() - 1] == self.events@[j]);
                        }
                    }
                }
            }
            i = i + 1;
        }
        out
    }

    /// Write one line of a goal's audit trail.
    pub fn insert_goal_history(
        &mut self,
        goal_space_id: &str,
        event_type: &str,
        description: &str,
        metadata: Option<&str>,
        now: u64,
    ) -> (r: Result<(), ConductorError>)
        requires
            old(self).wf(),
        ensures
            final(self).wf(),
            r is Err ==> final(self).goals@ == old(self).goals@ && final(self).tasks@ == old(self).tasks@ && final(self).runs@ == old(self).runs@ && final(self).events@ == old(self).events@ && final(self).history@ == old(self).history@,
            r is Ok <==> has_goal(old(self).goals@, goal_space_id@),
            r is Ok ==> final(self).history@.len() == old(self).history@.len() + 1 && final(self).history@.drop_last() == old(self).history@ && final(self).history@.last().goal_space_id@ == goal_space_id@ && final(self).history@.last().event_type@ == event_type@ && final(self).history@.last().description@ == description@ && final(self).history@.last().created_at == now && final(self).goals@ == old(self).goals@
                && final(self).tasks@ == old(self).tasks@ && final(self).runs@ == old(self).runs@ && final(self).events@ == old(self).events@,
    {
        if self.goal_index(goal_space_id).is_none() {
            return Err(ConductorError::NotFound(String::from_str("goal not found")));
        }
        self.history.push(
            GoalHistory {
                goal_space_id: String::from_str(goal_space_id),
                event_type: String::from_str(event_type),
                description: String::from_str(description),
                metadata: match metadata {
                    Some(m) => Some(String::from_str(m)),
                    None => None,
                },
                created_at: now,
            },
        );
        proof {
            assert(self.history@.drop_last() =~= old(self).history@);
            assert forall|k: int|
                0 <= k < self.history@.len() implies has_goal(
                self.goals@,
                (#[trigger] self.history@[k]).goal_space_id@,
            ) by {
                if k < old(self).history@.len() {
                    assert(self.history@[k] == old(self).history@[k]);
                }
            }
        }
        Ok(())
    }
}


impl Store {
    /// Record the external session id the run's stream revealed.
    pub fn update_agent_run_session_id(&mut self, id: &str, session_id: &str) -> (r: Result<
        (),
        ConductorError,
    >)
        requires
            old(self).wf(),
        ensures
            final(self).wf(),
            r is Err ==> *final(self) == *old(self),
            r is Ok <==> has_run(old(self).runs@, id@),
            r is Ok ==> exists|i: int|
                {
                    &&& 0 <= i < old(self).runs@.len()
                    &&& (#[trigger] old(self).runs@[i]).id@ == id@
                    &&& final(self).runs@ == old(self).runs@.update(
                        i,
                        AgentRun {
                            claude_session_id: final(self).runs@[i].claude_session_id,
                            ..old(self).runs@[i]
                        },
                    )
                    &&& final(self).runs@[i].claude_session_id matches Some(s) && s@
                        == session_id@
                    &&& final(self).goals@ == old(self).goals@
                    &&& final(self).tasks@ == old(self).tasks@
                    &&& final(self).events@ == old(self).events@
                    &&& final(self).history@ == old(self).history@
                },
    {
        let i = match self.run_index(id) {
            Some(i) => i,
            None => {
                return Err(ConductorError::NotFound(String::from_str("agent run not found")));
            },
        };
        let a = &mut self.runs[i];
        a.claude_session_id = Some(String::from_str(session_id));
        proof {
            lemma_wf_run_fields_updated(*old(self), *self, i as int);
            assert(self.runs@ =~= old(self).runs@.update(i as int, self.runs@[i as int]));
        }
        Ok(())
    }

    /// Record the run's accumulated cost and token counts; activity moves
    /// forward, never back.
    pub fn update_agent_run_cost(
        &mut self,
        id: &str,
        cost_micros: u64,
        input_tokens: i64,
        output_tokens: i64,
        now: u64,
    ) -> (r: Result<(), ConductorError>)
        requires
            old(self).wf(),
        ensures
            final(self).wf(),
            r is Err ==> *final(self) == *old(self),
            r is Ok <==> has_run(old(self).runs@, id@),
            r is Ok ==> exists|i: int|
                {
                    &&& 0 <= i < old(self).runs@.len()
                    &&& (#[trigger] old(self).runs@[i]).id@ == id@
                    &&& final(self).runs@ == old(self).runs@.update(
                        i,
                        AgentRun {
                            cost_micros,
                            input_tokens,
                            output_tokens,
                            last_activity_at: final(self).runs@[i].last_activity_at,
                            ..old(self).runs@[i]
                        },
                    )
                    &&& final(self).runs@[i].last_activity_at == Some(
                        match old(self).runs@[i].last_activity_at {
                            Some(prev) => if prev > now {
                                prev
                            } else {
                                now
                            },
                            None => now,
                        },
                    )
                    &&& final(self).goals@ == old(self).goals@
                    &&& final(self).tasks@ == old(self).tasks@
                    &&& final(self).events@ == old(self).events@
                    &&& final(self).history@ == old(self).history@
                },
    {
        let i = match self.run_index(id) {
            Some(i) => i,
            None => {
                return Err(ConductorError::NotFound(String::from_str("agent run not found")));
            },
        };
        let prev = self.runs[i].last_activity_at;
        let a = &mut self.runs[i];
        a.cost_micros = cost_micros;
        a.input_tokens = input_tokens;
        a.output_tokens = output_tokens;
        a.last_activity_at = match prev {
            Some(p) => if p > now {
                Some(p)
            } else {
                Some(now)
            },
            None => Some(now),
        };
        proof {
            lemma_wf_run_fields_updated(*old(self), *self, i as int);
            assert(self.runs@ =~= old(self).runs@.update(i as int, self.runs@[i as int]));
        }
        Ok(())
    }

    /// Move the run's activity clock forward, for events without a cost.
    pub fn update_agent_run_activity(&mut self, id: &str, now: u64) -> (r: Result<
        (),
        ConductorError,
    >)
        requires
            old(self).wf(),
        ensures
            final(self).wf(),
            r is Err ==> *final(self) == *old(self),
            r is Ok <==> has_run(old(self).runs@, id@),
            r is Ok ==> exists|i: int|
                {
                    &&& 0 <= i < old(self).runs@.len()
                    &&& (#[trigger] old(self).runs@[i]).id@ == id@
                    &&& final(self).runs@ == old(self).runs@.update(
                        i,
                        AgentRun {
                            last_activity_at: final(self).runs@[i].last_activity_at,
                            ..old(self).runs@[i]
                        },
                    )
                    &&& final(self).runs@[i].last_activity_at == Some(
                        match old(self).runs@[i].last_activity_at {
                            Some(prev) => if prev > now {
                                prev
                            } else {
                                now
                            },
                            None => now,
                        },
                    )
                    &&& final(self).goals@ == old(self).goals@
                    &&& final(self).tasks@ == old(self).tasks@
                    &&& final(self).events@ == old(self).events@
                    &&& final(self).history@ == old(self).history@
                },
    {
        let i = match self.run_index(id) {
            Some(i) => i,
            None => {
                return Err(ConductorError::NotFound(String::from_str("agent run not found")));
            },
        };
        let prev = self.runs[i].last_activity_at;
        let a = &mut self.runs[i];
        a.last_activity_at = match prev {
            Some(p) => if p > now {
                Some(p)
            } else {
                Some(now)
            },
            None => Some(now),
        };
        proof {
            lemma_wf_run_fields_updated(*old(self), *self, i as int);
            assert(self.runs@ =~= old(self).runs@.update(i as int, self.runs@[i as int]));
        }
        Ok(())
    }
}

/// Changing a run's bookkeeping fields (not its id, task, status or
/// finishing time) keeps the store well-formed.
proof fn lemma_wf_run_fields_updated(pre: Store, post: Store, i: int)
    requires
        pre.wf(),
        post.goals@ == pre.goals@,
        post.tasks@ == pre.tasks@,
        post.events@ == pre.events@,
        post.history@ == pre.history@,
        post.runs@.len() == pre.runs@.len(),
        0 <= i < pre.runs@.len(),
        forall|k: int| 0 <= k < pre.runs@.len() && k != i ==> post.runs@[k] == pre.runs@[k],
        post.runs@[i].id@ == pre.runs@[i].id@,
        post.runs@[i].task_id@ == pre.runs@[i].task_id@,
        post.runs@[i].goal_space_id@ == pre.runs@[i].goal_space_id@,
        post.runs@[i].status == pre.runs@[i].status,
        post.runs@[i].finished_at == pre.runs@[i].finished_at,
    ensures
        post.wf(),
{
    assert forall|a: int, b: int|
        0 <= a < b < post.runs@.len() implies (#[trigger] post.runs@[a]).id@ != (
    #[trigger] post.runs@[b]).id@ by {
        assert(post.runs@[a].id@ == pre.runs@[a].id@);
        assert(post.runs@[b].id@ == pre.runs@[b].id@);
    }
    assert forall|a: int, b: int|
        0 <= a < b < post.runs@.len() && (#[trigger] post.runs@[a]).task_id@ == (
    #[trigger] post.runs@[b]).task_id@ implies post.runs@[a].status.spec_terminal()
        || post.runs@[b].status.spec_terminal() by {
        assert(pre.runs@[a].task_id@ == post.runs@[a].task_id@);
        assert(pre.runs@[b].task_id@ == post.runs@[b].task_id@);
        assert(pre.runs@[a].status == post.runs@[a].status);
        assert(pre.runs@[b].status == post.runs@[b].status);
    }
    assert forall|k: int|
        0 <= k < post.runs@.len() implies has_task(post.tasks@, (#[trigger] post.runs@[k]).task_id@)
        && has_goal(post.goals@, post.runs@[k].goal_space_id@) by {
        assert(post.runs@[k].task_id@ == pre.runs@[k].task_id@);
        assert(post.runs@[k].goal_space_id@ == pre.runs@[k].goal_space_id@);
    }
    assert forall|k: int|
        0 <= k < post.events@.len() implies has_run(
        post.runs@,
        (#[trigger] post.events@[k]).agent_run_id@,
    ) by {
        let u = choose|u: int|
            0 <= u < pre.runs@.len() && (#[trigger] pre.runs@[u]).id@
                == pre.events@[k].agent_run_id@;
        assert(post.runs@[u].id@ == post.events@[k].agent_run_id@);
    }
    assert forall|k: int|
        0 <= k < post.runs@.len() implies ((#[trigger] post.runs@[k]).status.spec_terminal()
        <==> post.runs@[k].finished_at is Some) by {
        assert(post.runs@[k].status == pre.runs@[k].status);
        assert(post.runs@[k].finished_at == pre.runs@[k].finished_at);
    }
}


/// The staleness test as a predicate on runs.
pub open spec fn stale_pred(live: Seq<Seq<char>>) -> spec_fn(AgentRun) -> bool {
    |r: AgentRun| spec_stale(r, live)
}

/// Whether crash recovery resets a task: some stale run names it and it
/// has not finished.
pub open spec fn spec_needs_reset(t: Task, runs: Seq<AgentRun>, live: Seq<Seq<char>>) -> bool {
    t.status != TaskStatus::Done && exists|m: int|
        0 <= m < runs.len() && spec_stale(#[trigger] runs[m], live) && runs[m].task_id@ == t.id@
}

/// Crash recovery keeps the store well-formed: stale runs fail, their
/// unfinished tasks go back to pending, and nothing else moves.
#[verifier::spinoff_prover]
proof fn lemma_wf_after_stale_recovery(pre: Store, post: Store, live: Seq<Seq<char>>, now: u64)
    requires
        pre.wf(),
        post.goals@ == pre.goals@,
        post.events@ == pre.events@,
        post.history@ == pre.history@,
        post.runs@.len() == pre.runs@.len(),
        post.tasks@.len() == pre.tasks@.len(),
        forall|i: int|
            0 <= i < pre.runs@.len() ==> #[trigger] post.runs@[i] == (if spec_stale(
                pre.runs@[i],
                live,
            ) {
                AgentRun {
                    status: AgentStatus::Failed,
                    finished_at: Some(now),
                    ..pre.runs@[i]
                }
            } else {
                pre.runs@[i]
            }),
        forall|k: int|
            0 <= k < pre.tasks@.len() ==> #[trigger] post.tasks@[k] == (if spec_needs_reset(
                pre.tasks@[k],
                pre.runs@,
                live,
            ) {
                Task { status: TaskStatus::Pending, updated_at: now, ..pre.tasks@[k] }
            } else {
                pre.tasks@[k]
            }),
    ensures
        post.wf(),
{
    assert(forall|k: int|
        0 <= k < post.tasks@.len() ==> (#[trigger] post.tasks@[k]).id@ == pre.tasks@[k].id@
            && post.tasks@[k].goal_space_id@ == pre.tasks@[k].goal_space_id@ && post.tasks@[
            k
        ].depends_on == pre.tasks@[k].depends_on);
    assert(forall|k: int|
        0 <= k < post.runs@.len() ==> (#[trigger] post.runs@[k]).id@ == pre.runs@[k].id@
            && post.runs@[k].task_id@ == pre.runs@[k].task_id@ && post.runs@[k].goal_space_id@
            == pre.runs@[k].goal_space_id@);
    assert forall|i: int|
        0 <= i < post.tasks@.len() implies has_goal(
        post.goals@,
        (#[trigger] post.tasks@[i]).goal_space_id@,
    ) by {
        assert(has_goal(pre.goals@, pre.tasks@[i].goal_space_id@));
    }
    assert forall|i: int|
        0 <= i < post.runs@.len() implies has_task(post.tasks@, (#[trigger] post.runs@[i]).task_id@)
        && has_goal(post.goals@, post.runs@[i].goal_space_id@) by {
        let u = choose|u: int|
            0 <= u < pre.tasks@.len() && (#[trigger] pre.tasks@[u]).id@ == pre.runs@[i].task_id@;
        assert(post.tasks@[u].id@ == post.runs@[i].task_id@);
    }
    assert forall|i: int|
        0 <= i < post.events@.len() implies has_run(
        post.runs@,
        (#[trigger] post.events@[i]).agent_run_id@,
    ) by {
        let u = choose|u: int|
            0 <= u < pre.runs@.len() && (#[trigger] pre.runs@[u]).id@
                == pre.events@[i].agent_run_id@;
        assert(post.runs@[u].id@ == post.events@[i].agent_run_id@);
    }
    assert forall|i: int|
        0 <= i < post.tasks@.len() implies deps_in_goal(#[trigger] post.tasks@[i], post.tasks@) by {
        assert(deps_in_goal(pre.tasks@[i], pre.tasks@));
        assert forall|d: int|
            0 <= d < post.tasks@[i].depends_on@.len() implies dep_targets_goal(
            post.tasks@,
            (#[trigger] post.tasks@[i].depends_on@[d])@,
            post.tasks@[i].goal_space_id@,
        ) by {
            assert(dep_targets_goal(
                pre.tasks@,
                pre.tasks@[i].depends_on@[d]@,
                pre.tasks@[i].goal_space_id@,
            ));
            let u = choose|u: int|
                0 <= u < pre.tasks@.len() && (#[trigger] pre.tasks@[u]).id@ == pre.tasks@[
                    i
                ].depends_on@[d]@ && pre.tasks@[u].goal_space_id@ == pre.tasks@[
                    i
                ].goal_space_id@;
            assert(post.tasks@[u].id@ == pre.tasks@[u].id@);
        }
    }
    assert(acyclic(post.tasks@)) by {
        assert(task_graph(post.tasks@) =~= task_graph(pre.tasks@));
        assert forall|i: int|
            0 <= i < post.tasks@.len() implies !spec_reaches(
            task_graph(post.tasks@),
            str_views((#[trigger] post.tasks@[i]).depends_on@),
            post.tasks@[i].id@,
        ) by {
            assert(!spec_reaches(
                task_graph(pre.tasks@),
                str_views(pre.tasks@[i].depends_on@),
                pre.tasks@[i].id@,
            ));
        }
    }
    assert forall|g: int|
        0 <= g < post.goals@.len() && (#[trigger] post.goals@[g]).status == GoalStatus::Completed
        implies all_tasks_done(post.tasks@, post.goals@[g].id@) by {
        assert(all_tasks_done(pre.tasks@, pre.goals@[g].id@));
        let w = choose|w: int|
            0 <= w < pre.tasks@.len() && (#[trigger] pre.tasks@[w]).goal_space_id@
                == pre.goals@[g].id@;
        assert(post.tasks@[w].goal_space_id@ == post.goals@[g].id@);
        assert forall|k: int|
            0 <= k < post.tasks@.len() && (#[trigger] post.tasks@[k]).goal_space_id@
                == post.goals@[g].id@ implies post.tasks@[k].status == TaskStatus::Done by {
            assert(pre.tasks@[k].status == TaskStatus::Done);
            assert(!spec_needs_reset(pre.tasks@[k], pre.runs@, live));
        }
    }
    assert forall|a: int, b: int|
        0 <= a < b < post.runs@.len() && (#[trigger] post.runs@[a]).task_id@ == (
    #[trigger] post.runs@[b]).task_id@ implies post.runs@[a].status.spec_terminal()
        || post.runs@[b].status.spec_terminal() by {
        if !post.runs@[a].status.spec_terminal() && !post.runs@[b].status.spec_terminal() {
            assert(post.runs@[a] == pre.runs@[a]);
            assert(post.runs@[b] == pre.runs@[b]);
        }
    }
    assert forall|i: int|
        0 <= i < post.runs@.len() implies ((#[trigger] post.runs@[i]).status.spec_terminal()
        <==> post.runs@[i].finished_at is Some) by {
        if !spec_stale(pre.runs@[i], live) {
            assert(post.runs@[i] == pre.runs@[i]);
        }
    }
}

impl Store {
    /// Crash recovery over the runs: every live run whose id the running
    /// process does not know is marked `failed` with the finishing time
    /// set, its task — unless already done — goes back to `pending`, and
    /// the number of runs so failed is handed back.  Everything else is
    /// untouched.
    #[verifier::spinoff_prover]
    #[verifier::rlimit(100)]
    pub fn fail_stale_runs(&mut self, live_ids: &Vec<String>, now: u64) -> (n: u64)
        requires
            old(self).wf(),
        ensures
            final(self).wf(),
            n as int == count_if(old(self).runs@, stale_pred(str_views(live_ids@))),
            final(self).runs@.len() == old(self).runs@.len(),
            forall|i: int|
                0 <= i < old(self).runs@.len() ==> #[trigger] final(self).runs@[i] == (
                if spec_stale(old(self).runs@[i], str_views(live_ids@)) {
                    AgentRun {
                        status: AgentStatus::Failed,
                        finished_at: Some(now),
                        ..old(self).runs@[i]
                    }
                } else {
                    old(self).runs@[i]
                }),
            final(self).tasks@.len() == old(self).tasks@.len(),
            forall|k: int|
                0 <= k < old(self).tasks@.len() ==> #[trigger] final(self).tasks@[k] == (
                if spec_needs_reset(
                    old(self).tasks@[k],
                    old(self).runs@,
                    str_views(live_ids@),
                ) {
                    Task { status: TaskStatus::Pending, updated_at: now, ..old(self).tasks@[k] }
                } else {
                    old(self).tasks@[k]
                }),
            final(self).goals@ == old(self).goals@,
            final(self).events@ == old(self).events@,
            final(self).history@ == old(self).history@,
    {
        let ghost live = str_views(live_ids@);
        let mut n: u64 = 0;
        let mut i: usize = 0;
        proof {
            assert(old(self).runs@.take(0) =~= Seq::<AgentRun>::empty());
        }
        while i < self.runs.len()
            invariant
                old(self).wf(),
                i <= old(self).runs@.len(),
                live == str_views(live_ids@),
                self.runs@.len() == old(self).runs@.len(),
                self.tasks@.len() == old(self).tasks@.len(),
                self.goals@ == old(self).goals@,
                self.events@ == old(self).events@,
                self.history@ == old(self).history@,
                n <= i,
                n as int == count_if(old(self).runs@.take(i as int), stale_pred(live)),
                forall|k: int|
                    0 <= k < old(self).runs@.len() ==> #[trigger] self.runs@[k] == (if k
                        < i && spec_stale(old(self).runs@[k], live) {
                        AgentRun {
                            status: AgentStatus::Failed,
                            finished_at: Some(now),
                            ..old(self).runs@[k]
                        }
                    } else {
                        old(self).runs@[k]
                    }),
                forall|k: int|
                    0 <= k < old(self).tasks@.len() ==> #[trigger] self.tasks@[k] == (
                    if old(self).tasks@[k].status != TaskStatus::Done && (exists|m: int|
                        0 <= m < i && spec_stale(#[trigger] old(self).runs@[m], live) && old(
                            self,
                        ).runs@[m].task_id@ == old(self).tasks@[k].id@) {
                        Task {
                            status: TaskStatus::Pending,
                            updated_at: now,
                            ..old(self).tasks@[k]
                        }
                    } else {
                        old(self).tasks@[k]
                    }),
            decreases old(self).runs@.len() - i,
        {
            proof {
                assert(old(self).runs@.take(i + 1).drop_last() =~= old(self).runs@.take(i as int));
                assert(old(self).runs@.take(i + 1).last() == old(self).runs@[i as int]);
                assert(self.runs@[i as int] == old(self).runs@[i as int]);
            }
            let is_terminal = self.runs[i].status.is_terminal();
            let in_live = crate::graph::contains_str(live_ids, self.runs[i].id.as_str());
            if !is_terminal && !in_live {
                proof {
                    assert(spec_stale(old(self).runs@[i as int], live));
                }
                let task_id = self.runs[i].task_id.clone();
                let a = &mut self.runs[i];
                a.status = AgentStatus::Failed;
                a.finished_at = Some(now);
                n = n + 1;
                // reset the run's task unless it already finished
                proof {
                    let u = choose|u: int|
                        0 <= u < old(self).tasks@.len() && (#[trigger] old(
                            self,
                        ).tasks@[u]).id@ == old(self).runs@[i as int].task_id@;
                    assert(self.tasks@[u].id@ == task_id@);
                    assert(has_task(self.tasks@, task_id@));
                }
                let t = match self.task_index(task_id.as_str()) {
                    Some(t) => t,
                    None => {
                        proof {
                            assert(false);
                        }
                        return n;
                    },
                };
                proof {
                    assert forall|v: int|
                        0 <= v < self.tasks@.len() && (#[trigger] old(self).tasks@[v]).id@
                            == task_id@ implies v == t as int by {
                        assert(self.tasks@[v].id@ == old(self).tasks@[v].id@);
                        assert(self.tasks@[t as int].id@ == task_id@);
                        if v < t as int {
                            assert(old(self).tasks@[v].id@ != old(self).tasks@[t as int].id@);
                        } else if v > t as int {
                            assert(old(self).tasks@[t as int].id@ != old(self).tasks@[v].id@);
                        }
                    }
                }
                if !matches!(self.tasks[t].status, TaskStatus::Done) {
                    let tk = &mut self.tasks[t];
                    tk.status = TaskStatus::Pending;
                    tk.updated_at = now;
                }
                proof {
                    assert forall|k: int|
                        0 <= k < old(self).tasks@.len() implies #[trigger] self.tasks@[k] == (
                        if old(self).tasks@[k].status != TaskStatus::Done && (exists|m: int|
                            0 <= m < i + 1 && spec_stale(#[trigger] old(self).runs@[m], live)
                                && old(self).runs@[m].task_id@ == old(self).tasks@[k].id@) {
                            Task {
                                status: TaskStatus::Pending,
                                updated_at: now,
                                ..old(self).tasks@[k]
                            }
                        } else {
                            old(self).tasks@[k]
                        }) by {
                        if k == t as int {
                            assert(old(self).runs@[i as int].task_id@ == old(
                                self,
                            ).tasks@[k].id@);
                        } else {
                            assert(old(self).tasks@[k].id@ != task_id@);
                            if exists|m: int|
                                0 <= m < i + 1 && spec_stale(
                                    #[trigger] old(self).runs@[m],
                                    live,
                                ) && old(self).runs@[m].task_id@ == old(self).tasks@[k].id@ {
                                let m = choose|m: int|
                                    0 <= m < i + 1 && spec_stale(
                                        #[trigger] old(self).runs@[m],
                                        live,
                                    ) && old(self).runs@[m].task_id@ == old(
                                        self,
                                    ).tasks@[k].id@;
                                assert(m < i);
                            }
                        }
                    }
                }
            } else {
                proof {
                    assert(!spec_stale(old(self).runs@[i as int], live));
                }
            }
            i = i + 1;
        }
        proof {
            assert(old(self).runs@.take(i as int) =~= old(self).runs@);
            assert forall|k: int|
                0 <= k < old(self).tasks@.len() implies #[trigger] self.tasks@[k] == (
                if spec_needs_reset(old(self).tasks@[k], old(self).runs@, live) {
                    Task { status: TaskStatus::Pending, updated_at: now, ..old(self).tasks@[k] }
                } else {
                    old(self).tasks@[k]
                }) by {
                if spec_needs_reset(old(self).tasks@[k], old(self).runs@, live) {
                    let m = choose|m: int|
                        0 <= m < old(self).runs@.len() && spec_stale(
                            #[trigger] old(self).runs@[m],
                            live,
                        ) && old(self).runs@[m].task_id@ == old(self).tasks@[k].id@;
                    assert(0 <= m < i);
                }
            }
            lemma_wf_after_stale_recovery(*old(self), *self, live, now);
        }
        n
    }
}


impl Store {
    /// Aggregate counters for an operator overview: live runs, total
    /// spend, done and total tasks, active goals.
    pub fn get_stats(&self) -> (r: Stats)
        ensures
            r.active_agents as int == count_if(
                self.runs@,
                |a: AgentRun| !a.status.spec_terminal(),
            ),
            r.total_cost_micros == cost_sum_sat(self.runs@),
            r.tasks_completed as int == count_if(
                self.tasks@,
                |t: Task| t.status == TaskStatus::Done,
            ),
            r.tasks_total as int == self.tasks@.len(),
            r.goals_active as int == count_if(
                self.goals@,
                |g: GoalSpace| g.status == GoalStatus::Active,
            ),
    {
        let mut active: u64 = 0;
        let mut total_cost: u64 = 0;
        let mut i: usize = 0;
        while i < self.runs.len()
            invariant
                i <= self.runs@.len(),
                active <= i,
                active as int == count_if(
                    self.runs@.take(i as int),
                    |a: AgentRun| !a.status.spec_terminal(),
                ),
                total_cost == cost_sum_sat(self.runs@.take(i as int)),
            decreases self.runs@.len() - i,
        {
            proof {
                assert(self.runs@.take(i + 1).drop_last() =~= self.runs@.take(i as int));
                assert(self.runs@.take(i + 1).last() == self.runs@[i as int]);
            }
            if !self.runs[i].status.is_terminal() {
                active = active + 1;
            }
            let c = self.runs[i].cost_micros;
            total_cost = if c > u64::MAX - total_cost {
                u64::MAX
            } else {
                total_cost + c
            };
            i = i + 1;
        }
        proof {
            assert(self.runs@.take(i as int) =~= self.runs@);
        }
        let mut done: u64 = 0;
        let mut k: usize = 0;
        while k < self.tasks.len()
            invariant
                k <= self.tasks@.len(),
                done <= k,
                done as int == count_if(
                    self.tasks@.take(k as int),
                    |t: Task| t.status == TaskStatus::Done,
                ),
            decreases self.tasks@.len() - k,
        {
            proof {
                assert(self.tasks@.take(k + 1).drop_last() =~= self.tasks@.take(k as int));
                assert(self.tasks@.take(k + 1).last() == self.tasks@[k as int]);
            }
            if matches!(self.tasks[k].status, TaskStatus::Done) {
                done = done + 1;
            }
            k = k + 1;
        }
        proof {
            assert(self.tasks@.take(k as int) =~= self.tasks@);
        }
        let mut goals_active: u64 = 0;
        let mut g: usize = 0;
        while g < self.goals.len()
            invariant
                g <= self.goals@.len(),
                goals_active <= g,
                goals_active as int == count_if(
                    self.goals@.take(g as int),
                    |x: GoalSpace| x.status == GoalStatus::Active,
                ),
            decreases self.goals@.len() - g,
        {
            proof {
                assert(self.goals@.take(g + 1).drop_last() =~= self.goals@.take(g as int));
                assert(self.goals@.take(g + 1).last() == self.goals@[g as int]);
            }
            if matches!(self.goals[g].status, GoalStatus::Active) {
                goals_active = goals_active + 1;
            }
            g = g + 1;
        }
        proof {
            assert(self.goals@.take(g as int) =~= self.goals@);
        }
        Stats {
            active_agents: active,
            total_cost_micros: total_cost,
            tasks_completed: done,
            tasks_total: self.tasks.len() as u64,
            goals_active,
        }
    }
}


/// Whether the stop hook can act on run `i`: its session id matches and
/// both state machines allow the move to done.
pub open spec fn spec_hook_target(
    runs: Seq<AgentRun>,
    tasks: Seq<Task>,
    i: int,
    sid: Seq<char>,
) -> bool {
    &&& 0 <= i < runs.len()
    &&& runs[i].claude_session_id matches Some(s) && s@ == sid
    &&& spec_agent_transition_ok(runs[i].status, AgentStatus::Done)
    &&& exists|j: int|
        0 <= j < tasks.len() && (#[trigger] tasks[j]).id@ == runs[i].task_id@
            && crate::status::spec_task_transition_ok(tasks[j].status, TaskStatus::Done)
}

impl Store {
    /// Act on an out-of-band stop notification: find a run whose external
    /// session id matches and whose run and task may still move to
    /// `done`, mark both done, write a `task_completed` history line, and
    /// hand back the goal id so the caller can run the completion check
    /// and a dispatch.  Nothing moves when no such run exists.
    #[verifier::spinoff_prover]
    #[verifier::rlimit(100)]
    pub fn complete_by_session_id(&mut self, session_id: &str, now: u64) -> (r: Option<String>)
        requires
            old(self).wf(),
        ensures
            final(self).wf(),
            r is None ==> *final(self) == *old(self) && (forall|i: int|
                !spec_hook_target(old(self).runs@, old(self).tasks@, i, session_id@)),
            r is Some <==> exists|i: int|
                spec_hook_target(old(self).runs@, old(self).tasks@, i, session_id@),
            r matches Some(gid) ==> exists|i: int, j: int|
                {
                    &&& #[trigger] spec_hook_target(old(self).runs@, old(self).tasks@, i, session_id@)
                    &&& gid@ == old(self).runs@[i].goal_space_id@
                    &&& final(self).runs@ == old(self).runs@.update(
                        i,
                        AgentRun {
                            status: AgentStatus::Done,
                            finished_at: Some(now),
                            ..old(self).runs@[i]
                        },
                    )
                    &&& 0 <= j < old(self).tasks@.len()
                    &&& (#[trigger] old(self).tasks@[j]).id@ == old(self).runs@[i].task_id@
                    &&& final(self).tasks@ == old(self).tasks@.update(
                        j,
                        Task {
                            status: TaskStatus::Done,
                            updated_at: now,
                            ..old(self).tasks@[j]
                        },
                    )
                    &&& final(self).goals@ == old(self).goals@
                    &&& final(self).events@ == old(self).events@
                    &&& final(self).history@.len() == old(self).history@.len() + 1
                    &&& final(self).history@.drop_last() == old(self).history@
                    &&& final(self).history@.last().event_type@ == "task_completed"@
                    &&& final(self).history@.last().goal_space_id@ == gid@
                },
    {
        let ghost sid = session_id@;
        let mut i: usize = 0;
        while i < self.runs.len()
            invariant
                old(self).wf(),
                *self == *old(self),
                sid == session_id@,
                i <= self.runs@.len(),
                forall|k: int| 0 <= k < i ==> !spec_hook_target(self.runs@, self.tasks@, k, sid),
            decreases self.runs@.len() - i,
        {
            let session_matches = match &self.runs[i].claude_session_id {
                Some(s) => str_eq(s.as_str(), session_id),
                None => false,
            };
            let run_ok = crate::status::agent_transition_ok(
                self.runs[i].status,
                AgentStatus::Done,
            );
            if session_matches && run_ok {
                let task_id = self.runs[i].task_id.clone();
                match self.task_index(task_id.as_str()) {
                    Some(j) => {
                        let cur = self.tasks[j].status;
                        let task_ok = matches!(cur, TaskStatus::Done) || crate::status::task_edge(
                            cur,
                            TaskStatus::Done,
                        );
                        if task_ok {
                            proof {
                                assert(spec_hook_target(self.runs@, self.tasks@, i as int, sid));
                            }
                            let gid = self.runs[i].goal_space_id.clone();
                            let rid = self.runs[i].id.clone();
                            let a = &mut self.runs[i];
                            a.status = AgentStatus::Done;
                            a.finished_at = Some(now);
                            let tk = &mut self.tasks[j];
                            tk.status = TaskStatus::Done;
                            tk.updated_at = now;
                            let mut descr = String::from_str("Task ");
                            descr.append(task_id.as_str());
                            descr.append(" completed by agent ");
                            descr.append(rid.as_str());
                            self.history.push(
                                GoalHistory {
                                    goal_space_id: gid.clone(),
                                    event_type: String::from_str("task_completed"),
                                    description: descr,
                                    metadata: None,
                                    created_at: now,
                                },
                            );
                            proof {
                                assert(self.history@.drop_last() =~= old(self).history@);
                                lemma_wf_after_hook_completion(
                                    *old(self),
                                    *self,
                                    i as int,
                                    j as int,
                                    now,
                                );
                                assert(self.runs@ =~= old(self).runs@.update(
                                    i as int,
                                    self.runs@[i as int],
                                ));
                                assert(self.tasks@ =~= old(self).tasks@.update(
                                    j as int,
                                    self.tasks@[j as int],
                                ));
                            }
                            return Some(gid);
                        }
                        proof {
                            assert forall|v: int|
                                0 <= v < self.tasks@.len() && (#[trigger] self.tasks@[v]).id@
                                    == task_id@ implies v == j as int by {
                                if v < j as int {
                                    assert(self.tasks@[v].id@ != self.tasks@[j as int].id@);
                                } else if v > j as int {
                                    assert(self.tasks@[j as int].id@ != self.tasks@[v].id@);
                                }
                            }
                            assert(!spec_hook_target(self.runs@, self.tasks@, i as int, sid));
                        }
                    },
                    None => {
                        proof {
                            assert(!spec_hook_target(self.runs@, self.tasks@, i as int, sid));
                        }
                    },
                }
            } else {
                proof {
                    assert(!spec_hook_target(self.runs@, self.tasks@, i as int, sid));
                }
            }
            i = i + 1;
        }
        proof {
            assert forall|k: int| !spec_hook_target(
                old(self).runs@,
                old(self).tasks@,
                k,
                sid,
            ) by {
                if 0 <= k < old(self).runs@.len() {
                    assert(!spec_hook_target(self.runs@, self.tasks@, k, sid));
                }
            }
        }
        None
    }
}

/// The stop-hook completion keeps the store well-formed.
#[verifier::spinoff_prover]
proof fn lemma_wf_after_hook_completion(pre: Store, post: Store, i: int, j: int, now: u64)
    requires
        pre.wf(),
        post.goals@ == pre.goals@,
        post.events@ == pre.events@,
        post.runs@.len() == pre.runs@.len(),
        post.tasks@.len() == pre.tasks@.len(),
        0 <= i < pre.runs@.len(),
        0 <= j < pre.tasks@.len(),
        forall|k: int| 0 <= k < pre.runs@.len() && k != i ==> post.runs@[k] == pre.runs@[k],
        forall|k: int| 0 <= k < pre.tasks@.len() && k != j ==> post.tasks@[k] == pre.tasks@[k],
        post.runs@[i] == (AgentRun {
            status: AgentStatus::Done,
            finished_at: Some(now),
            ..pre.runs@[i]
        }),
        post.tasks@[j] == (Task { status: TaskStatus::Done, updated_at: now, ..pre.tasks@[j] }),
        !pre.runs@[i].status.spec_terminal(),
        post.history@.len() == pre.history@.len() + 1,
        post.history@.drop_last() == pre.history@,
        post.history@.last().goal_space_id@ == pre.runs@[i].goal_space_id@,
    ensures
        post.wf(),
{
    assert(forall|k: int|
        0 <= k < post.tasks@.len() ==> (#[trigger] post.tasks@[k]).id@ == pre.tasks@[k].id@
            && post.tasks@[k].goal_space_id@ == pre.tasks@[k].goal_space_id@ && post.tasks@[
            k
        ].depends_on == pre.tasks@[k].depends_on);
    assert(forall|k: int|
        0 <= k < post.runs@.len() ==> (#[trigger] post.runs@[k]).id@ == pre.runs@[k].id@
            && post.runs@[k].task_id@ == pre.runs@[k].task_id@ && post.runs@[k].goal_space_id@
            == pre.runs@[k].goal_space_id@);
    assert forall|k: int|
        0 <= k < post.tasks@.len() implies has_goal(
        post.goals@,
        (#[trigger] post.tasks@[k]).goal_space_id@,
    ) by {
        assert(has_goal(pre.goals@, pre.tasks@[k].goal_space_id@));
    }
    assert forall|k: int|
        0 <= k < post.runs@.len() implies has_task(post.tasks@, (#[trigger] post.runs@[k]).task_id@)
        && has_goal(post.goals@, post.runs@[k].goal_space_id@) by {
        let u = choose|u: int|
            0 <= u < pre.tasks@.len() && (#[trigger] pre.tasks@[u]).id@ == pre.runs@[k].task_id@;
        assert(post.tasks@[u].id@ == post.runs@[k].task_id@);
    }
    assert forall|k: int|
        0 <= k < post.events@.len() implies has_run(
        post.runs@,
        (#[trigger] post.events@[k]).agent_run_id@,
    ) by {
        let u = choose|u: int|
            0 <= u < pre.runs@.len() && (#[trigger] pre.runs@[u]).id@
                == pre.events@[k].agent_run_id@;
        assert(post.runs@[u].id@ == post.events@[k].agent_run_id@);
    }
    assert forall|k: int|
        0 <= k < post.history@.len() implies has_goal(
        post.goals@,
        (#[trigger] post.history@[k]).goal_space_id@,
    ) by {
        if k < pre.history@.len() {
            assert(post.history@[k] == pre.history@[k]);
        } else {
            assert(has_goal(pre.goals@, pre.runs@[i].goal_space_id@));
        }
    }
    assert forall|k: int|
        0 <= k < post.tasks@.len() implies deps_in_goal(#[trigger] post.tasks@[k], post.tasks@) by {
        assert(deps_in_goal(pre.tasks@[k], pre.tasks@));
        assert forall|d: int|
            0 <= d < post.tasks@[k].depends_on@.len() implies dep_targets_goal(
            post.tasks@,
            (#[trigger] post.tasks@[k].depends_on@[d])@,
            post.tasks@[k].goal_space_id@,
        ) by {
            assert(dep_targets_goal(
                pre.tasks@,
                pre.tasks@[k].depends_on@[d]@,
                pre.tasks@[k].goal_space_id@,
            ));
            let u = choose|u: int|
                0 <= u < pre.tasks@.len() && (#[trigger] pre.tasks@[u]).id@ == pre.tasks@[
                    k
                ].depends_on@[d]@ && pre.tasks@[u].goal_space_id@ == pre.tasks@[
                    k
                ].goal_space_id@;
            assert(post.tasks@[u].id@ == pre.tasks@[u].id@);
        }
    }
    assert(acyclic(post.tasks@)) by {
        assert(task_graph(post.tasks@) =~= task_graph(pre.tasks@));
        assert forall|k: int|
            0 <= k < post.tasks@.len() implies !spec_reaches(
            task_graph(post.tasks@),
            str_views((#[trigger] post.tasks@[k]).depends_on@),
            post.tasks@[k].id@,
        ) by {
            assert(!spec_reaches(
                task_graph(pre.tasks@),
                str_views(pre.tasks@[k].depends_on@),
                pre.tasks@[k].id@,
            ));
        }
    }
    assert forall|g: int|
        0 <= g < post.goals@.len() && (#[trigger] post.goals@[g]).status == GoalStatus::Completed
        implies all_tasks_done(post.tasks@, post.goals@[g].id@) by {
        assert(all_tasks_done(pre.tasks@, pre.goals@[g].id@));
        let w = choose|w: int|
            0 <= w < pre.tasks@.len() && (#[trigger] pre.tasks@[w]).goal_space_id@
                == pre.goals@[g].id@;
        assert(post.tasks@[w].goal_space_id@ == post.goals@[g].id@);
        assert forall|k: int|
            0 <= k < post.tasks@.len() && (#[trigger] post.tasks@[k]).goal_space_id@
                == post.goals@[g].id@ implies post.tasks@[k].status == TaskStatus::Done by {
            assert(pre.tasks@[k].status == TaskStatus::Done);
        }
    }
    assert forall|a: int, b: int|
        0 <= a < b < post.runs@.len() && (#[trigger] post.runs@[a]).task_id@ == (
    #[trigger] post.runs@[b]).task_id@ implies post.runs@[a].status.spec_terminal()
        || post.runs@[b].status.spec_terminal() by {
        if !post.runs@[a].status.spec_terminal() && !post.runs@[b].status.spec_terminal() {
            assert(post.runs@[a] == pre.runs@[a]);
            assert(post.runs@[b] == pre.runs@[b]);
        }
    }
    assert forall|k: int|
        0 <= k < post.runs@.len() implies ((#[trigger] post.runs@[k]).status.spec_terminal()
        <==> post.runs@[k].finished_at is Some) by {
        if k != i {
            assert(post.runs@[k] == pre.runs@[k]);
        }
    }
}

} // verus!