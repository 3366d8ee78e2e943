//! Agent settings: all-optional knobs on goals and tasks, the field-wise
//! overlay of task settings atop goal settings, and the system defaults
//! that fill what neither sets.  Budgets are micro-dollar amounts.

use vstd::prelude::*;

verus! {

/// The optional knobs a goal or task may set.
#[derive(Debug)]
pub struct GoalSettings {
    pub model: Option<String>,
    pub max_budget_micros: Option<u64>,
    pub max_turns: Option<u32>,
    pub allowed_tools: Option<Vec<String>>,
    pub permission_mode: Option<String>,
    pub system_prompt: Option<String>,
}

/// The view of an optional string.
pub open spec fn opt_str(o: Option<String>) -> Option<Seq<char>> {
    match o {
        Some(s) => Some(s@),
        None => None,
    }
}

/// The view of an optional string list.
pub open spec fn opt_strs(o: Option<Vec<String>>) -> Option<Seq<Seq<char>>> {
    match o {
        Some(v) => Some(crate::graph::str_views(v@)),
        None => None,
    }
}

/// The mathematical shape of a settings record.
pub struct SettingsView {
    pub model: Option<Seq<char>>,
    pub max_budget_micros: Option<u64>,
    pub max_turns: Option<u32>,
    pub allowed_tools: Option<Seq<Seq<char>>>,
    pub permission_mode: Option<Seq<char>>,
    pub system_prompt: Option<Seq<char>>,
}

impl View for GoalSettings {
    type V = SettingsView;

    open spec fn view(&self) -> SettingsView {
        SettingsView {
            model: opt_str(self.model),
            max_budget_micros: self.max_budget_micros,
            max_turns: self.max_turns,
            allowed_tools: opt_strs(self.allowed_tools),
            permission_mode: opt_str(self.permission_mode),
            system_prompt: opt_str(self.system_prompt),
        }
    }
}

/// The overlay of `task` atop `goal`: each field of the task wins where
/// it is set.
pub open spec fn spec_merge(goal: SettingsView, task: SettingsView) -> SettingsView {
    SettingsView {
        model: if task.model is Some {
            task.model
        } else {
            goal.model
        },
        max_budget_micros: if task.max_budget_micros is Some {
            task.max_budget_micros
        } else {
            goal.max_budget_micros
        },
        max_turns: if task.max_turns is Some {
            task.max_turns
        } else {
            goal.max_turns
        },
        allowed_tools: if task.allowed_tools is Some {
            task.allowed_tools
        } else {
            goal.allowed_tools
        },
        permission_mode: if task.permission_mode is Some {
            task.permission_mode
        } else {
            goal.permission_mode
        },
        system_prompt: if task.system_prompt is Some {
            task.system_prompt
        } else {
            goal.system_prompt
        },
    }
}

/// Copy a list of strings.
pub fn clone_strings(v: &Vec<String>) -> (r: Vec<String>)
    ensures
        crate::graph::str_views(r@) == crate::graph::str_views(v@),
        r@ == v@,
{
    let mut out: Vec<String> = Vec::new();
    let mut i: usize = 0;
    while i < v.len()
        invariant
            i <= v@.len(),
            out@ == v@.take(i as int),
        decreases v@.len() - i,
    {
        out.push(v[i].clone());
        proof {
            assert(out@ =~= v@.take(i + 1));
        }
        i = i + 1;
    }
    proof {
        assert(v@.take(i as int) =~= v@);
    }
    out
}

/// Copy an optional string.
pub fn clone_opt_string(o: &Option<String>) -> (r: Option<String>)
    ensures
        r == *o,
{
    match o {
        Some(s) => Some(s.clone()),
        None => None,
    }
}

impl GoalSettings {
    /// A record with nothing set.
    pub fn none() -> (r: GoalSettings)
        ensures
            r@ == (SettingsView {
                model: None,
                max_budget_micros: None,
                max_turns: None,
                allowed_tools: None,
                permission_mode: None,
                system_prompt: None,
            }),
    {
        GoalSettings {
            model: None,
            max_budget_micros: None,
            max_turns: None,
            allowed_tools: None,
            permission_mode: None,
            system_prompt: None,
        }
    }

    /// Copy a settings record.
    pub fn duplicate(&self) -> (r: GoalSettings)
        ensures
            r@ == self@,
    {
        GoalSettings {
            model: clone_opt_string(&self.model),
            max_budget_micros: self.max_budget_micros,
            max_turns: self.max_turns,
            allowed_tools: match &self.allowed_tools {
                Some(v) => Some(clone_strings(v)),
                None => None,
            },
            permission_mode: clone_opt_string(&self.permission_mode),
            system_prompt: clone_opt_string(&self.system_prompt),
        }
    }

    /// The resolved model, `sonnet` when unset.
    pub fn model(&self) -> (r: String)
        ensures
            r@ == match self@.model {
                Some(m) => m,
                None => "sonnet"@,
            },
    {
        match &self.model {
            Some(m) => m.clone(),
            None => String::from_str("sonnet"),
        }
    }

    /// The resolved budget, five dollars when unset.
    pub fn max_budget_micros(&self) -> (r: u64)
        ensures
            r == match self@.max_budget_micros {
                Some(b) => b,
                None => 5000000u64,
            },
    {
        match self.max_budget_micros {
            Some(b) => b,
            None => 5000000,
        }
    }

    /// The resolved turn limit, fifty when unset.
    pub fn max_turns(&self) -> (r: u32)
        ensures
            r == match self@.max_turns {
                Some(t) => t,
                None => 50u32,
            },
    {
        match self.max_turns {
            Some(t) => t,
            None => 50,
        }
    }

    /// The resolved tool list; the stock six tools when unset.
    pub fn allowed_tools(&self) -> (r: Vec<String>)
        ensures
            crate::graph::str_views(r@) == match self@.allowed_tools {
                Some(t) => t,
                None => seq!["Bash"@, "Read"@, "Edit"@, "Write"@, "Grep"@, "Glob"@],
            },
    {
        match &self.allowed_tools {
            Some(v) => {
                let r = clone_strings(v);
                proof {
                    assert(crate::graph::str_views(r@) =~= crate::graph::str_views(v@));
                }
                r
            },
            None => {
                let mut out: Vec<String> = Vec::new();
                out.push(String::from_str("Bash"));
                out.push(String::from_str("Read"));
                out.push(String::from_str("Edit"));
                out.push(String::from_str("Write"));
                out.push(String::from_str("Grep"));
                out.push(String::from_str("Glob"));
                proof {
                    assert(crate::graph::str_views(out@) =~= seq![
                        "Bash"@,
                        "Read"@,
                        "Edit"@,
                        "Write"@,
                        "Grep"@,
                        "Glob"@,
                    ]);
                }
                out
            },
        }
    }

    /// The resolved permission mode; none when unset.
    pub fn permission_mode(&self) -> (r: Option<String>)
        ensures
            opt_str(r) == self@.permission_mode,
    {
        clone_opt_string(&self.permission_mode)
    }

    /// The resolved system prompt; none when unset.
    pub fn system_prompt(&self) -> (r: Option<String>)
        ensures
            opt_str(r) == self@.system_prompt,
    {
        clone_opt_string(&self.system_prompt)
    }

    /// Overlay task-level settings atop these: the task wins where set.
    pub fn merge(&self, task_settings: &GoalSettings) -> (r: GoalSettings)
        ensures
            r@ == spec_merge(self@, task_settings@),
    {
        GoalSettings {
            model: match &task_settings.model {
                Some(m) => Some(m.clone()),
                None => clone_opt_string(&self.model),
            },
            max_budget_micros: match task_settings.max_budget_micros {
                Some(b) => Some(b),
                None => self.max_budget_micros,
            },
            max_turns: match task_settings.max_turns {
                Some(t) => Some(t),
                None => self.max_turns,
            },
            allowed_tools: match &task_settings.allowed_tools {
                Some(v) => Some(clone_strings(v)),
                None => match &self.allowed_tools {
                    Some(v) => Some(clone_strings(v)),
                    None => None,
                },
            },
            permission_mode: match &task_settings.permission_mode {
                Some(m) => Some(m.clone()),
                None => clone_opt_string(&self.permission_mode),
            },
            system_prompt: match &task_settings.system_prompt {
                Some(m) => Some(m.clone()),
                None => clone_opt_string(&self.system_prompt),
            },
        }
    }
}

/// The law of the overlay: where the task sets a field the task's value
/// is taken, and where it does not the goal's value is taken, field by
/// field.
pub proof fn lemma_merge_overlay(goal: SettingsView, task: SettingsView)
    ensures
        spec_merge(goal, task).model == if task.model is Some {
            task.model
        } else {
            goal.model
        },
        spec_merge(goal, task).max_budget_micros == if task.max_budget_micros is Some {
            task.max_budget_micros
        } else {
            goal.max_budget_micros
        },
        spec_merge(goal, task).max_turns == if task.max_turns is Some {
            task.max_turns
        } else {
            goal.max_turns
        },
        spec_merge(goal, task).allowed_tools == if task.allowed_tools is Some {
            task.allowed_tools
        } else {
            goal.allowed_tools
        },
        spec_merge(goal, task).permission_mode == if task.permission_mode is Some {
            task.permission_mode
        } else {
            goal.permission_mode
        },
        spec_merge(goal, task).system_prompt == if task.system_prompt is Some {
            task.system_prompt
        } else {
            goal.system_prompt
        },
{
}

} // verus!
