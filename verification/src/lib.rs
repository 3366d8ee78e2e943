//! Conductor: a verified core for orchestrating fleets of coding-agent
//! subprocesses.
//!
//! The library holds the durable state model (goals, tasks, agent runs,
//! events, history), the task and agent-run state machines, the stream
//! event parser, branch naming, and the decision logic of the session
//! supervisor, dispatcher and worktree cleanup.  Everything here is
//! verified; process spawning, the clock, the version-control commands
//! and the HTTP surface live outside and drive this core with plain
//! values.

pub mod errors;
pub mod graph;
pub mod json;
pub mod parser;
pub mod settings;
pub mod status;
pub mod store;
pub mod supervisor;
pub mod text;
pub mod worktree;
