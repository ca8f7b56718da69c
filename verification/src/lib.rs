//! Core engine for coordinating a fixed set of coding agents, each bound to
//! one long-lived git branch and worktree, dispatched against tasks from
//! external project-management boards.
//!
//! The crate covers the agent registry (deterministic branch and worktree
//! naming), the worktree lifecycle model, the durable board-mapping store with
//! its JSON document format, and the per-agent dispatch state machine. Board
//! API clients, the terminal UI and the filesystem/git plumbing are external
//! collaborators.

pub mod agents;
pub mod codec;
pub mod config;
pub mod dispatch;
pub mod mappings;
pub mod picker;
pub mod worktree;
