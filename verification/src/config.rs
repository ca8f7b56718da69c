//! Configuration data carried in from the TOML configuration document and the
//! board-mapping record shape persisted in the JSON mapping document.
//!
//! Loading the files, and the (de)serialization the loaders use, live with the
//! I/O layer; the types here are the plain values the engine works on.

use vstd::prelude::*;

verus! {

/// Credentials for the Linear board client.
#[derive(Debug)]
pub struct LinearConfig {
    pub api_key: String,
}

/// Credentials for the Trello board client.
#[derive(Debug)]
pub struct TrelloConfig {
    pub api_key: String,
    pub token: String,
}

/// Credentials for the Jira board client.
#[derive(Debug)]
pub struct JiraConfig {
    pub domain: String,
    pub email: String,
    pub api_token: String,
}

/// Settings for the GitHub Issues board client.
#[derive(Debug)]
pub struct GitHubConfig {
    pub owner: String,
}

/// Agent-related settings: where the trunk checkout lives.
#[derive(Debug)]
pub struct AgentsConfig {
    pub repo_root: Option<String>,
}

impl Default for AgentsConfig {
    /// No repo root configured.
    fn default() -> (r: AgentsConfig)
        ensures
            r.repo_root is None,
    {
        AgentsConfig { repo_root: None }
    }
}

/// The whole configuration document. Every section is optional: a missing or
/// unreadable config falls back to the defaults rather than blocking startup.
#[derive(Debug)]
pub struct AppConfig {
    pub linear: Option<LinearConfig>,
    pub trello: Option<TrelloConfig>,
    pub jira: Option<JiraConfig>,
    pub github: Option<GitHubConfig>,
    pub agents: Option<AgentsConfig>,
}

impl Default for AppConfig {
    /// Every section absent.
    fn default() -> (r: AppConfig)
        ensures
            r.linear is None,
            r.trello is None,
            r.jira is None,
            r.github is None,
            r.agents is None,
    {
        AppConfig { linear: None, trello: None, jira: None, github: None, agents: None }
    }
}

} // verus!
