use localpipeline::agents::branch_name;
use localpipeline::agents::list_agents;
use localpipeline::agents::worktree_path;
use localpipeline::agents::AgentName;

#[test]
fn test_branch_name() {
    let name = branch_name(AgentName::Ember);
    assert_eq!(name, "agent/ember");
}

#[test]
fn test_worktree_path() {
    let path = worktree_path("/Users/pim/fm/workflow/main", AgentName::Ember);
    assert_eq!(path, "/Users/pim/fm/workflow/agent-ember");
}

#[test]
fn branch_name_every_agent() {
    assert_eq!(branch_name(AgentName::Ember), "agent/ember");
    assert_eq!(branch_name(AgentName::Juniper), "agent/juniper");
    assert_eq!(branch_name(AgentName::Sable), "agent/sable");
    assert_eq!(branch_name(AgentName::Wren), "agent/wren");
}

#[test]
fn branch_name_is_deterministic() {
    let a = branch_name(AgentName::Sable);
    let b = branch_name(AgentName::Sable);
    assert_eq!(a, b);
}

#[test]
fn worktree_path_uses_parent_directory() {
    assert_eq!(
        worktree_path("/home/user/repos/main", AgentName::Juniper),
        "/home/user/repos/agent-juniper"
    );
    assert_eq!(worktree_path("/main", AgentName::Ember), "/agent-ember");
    assert_eq!(worktree_path("a/b", AgentName::Wren), "a/agent-wren");
}

#[test]
fn worktree_path_without_separator_falls_back() {
    assert_eq!(worktree_path("main", AgentName::Ember), "main/agent-ember");
    assert_eq!(worktree_path("", AgentName::Ember), "/agent-ember");
}

#[test]
fn registry_order_is_fixed() {
    let agents = list_agents();
    assert_eq!(
        agents,
        vec![AgentName::Ember, AgentName::Juniper, AgentName::Sable, AgentName::Wren]
    );
    assert_eq!(agents, list_agents());
}
