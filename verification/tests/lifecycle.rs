use localpipeline::agents::AgentName;
use localpipeline::dispatch::DispatchCoordinator;
use localpipeline::dispatch::DispatchError;
use localpipeline::dispatch::DispatchState;
use localpipeline::worktree::WorktreeManager;

#[test]
fn dispatch_requires_idle() {
    let mut c = DispatchCoordinator::new();
    assert_eq!(c.state(AgentName::Ember), DispatchState::Idle);
    assert!(c.begin_dispatch(AgentName::Ember).is_ok());
    assert_eq!(c.state(AgentName::Ember), DispatchState::ResettingWorktree);
    assert_eq!(
        c.begin_dispatch(AgentName::Ember),
        Err(DispatchError::AlreadyDispatching)
    );
    assert_eq!(c.state(AgentName::Ember), DispatchState::ResettingWorktree);
}

#[test]
fn dispatch_while_running_is_rejected_and_state_unchanged() {
    let mut c = DispatchCoordinator::new();
    assert!(c.begin_dispatch(AgentName::Ember).is_ok());
    c.reset_finished(AgentName::Ember, true);
    assert_eq!(c.state(AgentName::Ember), DispatchState::Running);
    assert_eq!(
        c.begin_dispatch(AgentName::Ember),
        Err(DispatchError::AlreadyDispatching)
    );
    assert_eq!(c.state(AgentName::Ember), DispatchState::Running);
}

#[test]
fn one_agent_does_not_block_another() {
    let mut c = DispatchCoordinator::new();
    assert!(c.begin_dispatch(AgentName::Ember).is_ok());
    assert!(c.begin_dispatch(AgentName::Juniper).is_ok());
    assert_eq!(c.state(AgentName::Ember), DispatchState::ResettingWorktree);
    assert_eq!(c.state(AgentName::Juniper), DispatchState::ResettingWorktree);
    assert_eq!(c.state(AgentName::Sable), DispatchState::Idle);
}

#[test]
fn successful_cycle_returns_to_idle() {
    let mut c = DispatchCoordinator::new();
    assert!(c.begin_dispatch(AgentName::Wren).is_ok());
    c.reset_finished(AgentName::Wren, true);
    c.execution_finished(AgentName::Wren, true);
    assert_eq!(c.state(AgentName::Wren), DispatchState::Reporting);
    c.report_recorded(AgentName::Wren);
    assert_eq!(c.state(AgentName::Wren), DispatchState::Idle);
}

#[test]
fn failure_is_terminal_until_cleared() {
    let mut c = DispatchCoordinator::new();
    assert!(c.begin_dispatch(AgentName::Sable).is_ok());
    c.reset_finished(AgentName::Sable, false);
    assert_eq!(c.state(AgentName::Sable), DispatchState::Failed);
    assert_eq!(
        c.begin_dispatch(AgentName::Sable),
        Err(DispatchError::AlreadyDispatching)
    );
    c.clear_failed(AgentName::Sable);
    assert_eq!(c.state(AgentName::Sable), DispatchState::Idle);
    assert!(c.begin_dispatch(AgentName::Sable).is_ok());
}

#[test]
fn fetch_failure_fails_the_cycle() {
    let mut c = DispatchCoordinator::new();
    assert!(c.begin_dispatch(AgentName::Ember).is_ok());
    c.reset_finished(AgentName::Ember, true);
    c.fetch_failed(AgentName::Ember);
    assert_eq!(c.state(AgentName::Ember), DispatchState::Failed);
}

#[test]
fn reset_to_trunk_is_idempotent() {
    let mut wm = WorktreeManager::new(42);
    wm.ensure_worktree(AgentName::Ember);
    wm.reset_to_trunk(AgentName::Ember);
    let first = wm.tree(AgentName::Ember);
    wm.reset_to_trunk(AgentName::Ember);
    let second = wm.tree(AgentName::Ember);
    assert_eq!(first, second);
    assert_eq!(first.branch_tip, 42);
    assert!(first.exists);
    assert!(first.clean);
}

#[test]
fn ensure_worktree_is_idempotent_and_reset_tracks_trunk() {
    let mut wm = WorktreeManager::new(7);
    wm.ensure_worktree(AgentName::Juniper);
    let created = wm.tree(AgentName::Juniper);
    assert!(created.exists);
    assert_eq!(created.branch_tip, 7);
    wm.ensure_worktree(AgentName::Juniper);
    assert_eq!(wm.tree(AgentName::Juniper), created);
    wm.record_fetched_trunk(9);
    assert_eq!(wm.tree(AgentName::Juniper).branch_tip, 7);
    wm.reset_to_trunk(AgentName::Juniper);
    assert_eq!(wm.tree(AgentName::Juniper).branch_tip, 9);
    assert!(!wm.tree(AgentName::Sable).exists);
}
