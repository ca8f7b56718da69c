//! Per-agent dispatch state machine.
//!
//! Each agent moves through a strict linear cycle:
//! `Idle -> ResettingWorktree -> Running -> Reporting -> Idle`, with any
//! step's failure landing in `Failed`. `Failed` is terminal for that cycle
//! and must be cleared explicitly before the agent is eligible again — a
//! half-reset worktree is never re-dispatched blindly.
//!
//! The coordinator owns one state cell per identity and is the only mutator,
//! so "at most one active dispatch per agent" reduces to the Idle-state
//! precondition checked (and the state advanced) in one step. The caller
//! performs the git, board-API and agent-execution work between transitions
//! and reports each step's outcome back.

use vstd::prelude::*;

use crate::agents::AgentName;
use crate::agents::spec_agents;
use crate::worktree::WorktreeError;

verus! {

/// Where an agent currently stands in its dispatch cycle.
#[derive(Clone, Copy, PartialEq, Eq, Structural, Debug)]
pub enum DispatchState {
    Idle,
    ResettingWorktree,
    Running,
    Reporting,
    Failed,
}

/// Why a dispatch cycle did not complete.
#[derive(Clone, Copy, PartialEq, Eq, Structural, Debug)]
pub enum DispatchError {
    /// The agent was not Idle: another dispatch cycle is still in flight.
    /// Nothing is queued; the caller must poll once the agent is free.
    AlreadyDispatching,
    /// Creating or resetting the worktree failed.
    Worktree(WorktreeError),
    /// The board collaborator could not deliver the pending tasks.
    BoardFetch,
    /// The agent-execution collaborator reported failure or timed out.
    Execution,
}

/// One dispatch-state cell per agent identity, owned by the coordinator.
pub struct DispatchCoordinator {
    states: Vec<DispatchState>,
}

impl DispatchCoordinator {
    /// One cell per known agent.
    pub closed spec fn wf(self) -> bool {
        self.states@.len() == spec_agents().len()
    }

    /// The agent's current state.
    pub closed spec fn state_of(self, agent: AgentName) -> DispatchState {
        self.states@[agent.spec_index()]
    }

    /// The dispatch precondition: only an Idle agent may begin a cycle.
    pub open spec fn dispatch_permitted(self, agent: AgentName) -> bool {
        self.state_of(agent) is Idle
    }

    /// Every agent starts out Idle and eligible.
    pub fn new() -> (r: DispatchCoordinator)
        ensures
            r.wf(),
            forall|a: AgentName| r.state_of(a) is Idle,
    {
        let mut states: Vec<DispatchState> = Vec::new();
        states.push(DispatchState::Idle);
        states.push(DispatchState::Idle);
        states.push(DispatchState::Idle);
        states.push(DispatchState::Idle);
        let r = DispatchCoordinator { states };
        proof {
            assert(forall|a: AgentName| 0 <= #[trigger] a.spec_index() < 4);
        }
        r
    }

    pub fn state(&self, agent: AgentName) -> (r: DispatchState)
        requires
            self.wf(),
        ensures
            r == self.state_of(agent),
    {
        self.states[agent.index()]
    }

    /// Atomically checks the Idle precondition and claims the agent for a new
    /// cycle. A non-Idle agent yields `AlreadyDispatching` and nothing moves,
    /// so two overlapping dispatch attempts for one agent can never both pass.
    pub fn begin_dispatch(&mut self, agent: AgentName) -> (r: Result<(), DispatchError>)
        requires
            old(self).wf(),
        ensures
            final(self).wf(),
            old(self).dispatch_permitted(agent) ==> r is Ok && final(self).state_of(
                agent,
            ) is ResettingWorktree,
            !old(self).dispatch_permitted(agent) ==> r == Err::<(), DispatchError>(
                DispatchError::AlreadyDispatching,
            ) && *final(self) == *old(self),
            forall|b: AgentName| b != agent ==> final(self).state_of(b) == old(self).state_of(b),
    {
        let i = agent.index();
        let current = self.states[i];
        if current == DispatchState::Idle {
            self.states.set(i, DispatchState::ResettingWorktree);
            proof {
                assert(forall|b: AgentName| b != agent ==> b.spec_index() != agent.spec_index());
            }
            Ok(())
        } else {
            Err(DispatchError::AlreadyDispatching)
        }
    }

    /// The worktree reset finished: success moves the agent on to Running,
    /// failure parks it in Failed for an operator to inspect.
    pub fn reset_finished(&mut self, agent: AgentName, ok: bool)
        requires
            old(self).wf(),
            old(self).state_of(agent) is ResettingWorktree,
        ensures
            final(self).wf(),
            final(self).state_of(agent) == if ok {
                DispatchState::Running
            } else {
                DispatchState::Failed
            },
            forall|b: AgentName| b != agent ==> final(self).state_of(b) == old(self).state_of(b),
    {
        let next = if ok {
            DispatchState::Running
        } else {
            DispatchState::Failed
        };
        self.states.set(agent.index(), next);
        proof {
            assert(forall|b: AgentName| b != agent ==> b.spec_index() != agent.spec_index());
        }
    }

    /// The board collaborator failed to deliver tasks; the cycle is over.
    /// "No tasks" is not a failure and causes no transition here.
    pub fn fetch_failed(&mut self, agent: AgentName)
        requires
            old(self).wf(),
            old(self).state_of(agent) is Running,
        ensures
            final(self).wf(),
            final(self).state_of(agent) is Failed,
            forall|b: AgentName| b != agent ==> final(self).state_of(b) == old(self).state_of(b),
    {
        self.states.set(agent.index(), DispatchState::Failed);
        proof {
            assert(forall|b: AgentName| b != agent ==> b.spec_index() != agent.spec_index());
        }
    }

    /// The agent-execution collaborator returned: success moves to Reporting,
    /// failure (or a cancelled/timed-out run) to Failed. An already-completed
    /// reset is never rolled back — a reset worktree is a safe resting state.
    pub fn execution_finished(&mut self, agent: AgentName, ok: bool)
        requires
            old(self).wf(),
            old(self).state_of(agent) is Running,
        ensures
            final(self).wf(),
            final(self).state_of(agent) == if ok {
                DispatchState::Reporting
            } else {
                DispatchState::Failed
            },
            forall|b: AgentName| b != agent ==> final(self).state_of(b) == old(self).state_of(b),
    {
        let next = if ok {
            DispatchState::Reporting
        } else {
            DispatchState::Failed
        };
        self.states.set(agent.index(), next);
        proof {
            assert(forall|b: AgentName| b != agent ==> b.spec_index() != agent.spec_index());
        }
    }

    /// The outcome has been recorded; the agent is eligible again.
    pub fn report_recorded(&mut self, agent: AgentName)
        requires
            old(self).wf(),
            old(self).state_of(agent) is Reporting,
        ensures
            final(self).wf(),
            final(self).state_of(agent) is Idle,
            forall|b: AgentName| b != agent ==> final(self).state_of(b) == old(self).state_of(b),
    {
        self.states.set(agent.index(), DispatchState::Idle);
        proof {
            assert(forall|b: AgentName| b != agent ==> b.spec_index() != agent.spec_index());
        }
    }

    /// Explicitly clears a Failed agent back to Idle. This is the only way
    /// out of Failed: a failed cycle is never auto-retried.
    pub fn clear_failed(&mut self, agent: AgentName)
        requires
            old(self).wf(),
            old(self).state_of(agent) is Failed,
        ensures
            final(self).wf(),
            final(self).state_of(agent) is Idle,
            forall|b: AgentName| b != agent ==> final(self).state_of(b) == old(self).state_of(b),
    {
        self.states.set(agent.index(), DispatchState::Idle);
        proof {
            assert(forall|b: AgentName| b != agent ==> b.spec_index() != agent.spec_index());
        }
    }
}

/// Mutual exclusion of dispatch cycles: once one dispatch call for an agent
/// has passed the Idle check and claimed the agent — which `begin_dispatch`
/// does in the same step — any coordinator state a second call can observe
/// before the cycle ends is non-Idle, so the second call's Idle check fails;
/// the two dispatches can never both proceed.
pub proof fn lemma_dispatch_mutual_exclusion(
    before: DispatchCoordinator,
    after: DispatchCoordinator,
    agent: AgentName,
)
    requires
        before.dispatch_permitted(agent),
        after.state_of(agent) is ResettingWorktree,
    ensures
        !after.dispatch_permitted(agent),
{
}

} // verus!
