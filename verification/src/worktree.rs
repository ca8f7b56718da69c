//! Worktree lifecycle model.
//!
//! Each agent's branch and worktree are disposable scratch space: before every
//! dispatch the branch tip is force-moved to the trunk's current commit and
//! the working copy hard-reset to match, discarding any local divergence.
//! That policy is deliberate — agent branches are never a source of truth.
//!
//! The manager tracks, per agent, what the git layer reports: whether the
//! worktree exists, which commit its branch points at, and whether the working
//! copy is clean. The caller performs the actual git commands (worktree add,
//! fetch, branch -f, reset --hard) and records their outcomes here; a git
//! failure is reported as a `WorktreeError` and drives the dispatch cycle to
//! Failed rather than being retried against a possibly inconsistent repo.

use vstd::prelude::*;

use crate::agents::AgentName;
use crate::agents::spec_agents;

verus! {

/// Why a worktree operation failed, as reported by the git layer.
#[derive(Clone, Copy, PartialEq, Eq, Structural, Debug)]
pub enum WorktreeError {
    /// The underlying git command returned non-zero. Surfaced, not retried:
    /// retrying against an inconsistent repo risks worsening corruption.
    GitOperationFailed,
    /// Filesystem permission problem or missing parent directory.
    PathUnavailable,
}

/// What is known about one agent's worktree and dedicated branch. Commits are
/// identified by opaque numeric ids.
#[derive(Clone, Copy, PartialEq, Eq, Structural, Debug)]
pub struct WorktreeState {
    /// The worktree directory exists and is attached to the agent's branch.
    pub exists: bool,
    /// The commit the agent's branch points at.
    pub branch_tip: u64,
    /// No uncommitted changes in the working copy.
    pub clean: bool,
}

/// A worktree as it stands right after a reset: present, clean, and with its
/// branch tip on the given trunk commit. The prior state is discarded — the
/// result depends on the trunk commit alone, which is what makes the reset
/// idempotent.
pub open spec fn spec_reset_tree(prior: WorktreeState, trunk_tip: u64) -> WorktreeState {
    WorktreeState { exists: true, branch_tip: trunk_tip, clean: true }
}

/// A worktree after `ensure`: created on the trunk commit if it was absent,
/// untouched otherwise.
pub open spec fn spec_ensure_tree(t: WorktreeState, trunk_tip: u64) -> WorktreeState {
    if t.exists {
        t
    } else {
        spec_reset_tree(t, trunk_tip)
    }
}

/// Tracks the trunk commit and one worktree record per agent.
pub struct WorktreeManager {
    trunk_tip: u64,
    trees: Vec<WorktreeState>,
}

impl WorktreeManager {
    /// One record per known agent.
    pub closed spec fn wf(self) -> bool {
        self.trees@.len() == spec_agents().len()
    }

    /// The last fetched trunk (`origin/main`) commit.
    pub closed spec fn trunk(self) -> u64 {
        self.trunk_tip
    }

    /// The agent's recorded worktree state.
    pub closed spec fn tree_of(self, agent: AgentName) -> WorktreeState {
        self.trees@[agent.spec_index()]
    }

    /// A fresh manager: the trunk commit is known, no worktree exists yet.
    pub fn new(trunk_tip: u64) -> (r: WorktreeManager)
        ensures
            r.wf(),
            r.trunk() == trunk_tip,
            forall|a: AgentName| !r.tree_of(a).exists,
    {
        let absent = WorktreeState { exists: false, branch_tip: 0, clean: true };
        let mut trees: Vec<WorktreeState> = Vec::new();
        trees.push(absent);
        trees.push(absent);
        trees.push(absent);
        trees.push(absent);
        let r = WorktreeManager { trunk_tip, trees };
        proof {
            assert(forall|a: AgentName| 0 <= #[trigger] a.spec_index() < 4);
        }
        r
    }

    pub fn tree(&self, agent: AgentName) -> (r: WorktreeState)
        requires
            self.wf(),
        ensures
            r == self.tree_of(agent),
    {
        self.trees[agent.index()]
    }

    /// A fetch refreshed the trunk reference; record the commit it reported.
    /// Concurrent dispatch cycles only ever read this shared reference.
    pub fn record_fetched_trunk(&mut self, tip: u64)
        requires
            old(self).wf(),
        ensures
            final(self).wf(),
            final(self).trunk() == tip,
            forall|a: AgentName| final(self).tree_of(a) == old(self).tree_of(a),
    {
        self.trunk_tip = tip;
    }

    /// Makes sure the agent's worktree exists: an absent one is created with
    /// the dedicated branch pointed at the current trunk tip; an existing one
    /// is left exactly as it is, so the operation is idempotent.
    pub fn ensure_worktree(&mut self, agent: AgentName)
        requires
            old(self).wf(),
        ensures
            final(self).wf(),
            final(self).trunk() == old(self).trunk(),
            final(self).tree_of(agent) == spec_ensure_tree(old(self).tree_of(agent), old(self).trunk()),
            forall|b: AgentName| b != agent ==> final(self).tree_of(b) == old(self).tree_of(b),
    {
        let i = agent.index();
        let t = self.trees[i];
        if !t.exists {
            self.trees.set(i, WorktreeState { exists: true, branch_tip: self.trunk_tip, clean: true });
        }
        proof {
            assert(forall|b: AgentName| b != agent ==> b.spec_index() != agent.spec_index());
        }
    }

    /// Force-moves the agent's branch to the current trunk commit and
    /// hard-resets the working copy, discarding uncommitted changes and
    /// unpushed commits. Destructive by design.
    pub fn reset_to_trunk(&mut self, agent: AgentName)
        requires
            old(self).wf(),
            old(self).tree_of(agent).exists,
        ensures
            final(self).wf(),
            final(self).trunk() == old(self).trunk(),
            final(self).tree_of(agent) == spec_reset_tree(old(self).tree_of(agent), old(self).trunk()),
            forall|b: AgentName| b != agent ==> final(self).tree_of(b) == old(self).tree_of(b),
    {
        let i = agent.index();
        self.trees.set(i, WorktreeState { exists: true, branch_tip: self.trunk_tip, clean: true });
        proof {
            assert(forall|b: AgentName| b != agent ==> b.spec_index() != agent.spec_index());
        }
    }
}

/// Resetting to trunk is idempotent: with no intervening changes to the trunk
/// reference, a second reset leaves the worktree — branch tip included —
/// exactly as the first did.
pub proof fn lemma_reset_idempotent(t: WorktreeState, trunk_tip: u64)
    ensures
        spec_reset_tree(spec_reset_tree(t, trunk_tip), trunk_tip) == spec_reset_tree(t, trunk_tip),
        spec_reset_tree(t, trunk_tip).branch_tip == trunk_tip,
{
}

/// Creating the worktree is idempotent as well: ensuring twice is the same
/// as ensuring once.
pub proof fn lemma_ensure_idempotent(t: WorktreeState, trunk_tip: u64)
    ensures
        spec_ensure_tree(spec_ensure_tree(t, trunk_tip), trunk_tip) == spec_ensure_tree(
            t,
            trunk_tip,
        ),
{
}

} // verus!
