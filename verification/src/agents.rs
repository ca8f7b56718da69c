//! Registry of agent identities and the deterministic naming rules that tie
//! each agent to its dedicated git branch and worktree directory.
//!
//! Branch names and worktree paths are pure functions of the identity (and the
//! repo root); nothing here is persisted, so the derived names can never drift
//! from the current configuration.

use vstd::prelude::*;

verus! {

/// The closed set of agent identities, fixed at process start; there is no
/// dynamic registration. Each agent owns exactly one branch and one worktree.
#[derive(Clone, Copy, PartialEq, Eq, Structural, Debug)]
pub enum AgentName {
    Ember,
    Juniper,
    Sable,
    Wren,
}

/// Number of known agent identities.
pub const AGENT_COUNT: usize = 4;

impl AgentName {
    /// The identity's lower-case symbolic name.
    pub open spec fn spec_str(self) -> Seq<char> {
        match self {
            AgentName::Ember => "ember"@,
            AgentName::Juniper => "juniper"@,
            AgentName::Sable => "sable"@,
            AgentName::Wren => "wren"@,
        }
    }

    /// Position of this identity in the fixed registry order.
    pub open spec fn spec_index(self) -> int {
        match self {
            AgentName::Ember => 0,
            AgentName::Juniper => 1,
            AgentName::Sable => 2,
            AgentName::Wren => 3,
        }
    }

    pub fn as_str(self) -> (r: &'static str)
        ensures
            r@ == self.spec_str(),
    {
        match self {
            AgentName::Ember => "ember",
            AgentName::Juniper => "juniper",
            AgentName::Sable => "sable",
            AgentName::Wren => "wren",
        }
    }

    pub fn index(self) -> (r: usize)
        ensures
            r == self.spec_index(),
            r < AGENT_COUNT,
    {
        match self {
            AgentName::Ember => 0,
            AgentName::Juniper => 1,
            AgentName::Sable => 2,
            AgentName::Wren => 3,
        }
    }
}

/// The registry order: finite, fixed and deterministic.
pub open spec fn spec_agents() -> Seq<AgentName> {
    seq![AgentName::Ember, AgentName::Juniper, AgentName::Sable, AgentName::Wren]
}

/// Lists every known agent, always in the same order.
pub fn list_agents() -> (r: Vec<AgentName>)
    ensures
        r@ == spec_agents(),
{
    let mut v: Vec<AgentName> = Vec::new();
    v.push(AgentName::Ember);
    v.push(AgentName::Juniper);
    v.push(AgentName::Sable);
    v.push(AgentName::Wren);
    proof {
        assert(v@ =~= spec_agents());
    }
    v
}

/// The branch an agent always works on: `agent/<identity>`. Branches are
/// force-reset to trunk before each dispatch, so this single persistent name
/// is all an agent ever needs.
pub open spec fn spec_branch_name(agent: AgentName) -> Seq<char> {
    "agent/"@ + agent.spec_str()
}

/// Each agent gets a single persistent branch that gets force-reset to
/// origin/main before each dispatch. No item-specific branches — agents
/// always push to main.
pub fn branch_name(agent: AgentName) -> (r: String)
    ensures
        r@ == spec_branch_name(agent),
{
    let mut s = String::from_str("agent/");
    s.append(agent.as_str());
    s
}

/// Index of the last `/` in `s`, or `-1` when `s` has none.
pub open spec fn last_sep(s: Seq<char>) -> int
    decreases s.len(),
{
    if s.len() == 0 {
        -1
    } else if s.last() == '/' {
        s.len() - 1
    } else {
        last_sep(s.drop_last())
    }
}

/// `last_sep` finds a `/` with nothing but non-separators after it, or
/// reports `-1` exactly when the string has no separator at all.
pub proof fn lemma_last_sep_props(s: Seq<char>)
    ensures
        -1 <= last_sep(s) < s.len(),
        last_sep(s) >= 0 ==> s[last_sep(s)] == '/',
        forall|j: int| last_sep(s) < j < s.len() ==> s[j] != '/',
    decreases s.len(),
{
    if s.len() > 0 && s.last() != '/' {
        lemma_last_sep_props(s.drop_last());
        assert(forall|j: int| 0 <= j < s.len() - 1 ==> s.drop_last()[j] == s[j]);
    }
}

/// Where an agent's worktree lives: split the repo root at its last path
/// separator; with a parent, the worktree is the sibling `agent-<identity>`;
/// a separator-free root degenerates to nesting under the root itself, so the
/// derivation is total and never fails.
pub open spec fn spec_worktree_path(root: Seq<char>, agent: AgentName) -> Seq<char> {
    if last_sep(root) >= 0 {
        root.subrange(0, last_sep(root)) + "/agent-"@ + agent.spec_str()
    } else {
        root + "/agent-"@ + agent.spec_str()
    }
}

/// A repo root with at least one separator puts the worktree beside the
/// root's leaf directory; one without puts it under the root. Both clauses
/// follow from `spec_worktree_path`, so path derivation is infallible.
pub proof fn lemma_worktree_path_rule(root: Seq<char>, agent: AgentName)
    ensures
        (exists|j: int| 0 <= j < root.len() && root[j] == '/') ==> spec_worktree_path(
            root,
            agent,
        ) == root.subrange(0, last_sep(root)) + "/agent-"@ + agent.spec_str(),
        (exists|j: int| 0 <= j < root.len() && root[j] == '/') ==> 0 <= last_sep(root)
            < root.len() && root[last_sep(root)] == '/',
        (forall|j: int| 0 <= j < root.len() ==> root[j] != '/') ==> spec_worktree_path(root, agent)
            == root + "/agent-"@ + agent.spec_str(),
{
    lemma_last_sep_props(root);
    if exists|j: int| 0 <= j < root.len() && root[j] == '/' {
        let j = choose|j: int| 0 <= j < root.len() && root[j] == '/';
        assert(last_sep(root) >= 0) by {
            if last_sep(root) == -1 {
                assert(root[j] != '/');
            }
        }
    }
}

/// Derives the agent's worktree directory from the trunk checkout's root
/// path: the sibling directory `agent-<identity>`, or `<root>/agent-<identity>`
/// when the root has no separator. Total on every input.
pub fn worktree_path(repo_root: &str, agent: AgentName) -> (r: String)
    ensures
        r@ == spec_worktree_path(repo_root@, agent),
{
    let n: usize = repo_root.unicode_len();
    let mut i: usize = n;
    while i > 0
        invariant
            i <= n,
            n == repo_root@.len(),
            forall|j: int| i <= j < n ==> repo_root@[j] != '/',
        decreases i,
    {
        if repo_root.get_char(i - 1) == '/' {
            proof {
                lemma_last_sep_props(repo_root@);
                assert(last_sep(repo_root@) == i - 1) by {
                    if last_sep(repo_root@) < i - 1 {
                        assert(repo_root@[i - 1] != '/');
                    }
                    if last_sep(repo_root@) > i - 1 {
                        assert(repo_root@[last_sep(repo_root@)] != '/');
                    }
                }
            }
            let parent = repo_root.substring_char(0, i - 1);
            let mut s = parent.to_owned();
            s.append("/agent-");
            s.append(agent.as_str());
            proof {
                assert(s@ =~= spec_worktree_path(repo_root@, agent));
            }
            return s;
        }
        i = i - 1;
    }
    proof {
        lemma_last_sep_props(repo_root@);
        assert(last_sep(repo_root@) == -1) by {
            if last_sep(repo_root@) >= 0 {
                assert(repo_root@[last_sep(repo_root@)] != '/');
            }
        }
    }
    let mut s = repo_root.to_owned();
    s.append("/agent-");
    s.append(agent.as_str());
    proof {
        assert(s@ =~= spec_worktree_path(repo_root@, agent));
    }
    s
}

} // verus!

