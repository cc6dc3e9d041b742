//! What one tick does to the compartments, and the quantity that every tick
//! of a running epidemic lowers.
use vstd::prelude::*;
use crate::agent::{moved, Agent, AgentType};

verus! {

/// Two agents stand on the same cell.
pub open spec fn same_cell(a: Agent, b: Agent) -> bool {
    a.x == b.x && a.y == b.y
}

/// At `tick` the agent is infected, was not infected during this very tick,
/// and is still inside its infectious window, so it passes the disease on.
pub open spec fn spreads(a: Agent, tick: usize, duration: usize) -> bool {
    &&& a.agent_type == AgentType::AgentI
    &&& a.tick != tick
    &&& tick - a.tick <= duration
}

/// At `tick` the agent's infectious window has passed: it recovers or dies.
pub open spec fn expires(a: Agent, tick: usize, duration: usize) -> bool {
    a.agent_type == AgentType::AgentI && tick - a.tick > duration
}

/// Agent `j` shares its cell with a spreading agent among the first `hi`.
pub open spec fn exposed(pre: Seq<Agent>, hi: int, j: int, tick: usize, duration: usize) -> bool {
    exists|m: int| 0 <= m < hi && #[trigger] spreads(pre[m], tick, duration) && same_cell(pre[m], pre[j])
}

/// `post` is `pre` recovered or dead at `tick`; a death probability of zero
/// forces recovery and one of one forces death.
pub open spec fn resolved(pre: Agent, post: Agent, tick: usize, p_death: (u32, u32)) -> bool {
    &&& post == (Agent { agent_type: post.agent_type, tick, ..pre })
    &&& post.agent_type == AgentType::AgentR || post.agent_type == AgentType::AgentD
    &&& p_death.0 == 0 ==> post.agent_type == AgentType::AgentR
    &&& p_death.0 == p_death.1 ==> post.agent_type == AgentType::AgentD
}

/// The change of one agent in a transition pass: a susceptible agent is
/// infected at `tick` exactly when `exposed`; an expired infected agent is
/// resolved once `done`; every other agent is left as it was.
pub open spec fn agent_transition(
    pre: Agent,
    post: Agent,
    exposed: bool,
    done: bool,
    tick: usize,
    duration: usize,
    p_death: (u32, u32),
) -> bool {
    if pre.agent_type == AgentType::AgentS {
        if exposed {
            post == (Agent { agent_type: AgentType::AgentI, tick, ..pre })
        } else {
            post == pre
        }
    } else if done && expires(pre, tick, duration) {
        resolved(pre, post, tick, p_death)
    } else {
        post == pre
    }
}

/// `post` is the population `pre` after the transition pass of `tick`.
pub open spec fn transitioned(
    pre: Seq<Agent>,
    post: Seq<Agent>,
    tick: usize,
    duration: usize,
    p_death: (u32, u32),
) -> bool {
    &&& post.len() == pre.len()
    &&& forall|j: int| 0 <= j < pre.len() ==> agent_transition(
        pre[j],
        #[trigger] post[j],
        exposed(pre, pre.len() as int, j, tick, duration),
        true,
        tick,
        duration,
        p_death,
    )
}

/// `post` is the population `pre` after the whole tick `tick`: the transition
/// pass, then the movement of every agent on a `dims` grid.
pub open spec fn ticked(
    pre: Seq<Agent>,
    post: Seq<Agent>,
    tick: usize,
    duration: usize,
    p_death: (u32, u32),
    dims: (usize, usize),
) -> bool {
    exists|mid: Seq<Agent>| {
        &&& transitioned(pre, mid, tick, duration, p_death)
        &&& post.len() == mid.len()
        &&& forall|j: int| 0 <= j < mid.len() ==> moved(#[trigger] mid[j], post[j], dims)
    }
}

/// Compartments only move forward: susceptible to infected, infected to
/// recovered or dead; recovered and dead are final.
pub open spec fn may_follow(pre: AgentType, post: AgentType) -> bool {
    match pre {
        AgentType::AgentS => post == AgentType::AgentS || post == AgentType::AgentI,
        AgentType::AgentI => post != AgentType::AgentS,
        AgentType::AgentR => post == AgentType::AgentR,
        AgentType::AgentD => post == AgentType::AgentD,
    }
}

/// `post` lies on the forward path from `pre`, over any number of ticks.
pub open spec fn never_back(pre: AgentType, post: AgentType) -> bool {
    match pre {
        AgentType::AgentS => true,
        AgentType::AgentI => post != AgentType::AgentS,
        AgentType::AgentR => post == AgentType::AgentR,
        AgentType::AgentD => post == AgentType::AgentD,
    }
}

/// The number of ticks an agent can still keep the epidemic running: a
/// susceptible agent may yet be infected, by an agent that is infected
/// already, and then stay infected for `duration + 1` ticks; an infected one
/// has what is left of its window.
pub open spec fn agent_potential(a: Agent, tick: int, duration: int) -> int {
    match a.agent_type {
        AgentType::AgentS => duration + 1,
        AgentType::AgentI => a.tick + duration + 1 - tick,
        _ => 0,
    }
}

/// The sum of the agents' potentials.
pub open spec fn potential(agents: Seq<Agent>, tick: int, duration: int) -> int
    decreases agents.len(),
{
    if agents.len() == 0 {
        0
    } else {
        potential(agents.drop_last(), tick, duration) + agent_potential(agents.last(), tick, duration)
    }
}

/// Where no agent's tick lies ahead and no infected agent has outlived its
/// window, the potential lies between each agent's share and `duration + 1`
/// per agent.
pub proof fn lemma_potential_bounds(agents: Seq<Agent>, tick: int, duration: int)
    requires
        duration >= 0,
        forall|j: int| 0 <= j < agents.len() ==> (#[trigger] agents[j]).tick <= tick,
        forall|j: int| 0 <= j < agents.len() && (#[trigger] agents[j]).agent_type == AgentType::AgentI
            ==> tick - agents[j].tick <= duration,
    ensures
        0 <= potential(agents, tick, duration) <= agents.len() * (duration + 1),
        forall|j: int| 0 <= j < agents.len() ==>
            agent_potential(#[trigger] agents[j], tick, duration) <= potential(agents, tick, duration),
    decreases agents.len(),
{
    if agents.len() > 0 {
        let rest = agents.drop_last();
        assert forall|j: int| 0 <= j < rest.len() implies (#[trigger] rest[j]).tick <= tick by {
            assert(rest[j] == agents[j]);
        }
        assert forall|j: int| 0 <= j < rest.len() && (#[trigger] rest[j]).agent_type == AgentType::AgentI
            implies tick - rest[j].tick <= duration by {
            assert(rest[j] == agents[j]);
        }
        lemma_potential_bounds(rest, tick, duration);
        let n = rest.len() as int;
        assert((n + 1) * (duration + 1) == n * (duration + 1) + (duration + 1)) by (nonlinear_arith);
        assert forall|j: int| 0 <= j < agents.len() implies
            agent_potential(#[trigger] agents[j], tick, duration) <= potential(agents, tick, duration) by {
            if j < rest.len() {
                assert(rest[j] == agents[j]);
            }
        }
    }
}

/// Where no agent's potential grows from one population to the next, the sum
/// does not grow; where one also falls, the sum falls.
pub proof fn lemma_potential_drops(a: Seq<Agent>, b: Seq<Agent>, t: int, u: int, duration: int)
    requires
        a.len() == b.len(),
        forall|j: int| 0 <= j < a.len() ==>
            agent_potential(#[trigger] b[j], u, duration) <= agent_potential(a[j], t, duration),
    ensures
        potential(b, u, duration) <= potential(a, t, duration),
        forall|k: int| 0 <= k < a.len() && agent_potential(#[trigger] b[k], u, duration) < agent_potential(a[k], t, duration)
            ==> potential(b, u, duration) < potential(a, t, duration),
    decreases a.len(),
{
    if a.len() > 0 {
        let (a1, b1) = (a.drop_last(), b.drop_last());
        assert forall|j: int| 0 <= j < a1.len() implies
            agent_potential(#[trigger] b1[j], u, duration) <= agent_potential(a1[j], t, duration) by {
            assert(a1[j] == a[j] && b1[j] == b[j]);
        }
        lemma_potential_drops(a1, b1, t, u, duration);
        assert forall|k: int| 0 <= k < a.len() && agent_potential(#[trigger] b[k], u, duration) < agent_potential(a[k], t, duration)
            implies potential(b, u, duration) < potential(a, t, duration) by {
            if k < a1.len() {
                assert(a1[k] == a[k] && b1[k] == b[k]);
            }
        }
    }
}

/// Populations that agree on compartments and ticks have the same potential.
pub proof fn lemma_potential_same(a: Seq<Agent>, b: Seq<Agent>, t: int, duration: int)
    requires
        a.len() == b.len(),
        forall|j: int| 0 <= j < a.len() ==>
            (#[trigger] a[j]).agent_type == b[j].agent_type && a[j].tick == b[j].tick,
    ensures
        potential(a, t, duration) == potential(b, t, duration),
    decreases a.len(),
{
    if a.len() > 0 {
        let (a1, b1) = (a.drop_last(), b.drop_last());
        assert forall|j: int| 0 <= j < a1.len() implies
            (#[trigger] a1[j]).agent_type == b1[j].agent_type && a1[j].tick == b1[j].tick by {
            assert(a1[j] == a[j] && b1[j] == b[j]);
        }
        lemma_potential_same(a1, b1, t, duration);
    }
}

} // verus!
