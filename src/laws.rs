//! Properties of whole runs that follow from what each tick guarantees.
use vstd::prelude::*;
use crate::agent::{moved, Agent, AgentType};
use crate::rules::{agent_transition, exposed, may_follow, ticked, transitioned};

verus! {

/// Between ticks `t` and `t + 1` of `trace` the agent is infected.
pub open spec fn infection_at(trace: Seq<AgentType>, t: int) -> bool {
    &&& 0 <= t < trace.len() - 1
    &&& trace[t] == AgentType::AgentS
    &&& trace[t + 1] == AgentType::AgentI
}

/// Once an agent has left the susceptible compartment it never returns.
pub proof fn lemma_never_susceptible_again(trace: Seq<AgentType>, a: int, b: int)
    requires
        forall|t: int| 0 <= t < trace.len() - 1 ==> may_follow(#[trigger] trace[t], trace[t + 1]),
        0 <= a <= b < trace.len(),
        trace[a] != AgentType::AgentS,
    ensures
        trace[b] != AgentType::AgentS,
    decreases b - a,
{
    if a < b {
        assert(may_follow(trace[a], trace[a + 1]));
        lemma_never_susceptible_again(trace, a + 1, b);
    }
}

/// Single infection: along the compartments one agent passes through, tick
/// by tick, where each follows the one before as a tick allows, the agent is
/// infected at most once.
pub proof fn lemma_single_infection(trace: Seq<AgentType>)
    requires
        forall|t: int| 0 <= t < trace.len() - 1 ==> may_follow(#[trigger] trace[t], trace[t + 1]),
    ensures
        forall|a: int, b: int| infection_at(trace, a) && infection_at(trace, b) ==> a == b,
{
    assert forall|a: int, b: int| infection_at(trace, a) && infection_at(trace, b) implies a == b by {
        if a < b {
            lemma_never_susceptible_again(trace, a + 1, b);
        } else if b < a {
            lemma_never_susceptible_again(trace, b + 1, a);
        }
    }
}

/// One tick moves every agent's compartment forward by at most one stage.
pub proof fn lemma_tick_follows(
    pre: Seq<Agent>,
    post: Seq<Agent>,
    tick: usize,
    duration: usize,
    p_death: (u32, u32),
    dims: (usize, usize),
)
    requires
        ticked(pre, post, tick, duration, p_death, dims),
    ensures
        post.len() == pre.len(),
        forall|j: int| 0 <= j < pre.len() ==> may_follow((#[trigger] pre[j]).agent_type, post[j].agent_type),
{
    let mid = choose|mid: Seq<Agent>| {
        &&& transitioned(pre, mid, tick, duration, p_death)
        &&& post.len() == mid.len()
        &&& forall|j: int| 0 <= j < mid.len() ==> moved(#[trigger] mid[j], post[j], dims)
    };
    assert forall|j: int| 0 <= j < pre.len() implies may_follow((#[trigger] pre[j]).agent_type, post[j].agent_type) by {
        assert(agent_transition(pre[j], mid[j], exposed(pre, pre.len() as int, j, tick, duration), true, tick, duration, p_death));
        assert(moved(mid[j], post[j], dims));
    }
}

/// The compartments agent `j` passes through along `states`.
pub open spec fn agent_trace(states: Seq<Seq<Agent>>, j: int) -> Seq<AgentType> {
    Seq::new(states.len(), |t: int| states[t][j].agent_type)
}

/// Single infection over a run: along populations of one size that follow
/// each other tick by tick from tick `t0 + 1` on, as a run passes through
/// them, each agent is infected at most once.
pub proof fn lemma_run_single_infection(
    states: Seq<Seq<Agent>>,
    t0: usize,
    duration: usize,
    p_death: (u32, u32),
    dims: (usize, usize),
    n: nat,
)
    requires
        forall|t: int| 0 <= t < states.len() ==> (#[trigger] states[t]).len() == n,
        forall|t: int| 0 <= t < states.len() - 1 ==> ticked(
            #[trigger] states[t],
            states[t + 1],
            (t0 + t + 1) as usize,
            duration,
            p_death,
            dims,
        ),
    ensures
        forall|j: int, a: int, b: int| 0 <= j < n && infection_at(agent_trace(states, j), a)
            && infection_at(agent_trace(states, j), b) ==> a == b,
{
    assert forall|j: int, a: int, b: int| 0 <= j < n && infection_at(agent_trace(states, j), a)
        && infection_at(agent_trace(states, j), b) implies a == b by {
        let trace = agent_trace(states, j);
        assert forall|t: int| 0 <= t < trace.len() - 1 implies may_follow(#[trigger] trace[t], trace[t + 1]) by {
            assert(ticked(states[t], states[t + 1], (t0 + t + 1) as usize, duration, p_death, dims));
            lemma_tick_follows(states[t], states[t + 1], (t0 + t + 1) as usize, duration, p_death, dims);
            assert(states[t].len() == n);
        }
        lemma_single_infection(trace);
    }
}

} // verus!
