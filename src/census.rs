//! Per-tick counts of the population by compartment.
use vstd::prelude::*;
use crate::agent::{Agent, AgentType};

verus! {

/// How many agents are in each compartment at one tick.
#[derive(Debug, Default, Clone, Copy, PartialEq, Eq, Structural)]
pub struct TallyStates {
    pub susceptible: usize,
    pub infected: usize,
    pub recovered: usize,
    pub dead: usize,
}

/// The number of agents of `agents` in compartment `kind`.
pub open spec fn count_of(agents: Seq<Agent>, kind: AgentType) -> nat
    decreases agents.len(),
{
    if agents.len() == 0 {
        0
    } else {
        count_of(agents.drop_last(), kind) + (if agents.last().agent_type == kind { 1nat } else { 0nat })
    }
}

/// `t` holds the census of `agents`.
pub open spec fn tallies(t: TallyStates, agents: Seq<Agent>) -> bool {
    &&& t.susceptible == count_of(agents, AgentType::AgentS)
    &&& t.infected == count_of(agents, AgentType::AgentI)
    &&& t.recovered == count_of(agents, AgentType::AgentR)
    &&& t.dead == count_of(agents, AgentType::AgentD)
}

/// The four counts of `t` add up to `n`.
pub open spec fn conserves(t: TallyStates, n: nat) -> bool {
    t.susceptible + t.infected + t.recovered + t.dead == n
}

/// From `a` to `b` no compartment count moves backwards: fewer or as many
/// susceptible, at least as many recovered and dead.
pub open spec fn monotone(a: TallyStates, b: TallyStates) -> bool {
    &&& b.susceptible <= a.susceptible
    &&& b.recovered >= a.recovered
    &&& b.dead >= a.dead
}

/// Every agent is counted in exactly one compartment.
pub proof fn lemma_census_total(agents: Seq<Agent>)
    ensures
        count_of(agents, AgentType::AgentS) + count_of(agents, AgentType::AgentI)
            + count_of(agents, AgentType::AgentR) + count_of(agents, AgentType::AgentD)
            == agents.len(),
    decreases agents.len(),
{
    if agents.len() > 0 {
        lemma_census_total(agents.drop_last());
    }
}

/// Where every agent of `a` in `kind` is still in `kind` in `b`, `b` counts at
/// least as many of them.
pub proof fn lemma_count_grows(a: Seq<Agent>, b: Seq<Agent>, kind: AgentType)
    requires
        a.len() == b.len(),
        forall|j: int| 0 <= j < a.len() && (#[trigger] a[j]).agent_type == kind ==> b[j].agent_type == kind,
    ensures
        count_of(a, kind) <= count_of(b, kind),
    decreases a.len(),
{
    if a.len() > 0 {
        let (a1, b1) = (a.drop_last(), b.drop_last());
        assert forall|j: int| 0 <= j < a1.len() && (#[trigger] a1[j]).agent_type == kind implies b1[j].agent_type == kind by {
            assert(a1[j] == a[j]);
        }
        lemma_count_grows(a1, b1, kind);
    }
}

/// Agents in the same compartments are counted alike.
pub proof fn lemma_count_same(a: Seq<Agent>, b: Seq<Agent>)
    requires
        a.len() == b.len(),
        forall|j: int| 0 <= j < a.len() ==> (#[trigger] a[j]).agent_type == b[j].agent_type,
    ensures
        forall|kind: AgentType| count_of(a, kind) == #[trigger] count_of(b, kind),
{
    assert forall|kind: AgentType| count_of(a, kind) == #[trigger] count_of(b, kind) by {
        lemma_count_grows(a, b, kind);
        lemma_count_grows(b, a, kind);
    }
}

/// A compartment with a positive count holds some agent.
pub proof fn lemma_count_witness(agents: Seq<Agent>, kind: AgentType)
    requires
        count_of(agents, kind) > 0,
    ensures
        exists|j: int| 0 <= j < agents.len() && (#[trigger] agents[j]).agent_type == kind,
    decreases agents.len(),
{
    let rest = agents.drop_last();
    if agents.last().agent_type != kind {
        lemma_count_witness(rest, kind);
        let j = choose|j: int| 0 <= j < rest.len() && (#[trigger] rest[j]).agent_type == kind;
        assert(agents[j] == rest[j]);
    }
}

/// Counts the agents of each compartment.
pub fn tally(agents: &Vec<Agent>) -> (r: TallyStates)
    ensures
        tallies(r, agents@),
        conserves(r, agents@.len()),
{
    let mut acc = TallyStates { susceptible: 0, infected: 0, recovered: 0, dead: 0 };
    let mut i: usize = 0;
    while i < agents.len()
        invariant
            i <= agents@.len(),
            tallies(acc, agents@.take(i as int)),
        decreases agents@.len() - i,
    {
        proof {
            let seen = agents@.take(i as int);
            assert(agents@.take(i as int + 1).drop_last() =~= seen);
            lemma_census_total(seen);
        }
        match agents[i].agent_type {
            AgentType::AgentS => {
                acc.susceptible = acc.susceptible + 1;
            },
            AgentType::AgentI => {
                acc.infected = acc.infected + 1;
            },
            AgentType::AgentR => {
                acc.recovered = acc.recovered + 1;
            },
            AgentType::AgentD => {
                acc.dead = acc.dead + 1;
            },
        }
        i = i + 1;
    }
    assert(agents@.take(i as int) =~= agents@);
    proof {
        lemma_census_total(agents@);
    }
    acc
}

} // verus!
