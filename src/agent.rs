//! A single member of the population: where it stands, which compartment it
//! is in, and since when.
use vstd::prelude::*;
use vstd::arithmetic::div_mod::lemma_small_mod;
use crate::random::{draw_below, draw_ratio};

verus! {

/// The epidemiological compartment of an agent.
#[derive(Debug, Clone, Copy, PartialEq, Eq, PartialOrd, Ord, Structural)]
pub enum AgentType {
    /// Susceptible
    AgentS,
    /// Infected
    AgentI,
    /// Recovered
    AgentR,
    /// Dead
    AgentD,
}

/// One individual of the population.
#[derive(Debug, Clone, Copy, PartialEq, Eq, Structural)]
pub struct Agent {
    /// Column of the cell the agent occupies.
    pub x: usize,
    /// Row of the cell the agent occupies.
    pub y: usize,
    /// Compartment the agent is in.
    pub agent_type: AgentType,
    /// Tick at which the agent entered its compartment.
    pub tick: usize,
}

/// The coordinate reached from `c` by a step of `step` cells, forward or back,
/// on an axis of `bound` cells: forward wraps round, backward stops at zero.
pub open spec fn coord_after(c: usize, bound: usize, forward: bool, step: usize) -> int {
    if forward {
        (c + step) % (bound as int)
    } else {
        (if c >= step { c - step } else { 0 }) % (bound as int)
    }
}

/// `n` is one of the coordinates a lazy walk can reach from `c` in one tick.
pub open spec fn one_step(c: usize, n: usize, bound: usize) -> bool {
    n == c || n == (c + 1) % (bound as int) || n == (if c > 0 { c - 1 } else { 0 })
}

/// What a movement does to an agent: nothing to a dead one; otherwise a lazy
/// step on each axis, on the grid, with compartment and tick kept.
pub open spec fn moved(pre: Agent, post: Agent, dims: (usize, usize)) -> bool {
    if pre.agent_type == AgentType::AgentD {
        post == pre
    } else {
        &&& post.agent_type == pre.agent_type
        &&& post.tick == pre.tick
        &&& post.x < dims.0
        &&& post.y < dims.1
        &&& one_step(pre.x, post.x, dims.0)
        &&& one_step(pre.y, post.y, dims.1)
    }
}

/// The new coordinate after a step of `step` cells on an axis of `bound` cells.
pub fn step_coord(c: usize, bound: usize, forward: bool, step: usize) -> (r: usize)
    requires
        c < bound,
        step <= 1,
    ensures
        r == coord_after(c, bound, forward, step),
        r < bound,
        one_step(c, r, bound),
{
    proof {
        lemma_small_mod(c as nat, bound as nat);
        if c > 0 {
            lemma_small_mod((c - 1) as nat, bound as nat);
        }
    }
    if forward {
        (c + step) % bound
    } else {
        c.saturating_sub(step) % bound
    }
}

impl Agent {
    /// Moves the agent into the `Dead` compartment at `tick`.
    pub fn die(&mut self, tick: usize)
        ensures
            *final(self) == (Agent { agent_type: AgentType::AgentD, tick, ..*old(self) }),
    {
        self.agent_type = AgentType::AgentD;
        self.tick = tick;
    }

    /// Moves the agent into the `Recovered` compartment at `tick`.
    pub fn recover(&mut self, tick: usize)
        ensures
            *final(self) == (Agent { agent_type: AgentType::AgentR, tick, ..*old(self) }),
    {
        self.agent_type = AgentType::AgentR;
        self.tick = tick;
    }

    /// Moves a susceptible agent into the `Infected` compartment at `tick`.
    pub fn infect(&mut self, tick: usize)
        requires
            old(self).agent_type == AgentType::AgentS,
        ensures
            *final(self) == (Agent { agent_type: AgentType::AgentI, tick, ..*old(self) }),
    {
        self.agent_type = AgentType::AgentI;
        self.tick = tick;
    }

    /// Ends an infection at `tick`: death where `dies` holds, recovery
    /// otherwise.
    pub fn resolve(&mut self, tick: usize, dies: bool)
        ensures
            *final(self) == (Agent {
                agent_type: if dies { AgentType::AgentD } else { AgentType::AgentR },
                tick,
                ..*old(self)
            }),
    {
        if dies {
            self.die(tick);
        } else {
            self.recover(tick);
        }
    }

    /// Moves a live agent by the given directions and step sizes; a dead agent
    /// stays where it is.
    pub fn move_by(
        &mut self,
        grid_dimension: (usize, usize),
        forward_x: bool,
        step_x: usize,
        forward_y: bool,
        step_y: usize,
    )
        requires
            old(self).x < grid_dimension.0,
            old(self).y < grid_dimension.1,
            step_x <= 1,
            step_y <= 1,
        ensures
            old(self).agent_type == AgentType::AgentD ==> *final(self) == *old(self),
            old(self).agent_type != AgentType::AgentD ==> *final(self) == (Agent {
                x: coord_after(old(self).x, grid_dimension.0, forward_x, step_x) as usize,
                y: coord_after(old(self).y, grid_dimension.1, forward_y, step_y) as usize,
                ..*old(self)
            }),
            moved(*old(self), *final(self), grid_dimension),
    {
        if self.agent_type != AgentType::AgentD {
            self.x = step_coord(self.x, grid_dimension.0, forward_x, step_x);
            self.y = step_coord(self.y, grid_dimension.1, forward_y, step_y);
        }
    }

    /// Moves a live agent one lazy random step on each axis, drawing for each
    /// axis a direction and then a step size of zero or one; a dead agent
    /// stays where it is.
    pub fn move_agent(&mut self, grid_dimension: (usize, usize), rng: &mut rand::rngs::StdRng)
        requires
            old(self).x < grid_dimension.0,
            old(self).y < grid_dimension.1,
        ensures
            moved(*old(self), *final(self), grid_dimension),
            old(self).agent_type == AgentType::AgentD ==> *final(rng) == *old(rng),
    {
        if self.agent_type != AgentType::AgentD {
            let forward_x = draw_ratio(rng, 1, 2);
            let step_x = draw_below(rng, 2);
            let forward_y = draw_ratio(rng, 1, 2);
            let step_y = draw_below(rng, 2);
            self.move_by(grid_dimension, forward_x, step_x, forward_y, step_y);
        }
    }
}

} // verus!
