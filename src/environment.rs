//! The world the agents live in, and the tick-by-tick run of an epidemic.
use vstd::prelude::*;
use crate::agent::{moved, Agent, AgentType};
use crate::census::{
    conserves, count_of, lemma_census_total, lemma_count_grows, lemma_count_witness, monotone, tallies, tally,
    TallyStates,
};
use crate::grid::{empty_grid, indexes, lemma_occupants, lemma_occupants_positions, occupants};
use crate::random::{draw_below, draw_ratio, seeded};
use crate::rules::{
    agent_potential, agent_transition, exposed, lemma_potential_bounds, lemma_potential_drops, lemma_potential_same,
    may_follow, never_back, potential, same_cell, spreads, ticked, transitioned,
};

verus! {

/// Why a simulation cannot be set up with the given parameters.
#[derive(Debug, Clone, Copy, PartialEq, Eq, Structural)]
pub enum ConfigError {
    /// More agents are to start infected than the population holds.
    InfectedExceedsPopulation,
    /// The death probability has a zero denominator or exceeds one.
    InvalidProbability,
    /// The grid has no cell.
    EmptyGrid,
    /// The population times `duration + 1`, which bounds the ticks of a run,
    /// does not fit in a `usize`.
    RunTooLong,
}

/// World that the agents reside within.
pub struct Environment {
    /// For each column and row of the grid, the agents on that cell.
    grid: Vec<Vec<Vec<usize>>>,
    grid_size: (usize, usize),
    agents: Vec<Agent>,
    /// Number of ticks an agent stays infectious.
    duration: usize,
    /// Probability of death at the end of an infection, as numerator and
    /// denominator.
    p_death: (u32, u32),
    /// Tally of the compartments at the current tick.
    stats: TallyStates,
    /// Current time tick.
    tick: usize,
    rng: rand::rngs::StdRng,
}

impl Environment {
    /// The population.
    pub closed spec fn spec_agents(&self) -> Seq<Agent> {
        self.agents@
    }

    /// The grid's width and height.
    pub closed spec fn spec_grid_size(&self) -> (usize, usize) {
        self.grid_size
    }

    /// The infectious duration.
    pub closed spec fn spec_duration(&self) -> usize {
        self.duration
    }

    /// The death probability as numerator and denominator.
    pub closed spec fn spec_p_death(&self) -> (u32, u32) {
        self.p_death
    }

    /// The counts recorded for the current tick.
    pub closed spec fn spec_stats(&self) -> TallyStates {
        self.stats
    }

    /// The current tick.
    pub closed spec fn spec_tick(&self) -> usize {
        self.tick
    }

    /// The ticks the epidemic can still last, at most.
    pub closed spec fn spec_potential(&self) -> int {
        potential(self.agents@, self.tick as int, self.duration as int)
    }

    /// The agents on cell `(x, y)`, in ascending order.
    pub closed spec fn spec_cell(&self, x: usize, y: usize) -> Seq<usize> {
        self.grid@[x as int]@[y as int]@
    }

    /// The grid is non-empty and indexes every agent at its position, all
    /// agents stand on the grid, no agent's tick lies ahead, the death
    /// probability is a probability and the tick bound fits.
    pub closed spec fn wf(&self) -> bool {
        &&& self.grid_size.0 > 0
        &&& self.grid_size.1 > 0
        &&& indexes(self.grid@, self.agents@, self.grid_size.0, self.grid_size.1)
        &&& forall|j: int| 0 <= j < self.agents@.len() ==> {
            &&& (#[trigger] self.agents@[j]).x < self.grid_size.0
            &&& self.agents@[j].y < self.grid_size.1
            &&& self.agents@[j].tick <= self.tick
        }
        &&& 0 < self.p_death.1
        &&& self.p_death.0 <= self.p_death.1
        &&& self.agents@.len() * (self.duration + 1) <= usize::MAX
    }

    /// Between two ticks: well formed, the recorded counts are those of the
    /// population, no infected agent has outlived its window, and the tick
    /// plus the potential stays within the population times `duration + 1`.
    pub closed spec fn stable(&self) -> bool {
        &&& self.wf()
        &&& tallies(self.stats, self.agents@)
        &&& forall|j: int| 0 <= j < self.agents@.len()
            && (#[trigger] self.agents@[j]).agent_type == AgentType::AgentI
            ==> self.tick - self.agents@[j].tick <= self.duration
        &&& self.tick + self.spec_potential() <= self.agents@.len() * (self.duration + 1)
    }

    /// Creates a population of `n` agents at random cells of an `xdim` by
    /// `ydim` grid, the first `infected` of them infected and the rest
    /// susceptible, all at tick zero, with the random source seeded by `seed`.
    /// Fails on more infected than agents, on a death probability that is no
    /// probability, on an empty grid, and where `n * (duration + 1)` exceeds
    /// `usize::MAX`, in that order.
    pub fn init(
        n: usize,
        infected: usize,
        duration: usize,
        p_death_numerator: u32,
        p_death_denominator: u32,
        xdim: usize,
        ydim: usize,
        seed: u64,
    ) -> (r: Result<Self, ConfigError>)
        ensures
            infected > n ==> r == Err::<Self, ConfigError>(ConfigError::InfectedExceedsPopulation),
            infected <= n && (p_death_denominator == 0 || p_death_numerator > p_death_denominator)
                ==> r == Err::<Self, ConfigError>(ConfigError::InvalidProbability),
            infected <= n && 0 < p_death_denominator && p_death_numerator <= p_death_denominator
                && (xdim == 0 || ydim == 0) ==> r == Err::<Self, ConfigError>(ConfigError::EmptyGrid),
            infected <= n && 0 < p_death_denominator && p_death_numerator <= p_death_denominator
                && xdim > 0 && ydim > 0 && n * (duration + 1) > usize::MAX
                ==> r == Err::<Self, ConfigError>(ConfigError::RunTooLong),
            infected <= n && 0 < p_death_denominator && p_death_numerator <= p_death_denominator
                && xdim > 0 && ydim > 0 && n * (duration + 1) <= usize::MAX ==> r is Ok,
            r is Ok ==> {
                let e = r->Ok_0;
                &&& infected <= n
                &&& e.wf()
                &&& e.stable()
                &&& e.spec_tick() == 0
                &&& e.spec_grid_size() == (xdim, ydim)
                &&& e.spec_duration() == duration
                &&& e.spec_p_death() == (p_death_numerator, p_death_denominator)
                &&& e.spec_agents().len() == n
                &&& forall|j: int| 0 <= j < n ==> {
                    &&& (#[trigger] e.spec_agents()[j]).agent_type
                        == (if j < infected { AgentType::AgentI } else { AgentType::AgentS })
                    &&& e.spec_agents()[j].tick == 0
                    &&& e.spec_agents()[j].x < xdim
                    &&& e.spec_agents()[j].y < ydim
                }
                &&& e.spec_stats() == (TallyStates {
                    susceptible: (n - infected) as usize,
                    infected,
                    recovered: 0,
                    dead: 0,
                })
            },
    {
        if infected > n {
            return Err(ConfigError::InfectedExceedsPopulation);
        }
        if p_death_denominator == 0 || p_death_numerator > p_death_denominator {
            return Err(ConfigError::InvalidProbability);
        }
        if xdim == 0 || ydim == 0 {
            return Err(ConfigError::EmptyGrid);
        }
        if duration == usize::MAX {
            if n > 0 {
                assert(n * (duration + 1) >= duration + 1) by (nonlinear_arith)
                    requires
                        n >= 1,
                        duration >= 0,
                ;
                return Err(ConfigError::RunTooLong);
            }
        } else if n.checked_mul(duration + 1).is_none() {
            return Err(ConfigError::RunTooLong);
        }
        let mut rng = seeded(seed);
        let mut grid = empty_grid(xdim, ydim);
        let mut agents: Vec<Agent> = Vec::new();
        let mut i: usize = 0;
        while i < n
            invariant
                i <= n,
                infected <= n,
                xdim > 0,
                ydim > 0,
                agents@.len() == i,
                indexes(grid@, agents@, xdim, ydim),
                forall|j: int| 0 <= j < i ==> {
                    &&& (#[trigger] agents@[j]).agent_type
                        == (if j < infected { AgentType::AgentI } else { AgentType::AgentS })
                    &&& agents@[j].tick == 0
                    &&& agents@[j].x < xdim
                    &&& agents@[j].y < ydim
                },
                count_of(agents@, AgentType::AgentI) == if i < infected { i } else { infected },
                count_of(agents@, AgentType::AgentS) == if i < infected { 0 } else { i - infected },
                count_of(agents@, AgentType::AgentR) == 0,
                count_of(agents@, AgentType::AgentD) == 0,
            decreases n - i,
        {
            let x = draw_below(&mut rng, xdim);
            let y = draw_below(&mut rng, ydim);
            let agent_type = if i < infected { AgentType::AgentI } else { AgentType::AgentS };
            let ghost before = agents@;
            agents.push(Agent { x, y, agent_type, tick: 0 });
            assert(agents@.drop_last() =~= before);
            grid[x][y].push(i);
            assert forall|cx: usize, cy: usize| cx < xdim && cy < ydim implies
                (#[trigger] grid@[cx as int]@[cy as int])@ == occupants(agents@, cx, cy) by {
            }
            i = i + 1;
        }
        let stats = TallyStates { susceptible: n - infected, infected, recovered: 0, dead: 0 };
        let env = Environment {
            grid,
            grid_size: (xdim, ydim),
            agents,
            duration,
            p_death: (p_death_numerator, p_death_denominator),
            stats,
            tick: 0,
            rng,
        };
        proof {
            lemma_potential_bounds(env.agents@, 0, duration as int);
        }
        Ok(env)
    }

    /// Runs the transition pass of the current tick in ascending agent order:
    /// an infected agent whose window has passed draws death or recovery; one
    /// still infectious, and not infected during this tick, infects every
    /// susceptible agent on its cell. An agent infected during the pass
    /// neither spreads nor resolves in it, so the outcome is that of reading
    /// the compartments from before the pass.
    pub fn update_type(&mut self)
        requires
            old(self).wf(),
        ensures
            final(self).wf(),
            final(self).spec_tick() == old(self).spec_tick(),
            final(self).spec_grid_size() == old(self).spec_grid_size(),
            final(self).spec_duration() == old(self).spec_duration(),
            final(self).spec_p_death() == old(self).spec_p_death(),
            final(self).spec_stats() == old(self).spec_stats(),
            forall|x: usize, y: usize| #[trigger] final(self).spec_cell(x, y) == old(self).spec_cell(x, y),
            transitioned(
                old(self).spec_agents(),
                final(self).spec_agents(),
                old(self).spec_tick(),
                old(self).spec_duration(),
                old(self).spec_p_death(),
            ),
    {
        let tick = self.tick;
        let duration = self.duration;
        let p_death = self.p_death;
        let dims = self.grid_size;
        let ghost pre = self.agents@;
        let ghost grid0 = self.grid@;
        let ghost stats0 = self.stats;
        let n = self.agents.len();
        let mut i: usize = 0;
        while i < n
            invariant
                i <= n,
                n == pre.len(),
                self.agents@.len() == n,
                self.tick == tick,
                self.duration == duration,
                self.p_death == p_death,
                self.grid_size == dims,
                self.grid@ == grid0,
                self.stats == stats0,
                dims.0 > 0,
                dims.1 > 0,
                0 < p_death.1,
                p_death.0 <= p_death.1,
                pre.len() * (duration + 1) <= usize::MAX,
                indexes(grid0, pre, dims.0, dims.1),
                forall|j: int| 0 <= j < n ==> {
                    &&& (#[trigger] pre[j]).x < dims.0
                    &&& pre[j].y < dims.1
                    &&& pre[j].tick <= tick
                },
                forall|j: int| 0 <= j < n ==> agent_transition(
                    pre[j],
                    #[trigger] self.agents@[j],
                    exposed(pre, i as int, j, tick, duration),
                    j < i,
                    tick,
                    duration,
                    p_death,
                ),
            decreases n - i,
        {
            let a = self.agents[i];
            if a.agent_type == AgentType::AgentI {
                assert(a.tick <= tick);
                if tick - a.tick > duration {
                    let dies = draw_ratio(&mut self.rng, p_death.0, p_death.1);
                    self.agents[i as usize].resolve(tick, dies);
                    assert forall|j: int| 0 <= j < n implies exposed(pre, i + 1, j, tick, duration)
                        == exposed(pre, i as int, j, tick, duration) by {
                        assert(!spreads(pre[i as int], tick, duration));
                    }
                } else if tick != a.tick {
                    self.spread_from(i, Ghost(pre));
                } else {
                    assert forall|j: int| 0 <= j < n implies exposed(pre, i + 1, j, tick, duration)
                        == exposed(pre, i as int, j, tick, duration) by {
                        assert(!spreads(pre[i as int], tick, duration));
                    }
                }
            } else {
                assert forall|j: int| 0 <= j < n implies exposed(pre, i + 1, j, tick, duration)
                    == exposed(pre, i as int, j, tick, duration) by {
                    assert(!spreads(pre[i as int], tick, duration));
                }
            }
            i = i + 1;
        }
        proof {
            assert forall|cx: usize, cy: usize| cx < dims.0 && cy < dims.1 implies
                (#[trigger] self.grid@[cx as int]@[cy as int])@ == occupants(self.agents@, cx, cy) by {
                lemma_occupants_positions(pre, self.agents@, cx, cy);
            }
        }
    }

    /// Infects every susceptible agent on the cell of the spreading agent `i`,
    /// in the cell's order.
    fn spread_from(&mut self, i: usize, Ghost(pre): Ghost<Seq<Agent>>)
        requires
            i < pre.len(),
            old(self).agents@.len() == pre.len(),
            old(self).grid_size.0 > 0,
            old(self).grid_size.1 > 0,
            indexes(old(self).grid@, pre, old(self).grid_size.0, old(self).grid_size.1),
            forall|j: int| 0 <= j < pre.len() ==> {
                &&& (#[trigger] pre[j]).x < old(self).grid_size.0
                &&& pre[j].y < old(self).grid_size.1
            },
            old(self).agents@[i as int] == pre[i as int],
            spreads(pre[i as int], old(self).tick, old(self).duration),
            forall|j: int| 0 <= j < pre.len() ==> agent_transition(
                pre[j],
                #[trigger] old(self).agents@[j],
                exposed(pre, i as int, j, old(self).tick, old(self).duration),
                j < i,
                old(self).tick,
                old(self).duration,
                old(self).p_death,
            ),
        ensures
            final(self).agents@.len() == pre.len(),
            final(self).tick == old(self).tick,
            final(self).duration == old(self).duration,
            final(self).p_death == old(self).p_death,
            final(self).grid_size == old(self).grid_size,
            final(self).grid == old(self).grid,
            final(self).stats == old(self).stats,
            forall|j: int| 0 <= j < pre.len() ==> agent_transition(
                pre[j],
                #[trigger] final(self).agents@[j],
                exposed(pre, i + 1, j, old(self).tick, old(self).duration),
                j < i + 1,
                old(self).tick,
                old(self).duration,
                old(self).p_death,
            ),
    {
        let tick = self.tick;
        let duration = self.duration;
        let p_death = self.p_death;
        let n = self.agents.len();
        let x = self.agents[i].x;
        let y = self.agents[i].y;
        let ghost occ = occupants(pre, x, y);
        proof {
            lemma_occupants(pre, x, y);
        }
        assert(self.grid@[x as int]@[y as int]@ == occ);
        let len = self.grid[x][y].len();
        let mut k: usize = 0;
        while k < len
            invariant
                k <= len,
                len == occ.len(),
                n == pre.len(),
                i < n,
                self.agents@.len() == n,
                self.tick == tick,
                self.duration == duration,
                self.p_death == p_death,
                self.grid == old(self).grid,
                self.grid_size == old(self).grid_size,
                self.stats == old(self).stats,
                x < self.grid@.len(),
                y < self.grid@[x as int]@.len(),
                self.grid@[x as int]@[y as int]@ == occ,
                forall|m: int| 0 <= m < occ.len() ==> {
                    let j = #[trigger] occ[m];
                    &&& j < n
                    &&& pre[j as int].x == x
                    &&& pre[j as int].y == y
                },
                forall|j: int| 0 <= j < n ==> agent_transition(
                    pre[j],
                    #[trigger] self.agents@[j],
                    exposed(pre, i as int, j, tick, duration) || occ.take(k as int).contains(j as usize),
                    j < i,
                    tick,
                    duration,
                    p_death,
                ),
            decreases len - k,
        {
            let j = self.grid[x][y][k];
            let ghost before = self.agents@;
            if self.agents[j].agent_type == AgentType::AgentS {
                self.agents[j].infect(tick);
            }
            proof {
                let seen = occ.take(k as int);
                let now = occ.take(k + 1);
                assert forall|jj: int| 0 <= jj < n implies agent_transition(
                    pre[jj],
                    #[trigger] self.agents@[jj],
                    exposed(pre, i as int, jj, tick, duration) || now.contains(jj as usize),
                    jj < i,
                    tick,
                    duration,
                    p_death,
                ) by {
                    if seen.contains(jj as usize) {
                        let m = choose|m: int| 0 <= m < seen.len() && seen[m] == jj as usize;
                        assert(now[m] == jj as usize);
                    }
                    if jj == j as int {
                        assert(now[k as int] == j);
                    }
                    if now.contains(jj as usize) {
                        let m = choose|m: int| 0 <= m < now.len() && now[m] == jj as usize;
                        if m < k {
                            assert(seen[m] == jj as usize);
                        }
                    }
                    assert(agent_transition(
                        pre[jj],
                        before[jj],
                        exposed(pre, i as int, jj, tick, duration) || seen.contains(jj as usize),
                        jj < i,
                        tick,
                        duration,
                        p_death,
                    ));
                }
            }
            k = k + 1;
        }
        assert(occ.take(len as int) =~= occ);
        assert forall|j: int| 0 <= j < n implies (exposed(pre, i as int, j, tick, duration) || occ.contains(j as usize))
            == exposed(pre, i + 1, j, tick, duration) by {
            if occ.contains(j as usize) {
                let m = choose|m: int| 0 <= m < occ.len() && occ[m] == j as usize;
                assert(same_cell(pre[i as int], pre[j]));
            }
            if same_cell(pre[i as int], pre[j]) {
                assert(occ.contains(j as usize));
            }
        }
    }

    /// Counts the current population by compartment.
    pub fn get_statistics(&self) -> (r: TallyStates)
        ensures
            tallies(r, self.spec_agents()),
            conserves(r, self.spec_agents().len()),
    {
        tally(&self.agents)
    }

    /// Advances the running simulation by one tick: increments the tick,
    /// runs the transition pass, moves every agent and rebuilds the grid
    /// index, then records the new counts.
    pub fn step(&mut self)
        requires
            old(self).stable(),
            old(self).spec_stats().infected > 0,
        ensures
            final(self).stable(),
            final(self).spec_tick() == old(self).spec_tick() + 1,
            final(self).spec_grid_size() == old(self).spec_grid_size(),
            final(self).spec_duration() == old(self).spec_duration(),
            final(self).spec_p_death() == old(self).spec_p_death(),
            final(self).spec_agents().len() == old(self).spec_agents().len(),
            final(self).wf(),
            ticked(
                old(self).spec_agents(),
                final(self).spec_agents(),
                final(self).spec_tick(),
                old(self).spec_duration(),
                old(self).spec_p_death(),
                old(self).spec_grid_size(),
            ),
            forall|j: int| 0 <= j < old(self).spec_agents().len() ==> may_follow(
                (#[trigger] old(self).spec_agents()[j]).agent_type,
                final(self).spec_agents()[j].agent_type,
            ),
            forall|j: int| 0 <= j < final(self).spec_agents().len() ==> {
                &&& (#[trigger] final(self).spec_agents()[j]).x < final(self).spec_grid_size().0
                &&& final(self).spec_agents()[j].y < final(self).spec_grid_size().1
            },
            tallies(final(self).spec_stats(), final(self).spec_agents()),
            conserves(final(self).spec_stats(), final(self).spec_agents().len()),
            monotone(old(self).spec_stats(), final(self).spec_stats()),
            final(self).spec_potential() < old(self).spec_potential(),
    {
        let ghost pre = self.agents@;
        let ghost t0 = self.tick;
        let ghost d = self.duration as int;
        proof {
            lemma_count_witness(pre, AgentType::AgentI);
            let w = choose|j: int| 0 <= j < pre.len() && (#[trigger] pre[j]).agent_type == AgentType::AgentI;
            lemma_potential_bounds(pre, t0 as int, d);
            assert(agent_potential(pre[w], t0 as int, d) >= 1);
        }
        self.tick = self.tick + 1;
        self.update_type();
        let ghost mid = self.agents@;
        move_all(self);
        self.stats = self.get_statistics();
        proof {
            let post = self.agents@;
            let t1 = self.tick as int;
            assert forall|j: int| 0 <= j < pre.len() implies
                agent_potential(#[trigger] mid[j], t1, d) <= agent_potential(pre[j], t0 as int, d)
                && (pre[j].agent_type == AgentType::AgentI ==> agent_potential(mid[j], t1, d) < agent_potential(pre[j], t0 as int, d))
                && may_follow(pre[j].agent_type, post[j].agent_type) by {
                assert(moved(mid[j], post[j], self.grid_size));
            }
            lemma_potential_drops(pre, mid, t0 as int, t1, d);
            lemma_potential_same(mid, post, t1, d);
            assert forall|j: int| 0 <= j < post.len() && (#[trigger] post[j]).agent_type == AgentType::AgentI
                implies t1 - post[j].tick <= d by {
                assert(moved(mid[j], post[j], self.grid_size));
            }
            assert forall|j: int| 0 <= j < post.len() && (#[trigger] post[j]).agent_type == AgentType::AgentS
                implies pre[j].agent_type == AgentType::AgentS by {
                assert(may_follow(pre[j].agent_type, post[j].agent_type));
            }
            assert forall|j: int| 0 <= j < pre.len() && (#[trigger] pre[j]).agent_type == AgentType::AgentR
                implies post[j].agent_type == AgentType::AgentR by {
                assert(may_follow(pre[j].agent_type, post[j].agent_type));
            }
            assert forall|j: int| 0 <= j < pre.len() && (#[trigger] pre[j]).agent_type == AgentType::AgentD
                implies post[j].agent_type == AgentType::AgentD by {
                assert(may_follow(pre[j].agent_type, post[j].agent_type));
            }
            assert(transitioned(pre, mid, self.tick, self.duration, self.p_death));
            assert(ticked(pre, post, self.tick, self.duration, self.p_death, self.grid_size));
            lemma_count_grows(post, pre, AgentType::AgentS);
            lemma_count_grows(pre, post, AgentType::AgentR);
            lemma_count_grows(pre, post, AgentType::AgentD);
        }
    }

    /// Steps until no agent is infected and returns the counts of every tick,
    /// the current one first. The run passes through one population per
    /// entry, each the tick after the one before and counted by its entry.
    pub fn run(&mut self) -> (r: Vec<TallyStates>)
        requires
            old(self).stable(),
        ensures
            final(self).wf(),
            final(self).stable(),
            tallies(final(self).spec_stats(), final(self).spec_agents()),
            final(self).spec_stats().infected == 0,
            final(self).spec_agents().len() == old(self).spec_agents().len(),
            final(self).spec_duration() == old(self).spec_duration(),
            final(self).spec_p_death() == old(self).spec_p_death(),
            final(self).spec_grid_size() == old(self).spec_grid_size(),
            r@.len() == final(self).spec_tick() - old(self).spec_tick() + 1,
            r@.len() <= old(self).spec_agents().len() * (old(self).spec_duration() + 1) + 1,
            r@[0] == old(self).spec_stats(),
            r@.last() == final(self).spec_stats(),
            forall|t: int| 0 <= t < r@.len() ==> conserves(#[trigger] r@[t], old(self).spec_agents().len()),
            forall|t: int| 0 <= t < r@.len() - 1 ==> (#[trigger] r@[t]).infected > 0,
            forall|t: int| 0 <= t < r@.len() - 1 ==> monotone(#[trigger] r@[t], r@[t + 1]),
            forall|j: int| 0 <= j < old(self).spec_agents().len() ==> never_back(
                (#[trigger] old(self).spec_agents()[j]).agent_type,
                final(self).spec_agents()[j].agent_type,
            ),
            exists|states: Seq<Seq<Agent>>| {
                &&& states.len() == r@.len()
                &&& states[0] == old(self).spec_agents()
                &&& states.last() == final(self).spec_agents()
                &&& forall|t: int| 0 <= t < states.len() ==>
                    (#[trigger] states[t]).len() == old(self).spec_agents().len()
                &&& forall|t: int| 0 <= t < states.len() ==> tallies(r@[t], #[trigger] states[t])
                &&& forall|t: int| 0 <= t < states.len() - 1 ==> ticked(
                    #[trigger] states[t],
                    states[t + 1],
                    (old(self).spec_tick() + t + 1) as usize,
                    old(self).spec_duration(),
                    old(self).spec_p_death(),
                    old(self).spec_grid_size(),
                )
            },
    {
        let ghost n = self.agents@.len();
        let ghost t0 = self.tick;
        let ghost start = self.agents@;
        let ghost mut states: Seq<Seq<Agent>> = seq![self.agents@];
        proof {
            lemma_census_total(self.agents@);
            lemma_potential_bounds(self.agents@, self.tick as int, self.duration as int);
        }
        let mut stats_ticks = vec![self.stats];
        while self.stats.infected > 0
            invariant
                self.stable(),
                self.agents@.len() == n,
                start == old(self).agents@,
                self.duration == old(self).duration,
                self.p_death == old(self).p_death,
                self.grid_size == old(self).grid_size,
                t0 == old(self).tick,
                t0 <= self.tick,
                0 <= self.spec_potential(),
                stats_ticks@.len() == self.tick - t0 + 1,
                stats_ticks@[0] == old(self).stats,
                stats_ticks@.last() == self.stats,
                forall|t: int| 0 <= t < stats_ticks@.len() ==> conserves(#[trigger] stats_ticks@[t], n),
                forall|t: int| 0 <= t < stats_ticks@.len() - 1 ==> (#[trigger] stats_ticks@[t]).infected > 0,
                forall|t: int| 0 <= t < stats_ticks@.len() - 1 ==> monotone(#[trigger] stats_ticks@[t], stats_ticks@[t + 1]),
                forall|j: int| 0 <= j < n ==> never_back((#[trigger] start[j]).agent_type, self.agents@[j].agent_type),
                states.len() == stats_ticks@.len(),
                states[0] == start,
                states.last() == self.agents@,
                forall|t: int| 0 <= t < states.len() ==> (#[trigger] states[t]).len() == n,
                forall|t: int| 0 <= t < states.len() ==> tallies(stats_ticks@[t], #[trigger] states[t]),
                forall|t: int| 0 <= t < states.len() - 1 ==> ticked(
                    #[trigger] states[t],
                    states[t + 1],
                    (t0 + t + 1) as usize,
                    self.duration,
                    self.p_death,
                    self.grid_size,
                ),
            decreases self.spec_potential(),
        {
            let ghost before = self.agents@;
            self.step();
            proof {
                lemma_potential_bounds(self.agents@, self.tick as int, self.duration as int);
                assert forall|j: int| 0 <= j < n implies never_back(
                    (#[trigger] start[j]).agent_type,
                    self.agents@[j].agent_type,
                ) by {
                    assert(may_follow(before[j].agent_type, self.agents@[j].agent_type));
                    assert(never_back(start[j].agent_type, before[j].agent_type));
                }
                states = states.push(self.agents@);
            }
            stats_ticks.push(self.stats);
        }
        proof {
            lemma_potential_bounds(self.agents@, self.tick as int, self.duration as int);
        }
        stats_ticks
    }

    /// The population, in index order.
    pub fn agents(&self) -> (r: &Vec<Agent>)
        ensures
            r@ == self.spec_agents(),
    {
        &self.agents
    }

    /// The current tick.
    pub fn tick(&self) -> (r: usize)
        ensures
            r == self.spec_tick(),
    {
        self.tick
    }

    /// The grid's width and height.
    pub fn grid_size(&self) -> (r: (usize, usize))
        ensures
            r == self.spec_grid_size(),
    {
        self.grid_size
    }

    /// The counts recorded for the current tick.
    pub fn stats(&self) -> (r: TallyStates)
        ensures
            r == self.spec_stats(),
    {
        self.stats
    }

    /// The agents on cell `(x, y)`, in ascending index order.
    pub fn cell(&self, x: usize, y: usize) -> (r: &Vec<usize>)
        requires
            self.wf(),
            x < self.spec_grid_size().0,
            y < self.spec_grid_size().1,
        ensures
            r@ == occupants(self.spec_agents(), x, y),
            r@ == self.spec_cell(x, y),
    {
        &self.grid[x][y]
    }
}

/// Position bounds: between ticks every agent stands on the
/// grid.
pub proof fn lemma_on_grid(env: &Environment)
    requires
        env.stable(),
    ensures
        forall|j: int| 0 <= j < env.spec_agents().len() ==> {
            &&& (#[trigger] env.spec_agents()[j]).x < env.spec_grid_size().0
            &&& env.spec_agents()[j].y < env.spec_grid_size().1
        },
{
}

/// Moves every agent in ascending order and rebuilds the grid index from the
/// new positions; dead agents stay and are indexed where they lie.
fn move_all(env: &mut Environment)
    requires
        old(env).wf(),
    ensures
        final(env).wf(),
        final(env).tick == old(env).tick,
        final(env).duration == old(env).duration,
        final(env).p_death == old(env).p_death,
        final(env).grid_size == old(env).grid_size,
        final(env).stats == old(env).stats,
        final(env).agents@.len() == old(env).agents@.len(),
        forall|j: int| 0 <= j < old(env).agents@.len() ==>
            moved(old(env).agents@[j], #[trigger] final(env).agents@[j], old(env).grid_size),
{
    let dims = env.grid_size;
    let mut grid = empty_grid(dims.0, dims.1);
    let n = env.agents.len();
    let ghost pre = env.agents@;
    let mut i: usize = 0;
    while i < n
        invariant
            i <= n,
            n == pre.len(),
            env.agents@.len() == n,
            env.tick == old(env).tick,
            env.duration == old(env).duration,
            env.p_death == old(env).p_death,
            env.grid_size == dims,
            env.stats == old(env).stats,
            dims.0 > 0,
            dims.1 > 0,
            indexes(grid@, env.agents@.take(i as int), dims.0, dims.1),
            forall|j: int| 0 <= j < n ==> {
                &&& (#[trigger] pre[j]).x < dims.0
                &&& pre[j].y < dims.1
            },
            forall|j: int| 0 <= j < i ==> moved(pre[j], #[trigger] env.agents@[j], dims),
            forall|j: int| i <= j < n ==> #[trigger] env.agents@[j] == pre[j],
        decreases n - i,
    {
        let ghost before = env.agents@;
        env.agents[i].move_agent(dims, &mut env.rng);
        let x = env.agents[i].x;
        let y = env.agents[i].y;
        proof {
            assert(env.agents@.take(i as int) =~= before.take(i as int));
            assert(env.agents@.take(i + 1).drop_last() =~= env.agents@.take(i as int));
        }
        grid[x][y].push(i);
        proof {
            let seen = env.agents@.take(i + 1);
            assert forall|cx: usize, cy: usize| cx < dims.0 && cy < dims.1 implies
                (#[trigger] grid@[cx as int]@[cy as int])@ == occupants(seen, cx, cy) by {
            }
        }
        i = i + 1;
    }
    proof {
        assert(env.agents@.take(n as int) =~= env.agents@);
    }
    env.grid = grid;
}

} // verus!
