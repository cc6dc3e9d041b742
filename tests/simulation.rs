use bkamins_sir_abm::agent::{step_coord, Agent, AgentType};
use bkamins_sir_abm::census::TallyStates;
use bkamins_sir_abm::environment::{ConfigError, Environment};

fn counts(susceptible: usize, infected: usize, recovered: usize, dead: usize) -> TallyStates {
    TallyStates { susceptible, infected, recovered, dead }
}

#[test]
fn test_init_environment() {
    let initial_environment = Environment::init(25, 2, 10, 1, 2, 10, 10, 1).unwrap();
    println!("Agents:\n\t{:#?}", initial_environment.agents());
    let mut cells = Vec::new();
    for x in 0..10 {
        for y in 0..10 {
            if !initial_environment.cell(x, y).is_empty() {
                cells.push(((x, y), initial_environment.cell(x, y).clone()));
            }
        }
    }
    println!("Grid:\n\t{:#?}", cells);
    println!("Stats/State tally:\n\t{:?}", initial_environment.stats());
}

#[test]
fn test_running_the_model() {
    let mut e = Environment::init(2000, 10, 21, 1, 20, 100, 100, 2020).unwrap();
    let states_record = e.run();
    let ticks: Vec<usize> = (0..states_record.len()).collect();
    let susceptible: Vec<usize> = states_record.iter().map(|s| s.susceptible).collect();
    let infected: Vec<usize> = states_record.iter().map(|s| s.infected).collect();
    let recovered: Vec<usize> = states_record.iter().map(|s| s.recovered).collect();
    let dead: Vec<usize> = states_record.iter().map(|s| s.dead).collect();
    for (name, column) in [
        ("susceptible", &susceptible),
        ("infected", &infected),
        ("recovered", &recovered),
        ("dead", &dead),
    ] {
        assert_eq!(column.len(), ticks.len(), "{}", name);
    }
    assert_eq!(*infected.last().unwrap(), 0);
}

#[test]
fn first_counts_and_run_to_the_end() {
    let mut e = Environment::init(25, 2, 10, 1, 2, 10, 10, 7).unwrap();
    assert_eq!(e.get_statistics(), counts(23, 2, 0, 0));
    assert_eq!(e.stats(), counts(23, 2, 0, 0));
    let series = e.run();
    assert!(!series.is_empty());
    assert_eq!(series[0], counts(23, 2, 0, 0));
    assert_eq!(series.last().unwrap().infected, 0);
}

#[test]
fn single_agent_dies_after_one_step() {
    let mut e = Environment::init(1, 1, 0, 1, 1, 1, 1, 3).unwrap();
    let series = e.run();
    assert_eq!(series, vec![counts(0, 1, 0, 0), counts(0, 0, 0, 1)]);
    assert_eq!(e.tick(), 1);
    assert_eq!(e.agents()[0].agent_type, AgentType::AgentD);
    assert_eq!(e.agents()[0].tick, 1);
}

#[test]
fn same_seed_gives_same_series() {
    let mut a = Environment::init(300, 5, 8, 1, 10, 20, 20, 99).unwrap();
    let mut b = Environment::init(300, 5, 8, 1, 10, 20, 20, 99).unwrap();
    assert_eq!(a.agents(), b.agents());
    let sa = a.run();
    let sb = b.run();
    assert_eq!(sa, sb);
    assert_eq!(a.agents(), b.agents());
}

#[test]
fn series_conserves_population_and_is_monotone() {
    let n = 400;
    let mut e = Environment::init(n, 4, 6, 1, 4, 15, 15, 11).unwrap();
    let series = e.run();
    for s in &series {
        assert_eq!(s.susceptible + s.infected + s.recovered + s.dead, n);
    }
    for w in series.windows(2) {
        assert!(w[1].susceptible <= w[0].susceptible);
        assert!(w[1].recovered >= w[0].recovered);
        assert!(w[1].dead >= w[0].dead);
    }
    for s in &series[..series.len() - 1] {
        assert!(s.infected > 0);
    }
    assert!(series.len() <= n * (6 + 1) + 1);
    assert_eq!(series.len(), e.tick() + 1);
}

#[test]
fn agents_stay_on_grid_and_compartments_move_forward() {
    let mut e = Environment::init(200, 3, 4, 1, 3, 7, 5, 5).unwrap();
    let rank = |t: AgentType| match t {
        AgentType::AgentS => 0,
        AgentType::AgentI => 1,
        AgentType::AgentR => 2,
        AgentType::AgentD => 2,
    };
    let mut infections = vec![0usize; 200];
    while e.stats().infected > 0 {
        let before = e.agents().clone();
        e.step();
        for (j, (a, b)) in before.iter().zip(e.agents().iter()).enumerate() {
            assert!(b.x < 7 && b.y < 5);
            assert!(rank(b.agent_type) >= rank(a.agent_type));
            if a.agent_type == AgentType::AgentR || a.agent_type == AgentType::AgentD {
                assert_eq!(a.agent_type, b.agent_type);
            }
            if a.agent_type == AgentType::AgentD {
                assert_eq!(a, b);
            }
            if a.agent_type == AgentType::AgentS && b.agent_type == AgentType::AgentI {
                infections[j] += 1;
                assert_eq!(b.tick, e.tick());
            }
            assert!(b.x.abs_diff(a.x) <= 1 || (a.x == 6 && b.x == 0));
            assert!(b.y.abs_diff(a.y) <= 1 || (a.y == 4 && b.y == 0));
        }
        assert_eq!(e.get_statistics(), e.stats());
    }
    assert!(infections.iter().all(|&c| c <= 1));
}

#[test]
fn grid_index_lists_each_agent_on_its_cell() {
    let mut e = Environment::init(60, 2, 3, 1, 2, 4, 3, 8).unwrap();
    for _ in 0..3 {
        if e.stats().infected == 0 {
            break;
        }
        e.step();
    }
    let cells_before: Vec<Vec<usize>> = (0..4).flat_map(|x| (0..3).map(move |y| (x, y))).map(|(x, y)| e.cell(x, y).clone()).collect();
    e.update_type();
    let cells_after: Vec<Vec<usize>> = (0..4).flat_map(|x| (0..3).map(move |y| (x, y))).map(|(x, y)| e.cell(x, y).clone()).collect();
    assert_eq!(cells_before, cells_after);
    let mut seen = vec![0usize; 60];
    for x in 0..4 {
        for y in 0..3 {
            let cell = e.cell(x, y);
            assert!(cell.windows(2).all(|w| w[0] < w[1]));
            for &j in cell {
                assert_eq!((e.agents()[j].x, e.agents()[j].y), (x, y));
                seen[j] += 1;
            }
        }
    }
    assert!(seen.iter().all(|&c| c == 1));
}

#[test]
fn zero_death_probability_means_nobody_dies() {
    let mut e = Environment::init(100, 10, 2, 0, 5, 5, 5, 4).unwrap();
    let series = e.run();
    let last = *series.last().unwrap();
    assert_eq!(last.dead, 0);
    assert_eq!(last.susceptible + last.recovered, 100);
}

#[test]
fn certain_death_kills_every_infected_agent() {
    let mut e = Environment::init(100, 10, 2, 7, 7, 5, 5, 4).unwrap();
    let series = e.run();
    let last = *series.last().unwrap();
    assert_eq!(last.recovered, 0);
    assert_eq!(last.susceptible + last.dead, 100);
}

#[test]
fn infection_window_lasts_duration_plus_one_ticks() {
    // All agents share the only cell. Tick one infects everybody; agent zero,
    // infected at tick zero, recovers at tick two, the others at tick three.
    let mut e = Environment::init(5, 1, 1, 0, 1, 1, 1, 6).unwrap();
    e.step();
    assert_eq!(e.stats(), counts(0, 5, 0, 0));
    assert!(e.agents()[1..].iter().all(|a| a.tick == 1));
    e.step();
    assert_eq!(e.stats(), counts(0, 4, 1, 0));
    assert_eq!(e.agents()[0].agent_type, AgentType::AgentR);
    e.step();
    assert_eq!(e.stats(), counts(0, 0, 5, 0));
}

#[test]
fn configuration_errors() {
    assert_eq!(Environment::init(3, 4, 1, 1, 2, 5, 5, 0).err(), Some(ConfigError::InfectedExceedsPopulation));
    assert_eq!(Environment::init(3, 1, 1, 1, 0, 5, 5, 0).err(), Some(ConfigError::InvalidProbability));
    assert_eq!(Environment::init(3, 1, 1, 3, 2, 5, 5, 0).err(), Some(ConfigError::InvalidProbability));
    assert_eq!(Environment::init(3, 1, 1, 1, 2, 0, 5, 0).err(), Some(ConfigError::EmptyGrid));
    assert_eq!(Environment::init(3, 1, 1, 1, 2, 5, 0, 0).err(), Some(ConfigError::EmptyGrid));
    assert_eq!(Environment::init(2, 1, usize::MAX, 1, 2, 5, 5, 0).err(), Some(ConfigError::RunTooLong));
    assert_eq!(Environment::init(usize::MAX / 2 + 1, 1, 1, 1, 2, 5, 5, 0).err(), Some(ConfigError::RunTooLong));
    assert!(Environment::init(0, 0, usize::MAX, 1, 2, 5, 5, 0).is_ok());
    assert!(Environment::init(0, 0, 1, 1, 2, 5, 5, 0).is_ok());
}

#[test]
fn empty_population_runs_no_tick() {
    let mut e = Environment::init(4, 0, 3, 1, 2, 2, 2, 0).unwrap();
    let series = e.run();
    assert_eq!(series, vec![counts(4, 0, 0, 0)]);
    assert_eq!(e.tick(), 0);
}

#[test]
fn first_agents_start_infected() {
    let e = Environment::init(10, 3, 1, 1, 2, 3, 3, 12).unwrap();
    for (i, a) in e.agents().iter().enumerate() {
        let expected = if i < 3 { AgentType::AgentI } else { AgentType::AgentS };
        assert_eq!(a.agent_type, expected);
        assert_eq!(a.tick, 0);
        assert!(a.x < 3 && a.y < 3);
    }
}

#[test]
fn coordinate_steps() {
    assert_eq!(step_coord(9, 10, true, 1), 0);
    assert_eq!(step_coord(3, 10, true, 1), 4);
    assert_eq!(step_coord(3, 10, true, 0), 3);
    assert_eq!(step_coord(0, 10, false, 1), 0);
    assert_eq!(step_coord(5, 10, false, 1), 4);
    assert_eq!(step_coord(0, 1, true, 1), 0);
}

#[test]
fn agent_transitions_and_moves() {
    let mut a = Agent { x: 2, y: 0, agent_type: AgentType::AgentS, tick: 0 };
    a.infect(3);
    assert_eq!(a, Agent { x: 2, y: 0, agent_type: AgentType::AgentI, tick: 3 });
    a.move_by((3, 4), true, 1, false, 1);
    assert_eq!((a.x, a.y), (0, 0));
    a.recover(5);
    assert_eq!(a, Agent { x: 0, y: 0, agent_type: AgentType::AgentR, tick: 5 });
    let mut b = a;
    b.resolve(6, false);
    assert_eq!(b, Agent { x: 0, y: 0, agent_type: AgentType::AgentR, tick: 6 });
    b.resolve(7, true);
    assert_eq!(b, Agent { x: 0, y: 0, agent_type: AgentType::AgentD, tick: 7 });
    a.die(6);
    assert_eq!(a.agent_type, AgentType::AgentD);
    assert_eq!(a.tick, 6);
    a.move_by((3, 4), true, 1, true, 1);
    assert_eq!((a.x, a.y), (0, 0));
}
