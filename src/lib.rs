//! An agent-based susceptible-infected-recovered-dead epidemic model on a
//! bounded discrete grid. Every tick is proved to conserve the population,
//! to keep agents on the grid and to move compartments only forward.
pub mod agent;
pub mod random;
pub mod census;
pub mod grid;
pub mod rules;
pub mod environment;
pub mod laws;
