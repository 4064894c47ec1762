//! A double-buffered Game of Life kernel with toroidal or clamped edges.
pub mod automaton;
pub mod laws;
pub mod model;
pub mod random;
pub mod rules;

pub use automaton::{AutomatonState, LifeError, Seeding};
pub use model::Boundary;
pub use rules::{next_state, Cell};
