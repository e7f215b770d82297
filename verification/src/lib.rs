//! Decision engine for a turn-based underwater exploration game: a world
//! model of creatures and drones, a move generator, a forward simulator for
//! physics and scoring, a static evaluator, and a depth-limited minimax
//! search with alpha-beta pruning that picks one action per turn.

pub mod geometry;
pub mod model;
pub mod moves;
pub mod search;
pub mod evaluate;
pub mod simulate;
pub mod snapshot;

pub use model::Creature;
