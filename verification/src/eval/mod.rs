//! Evaluation of candidate placements.
pub mod collision_loss;
pub mod evaluation;
