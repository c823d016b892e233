//! The exact, integer core of a t-SNE embedding engine.

pub mod pairwise;
pub mod schedule;
pub mod search;
