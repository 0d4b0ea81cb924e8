//! The automated player: static evaluation and search.

pub mod minimax;
pub mod soundness;
