//! A chess rules engine with a fixed-depth alpha-beta search.
//!
//! The rules are stated once, as specification functions over a mathematical
//! `Position`; every executable function is proved to compute what they say.

pub mod ai;
pub mod autoplay;
pub mod chessboard;
pub mod legality;
pub mod movegen;
pub mod pieces;
pub mod play;
pub mod position_key;
pub mod rules;
