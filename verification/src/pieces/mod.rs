//! The chessmen: one type per kind, and what they have in common.

pub mod bishop;
pub mod chessman;
pub mod king;
pub mod knight;
pub mod pawn;
pub mod piece;
pub mod queen;
pub mod rook;
