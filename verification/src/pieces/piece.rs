//! Colours, kinds, and the plain record that every chessman is viewed as.

use vstd::prelude::*;
use crate::chessboard::Board;
use crate::rules::{all_on_board, pseudo_moves};

verus! {

/// A square of the board as (rank, file). Rank 0 is White's back rank.
pub type Square = (i32, i32);

/// A move as (origin, destination).
pub type Move = (Square, Square);

/// The two sides.
#[derive(Clone, Copy, Debug, PartialEq, Eq, Structural)]
pub enum Color {
    White,
    Black,
}

/// The six kinds of chessmen.
#[derive(Clone, Copy, Debug, PartialEq, Eq, Structural)]
pub enum Kind {
    Pawn,
    Knight,
    Bishop,
    Rook,
    Queen,
    King,
}

/// What the rules need to know about one chessman.
#[derive(Clone, Copy, Debug, PartialEq, Eq, Structural)]
pub struct Man {
    pub kind: Kind,
    pub color: Color,
    pub rank: i32,
    pub file: i32,
}

impl Color {
    /// The other side.
    pub open spec fn other(self) -> Color {
        match self {
            Color::White => Color::Black,
            Color::Black => Color::White,
        }
    }

    /// The other side.
    pub fn opponent(self) -> (c: Color)
        ensures
            c == self.other(),
    {
        match self {
            Color::White => Color::Black,
            Color::Black => Color::White,
        }
    }
}

/// The one-letter name of each kind.
pub open spec fn kind_name(kind: Kind) -> Seq<char> {
    match kind {
        Kind::Pawn => seq!['P'],
        Kind::Knight => seq!['N'],
        Kind::Bishop => seq!['B'],
        Kind::Rook => seq!['R'],
        Kind::Queen => seq!['Q'],
        Kind::King => seq!['K'],
    }
}

/// What every chessman offers: its identity, its place, and its rule of
/// movement on a given board.
pub trait Piece: Sized {
    /// The man as the rules see it.
    spec fn man(&self) -> Man;

    fn get_name(&self) -> (name: &'static str)
        ensures
            name@ == kind_name(self.man().kind),
    ;

    fn get_kind(&self) -> (kind: Kind)
        ensures
            kind == self.man().kind,
    ;

    fn get_rank(&self) -> (rank: i32)
        ensures
            rank == self.man().rank,
    ;

    fn get_file(&self) -> (file: i32)
        ensures
            file == self.man().file,
    ;

    fn get_color(&self) -> (color: Color)
        ensures
            color == self.man().color,
    ;

    fn set_rank(&mut self, rank: i32)
        ensures
            final(self).man() == (Man { rank, ..old(self).man() }),
    ;

    fn set_file(&mut self, file: i32)
        ensures
            final(self).man() == (Man { file, ..old(self).man() }),
    ;

    fn set_color(&mut self, color: Color)
        ensures
            final(self).man() == (Man { color, ..old(self).man() }),
    ;

    /// The pseudo-legal moves of this man on `board`, in the order in which
    /// its rule of movement lists them. None of them leaves the board.
    fn get_possible_moves(&self, board: &Board) -> (moves: Vec<Square>)
        ensures
            moves@ == pseudo_moves(board@, self.man()),
            all_on_board(moves@),
    ;
}

} // verus!
