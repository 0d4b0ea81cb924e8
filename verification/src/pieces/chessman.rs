//! Any one of the six kinds of chessman, as the board holds them.

use vstd::prelude::*;
use crate::pieces::bishop::Bishop;
use crate::pieces::king::King;
use crate::pieces::knight::Knight;
use crate::pieces::pawn::Pawn;
use crate::chessboard::Board;
use crate::pieces::piece::{Color, Kind, Man, Piece, Square};
use crate::pieces::queen::Queen;
use crate::pieces::rook::Rook;

verus! {

/// One chessman of any kind.
#[derive(Clone, Copy, Debug)]
pub enum Chessman {
    Pawn(Pawn),
    Knight(Knight),
    Bishop(Bishop),
    Rook(Rook),
    Queen(Queen),
    King(King),
}

impl Chessman {
    /// The chessman of the given kind and colour on (rank, file).
    pub fn of_kind(kind: Kind, color: Color, rank: i32, file: i32) -> (piece: Self)
        ensures
            piece@ == (Man { kind, color, rank, file }),
    {
        match kind {
            Kind::Pawn => Chessman::Pawn(Pawn::new(color, rank, file)),
            Kind::Knight => Chessman::Knight(Knight::new(color, rank, file)),
            Kind::Bishop => Chessman::Bishop(Bishop::new(color, rank, file)),
            Kind::Rook => Chessman::Rook(Rook::new(color, rank, file)),
            Kind::Queen => Chessman::Queen(Queen::new(color, rank, file)),
            Kind::King => Chessman::King(King::new(color, rank, file)),
        }
    }

    /// The plain record of this chessman.
    pub fn to_man(&self) -> (m: Man)
        ensures
            m == self@,
    {
        Man {
            kind: self.get_kind(),
            color: self.get_color(),
            rank: self.get_rank(),
            file: self.get_file(),
        }
    }
}

impl View for Chessman {
    type V = Man;

    open spec fn view(&self) -> Man {
        match *self {
            Chessman::Pawn(p) => p@,
            Chessman::Knight(p) => p@,
            Chessman::Bishop(p) => p@,
            Chessman::Rook(p) => p@,
            Chessman::Queen(p) => p@,
            Chessman::King(p) => p@,
        }
    }
}

impl Piece for Chessman {
    open spec fn man(&self) -> Man {
        self@
    }

    fn get_name(&self) -> (name: &'static str) {
        match self {
            Chessman::Pawn(p) => p.get_name(),
            Chessman::Knight(p) => p.get_name(),
            Chessman::Bishop(p) => p.get_name(),
            Chessman::Rook(p) => p.get_name(),
            Chessman::Queen(p) => p.get_name(),
            Chessman::King(p) => p.get_name(),
        }
    }

    fn get_kind(&self) -> (kind: Kind) {
        match self {
            Chessman::Pawn(p) => p.get_kind(),
            Chessman::Knight(p) => p.get_kind(),
            Chessman::Bishop(p) => p.get_kind(),
            Chessman::Rook(p) => p.get_kind(),
            Chessman::Queen(p) => p.get_kind(),
            Chessman::King(p) => p.get_kind(),
        }
    }

    fn get_rank(&self) -> (rank: i32) {
        match self {
            Chessman::Pawn(p) => p.get_rank(),
            Chessman::Knight(p) => p.get_rank(),
            Chessman::Bishop(p) => p.get_rank(),
            Chessman::Rook(p) => p.get_rank(),
            Chessman::Queen(p) => p.get_rank(),
            Chessman::King(p) => p.get_rank(),
        }
    }

    fn get_file(&self) -> (file: i32) {
        match self {
            Chessman::Pawn(p) => p.get_file(),
            Chessman::Knight(p) => p.get_file(),
            Chessman::Bishop(p) => p.get_file(),
            Chessman::Rook(p) => p.get_file(),
            Chessman::Queen(p) => p.get_file(),
            Chessman::King(p) => p.get_file(),
        }
    }

    fn get_color(&self) -> (color: Color) {
        match self {
            Chessman::Pawn(p) => p.get_color(),
            Chessman::Knight(p) => p.get_color(),
            Chessman::Bishop(p) => p.get_color(),
            Chessman::Rook(p) => p.get_color(),
            Chessman::Queen(p) => p.get_color(),
            Chessman::King(p) => p.get_color(),
        }
    }

    fn set_rank(&mut self, rank: i32) {
        *self = Chessman::of_kind(self.get_kind(), self.get_color(), rank, self.get_file());
    }

    fn set_file(&mut self, file: i32) {
        *self = Chessman::of_kind(self.get_kind(), self.get_color(), self.get_rank(), file);
    }

    fn set_color(&mut self, color: Color) {
        *self = Chessman::of_kind(self.get_kind(), color, self.get_rank(), self.get_file());
    }

    fn get_possible_moves(&self, board: &Board) -> (moves: Vec<Square>) {
        match self {
            Chessman::Pawn(p) => p.get_possible_moves(board),
            Chessman::Knight(p) => p.get_possible_moves(board),
            Chessman::Bishop(p) => p.get_possible_moves(board),
            Chessman::Rook(p) => p.get_possible_moves(board),
            Chessman::Queen(p) => p.get_possible_moves(board),
            Chessman::King(p) => p.get_possible_moves(board),
        }
    }
}

} // verus!
