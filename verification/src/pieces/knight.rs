//! The knight.

use vstd::prelude::*;
use crate::chessboard::Board;
use crate::movegen::{is_on_board, push_hop};
use crate::pieces::piece::{Color, Kind, Man, Piece, Square};
use crate::rules::{knight_moves, lemma_pseudo_moves_on_board};

verus! {

/// A knight of one colour on one square.
#[derive(Clone, Copy, Debug)]
pub struct Knight {
    rank: i32,
    file: i32,
    color: Color,
}

impl Knight {
    /// A knight of `color` on (rank, file).
    pub fn new(color: Color, rank: i32, file: i32) -> (piece: Self)
        ensures
            piece@ == (Man { kind: Kind::Knight, color, rank, file }),
    {
        Self { rank, file, color }
    }
}

impl View for Knight {
    type V = Man;

    closed spec fn view(&self) -> Man {
        Man { kind: Kind::Knight, color: self.color, rank: self.rank, file: self.file }
    }
}

impl Piece for Knight {
    open spec fn man(&self) -> Man {
        self@
    }

    fn get_name(&self) -> (name: &'static str) {
        proof {
            reveal_strlit("N");
        }
        assert("N"@ =~= seq!['N']);
        "N"
    }

    fn get_kind(&self) -> (kind: Kind) {
        Kind::Knight
    }

    fn get_rank(&self) -> (rank: i32) {
        self.rank
    }

    fn get_file(&self) -> (file: i32) {
        self.file
    }

    fn get_color(&self) -> (color: Color) {
        self.color
    }

    fn set_rank(&mut self, rank: i32) {
        self.rank = rank;
    }

    fn set_file(&mut self, file: i32) {
        self.file = file;
    }

    fn set_color(&mut self, color: Color) {
        self.color = color;
    }

    fn get_possible_moves(&self, board: &Board) -> (moves: Vec<Square>) {
        let mut moves: Vec<Square> = Vec::new();
        if !is_on_board(self.rank, self.file) {
            return moves;
        }
        let me = Man { kind: Kind::Knight, color: self.color, rank: self.rank, file: self.file };
        push_hop(board, me, 2, 1, &mut moves);
        push_hop(board, me, 2, -1, &mut moves);
        push_hop(board, me, -2, 1, &mut moves);
        push_hop(board, me, -2, -1, &mut moves);
        push_hop(board, me, 1, 2, &mut moves);
        push_hop(board, me, 1, -2, &mut moves);
        push_hop(board, me, -1, 2, &mut moves);
        push_hop(board, me, -1, -2, &mut moves);
        assert(moves@ =~= knight_moves(board@.men, me));
        proof {
            lemma_pseudo_moves_on_board(board@, self@);
        }
        moves
    }
}

} // verus!
