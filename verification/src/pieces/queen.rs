//! The queen.

use vstd::prelude::*;
use crate::chessboard::Board;
use crate::movegen::{is_on_board, push_slide};
use crate::pieces::piece::{Color, Kind, Man, Piece, Square};
use crate::rules::{bishop_moves, lemma_pseudo_moves_on_board, rook_moves};

verus! {

/// A queen of one colour on one square.
#[derive(Clone, Copy, Debug)]
pub struct Queen {
    rank: i32,
    file: i32,
    color: Color,
}

impl Queen {
    /// A queen of `color` on (rank, file).
    pub fn new(color: Color, rank: i32, file: i32) -> (piece: Self)
        ensures
            piece@ == (Man { kind: Kind::Queen, color, rank, file }),
    {
        Self { rank, file, color }
    }
}

impl View for Queen {
    type V = Man;

    closed spec fn view(&self) -> Man {
        Man { kind: Kind::Queen, color: self.color, rank: self.rank, file: self.file }
    }
}

impl Piece for Queen {
    open spec fn man(&self) -> Man {
        self@
    }

    fn get_name(&self) -> (name: &'static str) {
        proof {
            reveal_strlit("Q");
        }
        assert("Q"@ =~= seq!['Q']);
        "Q"
    }

    fn get_kind(&self) -> (kind: Kind) {
        Kind::Queen
    }

    fn get_rank(&self) -> (rank: i32) {
        self.rank
    }

    fn get_file(&self) -> (file: i32) {
        self.file
    }

    fn get_color(&self) -> (color: Color) {
        self.color
    }

    fn set_rank(&mut self, rank: i32) {
        self.rank = rank;
    }

    fn set_file(&mut self, file: i32) {
        self.file = file;
    }

    fn set_color(&mut self, color: Color) {
        self.color = color;
    }

    fn get_possible_moves(&self, board: &Board) -> (moves: Vec<Square>) {
        let mut moves: Vec<Square> = Vec::new();
        if !is_on_board(self.rank, self.file) {
            return moves;
        }
        let me = Man { kind: Kind::Queen, color: self.color, rank: self.rank, file: self.file };
        push_slide(board, me, 0, 1, &mut moves);
        push_slide(board, me, 0, -1, &mut moves);
        push_slide(board, me, 1, 0, &mut moves);
        push_slide(board, me, -1, 0, &mut moves);
        assert(moves@ =~= rook_moves(board@.men, me));
        push_slide(board, me, 1, 1, &mut moves);
        push_slide(board, me, 1, -1, &mut moves);
        push_slide(board, me, -1, 1, &mut moves);
        push_slide(board, me, -1, -1, &mut moves);
        assert(moves@ =~= rook_moves(board@.men, me) + bishop_moves(board@.men, me));
        proof {
            lemma_pseudo_moves_on_board(board@, self@);
        }
        moves
    }
}

} // verus!
