//! The bishop.

use vstd::prelude::*;
use crate::chessboard::Board;
use crate::movegen::{is_on_board, push_slide};
use crate::pieces::piece::{Color, Kind, Man, Piece, Square};
use crate::rules::{bishop_moves, lemma_pseudo_moves_on_board};

verus! {

/// A bishop of one colour on one square.
#[derive(Clone, Copy, Debug)]
pub struct Bishop {
    rank: i32,
    file: i32,
    color: Color,
}

impl Bishop {
    /// A bishop of `color` on (rank, file).
    pub fn new(color: Color, rank: i32, file: i32) -> (piece: Self)
        ensures
            piece@ == (Man { kind: Kind::Bishop, color, rank, file }),
    {
        Self { rank, file, color }
    }
}

impl View for Bishop {
    type V = Man;

    closed spec fn view(&self) -> Man {
        Man { kind: Kind::Bishop, color: self.color, rank: self.rank, file: self.file }
    }
}

impl Piece for Bishop {
    open spec fn man(&self) -> Man {
        self@
    }

    fn get_name(&self) -> (name: &'static str) {
        proof {
            reveal_strlit("B");
        }
        assert("B"@ =~= seq!['B']);
        "B"
    }

    fn get_kind(&self) -> (kind: Kind) {
        Kind::Bishop
    }

    fn get_rank(&self) -> (rank: i32) {
        self.rank
    }

    fn get_file(&self) -> (file: i32) {
        self.file
    }

    fn get_color(&self) -> (color: Color) {
        self.color
    }

    fn set_rank(&mut self, rank: i32) {
        self.rank = rank;
    }

    fn set_file(&mut self, file: i32) {
        self.file = file;
    }

    fn set_color(&mut self, color: Color) {
        self.color = color;
    }

    fn get_possible_moves(&self, board: &Board) -> (moves: Vec<Square>) {
        let mut moves: Vec<Square> = Vec::new();
        if !is_on_board(self.rank, self.file) {
            return moves;
        }
        let me = Man { kind: Kind::Bishop, color: self.color, rank: self.rank, file: self.file };
        push_slide(board, me, 1, 1, &mut moves);
        push_slide(board, me, 1, -1, &mut moves);
        push_slide(board, me, -1, 1, &mut moves);
        push_slide(board, me, -1, -1, &mut moves);
        assert(moves@ =~= bishop_moves(board@.men, me));
        proof {
            lemma_pseudo_moves_on_board(board@, self@);
        }
        moves
    }
}

} // verus!
