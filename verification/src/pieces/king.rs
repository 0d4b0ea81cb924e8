//! The king.

use vstd::prelude::*;
use crate::chessboard::Board;
use crate::movegen::{is_on_board, push_hop};
use crate::pieces::piece::{Color, Kind, Man, Piece, Square};
use crate::rules::{
    castle_kingside, castle_queenside, king_moves, king_steps, lemma_pseudo_moves_on_board,
};

verus! {

/// A king of one colour on one square.
#[derive(Clone, Copy, Debug)]
pub struct King {
    rank: i32,
    file: i32,
    color: Color,
}

impl King {
    /// A king of `color` on (rank, file).
    pub fn new(color: Color, rank: i32, file: i32) -> (piece: Self)
        ensures
            piece@ == (Man { kind: Kind::King, color, rank, file }),
    {
        Self { rank, file, color }
    }
}

/// Appends the castling step towards the h-file, if the king may make it.
fn push_castle_kingside(board: &Board, me: Man, moves: &mut Vec<Square>)
    ensures
        final(moves)@ == old(moves)@ + castle_kingside(board@, me),
{
    let r: i32 = match me.color {
        Color::White => 0,
        Color::Black => 7,
    };
    if me.rank == r && me.file == 4 && !board.king_has_moved(me.color) && !board.rook_h_has_moved(
        me.color,
    ) && !board.is_occupied(r, 5) && !board.is_occupied(r, 6) {
        moves.push((r, 6));
        assert(moves@ =~= old(moves)@ + seq![(r, 6i32)]);
    } else {
        assert(moves@ =~= old(moves)@ + Seq::<Square>::empty());
    }
}

/// Appends the castling step towards the a-file, if the king may make it.
fn push_castle_queenside(board: &Board, me: Man, moves: &mut Vec<Square>)
    ensures
        final(moves)@ == old(moves)@ + castle_queenside(board@, me),
{
    let r: i32 = match me.color {
        Color::White => 0,
        Color::Black => 7,
    };
    if me.rank == r && me.file == 4 && !board.king_has_moved(me.color) && !board.rook_a_has_moved(
        me.color,
    ) && !board.is_occupied(r, 1) && !board.is_occupied(r, 2) && !board.is_occupied(r, 3) {
        moves.push((r, 2));
        assert(moves@ =~= old(moves)@ + seq![(r, 2i32)]);
    } else {
        assert(moves@ =~= old(moves)@ + Seq::<Square>::empty());
    }
}

impl View for King {
    type V = Man;

    closed spec fn view(&self) -> Man {
        Man { kind: Kind::King, color: self.color, rank: self.rank, file: self.file }
    }
}

impl Piece for King {
    open spec fn man(&self) -> Man {
        self@
    }

    fn get_name(&self) -> (name: &'static str) {
        proof {
            reveal_strlit("K");
        }
        assert("K"@ =~= seq!['K']);
        "K"
    }

    fn get_kind(&self) -> (kind: Kind) {
        Kind::King
    }

    fn get_rank(&self) -> (rank: i32) {
        self.rank
    }

    fn get_file(&self) -> (file: i32) {
        self.file
    }

    fn get_color(&self) -> (color: Color) {
        self.color
    }

    fn set_rank(&mut self, rank: i32) {
        self.rank = rank;
    }

    fn set_file(&mut self, file: i32) {
        self.file = file;
    }

    fn set_color(&mut self, color: Color) {
        self.color = color;
    }

    fn get_possible_moves(&self, board: &Board) -> (moves: Vec<Square>) {
        let mut moves: Vec<Square> = Vec::new();
        if !is_on_board(self.rank, self.file) {
            return moves;
        }
        let me = Man { kind: Kind::King, color: self.color, rank: self.rank, file: self.file };
        push_hop(board, me, 0, 1, &mut moves);
        push_hop(board, me, 0, -1, &mut moves);
        push_hop(board, me, 1, 0, &mut moves);
        push_hop(board, me, -1, 0, &mut moves);
        push_hop(board, me, 1, 1, &mut moves);
        push_hop(board, me, 1, -1, &mut moves);
        push_hop(board, me, -1, 1, &mut moves);
        push_hop(board, me, -1, -1, &mut moves);
        assert(moves@ =~= king_steps(board@.men, me));
        push_castle_kingside(board, me, &mut moves);
        push_castle_queenside(board, me, &mut moves);
        assert(moves@ =~= king_moves(board@, me));
        proof {
            lemma_pseudo_moves_on_board(board@, self@);
        }
        moves
    }
}

} // verus!
