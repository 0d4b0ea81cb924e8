//! The pawn.

use vstd::prelude::*;
use crate::chessboard::Board;
use crate::movegen::is_on_board;
use crate::pieces::piece::{Color, Kind, Man, Piece, Square};
use crate::rules::{
    forward, lemma_pseudo_moves_on_board, on_board, pawn_advances, pawn_capture, pawn_en_passant,
    pawn_moves,
};

verus! {

/// A pawn of one colour on one square.
#[derive(Clone, Copy, Debug)]
pub struct Pawn {
    rank: i32,
    file: i32,
    color: Color,
}

impl Pawn {
    /// A pawn of `color` on (rank, file).
    pub fn new(color: Color, rank: i32, file: i32) -> (piece: Self)
        ensures
            piece@ == (Man { kind: Kind::Pawn, color, rank, file }),
    {
        Self { rank, file, color }
    }
}

/// The direction in which a pawn of `color` walks.
fn forward_of(color: Color) -> (d: i32)
    ensures
        d == forward(color),
{
    match color {
        Color::White => 1,
        Color::Black => -1,
    }
}

/// Appends the one or two squares that the pawn may advance to.
fn push_advances(board: &Board, me: Man, moves: &mut Vec<Square>)
    requires
        on_board(me.rank as int, me.file as int),
    ensures
        final(moves)@ == old(moves)@ + pawn_advances(board@.men, me),
{
    let dir: i32 = forward_of(me.color);
    let r1: i32 = me.rank + dir;
    if is_on_board(r1, me.file) && !board.is_occupied(r1, me.file) {
        moves.push((r1, me.file));
        let at_home: bool = match me.color {
            Color::White => me.rank == 1,
            Color::Black => me.rank == 6,
        };
        let r2: i32 = r1 + dir;
        if at_home && is_on_board(r2, me.file) && !board.is_occupied(r2, me.file) {
            moves.push((r2, me.file));
            assert(moves@ =~= old(moves)@ + seq![(r1, me.file), (r2, me.file)]);
        } else {
            assert(moves@ =~= old(moves)@ + seq![(r1, me.file)]);
        }
    } else {
        assert(moves@ =~= old(moves)@ + Seq::<Square>::empty());
    }
}

/// Appends the diagonal capture towards file offset `df`, if there is one.
fn push_capture(board: &Board, me: Man, df: i32, moves: &mut Vec<Square>)
    requires
        on_board(me.rank as int, me.file as int),
        -1 <= df <= 1,
    ensures
        final(moves)@ == old(moves)@ + pawn_capture(board@.men, me, df as int),
{
    let r: i32 = me.rank + forward_of(me.color);
    let f: i32 = me.file + df;
    if is_on_board(r, f) && board.has_enemy_at(me.color, r, f) {
        moves.push((r, f));
        assert(moves@ =~= old(moves)@ + seq![(r, f)]);
    } else {
        assert(moves@ =~= old(moves)@ + Seq::<Square>::empty());
    }
}

/// Appends the capture in passing, if there is one.
fn push_en_passant(board: &Board, me: Man, moves: &mut Vec<Square>)
    requires
        on_board(me.rank as int, me.file as int),
    ensures
        final(moves)@ == old(moves)@ + pawn_en_passant(board@, me),
{
    let mut found: bool = false;
    if let Some(ef) = board.last_double_pawn_file() {
        let on_rank: bool = match me.color {
            Color::White => me.rank == 4,
            Color::Black => me.rank == 3,
        };
        let r: i32 = me.rank + forward_of(me.color);
        if on_rank && (ef == me.file - 1 || ef == me.file + 1) && is_on_board(r, ef)
            && board.has_enemy_pawn_at(me.color, me.rank, ef) && !board.is_occupied(r, ef) {
            moves.push((r, ef));
            found = true;
            assert(moves@ =~= old(moves)@ + seq![(r, ef)]);
        }
    }
    if !found {
        assert(moves@ =~= old(moves)@ + Seq::<Square>::empty());
    }
}

impl View for Pawn {
    type V = Man;

    closed spec fn view(&self) -> Man {
        Man { kind: Kind::Pawn, color: self.color, rank: self.rank, file: self.file }
    }
}

impl Piece for Pawn {
    open spec fn man(&self) -> Man {
        self@
    }

    fn get_name(&self) -> (name: &'static str) {
        proof {
            reveal_strlit("P");
        }
        assert("P"@ =~= seq!['P']);
        "P"
    }

    fn get_kind(&self) -> (kind: Kind) {
        Kind::Pawn
    }

    fn get_rank(&self) -> (rank: i32) {
        self.rank
    }

    fn get_file(&self) -> (file: i32) {
        self.file
    }

    fn get_color(&self) -> (color: Color) {
        self.color
    }

    fn set_rank(&mut self, rank: i32) {
        self.rank = rank;
    }

    fn set_file(&mut self, file: i32) {
        self.file = file;
    }

    fn set_color(&mut self, color: Color) {
        self.color = color;
    }

    fn get_possible_moves(&self, board: &Board) -> (moves: Vec<Square>) {
        let mut moves: Vec<Square> = Vec::new();
        if !is_on_board(self.rank, self.file) {
            return moves;
        }
        let me = Man { kind: Kind::Pawn, color: self.color, rank: self.rank, file: self.file };
        push_advances(board, me, &mut moves);
        push_capture(board, me, -1, &mut moves);
        push_capture(board, me, 1, &mut moves);
        push_en_passant(board, me, &mut moves);
        assert(moves@ =~= pawn_moves(board@, me));
        proof {
            lemma_pseudo_moves_on_board(board@, self@);
        }
        moves
    }
}

} // verus!
