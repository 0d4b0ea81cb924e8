//! The two building blocks of move generation: a single step or jump, and a
//! slide along a line.

use vstd::prelude::*;
use crate::chessboard::Board;
use crate::pieces::piece::{Man, Square};
use crate::rules::{hop, on_board, ray, slide};

verus! {

/// Whether (rank, file) is a square of the board.
pub fn is_on_board(rank: i32, file: i32) -> (b: bool)
    ensures
        b == on_board(rank as int, file as int),
{
    0 <= rank && rank < 8 && 0 <= file && file < 8
}

/// Appends the destination of the step (dr, df) of `me`, if `me` may land
/// there.
pub(crate) fn push_hop(board: &Board, me: Man, dr: i32, df: i32, moves: &mut Vec<Square>)
    requires
        on_board(me.rank as int, me.file as int),
        -2 <= dr <= 2,
        -2 <= df <= 2,
    ensures
        final(moves)@ == old(moves)@ + hop(board@.men, me, dr as int, df as int),
{
    let r: i32 = me.rank + dr;
    let f: i32 = me.file + df;
    if is_on_board(r, f) && (!board.is_occupied(r, f) || board.has_enemy_at(me.color, r, f)) {
        moves.push((r, f));
        assert(moves@ =~= old(moves)@ + seq![(r, f)]);
    } else {
        assert(moves@ =~= old(moves)@ + Seq::<Square>::empty());
    }
}

/// Appends the squares that `me` reaches by sliding in direction (dr, df).
pub(crate) fn push_slide(board: &Board, me: Man, dr: i32, df: i32, moves: &mut Vec<Square>)
    requires
        on_board(me.rank as int, me.file as int),
        -1 <= dr <= 1,
        -1 <= df <= 1,
        dr != 0 || df != 0,
    ensures
        final(moves)@ == old(moves)@ + slide(board@.men, me, dr as int, df as int),
{
    let mut r: i32 = me.rank + dr;
    let mut f: i32 = me.file + df;
    let mut blocked: bool = false;
    let ghost mut left: nat = 7;
    let ghost goal: Seq<Square> = old(moves)@ + slide(board@.men, me, dr as int, df as int);
    assert(moves@ + ray(board@.men, me.color, r as int, f as int, dr as int, df as int, 7)
        =~= goal);
    while !blocked && 0 <= r && r < 8 && 0 <= f && f < 8
        invariant
            on_board(me.rank as int, me.file as int),
            -1 <= dr <= 1,
            -1 <= df <= 1,
            dr != 0 || df != 0,
            -1 <= r <= 8,
            -1 <= f <= 8,
            left <= 7,
            r == me.rank + (8 - left) * dr,
            f == me.file + (8 - left) * df,
            !blocked ==> moves@ + ray(
                board@.men,
                me.color,
                r as int,
                f as int,
                dr as int,
                df as int,
                left,
            ) == goal,
            blocked ==> moves@ == goal,
        decreases (if blocked { 0int } else { 1int }), left,
    {
        assert(left > 0) by {
            if left == 0 {
                assert(r == me.rank + 8 * dr);
                assert(f == me.file + 8 * df);
            }
        }
        let ghost tail = ray(
            board@.men,
            me.color,
            r + dr,
            f + df,
            dr as int,
            df as int,
            (left - 1) as nat,
        );
        if board.is_occupied(r, f) {
            if board.has_enemy_at(me.color, r, f) {
                let ghost before = moves@;
                moves.push((r, f));
                assert(moves@ =~= before + seq![(r, f)]);
            } else {
                assert(moves@ + Seq::<Square>::empty() =~= moves@);
            }
            blocked = true;
        } else {
            let ghost before = moves@;
            moves.push((r, f));
            assert(moves@ + tail =~= before + (seq![(r, f)] + tail));
            proof {
                assert((8 - left) * dr + dr == (8 - (left - 1)) * dr) by (nonlinear_arith);
                assert((8 - left) * df + df == (8 - (left - 1)) * df) by (nonlinear_arith);
                left = (left - 1) as nat;
            }
            r = r + dr;
            f = f + df;
        }
    }
    proof {
        if !blocked {
            assert(moves@ + Seq::<Square>::empty() =~= moves@);
        }
    }
}

} // verus!
