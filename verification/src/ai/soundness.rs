//! Why the pruned search can be trusted: inside a window that holds every
//! material balance it finds the value that a search without pruning finds.

use vstd::prelude::*;
use crate::ai::minimax::{
    larger, lemma_material_bounded, material, scan_value, search_value, side, smaller,
    ALPHA_START, BETA_START,
};
use crate::chessboard::MAX_MEN;
use crate::legality::{all_moves, game_over, in_check, lemma_all_moves_are_safe};
use crate::pieces::piece::Move;
use crate::play::{apply_move, lemma_move_never_adds_men};
use crate::rules::Position;

verus! {

/// The minimax value of `pos` with `depth` plies to go, found without any
/// pruning: the material balance at depth 0, with the game over, or with no
/// move for the side of this node; else the best of the values of the
/// positions after the moves, the highest when maximizing and the lowest when
/// minimizing.
pub open spec fn plain_value(pos: Position, depth: nat, maximizing: bool) -> int
    decreases depth, 1int, 0nat,
{
    if depth == 0 || game_over(pos) {
        material(pos.men)
    } else {
        let moves = all_moves(pos, side(maximizing));
        if moves.len() == 0 {
            material(pos.men)
        } else {
            plain_scan(
                pos,
                depth,
                moves,
                0,
                if maximizing {
                    i32::MIN as int
                } else {
                    i32::MAX as int
                },
                maximizing,
            )
        }
    }
}

/// The best value of a node that has tried `moves` up to index `k` and holds
/// `value` as the best so far, when every move is looked at. A move that
/// leaves the mover's own king in check is passed over.
pub open spec fn plain_scan(
    pos: Position,
    depth: nat,
    moves: Seq<Move>,
    k: nat,
    value: int,
    maximizing: bool,
) -> int
    decreases depth, 0int, moves.len() - k,
{
    if k >= moves.len() || depth == 0 {
        value
    } else {
        let next = apply_move(pos, moves[k as int]);
        if in_check(next, side(maximizing)) {
            plain_scan(pos, depth, moves, k + 1, value, maximizing)
        } else {
            let score = plain_value(next, (depth - 1) as nat, !maximizing);
            plain_scan(
                pos,
                depth,
                moves,
                k + 1,
                if maximizing {
                    larger(value, score)
                } else {
                    smaller(value, score)
                },
                maximizing,
            )
        }
    }
}

/// What the value `r` of a search in the window (alpha, beta) says of the
/// true value `m`: at or below the window it is an upper bound, at or above
/// it a lower bound, and inside it the true value itself.
pub open spec fn agrees(r: int, m: int, alpha: int, beta: int) -> bool {
    &&& r <= alpha ==> m <= r
    &&& r >= beta ==> m >= r
    &&& alpha < r < beta ==> m == r
}

/// `v` is a material balance of a board of `men` men: no more than a king's
/// worth for each of them, either way.
pub open spec fn is_balance(v: int, men: nat) -> bool {
    -1000 * men <= v <= 1000 * men
}

/// The value with which a node starts, which any score replaces.
pub open spec fn start_value(maximizing: bool) -> int {
    if maximizing {
        i32::MIN as int
    } else {
        i32::MAX as int
    }
}

/// None of `moves` leaves the side of the node in check once it is made, so
/// that a node which tries them passes over none.
pub open spec fn none_passed_over(pos: Position, moves: Seq<Move>, maximizing: bool) -> bool {
    forall|j: int|
        0 <= j < moves.len() ==> !in_check(apply_move(pos, #[trigger] moves[j]), side(maximizing))
}

/// A maximizing node never ends below its best so far, a minimizing node
/// never above.
pub proof fn lemma_plain_scan_keeps_best(
    pos: Position,
    depth: nat,
    moves: Seq<Move>,
    k: nat,
    value: int,
    maximizing: bool,
)
    ensures
        maximizing ==> plain_scan(pos, depth, moves, k, value, maximizing) >= value,
        !maximizing ==> plain_scan(pos, depth, moves, k, value, maximizing) <= value,
    decreases moves.len() - k,
{
    if k < moves.len() && depth > 0 {
        let next = apply_move(pos, moves[k as int]);
        if in_check(next, side(maximizing)) {
            lemma_plain_scan_keeps_best(pos, depth, moves, k + 1, value, maximizing);
        } else {
            let score = plain_value(next, (depth - 1) as nat, !maximizing);
            let best = if maximizing {
                larger(value, score)
            } else {
                smaller(value, score)
            };
            lemma_plain_scan_keeps_best(pos, depth, moves, k + 1, best, maximizing);
        }
    }
}

/// A node is worth at least as much to its side as any of its moves: the
/// plain value of a maximizing node that is searched is no lower, and that
/// of a minimizing node no higher, than the value of the position after any
/// of its moves that does not leave the mover's own king in check.
pub proof fn lemma_plain_value_bounds_moves(pos: Position, depth: nat, maximizing: bool, j: int)
    requires
        depth > 0,
        !game_over(pos),
        0 <= j < all_moves(pos, side(maximizing)).len(),
        !in_check(apply_move(pos, all_moves(pos, side(maximizing))[j]), side(maximizing)),
    ensures
        maximizing ==> plain_value(pos, depth, maximizing) >= plain_value(
            apply_move(pos, all_moves(pos, side(maximizing))[j]),
            (depth - 1) as nat,
            !maximizing,
        ),
        !maximizing ==> plain_value(pos, depth, maximizing) <= plain_value(
            apply_move(pos, all_moves(pos, side(maximizing))[j]),
            (depth - 1) as nat,
            !maximizing,
        ),
{
    let moves = all_moves(pos, side(maximizing));
    let start = if maximizing {
        i32::MIN as int
    } else {
        i32::MAX as int
    };
    lemma_plain_scan_bounds_moves(pos, depth, moves, 0, start, maximizing, j);
}

proof fn lemma_plain_scan_bounds_moves(
    pos: Position,
    depth: nat,
    moves: Seq<Move>,
    k: nat,
    value: int,
    maximizing: bool,
    j: int,
)
    requires
        depth > 0,
        k <= j < moves.len(),
        !in_check(apply_move(pos, moves[j]), side(maximizing)),
    ensures
        maximizing ==> plain_scan(pos, depth, moves, k, value, maximizing) >= plain_value(
            apply_move(pos, moves[j]),
            (depth - 1) as nat,
            !maximizing,
        ),
        !maximizing ==> plain_scan(pos, depth, moves, k, value, maximizing) <= plain_value(
            apply_move(pos, moves[j]),
            (depth - 1) as nat,
            !maximizing,
        ),
    decreases moves.len() - k,
{
    let next = apply_move(pos, moves[k as int]);
    if in_check(next, side(maximizing)) {
        lemma_plain_scan_bounds_moves(pos, depth, moves, k + 1, value, maximizing, j);
    } else {
        let score = plain_value(next, (depth - 1) as nat, !maximizing);
        let best = if maximizing {
            larger(value, score)
        } else {
            smaller(value, score)
        };
        if k == j {
            lemma_plain_scan_keeps_best(pos, depth, moves, k + 1, best, maximizing);
        } else {
            lemma_plain_scan_bounds_moves(pos, depth, moves, k + 1, best, maximizing, j);
        }
    }
}

/// The pruned search agrees with the plain one, in the sense of `agrees`.
pub proof fn lemma_search_agrees(pos: Position, depth: nat, alpha: int, beta: int, maximizing: bool)
    requires
        i32::MIN <= alpha < beta <= i32::MAX,
    ensures
        agrees(
            search_value(pos, depth, alpha, beta, maximizing),
            plain_value(pos, depth, maximizing),
            alpha,
            beta,
        ),
    decreases depth, 1int, 0nat,
{
    if depth == 0 || game_over(pos) {
    } else {
        let moves = all_moves(pos, side(maximizing));
        if moves.len() > 0 {
            let start = if maximizing {
                i32::MIN as int
            } else {
                i32::MAX as int
            };
            lemma_scan_agrees(
                pos,
                depth,
                moves,
                0,
                start,
                start,
                alpha,
                beta,
                alpha,
                beta,
                maximizing,
            );
        }
    }
}

/// The invariant of a node between two moves. For a maximizing node in the
/// window (alpha0, beta0): its lower bound is the window's or its best so
/// far, whichever is higher; the window is not empty; and its best so far is
/// no less than the true best so far, and equal to it once it is inside the
/// window. For a minimizing node the same, turned round.
pub open spec fn between_moves(
    value: int,
    true_value: int,
    alpha: int,
    beta: int,
    alpha0: int,
    beta0: int,
    maximizing: bool,
) -> bool {
    &&& i32::MIN <= alpha0 < beta0 <= i32::MAX
    &&& alpha < beta
    &&& maximizing ==> {
        &&& beta == beta0
        &&& alpha == larger(alpha0, value)
        &&& true_value <= value
        &&& value > alpha0 ==> true_value == value
        &&& i32::MIN <= value
    }
    &&& !maximizing ==> {
        &&& alpha == alpha0
        &&& beta == smaller(beta0, value)
        &&& true_value >= value
        &&& value < beta0 ==> true_value == value
        &&& value <= i32::MAX
    }
}

/// A node that is between two moves ends with a value that agrees with the
/// plain one.
pub proof fn lemma_scan_agrees(
    pos: Position,
    depth: nat,
    moves: Seq<Move>,
    k: nat,
    value: int,
    true_value: int,
    alpha: int,
    beta: int,
    alpha0: int,
    beta0: int,
    maximizing: bool,
)
    requires
        depth > 0,
        between_moves(value, true_value, alpha, beta, alpha0, beta0, maximizing),
    ensures
        agrees(
            scan_value(pos, depth, moves, k, value, alpha, beta, maximizing),
            plain_scan(pos, depth, moves, k, true_value, maximizing),
            alpha0,
            beta0,
        ),
    decreases depth, 0int, moves.len() - k,
{
    if k < moves.len() {
        let next = apply_move(pos, moves[k as int]);
        if in_check(next, side(maximizing)) {
            lemma_scan_agrees(
                pos,
                depth,
                moves,
                k + 1,
                value,
                true_value,
                alpha,
                beta,
                alpha0,
                beta0,
                maximizing,
            );
        } else {
            let score = search_value(next, (depth - 1) as nat, alpha, beta, !maximizing);
            let true_score = plain_value(next, (depth - 1) as nat, !maximizing);
            lemma_search_agrees(next, (depth - 1) as nat, alpha, beta, !maximizing);
            if maximizing {
                let best = larger(value, score);
                let true_best = larger(true_value, true_score);
                let raised = larger(alpha, best);
                if raised >= beta {
                    lemma_plain_scan_keeps_best(pos, depth, moves, k + 1, true_best, maximizing);
                } else {
                    lemma_scan_agrees(
                        pos,
                        depth,
                        moves,
                        k + 1,
                        best,
                        true_best,
                        raised,
                        beta,
                        alpha0,
                        beta0,
                        maximizing,
                    );
                }
            } else {
                let best = smaller(value, score);
                let true_best = smaller(true_value, true_score);
                let lowered = smaller(beta, best);
                if alpha >= lowered {
                    lemma_plain_scan_keeps_best(pos, depth, moves, k + 1, true_best, maximizing);
                } else {
                    lemma_scan_agrees(
                        pos,
                        depth,
                        moves,
                        k + 1,
                        best,
                        true_best,
                        alpha,
                        lowered,
                        alpha0,
                        beta0,
                        maximizing,
                    );
                }
            }
        }
    }
}

/// The value of a pruned search is a material balance of the board it
/// starts from, on any board and in any window: the legal moves are all
/// searched, so a node with a move never keeps the value it started with.
pub proof fn lemma_search_is_balance(
    pos: Position,
    depth: nat,
    alpha: int,
    beta: int,
    maximizing: bool,
)
    ensures
        is_balance(search_value(pos, depth, alpha, beta, maximizing), pos.men.len()),
    decreases depth, 1int, 0nat,
{
    lemma_material_bounded(pos.men);
    if depth == 0 || game_over(pos) {
    } else {
        let moves = all_moves(pos, side(maximizing));
        if moves.len() > 0 {
            lemma_all_moves_are_safe(pos, side(maximizing));
            lemma_scan_is_balance(
                pos,
                depth,
                moves,
                0,
                start_value(maximizing),
                alpha,
                beta,
                maximizing,
            );
        }
    }
}

/// A node that passes over no move, and that has a move left or holds a
/// balance already, ends with a balance.
pub proof fn lemma_scan_is_balance(
    pos: Position,
    depth: nat,
    moves: Seq<Move>,
    k: nat,
    value: int,
    alpha: int,
    beta: int,
    maximizing: bool,
)
    requires
        depth > 0,
        none_passed_over(pos, moves, maximizing),
        value == start_value(maximizing) || is_balance(value, pos.men.len()),
        k < moves.len() || is_balance(value, pos.men.len()),
    ensures
        is_balance(
            scan_value(pos, depth, moves, k, value, alpha, beta, maximizing),
            pos.men.len(),
        ),
    decreases depth, 0int, moves.len() - k,
{
    if k < moves.len() {
        let next = apply_move(pos, moves[k as int]);
        let score = search_value(next, (depth - 1) as nat, alpha, beta, !maximizing);
        lemma_search_is_balance(next, (depth - 1) as nat, alpha, beta, !maximizing);
        lemma_move_never_adds_men(pos, moves[k as int]);
        if maximizing {
            let best = larger(value, score);
            let raised = larger(alpha, best);
            if raised < beta {
                lemma_scan_is_balance(pos, depth, moves, k + 1, best, raised, beta, maximizing);
            }
        } else {
            let best = smaller(value, score);
            let lowered = smaller(beta, best);
            if alpha < lowered {
                lemma_scan_is_balance(pos, depth, moves, k + 1, best, alpha, lowered, maximizing);
            }
        }
    }
}

/// The plain minimax value is a material balance of the board it starts
/// from, on any board. On a board of no more than 64 men it is therefore
/// never the value that a node starts with.
pub proof fn lemma_plain_is_balance(pos: Position, depth: nat, maximizing: bool)
    ensures
        is_balance(plain_value(pos, depth, maximizing), pos.men.len()),
        pos.men.len() <= MAX_MEN ==> i32::MIN < plain_value(pos, depth, maximizing) < i32::MAX,
    decreases depth, 1int, 0nat,
{
    lemma_material_bounded(pos.men);
    if depth == 0 || game_over(pos) {
    } else {
        let moves = all_moves(pos, side(maximizing));
        if moves.len() > 0 {
            lemma_all_moves_are_safe(pos, side(maximizing));
            lemma_plain_scan_is_balance(pos, depth, moves, 0, start_value(maximizing), maximizing);
        }
    }
}

/// A node of the plain search that passes over no move, and that has a move
/// left or holds a balance already, ends with a balance.
pub proof fn lemma_plain_scan_is_balance(
    pos: Position,
    depth: nat,
    moves: Seq<Move>,
    k: nat,
    value: int,
    maximizing: bool,
)
    requires
        depth > 0,
        none_passed_over(pos, moves, maximizing),
        value == start_value(maximizing) || is_balance(value, pos.men.len()),
        k < moves.len() || is_balance(value, pos.men.len()),
    ensures
        is_balance(plain_scan(pos, depth, moves, k, value, maximizing), pos.men.len()),
    decreases depth, 0int, moves.len() - k,
{
    if k < moves.len() {
        let next = apply_move(pos, moves[k as int]);
        let score = plain_value(next, (depth - 1) as nat, !maximizing);
        lemma_plain_is_balance(next, (depth - 1) as nat, !maximizing);
        lemma_move_never_adds_men(pos, moves[k as int]);
        let best = if maximizing {
            larger(value, score)
        } else {
            smaller(value, score)
        };
        lemma_plain_scan_is_balance(pos, depth, moves, k + 1, best, maximizing);
    }
}

/// Pruning loses nothing: in the window in which every search starts, the
/// pruned search of a board of no more than 64 men finds exactly the plain
/// minimax value.
pub proof fn lemma_pruning_loses_nothing(pos: Position, depth: nat, maximizing: bool)
    requires
        pos.men.len() <= MAX_MEN,
    ensures
        search_value(pos, depth, ALPHA_START as int, BETA_START as int, maximizing) == plain_value(
            pos,
            depth,
            maximizing,
        ),
{
    lemma_search_agrees(pos, depth, ALPHA_START as int, BETA_START as int, maximizing);
    lemma_search_is_balance(pos, depth, ALPHA_START as int, BETA_START as int, maximizing);
    lemma_plain_is_balance(pos, depth, maximizing);
}

} // verus!
