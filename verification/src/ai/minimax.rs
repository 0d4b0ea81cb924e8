//! Material evaluation and a fixed-depth alpha-beta search.

use vstd::prelude::*;
use crate::ai::soundness::{
    is_balance, lemma_pruning_loses_nothing, lemma_search_is_balance, plain_value,
};
use crate::chessboard::{Board, MAX_MEN};
use crate::legality::{all_moves, game_over, in_check};
use crate::pieces::piece::{Color, Kind, Man, Move, Piece};
use crate::play::apply_move;
use crate::rules::Position;

verus! {

/// The window in which a search starts: a quarter of the range of `i32` on
/// either side, far beyond any material balance, so that the bounds can be
/// compared and replaced without overflow.
pub const ALPHA_START: i32 = -536_870_912;

/// The upper end of the window in which a search starts.
pub const BETA_START: i32 = 536_870_911;

/// What a man of each kind is worth.
pub struct PieceValues {
    pub pawn: i32,
    pub knight: i32,
    pub bishop: i32,
    pub rook: i32,
    pub queen: i32,
    pub king: i32,
}

/// The worth of a man of `kind`. The king's is a large constant that keeps
/// it apart from all the rest together; it plays no part in finding mate.
pub open spec fn value_of(kind: Kind) -> int {
    match kind {
        Kind::Pawn => 1,
        Kind::Knight => 3,
        Kind::Bishop => 3,
        Kind::Rook => 5,
        Kind::Queen => 9,
        Kind::King => 1000,
    }
}

impl PieceValues {
    /// The values in use: 1, 3, 3, 5, 9, and 1000 for the king.
    pub fn new() -> (values: Self)
        ensures
            values.pawn == value_of(Kind::Pawn),
            values.knight == value_of(Kind::Knight),
            values.bishop == value_of(Kind::Bishop),
            values.rook == value_of(Kind::Rook),
            values.queen == value_of(Kind::Queen),
            values.king == value_of(Kind::King),
    {
        PieceValues { pawn: 1, knight: 3, bishop: 3, rook: 5, queen: 9, king: 1000 }
    }

    /// The worth of a man of `kind` in these values.
    pub open spec fn of(self, kind: Kind) -> int {
        match kind {
            Kind::Pawn => self.pawn as int,
            Kind::Knight => self.knight as int,
            Kind::Bishop => self.bishop as int,
            Kind::Rook => self.rook as int,
            Kind::Queen => self.queen as int,
            Kind::King => self.king as int,
        }
    }

    /// The worth of a man of `kind` in these values.
    pub fn value(&self, kind: Kind) -> (v: i32)
        ensures
            v == self.of(kind),
    {
        match kind {
            Kind::Pawn => self.pawn,
            Kind::Knight => self.knight,
            Kind::Bishop => self.bishop,
            Kind::Rook => self.rook,
            Kind::Queen => self.queen,
            Kind::King => self.king,
        }
    }
}

/// What one man adds to the score: its worth for White, minus its worth for
/// Black.
pub open spec fn worth(m: Man) -> int {
    match m.color {
        Color::White => value_of(m.kind),
        Color::Black => -value_of(m.kind),
    }
}

/// The material balance of the men: the sum of what each adds.
pub open spec fn material(men: Seq<Man>) -> int
    decreases men.len(),
{
    if men.len() == 0 {
        0
    } else {
        material(men.drop_last()) + worth(men.last())
    }
}

/// No man adds or takes more than a king's worth.
pub proof fn lemma_material_bounded(men: Seq<Man>)
    ensures
        -1000 * men.len() <= material(men) <= 1000 * men.len(),
    decreases men.len(),
{
    if men.len() > 0 {
        lemma_material_bounded(men.drop_last());
    }
}

/// The static score of a board: its material balance, positive where White
/// is ahead.
pub fn evaluate_board(board: &Board) -> (score: i32)
    ensures
        score == material(board@.men),
{
    let values = PieceValues::new();
    let n = board.piece_count();
    let mut score: i32 = 0;
    let mut i: usize = 0;
    while i < n
        invariant
            i <= n,
            n == board@.men.len(),
            n <= MAX_MEN,
            forall|kind: Kind| #[trigger] values.of(kind) == value_of(kind),
            score == material(board@.men.take(i as int)),
        decreases n - i,
    {
        let piece = board.get_piece(i);
        let piece_value = values.value(piece.get_kind());
        proof {
            lemma_material_bounded(board@.men.take(i as int));
            assert(board@.men.take(i as int).len() == i);
            assert(board@.men.take(i + 1).drop_last() =~= board@.men.take(i as int));
            assert(board@.men.take(i + 1).last() == piece@);
            assert(piece_value == value_of(piece@.kind));
        }
        match piece.get_color() {
            Color::White => {
                score += piece_value;
            },
            Color::Black => {
                score -= piece_value;
            },
        }
        i += 1;
    }
    assert(board@.men.take(n as int) =~= board@.men);
    score
}

/// The larger of two integers.
pub open spec fn larger(a: int, b: int) -> int {
    if a >= b {
        a
    } else {
        b
    }
}

/// The smaller of two integers.
pub open spec fn smaller(a: int, b: int) -> int {
    if a <= b {
        a
    } else {
        b
    }
}

/// The side that a maximizing (or minimizing) node moves for.
pub open spec fn side(maximizing: bool) -> Color {
    if maximizing {
        Color::White
    } else {
        Color::Black
    }
}

/// The value that the search gives to `pos` with `depth` plies to go inside
/// the window (alpha, beta). At depth 0, with the game over, or with no move
/// for the side of this node, it is the material balance.
pub open spec fn search_value(
    pos: Position,
    depth: nat,
    alpha: int,
    beta: int,
    maximizing: bool,
) -> int
    decreases depth, 1int, 0nat,
{
    if depth == 0 || game_over(pos) {
        material(pos.men)
    } else {
        let moves = all_moves(pos, side(maximizing));
        if moves.len() == 0 {
            material(pos.men)
        } else {
            scan_value(
                pos,
                depth,
                moves,
                0,
                if maximizing {
                    i32::MIN as int
                } else {
                    i32::MAX as int
                },
                alpha,
                beta,
                maximizing,
            )
        }
    }
}

/// The value that a node ends with when it has tried `moves` up to index
/// `k`, holds `value` as the best so far and (alpha, beta) as its window.
/// A move that leaves the mover's own king in check is passed over. Every
/// other move is searched one ply less deep for the other side; the best
/// value, and the bound on the mover's side of the window, follow it; and
/// once the window is empty the rest of the moves are not looked at.
pub open spec fn scan_value(
    pos: Position,
    depth: nat,
    moves: Seq<Move>,
    k: nat,
    value: int,
    alpha: int,
    beta: int,
    maximizing: bool,
) -> int
    decreases depth, 0int, moves.len() - k,
{
    if k >= moves.len() || depth == 0 {
        value
    } else {
        let next = apply_move(pos, moves[k as int]);
        if in_check(next, side(maximizing)) {
            scan_value(pos, depth, moves, k + 1, value, alpha, beta, maximizing)
        } else {
            let score = search_value(next, (depth - 1) as nat, alpha, beta, !maximizing);
            if maximizing {
                let best = larger(value, score);
                let raised = larger(alpha, best);
                if raised >= beta {
                    best
                } else {
                    scan_value(pos, depth, moves, k + 1, best, raised, beta, maximizing)
                }
            } else {
                let best = smaller(value, score);
                let lowered = smaller(beta, best);
                if alpha >= lowered {
                    best
                } else {
                    scan_value(pos, depth, moves, k + 1, best, alpha, lowered, maximizing)
                }
            }
        }
    }
}

/// Alpha-beta search of `board` to `depth` plies inside the window
/// (alpha, beta). Whatever the window, the result is a material balance of
/// the men on the board.
pub fn minimax_ab(
    board: &Board,
    depth: i32,
    alpha: i32,
    beta: i32,
    is_maximizing: bool,
) -> (score: i32)
    requires
        depth >= 0,
    ensures
        score == search_value(board@, depth as nat, alpha as int, beta as int, is_maximizing),
        is_balance(score as int, board@.men.len()),
    decreases depth,
{
    proof {
        lemma_search_is_balance(board@, depth as nat, alpha as int, beta as int, is_maximizing);
    }
    if depth == 0 || board.is_game_over() {
        return evaluate_board(board);
    }
    let color = if is_maximizing {
        Color::White
    } else {
        Color::Black
    };
    let moves = board.get_all_moves(color);
    if moves.len() == 0 {
        return evaluate_board(board);
    }
    let mut value: i32 = if is_maximizing {
        i32::MIN
    } else {
        i32::MAX
    };
    let mut alpha: i32 = alpha;
    let mut beta: i32 = beta;
    let mut cut: bool = false;
    let ghost goal = scan_value(
        board@,
        depth as nat,
        moves@,
        0,
        value as int,
        alpha as int,
        beta as int,
        is_maximizing,
    );
    let mut k: usize = 0;
    while k < moves.len() && !cut
        invariant
            depth > 0,
            k <= moves.len(),
            color == side(is_maximizing),
            !cut ==> goal == scan_value(
                board@,
                depth as nat,
                moves@,
                k as nat,
                value as int,
                alpha as int,
                beta as int,
                is_maximizing,
            ),
            cut ==> goal == value,
        decreases (if cut { 0int } else { 1int }), moves.len() - k,
    {
        let new_board = board.after_move(moves[k]);
        if !new_board.is_in_check(color) {
            let score = minimax_ab(&new_board, depth - 1, alpha, beta, !is_maximizing);
            if is_maximizing {
                if score > value {
                    value = score;
                }
                if value > alpha {
                    alpha = value;
                }
            } else {
                if score < value {
                    value = score;
                }
                if value < beta {
                    beta = value;
                }
            }
            if alpha >= beta {
                cut = true;
            }
        }
        if !cut {
            k += 1;
        }
    }
    value
}

/// The value of `board` for a search of `depth` plies, White maximizing and
/// Black minimizing, in a window wide enough for any material balance: the
/// value of the pruned search, which is the plain minimax value.
pub fn minimax(board: &mut Board, depth: i32, is_maximizing: bool) -> (score: i32)
    requires
        depth >= 0,
    ensures
        *final(board) == *old(board),
        score == search_value(
            old(board)@,
            depth as nat,
            ALPHA_START as int,
            BETA_START as int,
            is_maximizing,
        ),
        score == plain_value(old(board)@, depth as nat, is_maximizing),
        is_balance(score as int, old(board)@.men.len()),
{
    assert(ALPHA_START == i32::MIN / 4 && BETA_START == i32::MAX / 4);
    proof {
        use_type_invariant(&*board);
        lemma_pruning_loses_nothing(board@, depth as nat, is_maximizing);
    }
    minimax_ab(board, depth, ALPHA_START, BETA_START, is_maximizing)
}

} // verus!
