//! Choosing moves for the automated player: the best move by search, kept
//! from repeating itself.

use vstd::prelude::*;
use crate::ai::minimax::{minimax_ab, ALPHA_START, BETA_START};
use crate::ai::soundness::{lemma_plain_is_balance, lemma_pruning_loses_nothing, plain_value};
use crate::chessboard::{Board, MAX_MEN};
use crate::legality::{
    all_moves, first_index, game_over, in_check, lemma_all_moves_are_safe, lemma_filter_keeps,
    lemma_first_index, lemma_first_index_is,
};
use crate::pieces::piece::{Color, Move, Square};
use crate::play::{apply_move, lemma_move_never_adds_men};
use crate::position_key::key_of;
use crate::rules::Position;

verus! {

/// How many entries a history keeps; the oldest go first.
pub const HISTORY_LIMIT: usize = 64;

/// How deep the automated player searches below each candidate.
pub const AUTOPLAY_DEPTH: i32 = 2;

/// How deep a suggestion searches below each candidate.
pub const SUGGESTION_DEPTH: i32 = 3;

/// The last six moves alternate strictly between two moves, A-B-A-B-A-B,
/// and `m` is A, the move with which the side to move would go on. (The
/// side to move made the sixth move from the end, whichever side it is.)
pub open spec fn cycle_guard(history: Seq<Move>, m: Move) -> bool {
    let n = history.len() as int;
    &&& n >= 6
    &&& history[n - 6] == history[n - 4]
    &&& history[n - 4] == history[n - 2]
    &&& history[n - 5] == history[n - 3]
    &&& history[n - 3] == history[n - 1]
    &&& m == history[n - 6]
}

/// The side to move has played `m` in each of its last two turns: walking
/// back from the end of the history, its own moves are the second and the
/// fourth, the other side's lying between.
pub open spec fn repeat_guard(history: Seq<Move>, m: Move) -> bool {
    let n = history.len() as int;
    &&& n >= 4
    &&& history[n - 2] == m
    &&& history[n - 4] == m
}

/// How often `key` occurs among the first `n` of `keys`.
pub open spec fn occurrences(keys: Seq<Seq<u8>>, n: nat, key: Seq<u8>) -> nat
    decreases n,
{
    if n == 0 {
        0
    } else if keys[n - 1] == key {
        1 + occurrences(keys, (n - 1) as nat, key)
    } else {
        occurrences(keys, (n - 1) as nat, key)
    }
}

/// The position after `m` has been seen twice already: `m` would bring it
/// about for the third time.
pub open spec fn position_guard(pos: Position, keys: Seq<Seq<u8>>, m: Move) -> bool {
    occurrences(keys, keys.len(), key_of(apply_move(pos, m).men)) >= 2
}

/// One of the three guards against repetition keeps `m` out.
pub open spec fn excluded(pos: Position, history: Seq<Move>, keys: Seq<Seq<u8>>, m: Move) -> bool {
    cycle_guard(history, m) || repeat_guard(history, m) || position_guard(pos, keys, m)
}

/// `m` does not leave the side to move in check.
pub open spec fn playable(pos: Position, m: Move) -> bool {
    !in_check(apply_move(pos, m), pos.turn)
}

/// The best candidate so far: the move, its score, and whether any
/// candidate has been scored at all.
pub struct Pick {
    pub best_move: Move,
    pub best_score: int,
    pub evaluated: bool,
}

/// The score of candidate `m`: the minimax value of the position after it,
/// `depth` plies deep, with the other side to move.
pub open spec fn score_of(pos: Position, depth: nat, m: Move) -> int {
    plain_value(apply_move(pos, m), depth, pos.turn != Color::White)
}

/// The pick after the candidates from index `k` on have been gone through.
/// A candidate that a guard keeps out, or that leaves its own side in
/// check, is passed over. Every other one is scored, and replaces the best
/// so far if its score is strictly higher for White, strictly lower for
/// Black.
pub open spec fn pick_from(
    pos: Position,
    history: Seq<Move>,
    keys: Seq<Seq<u8>>,
    depth: nat,
    moves: Seq<Move>,
    k: nat,
    so_far: Pick,
) -> Pick
    decreases moves.len() - k,
{
    if k >= moves.len() {
        so_far
    } else {
        let m = moves[k as int];
        if excluded(pos, history, keys, m) || !playable(pos, m) {
            pick_from(pos, history, keys, depth, moves, k + 1, so_far)
        } else {
            let score = score_of(pos, depth, m);
            let improves = if pos.turn == Color::White {
                score > so_far.best_score
            } else {
                score < so_far.best_score
            };
            pick_from(
                pos,
                history,
                keys,
                depth,
                moves,
                k + 1,
                if improves {
                    Pick { best_move: m, best_score: score, evaluated: true }
                } else {
                    Pick { evaluated: true, ..so_far }
                },
            )
        }
    }
}

/// The pick with which the going through starts: the first move, and a
/// score that any other beats.
pub open spec fn first_pick(pos: Position, moves: Seq<Move>) -> Pick {
    Pick {
        best_move: moves[0],
        best_score: if pos.turn == Color::White {
            i32::MIN as int
        } else {
            i32::MAX as int
        },
        evaluated: false,
    }
}

/// Candidate `m` survives: no guard keeps it out, and it does not leave the
/// side to move in check.
pub open spec fn survives(pos: Position, history: Seq<Move>, keys: Seq<Seq<u8>>, m: Move) -> bool {
    !excluded(pos, history, keys, m) && playable(pos, m)
}

/// `pick` is the best of the survivors among the first `k` candidates: if
/// one was scored, the picked move is a survivor with the picked score, and
/// no survivor scores higher for White or lower for Black; if none was
/// scored, there is no survivor and the pick is still the first pick.
pub open spec fn is_best_of(
    pos: Position,
    history: Seq<Move>,
    keys: Seq<Seq<u8>>,
    depth: nat,
    moves: Seq<Move>,
    k: nat,
    pick: Pick,
) -> bool {
    if pick.evaluated {
        &&& exists|j: int|
            0 <= j < k && #[trigger] moves[j] == pick.best_move && survives(
                pos,
                history,
                keys,
                moves[j],
            ) && score_of(pos, depth, moves[j]) == pick.best_score
        &&& forall|j: int|
            0 <= j < k && survives(pos, history, keys, #[trigger] moves[j]) ==> if pos.turn
                == Color::White {
                score_of(pos, depth, moves[j]) <= pick.best_score
            } else {
                score_of(pos, depth, moves[j]) >= pick.best_score
            }
    } else {
        &&& pick == first_pick(pos, moves)
        &&& forall|j: int| 0 <= j < k ==> !survives(pos, history, keys, #[trigger] moves[j])
    }
}

/// Going through the rest of the candidates keeps the pick the best of the
/// survivors.
pub proof fn lemma_pick_stays_best(
    pos: Position,
    history: Seq<Move>,
    keys: Seq<Seq<u8>>,
    depth: nat,
    moves: Seq<Move>,
    k: nat,
    so_far: Pick,
)
    requires
        pos.men.len() <= MAX_MEN,
        k <= moves.len(),
        is_best_of(pos, history, keys, depth, moves, k, so_far),
    ensures
        is_best_of(
            pos,
            history,
            keys,
            depth,
            moves,
            moves.len(),
            pick_from(pos, history, keys, depth, moves, k, so_far),
        ),
    decreases moves.len() - k,
{
    if k < moves.len() {
        let m = moves[k as int];
        if !survives(pos, history, keys, m) {
            lemma_pick_stays_best(pos, history, keys, depth, moves, k + 1, so_far);
        } else {
            let score = score_of(pos, depth, m);
            lemma_plain_is_balance(apply_move(pos, m), depth, pos.turn != Color::White);
            lemma_move_never_adds_men(pos, m);
            let improves = if pos.turn == Color::White {
                score > so_far.best_score
            } else {
                score < so_far.best_score
            };
            let next = if improves {
                Pick { best_move: m, best_score: score, evaluated: true }
            } else {
                Pick { evaluated: true, ..so_far }
            };
            assert(is_best_of(pos, history, keys, depth, moves, (k + 1) as nat, next)) by {
                if improves {
                    assert(moves[k as int] == next.best_move);
                } else {
                    assert(so_far.evaluated);
                    let j = choose|j: int|
                        0 <= j < k && #[trigger] moves[j] == so_far.best_move && survives(
                            pos,
                            history,
                            keys,
                            moves[j],
                        ) && score_of(pos, depth, moves[j]) == so_far.best_score;
                    assert(moves[j] == next.best_move);
                }
            }
            lemma_pick_stays_best(pos, history, keys, depth, moves, k + 1, next);
        }
    }
}

/// The automated player picks the extremal survivor. If any of the legal
/// moves of the side to move survives the guards, the chosen move is one
/// that survives, and no survivor scores higher for White or lower for
/// Black. (Every legal move is playable, so a survivor is simply a legal
/// move that no guard keeps out.)
pub proof fn lemma_auto_choice_is_best(pos: Position, history: Seq<Move>, keys: Seq<Seq<u8>>)
    requires
        pos.men.len() <= MAX_MEN,
    ensures
        ({
            let moves = all_moves(pos, pos.turn);
            let depth = AUTOPLAY_DEPTH as nat;
            forall|j: int|
                0 <= j < moves.len() && survives(pos, history, keys, #[trigger] moves[j])
                    ==> match auto_choice(pos, history, keys) {
                    Some(best) => {
                        &&& moves.contains(best)
                        &&& survives(pos, history, keys, best)
                        &&& if pos.turn == Color::White {
                            score_of(pos, depth, moves[j]) <= score_of(pos, depth, best)
                        } else {
                            score_of(pos, depth, moves[j]) >= score_of(pos, depth, best)
                        }
                    },
                    None => false,
                }
        }),
{
    let moves = all_moves(pos, pos.turn);
    let depth = AUTOPLAY_DEPTH as nat;
    if moves.len() > 0 {
        let pick = pick_from(pos, history, keys, depth, moves, 0, first_pick(pos, moves));
        lemma_pick_stays_best(pos, history, keys, depth, moves, 0, first_pick(pos, moves));
        if pick.evaluated {
            let b = choose|b: int|
                0 <= b < moves.len() && #[trigger] moves[b] == pick.best_move && survives(
                    pos,
                    history,
                    keys,
                    moves[b],
                ) && score_of(pos, depth, moves[b]) == pick.best_score;
            assert(moves.contains(pick.best_move));
        }
    }
}

/// The automated player always plays a legal move: whatever the guards
/// keep out, the move it chooses is one of the legal moves of the side to
/// move and does not leave that side in check.
pub proof fn lemma_auto_choice_is_legal(pos: Position, history: Seq<Move>, keys: Seq<Seq<u8>>)
    requires
        pos.men.len() <= MAX_MEN,
    ensures
        auto_choice(pos, history, keys) matches Some(m) ==> all_moves(pos, pos.turn).contains(m)
            && playable(pos, m),
        auto_choice(pos, history, keys).is_none() <==> game_over(pos),
{
    let moves = all_moves(pos, pos.turn);
    let depth = AUTOPLAY_DEPTH as nat;
    lemma_all_moves_are_safe(pos, pos.turn);
    if moves.len() > 0 {
        assert(moves.contains(moves[0]));
        let pick = pick_from(pos, history, keys, depth, moves, 0, first_pick(pos, moves));
        lemma_pick_stays_best(pos, history, keys, depth, moves, 0, first_pick(pos, moves));
        if pick.evaluated {
            let b = choose|b: int|
                0 <= b < moves.len() && #[trigger] moves[b] == pick.best_move && survives(
                    pos,
                    history,
                    keys,
                    moves[b],
                ) && score_of(pos, depth, moves[b]) == pick.best_score;
            assert(moves.contains(pick.best_move));
        } else {
            let kept_out = moves.filter(is_excluded(pos, history, keys));
            let j = first_index(kept_out.len(), is_playable(pos, kept_out));
            lemma_first_index(kept_out.len(), is_playable(pos, kept_out));
            lemma_filter_keeps(moves, is_excluded(pos, history, keys));
            if j < kept_out.len() {
                let chosen = kept_out[j];
                assert(moves.contains(chosen));
                let i = choose|i: int| 0 <= i < moves.len() && moves[i] == chosen;
                assert(playable(pos, moves[i]));
            }
        }
    }
}

/// A suggestion is the best legal move: it is one of the legal moves of the
/// side to move, its score is the minimax value of the position after it,
/// and no legal move scores higher for White or lower for Black.
pub proof fn lemma_suggestion_is_best(pos: Position)
    requires
        pos.men.len() <= MAX_MEN,
    ensures
        suggestion(pos).is_none() <==> game_over(pos),
        suggestion(pos) matches Some(best) ==> {
            let moves = all_moves(pos, pos.turn);
            let depth = SUGGESTION_DEPTH as nat;
            &&& moves.contains(best.0)
            &&& playable(pos, best.0)
            &&& best.1 == score_of(pos, depth, best.0)
            &&& forall|j: int|
                0 <= j < moves.len() ==> if pos.turn == Color::White {
                    score_of(pos, depth, #[trigger] moves[j]) <= best.1
                } else {
                    score_of(pos, depth, moves[j]) >= best.1
                }
        },
{
    let moves = all_moves(pos, pos.turn);
    let depth = SUGGESTION_DEPTH as nat;
    let none: Seq<Move> = Seq::empty();
    let no_keys: Seq<Seq<u8>> = Seq::empty();
    lemma_all_moves_are_safe(pos, pos.turn);
    if moves.len() > 0 {
        let pick = pick_from(pos, none, no_keys, depth, moves, 0, first_pick(pos, moves));
        lemma_pick_stays_best(pos, none, no_keys, depth, moves, 0, first_pick(pos, moves));
        assert forall|j: int| 0 <= j < moves.len() implies survives(
            pos,
            none,
            no_keys,
            #[trigger] moves[j],
        ) by {
            assert(playable(pos, moves[j]));
        }
        assert(survives(pos, none, no_keys, moves[0]));
        assert(pick.evaluated);
        let b = choose|b: int|
            0 <= b < moves.len() && #[trigger] moves[b] == pick.best_move && survives(
                pos,
                none,
                no_keys,
                moves[b],
            ) && score_of(pos, depth, moves[b]) == pick.best_score;
        assert(moves.contains(pick.best_move));
    }
}

/// Every legal move of the side to move is playable: the filter against
/// moves that leave the mover in check never has to pass one over.
pub proof fn lemma_legal_moves_are_playable(pos: Position)
    ensures
        forall|j: int|
            0 <= j < all_moves(pos, pos.turn).len() ==> playable(
                pos,
                #[trigger] all_moves(pos, pos.turn)[j],
            ),
{
    lemma_all_moves_are_safe(pos, pos.turn);
}

/// "A guard keeps this move out."
pub open spec fn is_excluded(pos: Position, history: Seq<Move>, keys: Seq<Seq<u8>>) -> spec_fn(
    Move,
) -> bool {
    |m: Move| excluded(pos, history, keys, m)
}

/// "The move at index j of `moves` does not leave the side to move in
/// check."
pub open spec fn is_playable(pos: Position, moves: Seq<Move>) -> spec_fn(int) -> bool {
    |j: int| playable(pos, moves[j])
}

/// The move to play when no candidate was scored: the first of those that
/// the guards kept out which does not leave the side to move in check, and
/// the first legal move if there is none.
pub open spec fn fallback(
    pos: Position,
    history: Seq<Move>,
    keys: Seq<Seq<u8>>,
    moves: Seq<Move>,
) -> Move {
    let kept_out = moves.filter(is_excluded(pos, history, keys));
    let j = first_index(kept_out.len(), is_playable(pos, kept_out));
    if j < kept_out.len() {
        kept_out[j]
    } else {
        moves[0]
    }
}

/// The move of the automated player for the side to move: none where that
/// side has no legal move; else the best scored candidate; else the
/// fallback, so that a side that can move always does.
pub open spec fn auto_choice(pos: Position, history: Seq<Move>, keys: Seq<Seq<u8>>) -> Option<
    Move,
> {
    let moves = all_moves(pos, pos.turn);
    if moves.len() == 0 {
        None
    } else {
        let pick = pick_from(
            pos,
            history,
            keys,
            AUTOPLAY_DEPTH as nat,
            moves,
            0,
            first_pick(pos, moves),
        );
        if pick.evaluated {
            Some(pick.best_move)
        } else {
            Some(fallback(pos, history, keys, moves))
        }
    }
}

/// The suggested move for the side to move and its score: the best by a
/// deeper search, with no guard against repetition.
pub open spec fn suggestion(pos: Position) -> Option<(Move, int)> {
    let moves = all_moves(pos, pos.turn);
    if moves.len() == 0 {
        None
    } else {
        let pick = pick_from(
            pos,
            Seq::empty(),
            Seq::empty(),
            SUGGESTION_DEPTH as nat,
            moves,
            0,
            first_pick(pos, moves),
        );
        Some((pick.best_move, pick.best_score))
    }
}

/// A history with `entry` added at its end, and the oldest entry dropped if
/// that makes it longer than the limit.
pub open spec fn recorded<T>(history: Seq<T>, entry: T) -> Seq<T> {
    if history.len() + 1 > HISTORY_LIMIT {
        history.push(entry).drop_first()
    } else {
        history.push(entry)
    }
}

/// The keys as plain sequences.
pub open spec fn keys_of(keys: Seq<Vec<u8>>) -> Seq<Seq<u8>> {
    keys.map_values(|key: Vec<u8>| key@)
}

/// Whether two moves are the same.
pub fn same_move(a: Move, b: Move) -> (same: bool)
    ensures
        same == (a == b),
{
    (a.0).0 == (b.0).0 && (a.0).1 == (b.0).1 && (a.1).0 == (b.1).0 && (a.1).1 == (b.1).1
}

/// Whether two keys are the same.
pub fn same_key(a: &Vec<u8>, b: &Vec<u8>) -> (same: bool)
    ensures
        same == (a@ == b@),
{
    if a.len() != b.len() {
        return false;
    }
    let mut i: usize = 0;
    while i < a.len()
        invariant
            i <= a.len(),
            a.len() == b.len(),
            forall|j: int| 0 <= j < i ==> a@[j] == b@[j],
        decreases a.len() - i,
    {
        if a[i] != b[i] {
            return false;
        }
        i += 1;
    }
    assert(a@ =~= b@);
    true
}

/// Whether the last six moves alternate and `m` would go on with them.
pub fn is_cycle_guarded(history: &Vec<Move>, m: Move) -> (guarded: bool)
    ensures
        guarded == cycle_guard(history@, m),
{
    let n = history.len();
    if n < 6 {
        return false;
    }
    let a = history[n - 6];
    let b = history[n - 5];
    let c = history[n - 4];
    let d = history[n - 3];
    let e = history[n - 2];
    let f = history[n - 1];
    same_move(a, c) && same_move(c, e) && same_move(b, d) && same_move(d, f) && same_move(m, a)
}

/// Whether the side to move has played `m` in each of its last two turns.
pub fn is_repeat_guarded(history: &Vec<Move>, m: Move) -> (guarded: bool)
    ensures
        guarded == repeat_guard(history@, m),
{
    let n = history.len();
    if n < 4 {
        return false;
    }
    same_move(history[n - 2], m) && same_move(history[n - 4], m)
}

/// How often `key` occurs among `keys`.
pub fn count_key(keys: &Vec<Vec<u8>>, key: &Vec<u8>) -> (count: usize)
    ensures
        count == occurrences(keys_of(keys@), keys@.len(), key@),
{
    let mut count: usize = 0;
    let mut i: usize = 0;
    while i < keys.len()
        invariant
            i <= keys.len(),
            count <= i,
            count == occurrences(keys_of(keys@), i as nat, key@),
        decreases keys.len() - i,
    {
        if same_key(&keys[i], key) {
            count += 1;
        }
        i += 1;
    }
    count
}

/// Adds `m` at the end of the history of moves and drops the oldest entry
/// if the history is then longer than the limit.
pub fn record_move(history: &mut Vec<Move>, m: Move)
    ensures
        final(history)@ == recorded(old(history)@, m),
{
    history.push(m);
    if history.len() > HISTORY_LIMIT {
        history.remove(0);
        assert(history@ =~= old(history)@.push(m).drop_first());
    }
}

/// Adds `key` at the end of the history of positions and drops the oldest
/// entry if the history is then longer than the limit.
pub fn record_position(keys: &mut Vec<Vec<u8>>, key: Vec<u8>)
    ensures
        keys_of(final(keys)@) == recorded(keys_of(old(keys)@), key@),
{
    keys.push(key);
    if keys.len() > HISTORY_LIMIT {
        keys.remove(0);
        assert(keys_of(keys@) =~= keys_of(old(keys)@).push(key@).drop_first());
    } else {
        assert(keys_of(keys@) =~= keys_of(old(keys)@).push(key@));
    }
}

/// Goes through the candidates `moves` as `pick_from` says. Returns the
/// best move, its score, whether any candidate was scored, and the
/// candidates that the guards kept out.
pub fn go_through(
    board: &Board,
    history: &Vec<Move>,
    keys: &Vec<Vec<u8>>,
    depth: i32,
    moves: &Vec<Move>,
) -> (r: (Move, i32, bool, Vec<Move>))
    requires
        depth >= 0,
        moves@.len() > 0,
    ensures
        (Pick { best_move: r.0, best_score: r.1 as int, evaluated: r.2 }) == pick_from(
            board@,
            history@,
            keys_of(keys@),
            depth as nat,
            moves@,
            0,
            first_pick(board@, moves@),
        ),
        r.3@ == moves@.filter(is_excluded(board@, history@, keys_of(keys@))),
{
    let turn = board.get_current_turn();
    let white: bool = turn == Color::White;
    let mut best_move: Move = moves[0];
    let mut best_score: i32 = if white {
        i32::MIN
    } else {
        i32::MAX
    };
    let mut evaluated: bool = false;
    let mut kept_out: Vec<Move> = Vec::new();
    let ghost out = is_excluded(board@, history@, keys_of(keys@));
    let ghost goal = pick_from(
        board@,
        history@,
        keys_of(keys@),
        depth as nat,
        moves@,
        0,
        first_pick(board@, moves@),
    );
    assert(moves@.take(0).filter(out) =~= Seq::<Move>::empty()) by {
        reveal(Seq::filter);
    }
    let mut k: usize = 0;
    while k < moves.len()
        invariant
            depth >= 0,
            k <= moves.len(),
            turn == board@.turn,
            white == (turn == Color::White),
            out == is_excluded(board@, history@, keys_of(keys@)),
            kept_out@ == moves@.take(k as int).filter(out),
            goal == pick_from(
                board@,
                history@,
                keys_of(keys@),
                depth as nat,
                moves@,
                k as nat,
                Pick { best_move, best_score: best_score as int, evaluated },
            ),
        decreases moves.len() - k,
    {
        let m = moves[k];
        let next = board.after_move(m);
        let key = next.position_key();
        let guarded = is_cycle_guarded(history, m) || is_repeat_guarded(history, m) || count_key(
            keys,
            &key,
        ) >= 2;
        proof {
            reveal(Seq::filter);
            assert(moves@.take(k + 1).drop_last() =~= moves@.take(k as int));
            assert(moves@.take(k + 1).last() == m);
            assert(out(m) == guarded);
        }
        if guarded {
            kept_out.push(m);
        } else if !next.is_in_check(turn) {
            let score = minimax_ab(&next, depth, ALPHA_START, BETA_START, !white);
            proof {
                use_type_invariant(&next);
                lemma_pruning_loses_nothing(next@, depth as nat, !white);
            }
            evaluated = true;
            if white {
                if score > best_score {
                    best_score = score;
                    best_move = m;
                }
            } else {
                if score < best_score {
                    best_score = score;
                    best_move = m;
                }
            }
        }
        k += 1;
    }
    assert(moves@.take(k as int) =~= moves@);
    (best_move, best_score, evaluated, kept_out)
}

/// The first of `kept_out` that does not leave the side to move in check,
/// or `otherwise` if there is none.
pub fn first_playable(board: &Board, kept_out: &Vec<Move>, otherwise: Move) -> (m: Move)
    ensures
        m == ({
            let j = first_index(kept_out@.len(), is_playable(board@, kept_out@));
            if j < kept_out@.len() {
                kept_out@[j]
            } else {
                otherwise
            }
        }),
{
    let turn = board.get_current_turn();
    let ghost p = is_playable(board@, kept_out@);
    let mut j: usize = 0;
    while j < kept_out.len()
        invariant
            j <= kept_out.len(),
            turn == board@.turn,
            p == is_playable(board@, kept_out@),
            forall|i: int| 0 <= i < j ==> !#[trigger] p(i),
        decreases kept_out.len() - j,
    {
        let next = board.after_move(kept_out[j]);
        if !next.is_in_check(turn) {
            proof {
                lemma_first_index_is(kept_out@.len(), p, j as int);
            }
            return kept_out[j];
        }
        j += 1;
    }
    proof {
        lemma_first_index_is(kept_out@.len(), p, kept_out@.len() as int);
    }
    otherwise
}

/// The move that the automated player makes for the side to move, given
/// the moves that were played and the positions that were seen. It is
/// always a legal move, and there is one whenever the game is not over.
pub fn choose_auto_move(board: &Board, history: &Vec<Move>, keys: &Vec<Vec<u8>>) -> (choice: Option<
    Move,
>)
    ensures
        choice == auto_choice(board@, history@, keys_of(keys@)),
        choice.is_none() <==> game_over(board@),
        choice matches Some(m) ==> all_moves(board@, board@.turn).contains(m) && playable(
            board@,
            m,
        ),
{
    proof {
        use_type_invariant(board);
        lemma_auto_choice_is_legal(board@, history@, keys_of(keys@));
    }
    let moves = board.get_all_moves(board.get_current_turn());
    if moves.len() == 0 {
        return None;
    }
    let (best_move, _best_score, evaluated, kept_out) = go_through(
        board,
        history,
        keys,
        AUTOPLAY_DEPTH,
        &moves,
    );
    if evaluated {
        Some(best_move)
    } else {
        Some(first_playable(board, &kept_out, moves[0]))
    }
}

/// The move to suggest to the side to move, with its score.
pub fn suggest_best_move(board: &Board) -> (best: Option<(Move, i32)>)
    ensures
        match best {
            Some((m, score)) => {
                &&& suggestion(board@) == Some((m, score as int))
                &&& all_moves(board@, board@.turn).contains(m)
                &&& score == score_of(board@, SUGGESTION_DEPTH as nat, m)
            },
            None => suggestion(board@).is_none(),
        },
        best.is_none() <==> game_over(board@),
{
    proof {
        use_type_invariant(board);
        lemma_suggestion_is_best(board@);
    }
    let moves = board.get_all_moves(board.get_current_turn());
    if moves.len() == 0 {
        return None;
    }
    let history: Vec<Move> = Vec::new();
    let keys: Vec<Vec<u8>> = Vec::new();
    assert(keys_of(keys@) =~= Seq::<Seq<u8>>::empty());
    assert(history@ =~= Seq::<Move>::empty());
    let (best_move, best_score, _evaluated, _kept_out) = go_through(
        board,
        &history,
        &keys,
        SUGGESTION_DEPTH,
        &moves,
    );
    Some((best_move, best_score))
}

/// One turn of the automated player. While a pawn waits to be promoted, or
/// when the side to move has no legal move, nothing happens. Else the
/// chosen move is made, whatever was picked up is put down, and the move and
/// the position it leads to are added to the histories.
pub fn play_auto_move(
    board: &mut Board,
    history: &mut Vec<Move>,
    keys: &mut Vec<Vec<u8>>,
) -> (played: Option<Move>)
    ensures
        played.is_none() <==> old(board)@.promotion.is_some() || game_over(old(board)@),
        match played {
            Some(m) => {
                &&& Some(m) == auto_choice(old(board)@, old(history)@, keys_of(old(keys)@))
                &&& final(board)@ == apply_move(old(board)@, m)
                &&& final(board).selection().is_none()
                &&& final(board).highlights() == Seq::<Square>::empty()
                &&& final(history)@ == recorded(old(history)@, m)
                &&& keys_of(final(keys)@) == recorded(
                    keys_of(old(keys)@),
                    key_of(final(board)@.men),
                )
            },
            None => {
                &&& *final(board) == *old(board)
                &&& *final(history) == *old(history)
                &&& *final(keys) == *old(keys)
            },
        },
{
    if board.promotion_state().is_some() {
        return None;
    }
    match choose_auto_move(board, history, keys) {
        Some(m) => {
            board.make_move(m);
            record_move(history, m);
            record_position(keys, board.position_key());
            Some(m)
        },
        None => None,
    }
}

/// The automated player: whether it is switched on, the moves it has made
/// and the positions it has seen since it was last switched.
pub struct AutoPlayer {
    enabled: bool,
    move_history: Vec<Move>,
    position_history: Vec<Vec<u8>>,
}

impl AutoPlayer {
    /// Whether the player is switched on.
    pub closed spec fn is_on(&self) -> bool {
        self.enabled
    }

    /// The moves that the player remembers, oldest first.
    pub closed spec fn moves(&self) -> Seq<Move> {
        self.move_history@
    }

    /// The keys of the positions that the player remembers, oldest first.
    pub closed spec fn positions(&self) -> Seq<Seq<u8>> {
        keys_of(self.position_history@)
    }

    /// A player that is switched off and remembers the position of `board`
    /// and nothing else.
    pub fn new(board: &Board) -> (player: Self)
        ensures
            !player.is_on(),
            player.moves() == Seq::<Move>::empty(),
            player.positions() == seq![key_of(board@.men)],
    {
        let mut position_history: Vec<Vec<u8>> = Vec::new();
        position_history.push(board.position_key());
        assert(keys_of(position_history@) =~= seq![key_of(board@.men)]);
        AutoPlayer { enabled: false, move_history: Vec::new(), position_history }
    }

    /// Whether the player is switched on.
    pub fn is_enabled(&self) -> (on: bool)
        ensures
            on == self.is_on(),
    {
        self.enabled
    }

    /// How many moves the player remembers.
    pub fn moves_remembered(&self) -> (n: usize)
        ensures
            n == self.moves().len(),
    {
        self.move_history.len()
    }

    /// How many positions the player remembers.
    pub fn positions_remembered(&self) -> (n: usize)
        ensures
            n == self.positions().len(),
    {
        self.position_history.len()
    }

    /// Switches the player on if it is off and off if it is on. Either way it
    /// forgets what it remembered, so that nothing stale counts as a
    /// repetition, and remembers the position of `board`.
    pub fn toggle(&mut self, board: &Board)
        ensures
            final(self).is_on() == !old(self).is_on(),
            final(self).moves() == Seq::<Move>::empty(),
            final(self).positions() == seq![key_of(board@.men)],
    {
        self.enabled = !self.enabled;
        self.move_history = Vec::new();
        let mut position_history: Vec<Vec<u8>> = Vec::new();
        position_history.push(board.position_key());
        assert(keys_of(position_history@) =~= seq![key_of(board@.men)]);
        self.position_history = position_history;
    }

    /// One turn of the player on `board`. A player that is switched off does
    /// nothing; one that is switched on plays as `play_auto_move` says.
    pub fn take_turn(&mut self, board: &mut Board) -> (played: Option<Move>)
        ensures
            final(self).is_on() == old(self).is_on(),
            played.is_some() <==> old(self).is_on() && old(board)@.promotion.is_none()
                && !game_over(old(board)@),
            match played {
                Some(m) => {
                    &&& Some(m) == auto_choice(
                        old(board)@,
                        old(self).moves(),
                        old(self).positions(),
                    )
                    &&& final(board)@ == apply_move(old(board)@, m)
                    &&& final(board).selection().is_none()
                    &&& final(board).highlights() == Seq::<Square>::empty()
                    &&& final(self).moves() == recorded(old(self).moves(), m)
                    &&& final(self).positions() == recorded(
                        old(self).positions(),
                        key_of(final(board)@.men),
                    )
                },
                None => {
                    &&& *final(board) == *old(board)
                    &&& final(self).moves() == old(self).moves()
                    &&& final(self).positions() == old(self).positions()
                },
            },
    {
        if !self.enabled {
            return None;
        }
        play_auto_move(board, &mut self.move_history, &mut self.position_history)
    }
}

} // verus!
