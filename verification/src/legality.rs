//! Check, and which pseudo-legal moves are legal.

use vstd::prelude::*;
use crate::chessboard::Board;
use crate::pieces::piece::{Color, Kind, Man, Move, Piece, Square};
use crate::play::{apply_move, move_man};
use crate::rules::{
    all_on_board, lemma_pseudo_moves_on_board, on_board, pseudo_moves, stands_on, Position,
};

verus! {

/// The least index below `n` at which `p` holds, or `n` if there is none.
pub open spec fn first_index(n: nat, p: spec_fn(int) -> bool) -> int
    decreases n,
{
    if n == 0 {
        0
    } else {
        let k = first_index((n - 1) as nat, p);
        if k < n - 1 {
            k
        } else if p(n - 1) {
            n - 1
        } else {
            n as int
        }
    }
}

/// `first_index` is in range, nothing before it satisfies `p`, and it does
/// itself unless it is `n`.
pub proof fn lemma_first_index(n: nat, p: spec_fn(int) -> bool)
    ensures
        0 <= first_index(n, p) <= n,
        forall|j: int| 0 <= j < first_index(n, p) ==> !#[trigger] p(j),
        first_index(n, p) < n ==> p(first_index(n, p)),
    decreases n,
{
    if n > 0 {
        lemma_first_index((n - 1) as nat, p);
    }
}

/// Whatever index has the defining property of `first_index` is it.
pub proof fn lemma_first_index_is(n: nat, p: spec_fn(int) -> bool, k: int)
    requires
        0 <= k <= n,
        forall|j: int| 0 <= j < k ==> !#[trigger] p(j),
        k < n ==> p(k),
    ensures
        first_index(n, p) == k,
{
    lemma_first_index(n, p);
    let m = first_index(n, p);
    if m < k {
        assert(!p(m));
    } else if k < m {
        assert(!p(k));
    }
}

/// "The man at index i is the king of `color`."
pub open spec fn king_of(men: Seq<Man>, color: Color) -> spec_fn(int) -> bool {
    |i: int| men[i].kind == Kind::King && men[i].color == color
}

/// "The man at index i stands on (r, f)."
pub open spec fn man_at(men: Seq<Man>, r: int, f: int) -> spec_fn(int) -> bool {
    |i: int| stands_on(men[i], r, f)
}

/// "The man at index i is not number `skip` and stands on (r, f)."
pub open spec fn other_at(men: Seq<Man>, skip: int, r: int, f: int) -> spec_fn(int) -> bool {
    |i: int| i != skip && stands_on(men[i], r, f)
}

/// Some man that is not of `color` has `target` among its pseudo-legal moves.
pub open spec fn attacked(pos: Position, color: Color, target: Square) -> bool {
    exists|i: int|
        0 <= i < pos.men.len() && pos.men[i].color != color && #[trigger] pseudo_moves(
            pos,
            pos.men[i],
        ).contains(target)
}

/// The first king of `color` stands on a square that an enemy attacks. A side
/// without a king is never in check.
pub open spec fn in_check(pos: Position, color: Color) -> bool {
    let k = first_index(pos.men.len(), king_of(pos.men, color));
    k < pos.men.len() && attacked(pos, color, (pos.men[k].rank, pos.men[k].file))
}

/// A king that is not in check cannot be taken: no enemy has a pseudo-legal
/// move onto the square of the first king of a side that is not in check.
pub proof fn lemma_safe_king_cannot_be_taken(pos: Position, color: Color, i: int)
    requires
        !in_check(pos, color),
        0 <= i < pos.men.len(),
        pos.men[i].color != color,
    ensures
        ({
            let k = first_index(pos.men.len(), king_of(pos.men, color));
            k < pos.men.len() ==> !pseudo_moves(pos, pos.men[i]).contains(
                (pos.men[k].rank, pos.men[k].file),
            )
        }),
{
}

/// The men with man `i` put on (r, f).
pub open spec fn relocate(men: Seq<Man>, i: int, r: i32, f: i32) -> Seq<Man> {
    men.update(i, Man { rank: r, file: f, ..men[i] })
}

/// The position with other men and all else as it is.
pub open spec fn with_men(pos: Position, men: Seq<Man>) -> Position {
    Position { men, ..pos }
}

/// A king that changes its file by two castles.
pub open spec fn is_castling(me: Man, to: Square) -> bool {
    me.kind == Kind::King && (to.1 - me.file == 2 || me.file - to.1 == 2)
}

/// The file that a castling king passes over.
pub open spec fn passed_file(me: Man, to: Square) -> int {
    if to.1 > me.file {
        me.file + 1
    } else {
        me.file - 1
    }
}

/// Moving man `i` to `to` does not leave its own king in check: in the
/// position after the move, as `move_man` makes it, with every man gone that
/// the move takes, in passing too, the mover's side is not in check. A
/// castling king must besides be safe on the square it passes over.
pub open spec fn keeps_king_safe(pos: Position, i: int, to: Square) -> bool {
    let me = pos.men[i];
    &&& is_castling(me, to) ==> !in_check(
        with_men(pos, relocate(pos.men, i, to.0, passed_file(me, to) as i32)),
        me.color,
    )
    &&& !in_check(move_man(pos, i, to), me.color)
}

/// `keeps_king_safe` as a predicate on destinations.
pub open spec fn safe_for(pos: Position, i: int) -> spec_fn(Square) -> bool {
    |to: Square| keeps_king_safe(pos, i, to)
}

/// The legal moves of man `i`: its pseudo-legal moves, in their order, that
/// do not leave its own king in check.
pub open spec fn legal_moves(pos: Position, i: int) -> Seq<Square> {
    pseudo_moves(pos, pos.men[i]).filter(safe_for(pos, i))
}

/// What a filter keeps was there before and satisfies the predicate.
pub proof fn lemma_filter_keeps<A>(s: Seq<A>, pred: spec_fn(A) -> bool)
    ensures
        forall|k: int|
            0 <= k < s.filter(pred).len() ==> pred(#[trigger] s.filter(pred)[k]) && s.contains(
                s.filter(pred)[k],
            ),
    decreases s.len(),
{
    reveal(Seq::filter);
    if s.len() > 0 {
        let front = s.drop_last();
        lemma_filter_keeps(front, pred);
        assert forall|k: int| 0 <= k < s.filter(pred).len() implies pred(
            #[trigger] s.filter(pred)[k],
        ) && s.contains(s.filter(pred)[k]) by {
            if k < front.filter(pred).len() {
                let x = front.filter(pred)[k];
                assert(front.contains(x));
                let j = choose|j: int| 0 <= j < front.len() && front[j] == x;
                assert(s[j] == x);
            } else {
                assert(s[s.len() - 1] == s.last());
            }
        }
    }
}

/// Every legal move of a man is one of its pseudo-legal moves, ends on the
/// board, and does not leave the mover's own king in check: once the move is
/// made, the mover's side is not in check.
pub proof fn lemma_legal_moves(pos: Position, i: int)
    ensures
        all_on_board(legal_moves(pos, i)),
        forall|k: int|
            0 <= k < legal_moves(pos, i).len() ==> pseudo_moves(pos, pos.men[i]).contains(
                #[trigger] legal_moves(pos, i)[k],
            ),
        forall|k: int|
            0 <= k < legal_moves(pos, i).len() ==> keeps_king_safe(
                pos,
                i,
                #[trigger] legal_moves(pos, i)[k],
            ),
        forall|k: int|
            0 <= k < legal_moves(pos, i).len() ==> !in_check(
                move_man(pos, i, #[trigger] legal_moves(pos, i)[k]),
                pos.men[i].color,
            ),
{
    let possible = pseudo_moves(pos, pos.men[i]);
    let legal = legal_moves(pos, i);
    lemma_filter_keeps(possible, safe_for(pos, i));
    lemma_pseudo_moves_on_board(pos, pos.men[i]);
    assert forall|k: int| 0 <= k < legal.len() implies keeps_king_safe(
        pos,
        i,
        #[trigger] legal[k],
    ) by {
        assert(safe_for(pos, i)(legal[k]));
    }
    assert forall|k: int| 0 <= k < legal.len() implies on_board(
        #[trigger] legal[k].0 as int,
        legal[k].1 as int,
    ) by {
        assert(possible.contains(legal[k]));
    }
}

/// The legal moves of man `i` as moves from the square it stands on.
pub open spec fn moves_of(pos: Position, i: int) -> Seq<Move> {
    legal_moves(pos, i).map_values(|to: Square| ((pos.men[i].rank, pos.men[i].file), to))
}

/// Man `i` is the first man on the square it stands on. A move names its
/// origin, and it is the first man there that moves.
pub open spec fn leads_its_square(men: Seq<Man>, i: int) -> bool {
    first_index(men.len(), man_at(men, men[i].rank as int, men[i].file as int)) == i
}

/// The legal moves of the first `n` men, those of `color` only, and of them
/// only those that are the first on their square.
pub open spec fn all_moves_upto(pos: Position, color: Color, n: nat) -> Seq<Move>
    decreases n,
{
    if n == 0 {
        Seq::empty()
    } else if pos.men[n - 1].color == color && leads_its_square(pos.men, n - 1) {
        all_moves_upto(pos, color, (n - 1) as nat) + moves_of(pos, n - 1)
    } else {
        all_moves_upto(pos, color, (n - 1) as nat)
    }
}

/// Every legal move of `color`, man by man in the order of the men.
pub open spec fn all_moves(pos: Position, color: Color) -> Seq<Move> {
    all_moves_upto(pos, color, pos.men.len())
}

/// No move among the legal moves of the first `n` men leaves the mover's
/// side in check once it is made.
pub proof fn lemma_moves_upto_are_safe(pos: Position, color: Color, n: nat, j: int)
    requires
        n <= pos.men.len(),
        0 <= j < all_moves_upto(pos, color, n).len(),
    ensures
        !in_check(apply_move(pos, all_moves_upto(pos, color, n)[j]), color),
    decreases n,
{
    let i = n - 1;
    let before = all_moves_upto(pos, color, i as nat);
    if pos.men[i].color == color && leads_its_square(pos.men, i) {
        if j < before.len() {
            lemma_moves_upto_are_safe(pos, color, i as nat, j);
            assert(all_moves_upto(pos, color, n)[j] == before[j]);
        } else {
            let k = j - before.len();
            let to = legal_moves(pos, i)[k];
            lemma_legal_moves(pos, i);
            assert(all_moves_upto(pos, color, n)[j] == moves_of(pos, i)[k]);
            assert(moves_of(pos, i)[k] == ((pos.men[i].rank, pos.men[i].file), to));
            assert(apply_move(pos, moves_of(pos, i)[k]) == move_man(pos, i, to));
        }
    } else {
        lemma_moves_upto_are_safe(pos, color, i as nat, j);
    }
}

/// A legal move is legal: none of the moves of `color` leaves that side in
/// check once it is made, on any board.
pub proof fn lemma_all_moves_are_safe(pos: Position, color: Color)
    ensures
        forall|j: int|
            0 <= j < all_moves(pos, color).len() ==> !in_check(
                apply_move(pos, #[trigger] all_moves(pos, color)[j]),
                color,
            ),
{
    assert forall|j: int| 0 <= j < all_moves(pos, color).len() implies !in_check(
        apply_move(pos, #[trigger] all_moves(pos, color)[j]),
        color,
    ) by {
        lemma_moves_upto_are_safe(pos, color, pos.men.len(), j);
    }
}

/// The side to move has no legal move: mate or stalemate alike.
pub open spec fn game_over(pos: Position) -> bool {
    all_moves(pos, pos.turn).len() == 0
}

/// Whether `target` is one of `squares`.
pub fn contains_square(squares: &Vec<Square>, target: Square) -> (b: bool)
    ensures
        b == squares@.contains(target),
{
    let mut i: usize = 0;
    while i < squares.len()
        invariant
            i <= squares.len(),
            forall|j: int| 0 <= j < i ==> squares@[j] != target,
        decreases squares.len() - i,
    {
        if squares[i].0 == target.0 && squares[i].1 == target.1 {
            return true;
        }
        i += 1;
    }
    false
}

impl Board {
    /// The index of the first king of `color`, or the number of men if that
    /// side has no king.
    pub fn find_king(&self, color: Color) -> (k: usize)
        ensures
            k == first_index(self@.men.len(), king_of(self@.men, color)),
    {
        let n = self.piece_count();
        let mut k: usize = 0;
        while k < n
            invariant
                k <= n,
                n == self@.men.len(),
                forall|j: int| 0 <= j < k ==> !#[trigger] king_of(self@.men, color)(j),
            decreases n - k,
        {
            let piece = self.get_piece(k);
            if piece.get_kind() == Kind::King && piece.get_color() == color {
                proof {
                    lemma_first_index_is(n as nat, king_of(self@.men, color), k as int);
                }
                return k;
            }
            k += 1;
        }
        proof {
            lemma_first_index_is(n as nat, king_of(self@.men, color), n as int);
        }
        n
    }

    /// The index of the first man other than number `skip` on (rank, file),
    /// or the number of men if there is none.
    pub fn find_other_at(&self, skip: usize, rank: i32, file: i32) -> (k: usize)
        ensures
            k == first_index(
                self@.men.len(),
                other_at(self@.men, skip as int, rank as int, file as int),
            ),
    {
        let n = self.piece_count();
        let ghost p = other_at(self@.men, skip as int, rank as int, file as int);
        let mut k: usize = 0;
        while k < n
            invariant
                k <= n,
                n == self@.men.len(),
                p == other_at(self@.men, skip as int, rank as int, file as int),
                forall|j: int| 0 <= j < k ==> !#[trigger] p(j),
            decreases n - k,
        {
            let piece = self.get_piece(k);
            if k != skip && piece.get_rank() == rank && piece.get_file() == file {
                proof {
                    lemma_first_index_is(n as nat, p, k as int);
                }
                return k;
            }
            k += 1;
        }
        proof {
            lemma_first_index_is(n as nat, p, n as int);
        }
        n
    }

    /// Whether a man that is not of `color` could move to `target`.
    pub fn is_attacked(&self, color: Color, target: Square) -> (b: bool)
        ensures
            b == attacked(self@, color, target),
    {
        let n = self.piece_count();
        let mut i: usize = 0;
        while i < n
            invariant
                i <= n,
                n == self@.men.len(),
                forall|j: int|
                    0 <= j < i ==> !(self@.men[j].color != color && #[trigger] pseudo_moves(
                        self@,
                        self@.men[j],
                    ).contains(target)),
            decreases n - i,
        {
            let piece = self.get_piece(i);
            if piece.get_color() != color {
                let moves = piece.get_possible_moves(self);
                if contains_square(&moves, target) {
                    return true;
                }
            }
            i += 1;
        }
        false
    }

    /// Whether the king of `color` is in check. The answer depends on the
    /// position alone: asked again of a board that has not changed, it is
    /// the same.
    pub fn is_in_check(&self, color: Color) -> (b: bool)
        ensures
            b == in_check(self@, color),
    {
        let k = self.find_king(color);
        if k < self.piece_count() {
            let king = self.get_piece(k);
            self.is_attacked(color, (king.get_rank(), king.get_file()))
        } else {
            false
        }
    }

    /// Whether the man at `index` may move to `to` without leaving its own
    /// king in check.
    pub fn move_keeps_king_safe(&self, index: usize, to: Square) -> (b: bool)
        requires
            index < self@.men.len(),
        ensures
            b == keeps_king_safe(self@, index as int, to),
    {
        let me = self.get_piece(index).to_man();
        let shift: i64 = to.1 as i64 - me.file as i64;
        if me.kind == Kind::King && (shift == 2 || shift == -2) {
            let mid: i32 = if to.1 > me.file {
                me.file + 1
            } else {
                me.file - 1
            };
            let halfway = self.relocated(index, to.0, mid);
            if halfway.is_in_check(me.color) {
                return false;
            }
        }
        let mut made = self.clone();
        made.move_man(index, to);
        !made.is_in_check(me.color)
    }

    /// The legal moves of the man at `piece_index`.
    pub fn get_legal_moves(&self, piece_index: usize) -> (moves: Vec<Square>)
        requires
            piece_index < self@.men.len(),
        ensures
            moves@ == legal_moves(self@, piece_index as int),
            all_on_board(moves@),
            forall|k: int|
                0 <= k < moves@.len() ==> pseudo_moves(
                    self@,
                    self@.men[piece_index as int],
                ).contains(#[trigger] moves@[k]),
            forall|k: int|
                0 <= k < moves@.len() ==> !in_check(
                    move_man(self@, piece_index as int, #[trigger] moves@[k]),
                    self@.men[piece_index as int].color,
                ),
    {
        proof {
            lemma_legal_moves(self@, piece_index as int);
        }
        let possible = self.get_piece(piece_index).get_possible_moves(self);
        let ghost keep = safe_for(self@, piece_index as int);
        let mut legal: Vec<Square> = Vec::new();
        let mut k: usize = 0;
        assert(possible@.take(0).filter(keep) =~= Seq::<Square>::empty()) by {
            reveal(Seq::filter);
        }
        while k < possible.len()
            invariant
                k <= possible.len(),
                piece_index < self@.men.len(),
                keep == safe_for(self@, piece_index as int),
                legal@ == possible@.take(k as int).filter(keep),
            decreases possible.len() - k,
        {
            let to = possible[k];
            let safe = self.move_keeps_king_safe(piece_index, to);
            proof {
                reveal(Seq::filter);
                assert(possible@.take(k + 1).drop_last() =~= possible@.take(k as int));
                assert(possible@.take(k + 1).last() == to);
                assert(keep(to) == safe);
            }
            if safe {
                legal.push(to);
            }
            k += 1;
        }
        assert(possible@.take(k as int) =~= possible@);
        legal
    }

    /// Every legal move of `color`. None of them leaves that side in check
    /// once it is made.
    pub fn get_all_moves(&self, color: Color) -> (moves: Vec<Move>)
        ensures
            moves@ == all_moves(self@, color),
            forall|j: int|
                0 <= j < moves@.len() ==> !in_check(apply_move(self@, #[trigger] moves@[j]), color),
    {
        proof {
            lemma_all_moves_are_safe(self@, color);
        }
        let n = self.piece_count();
        let mut moves: Vec<Move> = Vec::new();
        let mut i: usize = 0;
        while i < n
            invariant
                i <= n,
                n == self@.men.len(),
                moves@ == all_moves_upto(self@, color, i as nat),
            decreases n - i,
        {
            let piece = self.get_piece(i);
            if piece.get_color() == color && self.find_at(piece.get_rank(), piece.get_file()) == i {
                let from: Square = (piece.get_rank(), piece.get_file());
                let legal = self.get_legal_moves(i);
                let ghost done = moves@;
                let mut k: usize = 0;
                while k < legal.len()
                    invariant
                        k <= legal.len(),
                        i < n,
                        n == self@.men.len(),
                        from == (self@.men[i as int].rank, self@.men[i as int].file),
                        legal@ == legal_moves(self@, i as int),
                        moves@ == done + moves_of(self@, i as int).take(k as int),
                    decreases legal.len() - k,
                {
                    moves.push((from, legal[k]));
                    assert(moves@ =~= done + moves_of(self@, i as int).take(k + 1));
                    k += 1;
                }
                assert(moves_of(self@, i as int).take(k as int) =~= moves_of(self@, i as int));
            }
            i += 1;
        }
        moves
    }

    /// Whether the side to move has no legal move.
    pub fn is_game_over(&self) -> (over: bool)
        ensures
            over == game_over(self@),
    {
        let moves = self.get_all_moves(self.get_current_turn());
        moves.len() == 0
    }
}

} // verus!
