//! Making moves: what a move does to a position, promotion, and picking
//! men up and putting them down.

use vstd::prelude::*;
use crate::chessboard::Board;
use crate::legality::{
    contains_square, first_index, is_castling, legal_moves, lemma_first_index,
    lemma_first_index_is, man_at, other_at, relocate, with_men,
};
use crate::movegen::is_on_board;
use crate::pieces::chessman::Chessman;
use crate::pieces::piece::{Color, Kind, Man, Move, Piece, Square};
use crate::rules::{
    far_rank, on_board, stands_on, with_king_moved, with_rook_a_moved, with_rook_h_moved, Position,
};

verus! {

/// "The man at index i is a rook on (r, f)."
pub open spec fn rook_on(men: Seq<Man>, r: int, f: int) -> spec_fn(int) -> bool {
    |i: int| stands_on(men[i], r, f) && men[i].kind == Kind::Rook
}

/// "The man at index i is a pawn on (r, f) and not of `color`."
pub open spec fn enemy_pawn_on(men: Seq<Man>, color: Color, r: int, f: int) -> spec_fn(
    int,
) -> bool {
    |i: int| stands_on(men[i], r, f) && men[i].kind == Kind::Pawn && men[i].color != color
}

/// "The man at index i is of `color` and stands on (r, f)."
pub open spec fn own_at(men: Seq<Man>, color: Color, r: int, f: int) -> spec_fn(int) -> bool {
    |i: int| stands_on(men[i], r, f) && men[i].color == color
}

/// The men without the one at `gone`, and where the man that was at `i`
/// is found among them.
pub open spec fn without(men: Seq<Man>, i: int, gone: int) -> (Seq<Man>, int) {
    if 0 <= gone < men.len() {
        (
            men.remove(gone),
            if gone < i {
                i - 1
            } else {
                i
            },
        )
    } else {
        (men, i)
    }
}

/// The rook's part in castling. When the king `me` castles, the first rook
/// on its rank in the corner it moves towards goes to the square the king
/// passes over, and king and rook of that side count as moved.
pub open spec fn castle_rook(pos: Position, me: Man, to: Square) -> Position {
    if is_castling(me, to) {
        if to.1 > me.file {
            let k = first_index(pos.men.len(), rook_on(pos.men, me.rank as int, 7));
            let men = if k < pos.men.len() {
                relocate(pos.men, k, pos.men[k].rank, 5)
            } else {
                pos.men
            };
            with_rook_h_moved(with_king_moved(with_men(pos, men), me.color), me.color)
        } else {
            let k = first_index(pos.men.len(), rook_on(pos.men, me.rank as int, 0));
            let men = if k < pos.men.len() {
                relocate(pos.men, k, pos.men[k].rank, 3)
            } else {
                pos.men
            };
            with_rook_a_moved(with_king_moved(with_men(pos, men), me.color), me.color)
        }
    } else {
        pos
    }
}

/// The first man other than number `i` on `to` is taken.
pub open spec fn capture_on(men: Seq<Man>, i: int, to: Square) -> (Seq<Man>, int) {
    without(men, i, first_index(men.len(), other_at(men, i, to.0 as int, to.1 as int)))
}

/// A pawn that changes file onto a square where it took nothing takes in
/// passing: the first enemy pawn beside its origin, on the file it moves to.
pub open spec fn takes_in_passing(me: Man, to: Square, took: bool) -> bool {
    me.kind == Kind::Pawn && to.1 != me.file && !took
}

/// The men after the capture in passing, if the move makes one, and where
/// the mover is found among them.
pub open spec fn capture_in_passing(men: Seq<Man>, i: int, me: Man, to: Square, took: bool) -> (
    Seq<Man>,
    int,
) {
    if takes_in_passing(me, to, took) {
        without(
            men,
            i,
            first_index(men.len(), enemy_pawn_on(men, me.color, me.rank as int, to.1 as int)),
        )
    } else {
        (men, i)
    }
}

/// A king that moves counts as moved; so does a rook that leaves the a-file
/// or the h-file.
pub open spec fn note_mover(pos: Position, me: Man) -> Position {
    if me.kind == Kind::King {
        with_king_moved(pos, me.color)
    } else if me.kind == Kind::Rook && me.file == 0 {
        with_rook_a_moved(pos, me.color)
    } else if me.kind == Kind::Rook && me.file == 7 {
        with_rook_h_moved(pos, me.color)
    } else {
        pos
    }
}

/// A pawn moves two ranks at once.
pub open spec fn is_double_step(me: Man, to: Square) -> bool {
    me.kind == Kind::Pawn && (to.0 - me.rank == 2 || me.rank - to.0 == 2)
}

/// A pawn reaches the far rank of its colour.
pub open spec fn reaches_far_rank(me: Man, to: Square) -> bool {
    me.kind == Kind::Pawn && to.0 == far_rank(me.color)
}

/// The position after the man `me`, found at index `i`, has been put on
/// `to`: its castling rights are noted, a double step is remembered or
/// forgotten, and then either the pawn on the far rank waits to be promoted
/// and the turn stays, or the turn passes.
pub open spec fn settled(pos: Position, i: int, me: Man, to: Square) -> Position {
    let moved = note_mover(with_men(pos, relocate(pos.men, i, to.0, to.1)), me);
    let noted = Position {
        en_passant: if is_double_step(me, to) {
            Some(to.1)
        } else {
            None
        },
        ..moved
    };
    if reaches_far_rank(me, to) {
        Position { promotion: Some(i as usize), ..noted }
    } else {
        Position { turn: noted.turn.other(), ..noted }
    }
}

/// The position after the man at index `i` has moved to `to`. Legality is
/// not asked. In order: the rook's part in castling; the capture on `to`;
/// the capture in passing; the move itself with what it changes besides the
/// men.
pub open spec fn move_man(pos: Position, i: int, to: Square) -> Position {
    let me = pos.men[i];
    let castled = castle_rook(pos, me, to);
    let taken = capture_on(castled.men, i, to);
    let took = taken.0.len() < castled.men.len();
    let passed = capture_in_passing(taken.0, taken.1, me, to, took);
    settled(with_men(castled, passed.0), passed.1, me, to)
}

/// The position after move `m`: the first man on the origin moves. Where no
/// man stands on the origin nothing changes.
pub open spec fn apply_move(pos: Position, m: Move) -> Position {
    let i = first_index(pos.men.len(), man_at(pos.men, m.0.0 as int, m.0.1 as int));
    if i < pos.men.len() {
        move_man(pos, i, m.1)
    } else {
        pos
    }
}

/// A move takes at most two men off the board and puts none on it. (Two are
/// taken only by a move that nobody would call legal.)
pub proof fn lemma_move_never_adds_men(pos: Position, m: Move)
    ensures
        apply_move(pos, m).men.len() <= pos.men.len(),
{
    let i = first_index(pos.men.len(), man_at(pos.men, m.0.0 as int, m.0.1 as int));
    lemma_first_index(pos.men.len(), man_at(pos.men, m.0.0 as int, m.0.1 as int));
    if i < pos.men.len() {
        let me = pos.men[i];
        let castled = castle_rook(pos, me, m.1);
        lemma_first_index(pos.men.len(), rook_on(pos.men, me.rank as int, 7));
        lemma_first_index(pos.men.len(), rook_on(pos.men, me.rank as int, 0));
        assert(castled.men.len() == pos.men.len());
        let taken = capture_on(castled.men, i, m.1);
        assert(taken.0.len() <= castled.men.len());
        let took = taken.0.len() < castled.men.len();
        let passed = capture_in_passing(taken.0, taken.1, me, m.1, took);
        assert(passed.0.len() <= taken.0.len());
    }
}

/// Castling rights never come back: a king or rook that counts as moved
/// before a move counts as moved after it.
pub proof fn lemma_castling_rights_never_return(pos: Position, m: Move)
    ensures
        pos.white_king_moved ==> apply_move(pos, m).white_king_moved,
        pos.white_rook_a_moved ==> apply_move(pos, m).white_rook_a_moved,
        pos.white_rook_h_moved ==> apply_move(pos, m).white_rook_h_moved,
        pos.black_king_moved ==> apply_move(pos, m).black_king_moved,
        pos.black_rook_a_moved ==> apply_move(pos, m).black_rook_a_moved,
        pos.black_rook_h_moved ==> apply_move(pos, m).black_rook_h_moved,
{
}

/// A promotion never makes a king, and it keeps the number of men.
pub proof fn lemma_promotion_makes_no_king(pos: Position, i: int, letter: char)
    requires
        0 <= i < pos.men.len(),
    ensures
        promoted_kind(letter) != Kind::King,
        promote(pos, i, letter).men.len() == pos.men.len(),
        promote(pos, i, letter).men.last().kind != Kind::King,
{
}

/// The kind that a promotion letter stands for; any letter but R, B and N
/// stands for the queen.
pub open spec fn promoted_kind(letter: char) -> Kind {
    if letter == 'R' {
        Kind::Rook
    } else if letter == 'B' {
        Kind::Bishop
    } else if letter == 'N' {
        Kind::Knight
    } else {
        Kind::Queen
    }
}

/// The position after the pawn at index `i` has been promoted: the pawn is
/// gone, a man of the chosen kind stands last among the men on its square in
/// its colour, nothing waits to be promoted, and the turn has passed.
pub open spec fn promote(pos: Position, i: int, letter: char) -> Position {
    Position {
        men: pos.men.remove(i).push(Man { kind: promoted_kind(letter), ..pos.men[i] }),
        promotion: None,
        turn: pos.turn.other(),
        ..pos
    }
}

impl Board {
    /// The index of the first man on (rank, file), or the number of men if
    /// the square is empty.
    pub fn find_at(&self, rank: i32, file: i32) -> (k: usize)
        ensures
            k == first_index(self@.men.len(), man_at(self@.men, rank as int, file as int)),
    {
        let n = self.piece_count();
        let ghost p = man_at(self@.men, rank as int, file as int);
        let mut k: usize = 0;
        while k < n
            invariant
                k <= n,
                n == self@.men.len(),
                p == man_at(self@.men, rank as int, file as int),
                forall|j: int| 0 <= j < k ==> !#[trigger] p(j),
            decreases n - k,
        {
            let piece = self.get_piece(k);
            if piece.get_rank() == rank && piece.get_file() == file {
                proof {
                    lemma_first_index_is(n as nat, p, k as int);
                }
                return k;
            }
            k += 1;
        }
        proof {
            lemma_first_index_is(n as nat, p, n as int);
        }
        n
    }

    /// The index of the first rook on (rank, file), or the number of men if
    /// there is none.
    pub fn find_rook_on(&self, rank: i32, file: i32) -> (k: usize)
        ensures
            k == first_index(self@.men.len(), rook_on(self@.men, rank as int, file as int)),
    {
        let n = self.piece_count();
        let ghost p = rook_on(self@.men, rank as int, file as int);
        let mut k: usize = 0;
        while k < n
            invariant
                k <= n,
                n == self@.men.len(),
                p == rook_on(self@.men, rank as int, file as int),
                forall|j: int| 0 <= j < k ==> !#[trigger] p(j),
            decreases n - k,
        {
            let piece = self.get_piece(k);
            if piece.get_rank() == rank && piece.get_file() == file && piece.get_kind()
                == Kind::Rook {
                proof {
                    lemma_first_index_is(n as nat, p, k as int);
                }
                return k;
            }
            k += 1;
        }
        proof {
            lemma_first_index_is(n as nat, p, n as int);
        }
        n
    }

    /// The index of the first pawn on (rank, file) that is not of `color`,
    /// or the number of men if there is none.
    pub fn find_enemy_pawn_on(&self, color: Color, rank: i32, file: i32) -> (k: usize)
        ensures
            k == first_index(
                self@.men.len(),
                enemy_pawn_on(self@.men, color, rank as int, file as int),
            ),
    {
        let n = self.piece_count();
        let ghost p = enemy_pawn_on(self@.men, color, rank as int, file as int);
        let mut k: usize = 0;
        while k < n
            invariant
                k <= n,
                n == self@.men.len(),
                p == enemy_pawn_on(self@.men, color, rank as int, file as int),
                forall|j: int| 0 <= j < k ==> !#[trigger] p(j),
            decreases n - k,
        {
            let piece = self.get_piece(k);
            if piece.get_rank() == rank && piece.get_file() == file && piece.get_kind()
                == Kind::Pawn && piece.get_color() != color {
                proof {
                    lemma_first_index_is(n as nat, p, k as int);
                }
                return k;
            }
            k += 1;
        }
        proof {
            lemma_first_index_is(n as nat, p, n as int);
        }
        n
    }

    /// The index of the first man of `color` on (rank, file), or the number
    /// of men if there is none.
    pub fn find_own_at(&self, color: Color, rank: i32, file: i32) -> (k: usize)
        ensures
            k == first_index(self@.men.len(), own_at(self@.men, color, rank as int, file as int)),
    {
        let n = self.piece_count();
        let ghost p = own_at(self@.men, color, rank as int, file as int);
        let mut k: usize = 0;
        while k < n
            invariant
                k <= n,
                n == self@.men.len(),
                p == own_at(self@.men, color, rank as int, file as int),
                forall|j: int| 0 <= j < k ==> !#[trigger] p(j),
            decreases n - k,
        {
            let piece = self.get_piece(k);
            if piece.get_rank() == rank && piece.get_file() == file && piece.get_color() == color {
                proof {
                    lemma_first_index_is(n as nat, p, k as int);
                }
                return k;
            }
            k += 1;
        }
        proof {
            lemma_first_index_is(n as nat, p, n as int);
        }
        n
    }

    /// The rook's part in castling, when the king `me` at `index` moves to
    /// `to`.
    fn move_castling_rook(&mut self, index: usize, me: Man, to: Square)
        requires
            index < old(self)@.men.len(),
            old(self)@.men[index as int] == me,
        ensures
            final(self)@ == castle_rook(old(self)@, me, to),
            final(self)@.men.len() == old(self)@.men.len(),
            final(self)@.men[index as int] == me,
            final(self).selection() == old(self).selection(),
            final(self).highlights() == old(self).highlights(),
    {
        let shift: i64 = to.1 as i64 - me.file as i64;
        if me.kind == Kind::King && (shift == 2 || shift == -2) {
            let n = self.piece_count();
            if to.1 > me.file {
                let k = self.find_rook_on(me.rank, 7);
                proof {
                    lemma_first_index(n as nat, rook_on(self@.men, me.rank as int, 7));
                }
                if k < n {
                    let rank = self.get_piece(k).get_rank();
                    self.move_piece_to(k, rank, 5);
                }
                self.mark_king_moved(me.color);
                self.mark_rook_h_moved(me.color);
            } else {
                let k = self.find_rook_on(me.rank, 0);
                proof {
                    lemma_first_index(n as nat, rook_on(self@.men, me.rank as int, 0));
                }
                if k < n {
                    let rank = self.get_piece(k).get_rank();
                    self.move_piece_to(k, rank, 3);
                }
                self.mark_king_moved(me.color);
                self.mark_rook_a_moved(me.color);
            }
        }
    }

    /// Takes the first man other than the mover on `to`, if there is one.
    /// Returns where the mover is found afterwards, and whether a man was
    /// taken.
    fn take_on(&mut self, mover: usize, to: Square) -> (r: (usize, bool))
        requires
            mover < old(self)@.men.len(),
        ensures
            final(self)@ == with_men(old(self)@, final(self)@.men),
            (final(self)@.men, r.0 as int) == capture_on(old(self)@.men, mover as int, to),
            r.1 == (final(self)@.men.len() < old(self)@.men.len()),
            r.0 < final(self)@.men.len(),
            final(self)@.men[r.0 as int] == old(self)@.men[mover as int],
            final(self).selection().is_none(),
            final(self).highlights() == Seq::<Square>::empty(),
    {
        let n = self.piece_count();
        let victim = self.find_other_at(mover, to.0, to.1);
        proof {
            lemma_first_index(
                n as nat,
                other_at(self@.men, mover as int, to.0 as int, to.1 as int),
            );
        }
        if victim < n {
            self.remove_piece(victim);
            if victim < mover {
                (mover - 1, true)
            } else {
                (mover, true)
            }
        } else {
            self.deselect();
            (mover, false)
        }
    }

    /// Takes in passing, if the move of the pawn `me` to `to` does so.
    /// Returns where the mover is found afterwards.
    fn take_in_passing(&mut self, mover: usize, me: Man, to: Square, took: bool) -> (r: usize)
        requires
            mover < old(self)@.men.len(),
            old(self)@.men[mover as int] == me,
        ensures
            final(self)@ == with_men(old(self)@, final(self)@.men),
            (final(self)@.men, r as int) == capture_in_passing(
                old(self)@.men,
                mover as int,
                me,
                to,
                took,
            ),
            r < final(self)@.men.len(),
            final(self)@.men[r as int] == me,
            final(self).selection().is_none(),
            final(self).highlights() == Seq::<Square>::empty(),
    {
        self.deselect();
        if me.kind == Kind::Pawn && to.1 != me.file && !took {
            let n = self.piece_count();
            let passed = self.find_enemy_pawn_on(me.color, me.rank, to.1);
            proof {
                lemma_first_index(
                    n as nat,
                    enemy_pawn_on(self@.men, me.color, me.rank as int, to.1 as int),
                );
            }
            if passed < n {
                self.remove_piece(passed);
                if passed < mover {
                    return mover - 1;
                }
            }
        }
        mover
    }

    /// Puts the mover on `to` and notes what the move changes besides the
    /// men: castling rights, the memory of a double step, and either a
    /// pending promotion or the turn.
    fn settle(&mut self, mover: usize, me: Man, to: Square)
        requires
            mover < old(self)@.men.len(),
        ensures
            final(self)@ == settled(old(self)@, mover as int, me, to),
            final(self).selection() == old(self).selection(),
            final(self).highlights() == old(self).highlights(),
    {
        self.move_piece_to(mover, to.0, to.1);
        if me.kind == Kind::King {
            self.mark_king_moved(me.color);
        } else if me.kind == Kind::Rook && me.file == 0 {
            self.mark_rook_a_moved(me.color);
        } else if me.kind == Kind::Rook && me.file == 7 {
            self.mark_rook_h_moved(me.color);
        }
        let climb: i64 = to.0 as i64 - me.rank as i64;
        if me.kind == Kind::Pawn && (climb == 2 || climb == -2) {
            self.set_last_double_pawn_file(Some(to.1));
        } else {
            self.set_last_double_pawn_file(None);
        }
        let far: i32 = match me.color {
            Color::White => 7,
            Color::Black => 0,
        };
        if me.kind == Kind::Pawn && to.0 == far {
            self.set_promotion_state(Some(mover));
        } else {
            let next = self.get_current_turn().opponent();
            self.set_turn(next);
        }
    }

    /// Moves the man at `index` to `to` and does all that follows from it.
    /// Whether the move is legal is the caller's business.
    pub fn move_man(&mut self, index: usize, to: Square)
        requires
            index < old(self)@.men.len(),
        ensures
            final(self)@ == move_man(old(self)@, index as int, to),
            final(self).selection().is_none(),
            final(self).highlights() == Seq::<Square>::empty(),
    {
        let me = self.get_piece(index).to_man();
        self.move_castling_rook(index, me, to);
        let ghost castled = self@;
        let taken = self.take_on(index, to);
        let ghost men2 = self@.men;
        assert(self@ == with_men(castled, men2));
        let mover = self.take_in_passing(taken.0, me, to, taken.1);
        let ghost men3 = self@.men;
        assert(self@ == with_men(castled, men3));
        self.settle(mover, me, to);
    }

    /// Makes move `m` for the first man on its origin. Whether the move is
    /// legal is the caller's business; where no man stands on the origin the
    /// position stays as it is. Whatever was picked up is put down.
    pub fn make_move(&mut self, m: Move)
        ensures
            final(self)@ == apply_move(old(self)@, m),
            final(self).selection().is_none(),
            final(self).highlights() == Seq::<Square>::empty(),
    {
        let i = self.find_at((m.0).0, (m.0).1);
        if i < self.piece_count() {
            self.move_man(i, m.1);
        } else {
            self.deselect();
        }
    }

    /// The board after move `m`, with nothing picked up. The board itself
    /// stays as it is: the copy is the only thing that the move changes.
    pub fn after_move(&self, m: Move) -> (next: Self)
        ensures
            next@ == apply_move(self@, m),
            next.selection().is_none(),
            next.highlights() == Seq::<Square>::empty(),
    {
        let mut next = self.clone();
        next.make_move(m);
        next
    }

    /// Replaces the pawn at `piece_index` by a man of the kind that
    /// `piece_type` stands for, and passes the turn.
    pub fn promote_piece(&mut self, piece_index: usize, piece_type: char)
        requires
            piece_index < old(self)@.men.len(),
        ensures
            final(self)@ == promote(old(self)@, piece_index as int, piece_type),
            final(self).selection().is_none(),
            final(self).highlights() == Seq::<Square>::empty(),
    {
        proof {
            use_type_invariant(&*self);
        }
        let pawn = self.remove_piece(piece_index);
        let kind = if piece_type == 'R' {
            Kind::Rook
        } else if piece_type == 'B' {
            Kind::Bishop
        } else if piece_type == 'N' {
            Kind::Knight
        } else {
            Kind::Queen
        };
        let placed = self.place(
            Chessman::of_kind(kind, pawn.get_color(), pawn.get_rank(), pawn.get_file()),
        );
        assert(placed);
        self.set_promotion_state(None);
        let next = self.get_current_turn().opponent();
        self.set_turn(next);
    }

    /// What a click on (rank, file) does. Off the board: nothing. With a man
    /// picked up: it moves there if it is still on the board and the square
    /// is one of those offered to it, and is put down either way. With
    /// nothing picked up: the first man of the side to move on that square is
    /// picked up and offered its legal moves.
    pub fn mark_piece(&mut self, rank: i32, file: i32)
        ensures
            !on_board(rank as int, file as int) ==> {
                &&& final(self)@ == old(self)@
                &&& final(self).selection() == old(self).selection()
                &&& final(self).highlights() == old(self).highlights()
            },
            on_board(rank as int, file as int) ==> match old(self).selection() {
                Some(s) => {
                    &&& final(self).selection().is_none()
                    &&& final(self).highlights() == Seq::<Square>::empty()
                    &&& final(self)@ == if s < old(self)@.men.len() && old(
                        self,
                    ).highlights().contains((rank, file)) {
                        move_man(old(self)@, s as int, (rank, file))
                    } else {
                        old(self)@
                    }
                },
                None => {
                    let k = first_index(
                        old(self)@.men.len(),
                        own_at(old(self)@.men, old(self)@.turn, rank as int, file as int),
                    );
                    &&& final(self)@ == old(self)@
                    &&& if k < old(self)@.men.len() {
                        &&& final(self).selection() == Some(k as usize)
                        &&& final(self).highlights() == legal_moves(old(self)@, k)
                    } else {
                        &&& final(self).selection().is_none()
                        &&& final(self).highlights() == old(self).highlights()
                    }
                },
            },
    {
        if !is_on_board(rank, file) {
            return ;
        }
        match self.selected_piece() {
            Some(s) => {
                if s < self.piece_count() && contains_square(
                    self.possible_moves(),
                    (rank, file),
                ) {
                    self.move_man(s, (rank, file));
                } else {
                    self.deselect();
                }
            },
            None => {
                let k = self.find_own_at(self.get_current_turn(), rank, file);
                if k < self.piece_count() {
                    let moves = self.get_legal_moves(k);
                    self.select(k, moves);
                }
            },
        }
    }
}

} // verus!
