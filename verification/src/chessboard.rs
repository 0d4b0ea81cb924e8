//! The board: the men, whose turn it is, and what has to be remembered of
//! the moves made so far.

use vstd::prelude::*;
use crate::pieces::chessman::Chessman;
use crate::pieces::piece::{Color, Kind, Man, Piece, Square};
use crate::legality::{relocate, with_men};
use crate::rules::{
    enemy_at, enemy_pawn_at, king_moved, occupied, rook_a_moved, rook_h_moved, stands_on,
    with_king_moved, with_rook_a_moved, with_rook_h_moved, Position,
};

verus! {

/// No board holds more men than it has squares.
pub const MAX_MEN: usize = 64;

/// A game of chess as it stands: the men in the order in which they were
/// put on the board, the side to move, the castling rights that are gone,
/// the file of a double step just made, a pawn that waits to be promoted,
/// and the man that a player has picked up with the squares offered to it.
pub struct Board {
    pieces: Vec<Chessman>,
    selected_piece: Option<usize>,
    possible_moves: Vec<Square>,
    current_turn: Color,
    last_double_pawn_file: Option<i32>,
    white_king_moved: bool,
    white_rook_a_moved: bool,
    white_rook_h_moved: bool,
    black_king_moved: bool,
    black_rook_a_moved: bool,
    black_rook_h_moved: bool,
    promotion_state: Option<usize>,
}

/// The plain records of a row of chessmen, in the same order.
pub open spec fn men_of(pieces: Seq<Chessman>) -> Seq<Man> {
    pieces.map_values(|c: Chessman| c@)
}

impl View for Board {
    type V = Position;

    closed spec fn view(&self) -> Position {
        Position {
            men: men_of(self.pieces@),
            turn: self.current_turn,
            en_passant: self.last_double_pawn_file,
            white_king_moved: self.white_king_moved,
            white_rook_a_moved: self.white_rook_a_moved,
            white_rook_h_moved: self.white_rook_h_moved,
            black_king_moved: self.black_king_moved,
            black_rook_a_moved: self.black_rook_a_moved,
            black_rook_h_moved: self.black_rook_h_moved,
            promotion: self.promotion_state,
        }
    }
}

/// The eight officers of `color` as they stand on `rank` at the start.
pub open spec fn back_row(color: Color, rank: i32) -> Seq<Man> {
    seq![
        Man { kind: Kind::Rook, color, rank, file: 0 },
        Man { kind: Kind::Knight, color, rank, file: 1 },
        Man { kind: Kind::Bishop, color, rank, file: 2 },
        Man { kind: Kind::Queen, color, rank, file: 3 },
        Man { kind: Kind::King, color, rank, file: 4 },
        Man { kind: Kind::Bishop, color, rank, file: 5 },
        Man { kind: Kind::Knight, color, rank, file: 6 },
        Man { kind: Kind::Rook, color, rank, file: 7 },
    ]
}

/// Eight pawns of `color` on `rank`, from the a-file to the h-file.
pub open spec fn pawn_row(color: Color, rank: i32) -> Seq<Man> {
    Seq::new(8, |f: int| Man { kind: Kind::Pawn, color, rank, file: f as i32 })
}

/// A position without men, flags or memory, with `turn` to move.
pub open spec fn bare_position(turn: Color) -> Position {
    Position {
        men: Seq::empty(),
        turn,
        en_passant: None,
        white_king_moved: false,
        white_rook_a_moved: false,
        white_rook_h_moved: false,
        black_king_moved: false,
        black_rook_a_moved: false,
        black_rook_h_moved: false,
        promotion: None,
    }
}

/// The position from which every game starts.
pub open spec fn start_position() -> Position {
    with_men(
        bare_position(Color::White),
        back_row(Color::White, 0) + pawn_row(Color::White, 1) + back_row(Color::Black, 7)
            + pawn_row(Color::Black, 6),
    )
}

fn push_back_row(pieces: &mut Vec<Chessman>, color: Color, rank: i32)
    ensures
        men_of(final(pieces)@) == men_of(old(pieces)@) + back_row(color, rank),
{
    pieces.push(Chessman::of_kind(Kind::Rook, color, rank, 0));
    pieces.push(Chessman::of_kind(Kind::Knight, color, rank, 1));
    pieces.push(Chessman::of_kind(Kind::Bishop, color, rank, 2));
    pieces.push(Chessman::of_kind(Kind::Queen, color, rank, 3));
    pieces.push(Chessman::of_kind(Kind::King, color, rank, 4));
    pieces.push(Chessman::of_kind(Kind::Bishop, color, rank, 5));
    pieces.push(Chessman::of_kind(Kind::Knight, color, rank, 6));
    pieces.push(Chessman::of_kind(Kind::Rook, color, rank, 7));
    assert(men_of(pieces@) =~= men_of(old(pieces)@) + back_row(color, rank));
}

fn push_pawn_row(pieces: &mut Vec<Chessman>, color: Color, rank: i32)
    ensures
        men_of(final(pieces)@) == men_of(old(pieces)@) + pawn_row(color, rank),
{
    let mut file: i32 = 0;
    while file < 8
        invariant
            0 <= file <= 8,
            men_of(pieces@) == men_of(old(pieces)@) + pawn_row(color, rank).take(file as int),
        decreases 8 - file,
    {
        let ghost before = pieces@;
        pieces.push(Chessman::of_kind(Kind::Pawn, color, rank, file));
        assert(men_of(pieces@) =~= men_of(before).push(pawn_row(color, rank)[file as int]));
        assert(men_of(pieces@) =~= men_of(old(pieces)@) + pawn_row(color, rank).take(file + 1));
        file += 1;
    }
    assert(pawn_row(color, rank).take(8) =~= pawn_row(color, rank));
}

impl Clone for Board {
    fn clone(&self) -> (copy: Self)
        ensures
            copy@ == self@,
            copy.selection() == self.selection(),
            copy.highlights() == self.highlights(),
    {
        proof {
            use_type_invariant(self);
        }
        let mut pieces: Vec<Chessman> = Vec::new();
        let mut i: usize = 0;
        while i < self.pieces.len()
            invariant
                i <= self.pieces.len(),
                pieces@ == self.pieces@.take(i as int),
            decreases self.pieces.len() - i,
        {
            pieces.push(self.pieces[i]);
            assert(pieces@ =~= self.pieces@.take(i + 1));
            i += 1;
        }
        assert(self.pieces@.take(i as int) =~= self.pieces@);
        let mut possible_moves: Vec<Square> = Vec::new();
        let mut k: usize = 0;
        while k < self.possible_moves.len()
            invariant
                k <= self.possible_moves.len(),
                possible_moves@ == self.possible_moves@.take(k as int),
            decreases self.possible_moves.len() - k,
        {
            possible_moves.push(self.possible_moves[k]);
            assert(possible_moves@ =~= self.possible_moves@.take(k + 1));
            k += 1;
        }
        assert(self.possible_moves@.take(k as int) =~= self.possible_moves@);
        Board {
            pieces,
            selected_piece: self.selected_piece,
            possible_moves,
            current_turn: self.current_turn,
            last_double_pawn_file: self.last_double_pawn_file,
            white_king_moved: self.white_king_moved,
            white_rook_a_moved: self.white_rook_a_moved,
            white_rook_h_moved: self.white_rook_h_moved,
            black_king_moved: self.black_king_moved,
            black_rook_a_moved: self.black_rook_a_moved,
            black_rook_h_moved: self.black_rook_h_moved,
            promotion_state: self.promotion_state,
        }
    }
}

impl Board {
    /// What holds of every board: it has no more men than it has squares.
    #[verifier::type_invariant]
    pub open spec fn wf(&self) -> bool {
        self@.men.len() <= MAX_MEN
    }

    /// Takes the men off the board, to put them back changed.
    fn take_pieces(&mut self) -> (pieces: Vec<Chessman>)
        ensures
            pieces@ == old(self).pieces@,
            final(self).pieces@.len() == 0,
            final(self).selected_piece == old(self).selected_piece,
            final(self).possible_moves == old(self).possible_moves,
            final(self).current_turn == old(self).current_turn,
            final(self).last_double_pawn_file == old(self).last_double_pawn_file,
            final(self).white_king_moved == old(self).white_king_moved,
            final(self).white_rook_a_moved == old(self).white_rook_a_moved,
            final(self).white_rook_h_moved == old(self).white_rook_h_moved,
            final(self).black_king_moved == old(self).black_king_moved,
            final(self).black_rook_a_moved == old(self).black_rook_a_moved,
            final(self).black_rook_h_moved == old(self).black_rook_h_moved,
            final(self).promotion_state == old(self).promotion_state,
    {
        let mut pieces: Vec<Chessman> = Vec::new();
        core::mem::swap(&mut self.pieces, &mut pieces);
        pieces
    }

    /// The board at the start of a game: White to move, nothing picked up.
    pub fn new() -> (board: Self)
        ensures
            board@ == start_position(),
            board.selection().is_none(),
            board.highlights() == Seq::<Square>::empty(),
    {
        let mut pieces: Vec<Chessman> = Vec::new();
        assert(men_of(pieces@) =~= Seq::<Man>::empty());
        push_back_row(&mut pieces, Color::White, 0);
        push_pawn_row(&mut pieces, Color::White, 1);
        push_back_row(&mut pieces, Color::Black, 7);
        push_pawn_row(&mut pieces, Color::Black, 6);
        assert(men_of(pieces@) =~= start_position().men);
        Board {
            pieces,
            selected_piece: None,
            possible_moves: Vec::new(),
            current_turn: Color::White,
            last_double_pawn_file: None,
            white_king_moved: false,
            white_rook_a_moved: false,
            white_rook_h_moved: false,
            black_king_moved: false,
            black_rook_a_moved: false,
            black_rook_h_moved: false,
            promotion_state: None,
        }
    }

    /// A board without men, with `turn` to move.
    pub fn empty(turn: Color) -> (board: Self)
        ensures
            board@ == bare_position(turn),
            board.selection().is_none(),
            board.highlights() == Seq::<Square>::empty(),
    {
        let pieces: Vec<Chessman> = Vec::new();
        assert(men_of(pieces@) =~= Seq::<Man>::empty());
        Board {
            pieces,
            selected_piece: None,
            possible_moves: Vec::new(),
            current_turn: turn,
            last_double_pawn_file: None,
            white_king_moved: false,
            white_rook_a_moved: false,
            white_rook_h_moved: false,
            black_king_moved: false,
            black_rook_a_moved: false,
            black_rook_h_moved: false,
            promotion_state: None,
        }
    }

    /// Puts one more man on the board, as the last of its men, unless the
    /// board is full.
    pub fn place(&mut self, piece: Chessman) -> (placed: bool)
        ensures
            final(self).selection() == old(self).selection(),
            final(self).highlights() == old(self).highlights(),
            placed == (old(self)@.men.len() < MAX_MEN),
            placed ==> final(self)@ == with_men(old(self)@, old(self)@.men.push(piece@)),
            !placed ==> final(self)@ == old(self)@,
    {
        proof {
            use_type_invariant(&*self);
        }
        if self.pieces.len() >= MAX_MEN {
            return false;
        }
        let mut pieces = self.take_pieces();
        pieces.push(piece);
        self.pieces = pieces;
        assert(men_of(self.pieces@) =~= men_of(old(self).pieces@).push(piece@));
        true
    }

    /// How many men the board holds.
    pub fn piece_count(&self) -> (n: usize)
        ensures
            n == self@.men.len(),
            n <= MAX_MEN,
    {
        proof {
            use_type_invariant(self);
        }
        self.pieces.len()
    }

    /// The man at `index`.
    pub fn get_piece(&self, index: usize) -> (piece: Chessman)
        requires
            index < self@.men.len(),
        ensures
            piece@ == self@.men[index as int],
    {
        self.pieces[index]
    }

    /// The index of the man that is picked up, if one is.
    pub fn selected_piece(&self) -> (index: Option<usize>)
        ensures
            index == self.selection(),
    {
        self.selected_piece
    }

    /// The squares offered to the man that is picked up.
    pub fn possible_moves(&self) -> (moves: &Vec<Square>)
        ensures
            moves@ == self.highlights(),
    {
        &self.possible_moves
    }

    /// Puts down whatever is picked up.
    pub fn deselect(&mut self)
        ensures
            final(self)@ == old(self)@,
            final(self).selection().is_none(),
            final(self).highlights() == Seq::<Square>::empty(),
    {
        proof {
            use_type_invariant(&*self);
        }
        self.selected_piece = None;
        self.possible_moves = Vec::new();
    }

    /// Picks up the man at `index` and offers it `moves`.
    pub fn select(&mut self, index: usize, moves: Vec<Square>)
        ensures
            final(self)@ == old(self)@,
            final(self).selection() == Some(index),
            final(self).highlights() == moves@,
    {
        proof {
            use_type_invariant(&*self);
        }
        self.selected_piece = Some(index);
        self.possible_moves = moves;
    }

    /// Puts the man at `index` on (rank, file).
    pub fn move_piece_to(&mut self, index: usize, rank: i32, file: i32)
        requires
            index < old(self)@.men.len(),
        ensures
            final(self)@ == with_men(
                old(self)@,
                relocate(old(self)@.men, index as int, rank, file),
            ),
            final(self).selection() == old(self).selection(),
            final(self).highlights() == old(self).highlights(),
    {
        proof {
            use_type_invariant(&*self);
        }
        let mut pieces = self.take_pieces();
        let mut piece = pieces[index];
        piece.set_rank(rank);
        piece.set_file(file);
        pieces.set(index, piece);
        self.pieces = pieces;
        assert(men_of(self.pieces@) =~= relocate(old(self)@.men, index as int, rank, file));
    }

    /// Takes the man at `index` off the board; the men behind it move up by
    /// one. Whatever was picked up is put down.
    pub fn remove_piece(&mut self, index: usize) -> (piece: Chessman)
        requires
            index < old(self)@.men.len(),
        ensures
            piece@ == old(self)@.men[index as int],
            final(self)@ == with_men(old(self)@, old(self)@.men.remove(index as int)),
            final(self).selection().is_none(),
            final(self).highlights() == Seq::<Square>::empty(),
    {
        proof {
            use_type_invariant(&*self);
        }
        self.selected_piece = None;
        self.possible_moves = Vec::new();
        let mut pieces = self.take_pieces();
        let piece = pieces.remove(index);
        self.pieces = pieces;
        assert(men_of(self.pieces@) =~= old(self)@.men.remove(index as int));
        piece
    }

    /// Says whose turn it is.
    pub fn set_turn(&mut self, turn: Color)
        ensures
            final(self)@ == (Position { turn, ..old(self)@ }),
            final(self).selection() == old(self).selection(),
            final(self).highlights() == old(self).highlights(),
    {
        proof {
            use_type_invariant(&*self);
        }
        self.current_turn = turn;
    }

    /// Records the file of a pawn's double step, or that the last move was
    /// none.
    pub fn set_last_double_pawn_file(&mut self, file: Option<i32>)
        ensures
            final(self)@ == (Position { en_passant: file, ..old(self)@ }),
            final(self).selection() == old(self).selection(),
            final(self).highlights() == old(self).highlights(),
    {
        proof {
            use_type_invariant(&*self);
        }
        self.last_double_pawn_file = file;
    }

    /// Records which pawn waits to be promoted, or that none does.
    pub fn set_promotion_state(&mut self, index: Option<usize>)
        ensures
            final(self)@ == (Position { promotion: index, ..old(self)@ }),
            final(self).selection() == old(self).selection(),
            final(self).highlights() == old(self).highlights(),
    {
        proof {
            use_type_invariant(&*self);
        }
        self.promotion_state = index;
    }

    /// Records that the king of `color` has moved.
    pub fn mark_king_moved(&mut self, color: Color)
        ensures
            final(self)@ == with_king_moved(old(self)@, color),
            final(self).selection() == old(self).selection(),
            final(self).highlights() == old(self).highlights(),
    {
        proof {
            use_type_invariant(&*self);
        }
        match color {
            Color::White => {
                self.white_king_moved = true;
            },
            Color::Black => {
                self.black_king_moved = true;
            },
        }
    }

    /// Records that the a-file rook of `color` has moved.
    pub fn mark_rook_a_moved(&mut self, color: Color)
        ensures
            final(self)@ == with_rook_a_moved(old(self)@, color),
            final(self).selection() == old(self).selection(),
            final(self).highlights() == old(self).highlights(),
    {
        proof {
            use_type_invariant(&*self);
        }
        match color {
            Color::White => {
                self.white_rook_a_moved = true;
            },
            Color::Black => {
                self.black_rook_a_moved = true;
            },
        }
    }

    /// Records that the h-file rook of `color` has moved.
    pub fn mark_rook_h_moved(&mut self, color: Color)
        ensures
            final(self)@ == with_rook_h_moved(old(self)@, color),
            final(self).selection() == old(self).selection(),
            final(self).highlights() == old(self).highlights(),
    {
        proof {
            use_type_invariant(&*self);
        }
        match color {
            Color::White => {
                self.white_rook_h_moved = true;
            },
            Color::Black => {
                self.black_rook_h_moved = true;
            },
        }
    }

    /// Takes the board back to a copy that was saved earlier.
    pub fn restore_from(&mut self, saved: &Board)
        ensures
            final(self)@ == saved@,
            final(self).selection() == saved.selection(),
            final(self).highlights() == saved.highlights(),
    {
        let copy = saved.clone();
        proof {
            use_type_invariant(&copy);
        }
        *self = copy;
    }

    /// A copy of the board on which the man at `index` stands on
    /// (rank, file) and nothing is picked up.
    pub fn relocated(&self, index: usize, rank: i32, file: i32) -> (board: Self)
        requires
            index < self@.men.len(),
        ensures
            board@ == with_men(self@, relocate(self@.men, index as int, rank, file)),
            board.selection().is_none(),
            board.highlights() == Seq::<Square>::empty(),
    {
        let mut board = self.clone();
        proof {
            use_type_invariant(&board);
        }
        board.deselect();
        board.move_piece_to(index, rank, file);
        assert(men_of(board.pieces@) =~= relocate(self@.men, index as int, rank, file));
        board
    }

    /// The index of the man that is picked up, if one is.
    pub closed spec fn selection(&self) -> Option<usize> {
        self.selected_piece
    }

    /// The squares offered to the man that is picked up.
    pub closed spec fn highlights(&self) -> Seq<Square> {
        self.possible_moves@
    }

    /// The side to move.
    pub fn get_current_turn(&self) -> (turn: Color)
        ensures
            turn == self@.turn,
    {
        self.current_turn
    }

    /// The file of the pawn that has just made a double step, if the last
    /// move was one.
    pub fn last_double_pawn_file(&self) -> (file: Option<i32>)
        ensures
            file == self@.en_passant,
    {
        self.last_double_pawn_file
    }

    /// The index of the pawn that waits to be promoted, if one does.
    pub fn promotion_state(&self) -> (index: Option<usize>)
        ensures
            index == self@.promotion,
    {
        self.promotion_state
    }

    /// Whether the white king has moved.
    pub fn white_king_moved(&self) -> (b: bool)
        ensures
            b == self@.white_king_moved,
    {
        self.white_king_moved
    }

    /// Whether the white rook of the a-file has moved.
    pub fn white_rook_a_moved(&self) -> (b: bool)
        ensures
            b == self@.white_rook_a_moved,
    {
        self.white_rook_a_moved
    }

    /// Whether the white rook of the h-file has moved.
    pub fn white_rook_h_moved(&self) -> (b: bool)
        ensures
            b == self@.white_rook_h_moved,
    {
        self.white_rook_h_moved
    }

    /// Whether the black king has moved.
    pub fn black_king_moved(&self) -> (b: bool)
        ensures
            b == self@.black_king_moved,
    {
        self.black_king_moved
    }

    /// Whether the black rook of the a-file has moved.
    pub fn black_rook_a_moved(&self) -> (b: bool)
        ensures
            b == self@.black_rook_a_moved,
    {
        self.black_rook_a_moved
    }

    /// Whether the black rook of the h-file has moved.
    pub fn black_rook_h_moved(&self) -> (b: bool)
        ensures
            b == self@.black_rook_h_moved,
    {
        self.black_rook_h_moved
    }

    /// Whether the king of `color` has moved.
    pub fn king_has_moved(&self, color: Color) -> (b: bool)
        ensures
            b == king_moved(self@, color),
    {
        match color {
            Color::White => self.white_king_moved,
            Color::Black => self.black_king_moved,
        }
    }

    /// Whether the a-file rook of `color` has moved.
    pub fn rook_a_has_moved(&self, color: Color) -> (b: bool)
        ensures
            b == rook_a_moved(self@, color),
    {
        match color {
            Color::White => self.white_rook_a_moved,
            Color::Black => self.black_rook_a_moved,
        }
    }

    /// Whether the h-file rook of `color` has moved.
    pub fn rook_h_has_moved(&self, color: Color) -> (b: bool)
        ensures
            b == rook_h_moved(self@, color),
    {
        match color {
            Color::White => self.white_rook_h_moved,
            Color::Black => self.black_rook_h_moved,
        }
    }

    /// Whether any man stands on (rank, file).
    pub fn is_occupied(&self, rank: i32, file: i32) -> (b: bool)
        ensures
            b == occupied(self@.men, rank as int, file as int),
    {
        let mut i: usize = 0;
        while i < self.pieces.len()
            invariant
                i <= self.pieces.len(),
                forall|j: int|
                    0 <= j < i ==> !stands_on(#[trigger] self@.men[j], rank as int, file as int),
            decreases self.pieces.len() - i,
        {
            let p = &self.pieces[i];
            if p.get_rank() == rank && p.get_file() == file {
                assert(stands_on(self@.men[i as int], rank as int, file as int));
                return true;
            }
            i += 1;
        }
        false
    }

    /// Whether a man that is not of `color` stands on (rank, file).
    pub fn has_enemy_at(&self, color: Color, rank: i32, file: i32) -> (b: bool)
        ensures
            b == enemy_at(self@.men, color, rank as int, file as int),
    {
        let mut i: usize = 0;
        while i < self.pieces.len()
            invariant
                i <= self.pieces.len(),
                forall|j: int|
                    0 <= j < i ==> !(stands_on(#[trigger] self@.men[j], rank as int, file as int)
                        && self@.men[j].color != color),
            decreases self.pieces.len() - i,
        {
            let p = &self.pieces[i];
            if p.get_rank() == rank && p.get_file() == file && p.get_color() != color {
                assert(stands_on(self@.men[i as int], rank as int, file as int));
                return true;
            }
            i += 1;
        }
        false
    }

    /// Whether a pawn that is not of `color` stands on (rank, file).
    pub fn has_enemy_pawn_at(&self, color: Color, rank: i32, file: i32) -> (b: bool)
        ensures
            b == enemy_pawn_at(self@.men, color, rank as int, file as int),
    {
        let mut i: usize = 0;
        while i < self.pieces.len()
            invariant
                i <= self.pieces.len(),
                forall|j: int|
                    0 <= j < i ==> !(stands_on(#[trigger] self@.men[j], rank as int, file as int)
                        && self@.men[j].color != color && self@.men[j].kind == Kind::Pawn),
            decreases self.pieces.len() - i,
        {
            let p = &self.pieces[i];
            if p.get_rank() == rank && p.get_file() == file && p.get_color() != color
                && p.get_kind() == Kind::Pawn {
                assert(stands_on(self@.men[i as int], rank as int, file as int));
                return true;
            }
            i += 1;
        }
        false
    }
}

} // verus!
