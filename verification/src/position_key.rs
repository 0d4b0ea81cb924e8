//! A key that tells positions apart by where the men stand.

use vstd::prelude::*;
use crate::chessboard::Board;
use crate::legality::{first_index, lemma_first_index, man_at};
use crate::pieces::piece::{Color, Kind, Man, Move, Piece};
use crate::play::apply_move;
use crate::rules::{on_board, one_man_per_square, stands_on, Position};

verus! {

/// The code of a kind, from 1 for the pawn to 6 for the king.
pub open spec fn kind_code(kind: Kind) -> u8 {
    match kind {
        Kind::Pawn => 1,
        Kind::Knight => 2,
        Kind::Bishop => 3,
        Kind::Rook => 4,
        Kind::Queen => 5,
        Kind::King => 6,
    }
}

/// The code of a man: that of its kind, and six more for Black.
pub open spec fn man_code(m: Man) -> u8 {
    match m.color {
        Color::White => kind_code(m.kind),
        Color::Black => (kind_code(m.kind) + 6) as u8,
    }
}

/// The code of the first man on (r, f), or 0 for an empty square.
pub open spec fn square_code(men: Seq<Man>, r: int, f: int) -> u8 {
    let k = first_index(men.len(), man_at(men, r, f));
    if k < men.len() {
        man_code(men[k])
    } else {
        0
    }
}

/// The key of a placement: the codes of the 64 squares, rank by rank from
/// rank 0 and in each rank from file 0. It does not depend on the order in
/// which the men are held, nor on men that are out of play.
pub open spec fn key_of(men: Seq<Man>) -> Seq<u8> {
    Seq::new(64, |k: int| square_code(men, k / 8, k % 8))
}

/// A move made after a copy was saved is the only thing that tells the
/// board from the copy, and taking the board back to the copy undoes it.
/// Let `saved` be the position of a copy of a board (as `clone` gives it),
/// `after` the position of the board once move `m` has been made on it (as
/// `make_move` and `after_move` give it), and `restored` the position of the
/// board once it has been taken back to the copy (as `restore_from` gives
/// it). Then the board after the move is where the same move takes the copy,
/// and the restored board has the key that the board had before the move.
pub proof fn lemma_round_trip_keeps_key(
    before: Position,
    saved: Position,
    after: Position,
    restored: Position,
    m: Move,
)
    requires
        saved == before,
        after == apply_move(before, m),
        restored == saved,
    ensures
        after == apply_move(saved, m),
        key_of(after.men) == key_of(apply_move(saved, m).men),
        key_of(saved.men) == key_of(before.men),
        key_of(restored.men) == key_of(before.men),
{
}

proof fn lemma_square_code_ignores_order(a: Seq<Man>, b: Seq<Man>, r: int, f: int)
    requires
        on_board(r, f),
        one_man_per_square(b),
        forall|m: Man| a.contains(m) ==> b.contains(m),
        forall|m: Man| b.contains(m) ==> a.contains(m),
    ensures
        square_code(a, r, f) == square_code(b, r, f),
{
    let ia = first_index(a.len(), man_at(a, r, f));
    let ib = first_index(b.len(), man_at(b, r, f));
    lemma_first_index(a.len(), man_at(a, r, f));
    lemma_first_index(b.len(), man_at(b, r, f));
    if ia < a.len() {
        let x = a[ia];
        assert(a.contains(x));
        assert(b.contains(x));
        let j = choose|j: int| 0 <= j < b.len() && b[j] == x;
        assert(man_at(b, r, f)(j));
        assert(ib < b.len());
        if ib != j {
            assert(stands_on(b[j], b[ib].rank as int, b[ib].file as int));
        }
    } else if ib < b.len() {
        let y = b[ib];
        assert(b.contains(y));
        assert(a.contains(y));
        let j = choose|j: int| 0 <= j < a.len() && a[j] == y;
        assert(man_at(a, r, f)(j));
    }
}

/// The key is canonical: two rows of the same men, in whatever order, give
/// the same key, as long as no two of the men share a square of the board.
pub proof fn lemma_key_ignores_order(a: Seq<Man>, b: Seq<Man>)
    requires
        one_man_per_square(b),
        forall|m: Man| a.contains(m) <==> b.contains(m),
    ensures
        key_of(a) == key_of(b),
{
    assert forall|k: int| 0 <= k < 64 implies key_of(a)[k] == key_of(b)[k] by {
        lemma_square_code_ignores_order(a, b, k / 8, k % 8);
    }
    assert(key_of(a) =~= key_of(b));
}

/// Equal keys mean equal placements: on every square of the board either
/// both rows of men have nobody, or the first man of the one there and the
/// first man of the other are of the same kind and colour.
pub proof fn lemma_equal_keys_same_placement(a: Seq<Man>, b: Seq<Man>, r: int, f: int)
    requires
        key_of(a) == key_of(b),
        on_board(r, f),
    ensures
        ({
            let i = first_index(a.len(), man_at(a, r, f));
            let j = first_index(b.len(), man_at(b, r, f));
            &&& i < a.len() <==> j < b.len()
            &&& i < a.len() ==> a[i].kind == b[j].kind && a[i].color == b[j].color
        }),
{
    let k = r * 8 + f;
    assert(k / 8 == r && k % 8 == f);
    assert(key_of(a)[k] == square_code(a, r, f));
    assert(key_of(b)[k] == square_code(b, r, f));
}

/// A key has one code for each of the 64 squares, and each code is that of
/// an empty square or of one of the twelve kinds of men.
pub proof fn lemma_key_shape(men: Seq<Man>)
    ensures
        key_of(men).len() == 64,
        forall|k: int| 0 <= k < 64 ==> #[trigger] key_of(men)[k] <= 12,
{
}

impl Board {
    /// The code of what stands on (rank, file).
    pub fn code_at(&self, rank: i32, file: i32) -> (code: u8)
        ensures
            code == square_code(self@.men, rank as int, file as int),
    {
        let k = self.find_at(rank, file);
        if k < self.piece_count() {
            let piece = self.get_piece(k);
            let base: u8 = match piece.get_kind() {
                Kind::Pawn => 1,
                Kind::Knight => 2,
                Kind::Bishop => 3,
                Kind::Rook => 4,
                Kind::Queen => 5,
                Kind::King => 6,
            };
            match piece.get_color() {
                Color::White => base,
                Color::Black => base + 6,
            }
        } else {
            0
        }
    }

    /// The key of the position, by which a repeated placement is known.
    pub fn position_key(&self) -> (key: Vec<u8>)
        ensures
            key@ == key_of(self@.men),
    {
        let mut key: Vec<u8> = Vec::new();
        let mut rank: i32 = 0;
        while rank < 8
            invariant
                0 <= rank <= 8,
                key@ == key_of(self@.men).take(rank * 8),
            decreases 8 - rank,
        {
            let mut file: i32 = 0;
            while file < 8
                invariant
                    0 <= rank < 8,
                    0 <= file <= 8,
                    key@ == key_of(self@.men).take(rank * 8 + file),
                decreases 8 - file,
            {
                key.push(self.code_at(rank, file));
                assert(key@ =~= key_of(self@.men).take(rank * 8 + file + 1));
                file += 1;
            }
            rank += 1;
        }
        assert(key_of(self@.men).take(64) =~= key_of(self@.men));
        key
    }
}

} // verus!
