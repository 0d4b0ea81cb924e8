//! The rules of the game, as mathematics.

use vstd::prelude::*;
use crate::pieces::piece::{Color, Kind, Man, Square};

verus! {

/// A whole game state, as the rules see it.
pub struct Position {
    pub men: Seq<Man>,
    pub turn: Color,
    pub en_passant: Option<i32>,
    pub white_king_moved: bool,
    pub white_rook_a_moved: bool,
    pub white_rook_h_moved: bool,
    pub black_king_moved: bool,
    pub black_rook_a_moved: bool,
    pub black_rook_h_moved: bool,
    pub promotion: Option<usize>,
}

/// (r, f) is a square of the board.
pub open spec fn on_board(r: int, f: int) -> bool {
    0 <= r < 8 && 0 <= f < 8
}

/// The man stands on (r, f).
pub open spec fn stands_on(m: Man, r: int, f: int) -> bool {
    m.rank == r && m.file == f
}

/// Some man stands on (r, f).
pub open spec fn occupied(men: Seq<Man>, r: int, f: int) -> bool {
    exists|i: int| 0 <= i < men.len() && stands_on(#[trigger] men[i], r, f)
}

/// Some man that is not of `color` stands on (r, f).
pub open spec fn enemy_at(men: Seq<Man>, color: Color, r: int, f: int) -> bool {
    exists|i: int| 0 <= i < men.len() && stands_on(#[trigger] men[i], r, f) && men[i].color != color
}

/// A man of `color` may end a step or a jump on (r, f): the square is on the
/// board and is empty or holds an enemy.
pub open spec fn can_land(men: Seq<Man>, color: Color, r: int, f: int) -> bool {
    on_board(r, f) && (!occupied(men, r, f) || enemy_at(men, color, r, f))
}

/// The square (r, f) in machine integers.
pub open spec fn sq(r: int, f: int) -> Square {
    (r as i32, f as i32)
}

/// The destination of one fixed-offset step, if the man may land there.
pub open spec fn hop(men: Seq<Man>, me: Man, dr: int, df: int) -> Seq<Square> {
    if can_land(men, me.color, me.rank + dr, me.file + df) {
        seq![sq(me.rank + dr, me.file + df)]
    } else {
        Seq::empty()
    }
}

/// The squares reached by sliding from (r, f) onward in direction (dr, df),
/// (r, f) itself first, for at most `left` squares: the run ends before the
/// edge of the board or a friendly man, and on an enemy.
pub open spec fn ray(
    men: Seq<Man>,
    color: Color,
    r: int,
    f: int,
    dr: int,
    df: int,
    left: nat,
) -> Seq<Square>
    decreases left,
{
    if left == 0 || !on_board(r, f) {
        Seq::empty()
    } else if occupied(men, r, f) {
        if enemy_at(men, color, r, f) {
            seq![sq(r, f)]
        } else {
            Seq::empty()
        }
    } else {
        seq![sq(r, f)] + ray(men, color, r + dr, f + df, dr, df, (left - 1) as nat)
    }
}

/// A whole slide of a man in one direction. Seven squares is as far as any
/// line on the board goes.
pub open spec fn slide(men: Seq<Man>, me: Man, dr: int, df: int) -> Seq<Square> {
    ray(men, me.color, me.rank + dr, me.file + df, dr, df, 7)
}

/// The direction in which a pawn of `color` walks.
pub open spec fn forward(color: Color) -> int {
    match color {
        Color::White => 1,
        Color::Black => -1,
    }
}

/// The rank on which the pawns of `color` start.
pub open spec fn home_rank(color: Color) -> int {
    match color {
        Color::White => 1,
        Color::Black => 6,
    }
}

/// The rank on which a pawn of `color` is promoted.
pub open spec fn far_rank(color: Color) -> int {
    match color {
        Color::White => 7,
        Color::Black => 0,
    }
}

/// The rank from which a pawn of `color` captures in passing.
pub open spec fn en_passant_rank(color: Color) -> int {
    match color {
        Color::White => 4,
        Color::Black => 3,
    }
}

/// The rank on which the king and rooks of `color` start.
pub open spec fn back_rank(color: Color) -> int {
    match color {
        Color::White => 0,
        Color::Black => 7,
    }
}

/// One square forward if it is empty, and from the home rank a second one
/// if that is empty too.
pub open spec fn pawn_advances(men: Seq<Man>, me: Man) -> Seq<Square> {
    let r1 = me.rank + forward(me.color);
    let r2 = r1 + forward(me.color);
    if on_board(r1, me.file as int) && !occupied(men, r1, me.file as int) {
        if me.rank == home_rank(me.color) && on_board(r2, me.file as int) && !occupied(
            men,
            r2,
            me.file as int,
        ) {
            seq![sq(r1, me.file as int), sq(r2, me.file as int)]
        } else {
            seq![sq(r1, me.file as int)]
        }
    } else {
        Seq::empty()
    }
}

/// The diagonal capture towards file offset `df`, if an enemy stands there.
pub open spec fn pawn_capture(men: Seq<Man>, me: Man, df: int) -> Seq<Square> {
    let r = me.rank + forward(me.color);
    let f = me.file + df;
    if on_board(r, f) && enemy_at(men, me.color, r, f) {
        seq![sq(r, f)]
    } else {
        Seq::empty()
    }
}

/// Some pawn that is not of `color` stands on (r, f).
pub open spec fn enemy_pawn_at(men: Seq<Man>, color: Color, r: int, f: int) -> bool {
    exists|i: int|
        0 <= i < men.len() && stands_on(#[trigger] men[i], r, f) && men[i].color != color
            && men[i].kind == Kind::Pawn
}

/// The capture in passing: the pawn stands on its en-passant rank beside the
/// file of the last double step, an enemy pawn stands there beside it, and
/// the square behind that pawn is empty.
pub open spec fn pawn_en_passant(pos: Position, me: Man) -> Seq<Square> {
    match pos.en_passant {
        Some(ef) => {
            let r = me.rank + forward(me.color);
            if me.rank == en_passant_rank(me.color) && (ef == me.file - 1 || ef == me.file + 1)
                && on_board(r, ef as int) && enemy_pawn_at(
                pos.men,
                me.color,
                me.rank as int,
                ef as int,
            )
                && !occupied(pos.men, r, ef as int) {
                seq![sq(r, ef as int)]
            } else {
                Seq::empty()
            }
        },
        None => Seq::empty(),
    }
}

/// A pawn's moves: its advances, its capture towards the a-file, its
/// capture towards the h-file, and its capture in passing.
pub open spec fn pawn_moves(pos: Position, me: Man) -> Seq<Square> {
    pawn_advances(pos.men, me) + pawn_capture(pos.men, me, -1) + pawn_capture(pos.men, me, 1)
        + pawn_en_passant(pos, me)
}

/// A knight's eight jumps, as far as it may land.
pub open spec fn knight_moves(men: Seq<Man>, me: Man) -> Seq<Square> {
    hop(men, me, 2, 1) + hop(men, me, 2, -1) + hop(men, me, -2, 1) + hop(men, me, -2, -1) + hop(
        men,
        me,
        1,
        2,
    ) + hop(men, me, 1, -2) + hop(men, me, -1, 2) + hop(men, me, -1, -2)
}

/// A rook's slides along its rank and its file.
pub open spec fn rook_moves(men: Seq<Man>, me: Man) -> Seq<Square> {
    slide(men, me, 0, 1) + slide(men, me, 0, -1) + slide(men, me, 1, 0) + slide(men, me, -1, 0)
}

/// A bishop's slides along its four diagonals.
pub open spec fn bishop_moves(men: Seq<Man>, me: Man) -> Seq<Square> {
    slide(men, me, 1, 1) + slide(men, me, 1, -1) + slide(men, me, -1, 1) + slide(men, me, -1, -1)
}

/// A queen's slides: a rook's, then a bishop's.
pub open spec fn queen_moves(men: Seq<Man>, me: Man) -> Seq<Square> {
    rook_moves(men, me) + bishop_moves(men, me)
}

/// A king's steps to its eight neighbours, as far as it may land.
pub open spec fn king_steps(men: Seq<Man>, me: Man) -> Seq<Square> {
    hop(men, me, 0, 1) + hop(men, me, 0, -1) + hop(men, me, 1, 0) + hop(men, me, -1, 0) + hop(
        men,
        me,
        1,
        1,
    ) + hop(men, me, 1, -1) + hop(men, me, -1, 1) + hop(men, me, -1, -1)
}

/// The king of `color` has moved.
pub open spec fn king_moved(pos: Position, color: Color) -> bool {
    match color {
        Color::White => pos.white_king_moved,
        Color::Black => pos.black_king_moved,
    }
}

/// The a-file rook of `color` has moved.
pub open spec fn rook_a_moved(pos: Position, color: Color) -> bool {
    match color {
        Color::White => pos.white_rook_a_moved,
        Color::Black => pos.black_rook_a_moved,
    }
}

/// The h-file rook of `color` has moved.
pub open spec fn rook_h_moved(pos: Position, color: Color) -> bool {
    match color {
        Color::White => pos.white_rook_h_moved,
        Color::Black => pos.black_rook_h_moved,
    }
}

/// The position in which the king of `color` is known to have moved.
pub open spec fn with_king_moved(pos: Position, color: Color) -> Position {
    match color {
        Color::White => Position { white_king_moved: true, ..pos },
        Color::Black => Position { black_king_moved: true, ..pos },
    }
}

/// The position in which the a-file rook of `color` is known to have moved.
pub open spec fn with_rook_a_moved(pos: Position, color: Color) -> Position {
    match color {
        Color::White => Position { white_rook_a_moved: true, ..pos },
        Color::Black => Position { black_rook_a_moved: true, ..pos },
    }
}

/// The position in which the h-file rook of `color` is known to have moved.
pub open spec fn with_rook_h_moved(pos: Position, color: Color) -> Position {
    match color {
        Color::White => Position { white_rook_h_moved: true, ..pos },
        Color::Black => Position { black_rook_h_moved: true, ..pos },
    }
}

/// The king's two-file step towards the h-file: king and h-rook have not
/// moved and the two squares between them are empty. Whether the king
/// passes through check is not asked here.
pub open spec fn castle_kingside(pos: Position, me: Man) -> Seq<Square> {
    let r = back_rank(me.color);
    if me.rank == r && me.file == 4 && !king_moved(pos, me.color) && !rook_h_moved(pos, me.color)
        && !occupied(pos.men, r, 5) && !occupied(pos.men, r, 6) {
        seq![sq(r, 6)]
    } else {
        Seq::empty()
    }
}

/// The king's two-file step towards the a-file: king and a-rook have not
/// moved and the three squares between them are empty.
pub open spec fn castle_queenside(pos: Position, me: Man) -> Seq<Square> {
    let r = back_rank(me.color);
    if me.rank == r && me.file == 4 && !king_moved(pos, me.color) && !rook_a_moved(pos, me.color)
        && !occupied(pos.men, r, 1) && !occupied(pos.men, r, 2) && !occupied(pos.men, r, 3) {
        seq![sq(r, 2)]
    } else {
        Seq::empty()
    }
}

/// A king's moves: its steps, then castling towards the h-file, then
/// castling towards the a-file.
pub open spec fn king_moves(pos: Position, me: Man) -> Seq<Square> {
    king_steps(pos.men, me) + castle_kingside(pos, me) + castle_queenside(pos, me)
}

/// The pseudo-legal moves of `me`: where its rule of movement lets it go,
/// whether or not its own king is then in check. A man that stands off the
/// board is out of play and has none.
pub open spec fn pseudo_moves(pos: Position, me: Man) -> Seq<Square> {
    if !on_board(me.rank as int, me.file as int) {
        Seq::empty()
    } else {
        match me.kind {
            Kind::Pawn => pawn_moves(pos, me),
            Kind::Knight => knight_moves(pos.men, me),
            Kind::Bishop => bishop_moves(pos.men, me),
            Kind::Rook => rook_moves(pos.men, me),
            Kind::Queen => queen_moves(pos.men, me),
            Kind::King => king_moves(pos, me),
        }
    }
}

/// Every one of `squares` is a square of the board.
pub open spec fn all_on_board(squares: Seq<Square>) -> bool {
    forall|k: int|
        0 <= k < squares.len() ==> on_board(#[trigger] squares[k].0 as int, squares[k].1 as int)
}

/// Two rows of squares of the board, one after the other, are one.
pub proof fn lemma_all_on_board_add(a: Seq<Square>, b: Seq<Square>)
    requires
        all_on_board(a),
        all_on_board(b),
    ensures
        all_on_board(a + b),
{
    assert forall|k: int| 0 <= k < (a + b).len() implies on_board(
        #[trigger] (a + b)[k].0 as int,
        (a + b)[k].1 as int,
    ) by {
        if k < a.len() {
            assert((a + b)[k] == a[k]);
        } else {
            assert((a + b)[k] == b[k - a.len()]);
        }
    }
}

/// A slide never leaves the board.
pub proof fn lemma_ray_on_board(
    men: Seq<Man>,
    color: Color,
    r: int,
    f: int,
    dr: int,
    df: int,
    left: nat,
)
    ensures
        all_on_board(ray(men, color, r, f, dr, df, left)),
    decreases left,
{
    if left > 0 && on_board(r, f) && !occupied(men, r, f) {
        lemma_ray_on_board(men, color, r + dr, f + df, dr, df, (left - 1) as nat);
        lemma_all_on_board_add(
            seq![sq(r, f)],
            ray(men, color, r + dr, f + df, dr, df, (left - 1) as nat),
        );
    }
}

proof fn lemma_rook_moves_on_board(men: Seq<Man>, me: Man)
    ensures
        all_on_board(rook_moves(men, me)),
{
    lemma_ray_on_board(men, me.color, me.rank + 0, me.file + 1, 0, 1, 7);
    lemma_ray_on_board(men, me.color, me.rank + 0, me.file - 1, 0, -1, 7);
    lemma_ray_on_board(men, me.color, me.rank + 1, me.file + 0, 1, 0, 7);
    lemma_ray_on_board(men, me.color, me.rank - 1, me.file + 0, -1, 0, 7);
    let a = slide(men, me, 0, 1);
    let b = slide(men, me, 0, -1);
    let c = slide(men, me, 1, 0);
    let d = slide(men, me, -1, 0);
    lemma_all_on_board_add(a, b);
    lemma_all_on_board_add(a + b, c);
    lemma_all_on_board_add(a + b + c, d);
}

proof fn lemma_bishop_moves_on_board(men: Seq<Man>, me: Man)
    ensures
        all_on_board(bishop_moves(men, me)),
{
    lemma_ray_on_board(men, me.color, me.rank + 1, me.file + 1, 1, 1, 7);
    lemma_ray_on_board(men, me.color, me.rank + 1, me.file - 1, 1, -1, 7);
    lemma_ray_on_board(men, me.color, me.rank - 1, me.file + 1, -1, 1, 7);
    lemma_ray_on_board(men, me.color, me.rank - 1, me.file - 1, -1, -1, 7);
    let a = slide(men, me, 1, 1);
    let b = slide(men, me, 1, -1);
    let c = slide(men, me, -1, 1);
    let d = slide(men, me, -1, -1);
    lemma_all_on_board_add(a, b);
    lemma_all_on_board_add(a + b, c);
    lemma_all_on_board_add(a + b + c, d);
}

proof fn lemma_hop_on_board(men: Seq<Man>, me: Man, dr: int, df: int)
    ensures
        all_on_board(hop(men, me, dr, df)),
{
}

proof fn lemma_knight_moves_on_board(men: Seq<Man>, me: Man)
    ensures
        all_on_board(knight_moves(men, me)),
{
    let a = hop(men, me, 2, 1);
    let b = hop(men, me, 2, -1);
    let c = hop(men, me, -2, 1);
    let d = hop(men, me, -2, -1);
    let e = hop(men, me, 1, 2);
    let f = hop(men, me, 1, -2);
    let g = hop(men, me, -1, 2);
    let h = hop(men, me, -1, -2);
    lemma_hop_on_board(men, me, 2, 1);
    lemma_hop_on_board(men, me, 2, -1);
    lemma_hop_on_board(men, me, -2, 1);
    lemma_hop_on_board(men, me, -2, -1);
    lemma_hop_on_board(men, me, 1, 2);
    lemma_hop_on_board(men, me, 1, -2);
    lemma_hop_on_board(men, me, -1, 2);
    lemma_hop_on_board(men, me, -1, -2);
    lemma_all_on_board_add(a, b);
    lemma_all_on_board_add(a + b, c);
    lemma_all_on_board_add(a + b + c, d);
    lemma_all_on_board_add(a + b + c + d, e);
    lemma_all_on_board_add(a + b + c + d + e, f);
    lemma_all_on_board_add(a + b + c + d + e + f, g);
    lemma_all_on_board_add(a + b + c + d + e + f + g, h);
}

proof fn lemma_king_moves_on_board(pos: Position, me: Man)
    ensures
        all_on_board(king_moves(pos, me)),
{
    let men = pos.men;
    let a = hop(men, me, 0, 1);
    let b = hop(men, me, 0, -1);
    let c = hop(men, me, 1, 0);
    let d = hop(men, me, -1, 0);
    let e = hop(men, me, 1, 1);
    let f = hop(men, me, 1, -1);
    let g = hop(men, me, -1, 1);
    let h = hop(men, me, -1, -1);
    lemma_hop_on_board(men, me, 0, 1);
    lemma_hop_on_board(men, me, 0, -1);
    lemma_hop_on_board(men, me, 1, 0);
    lemma_hop_on_board(men, me, -1, 0);
    lemma_hop_on_board(men, me, 1, 1);
    lemma_hop_on_board(men, me, 1, -1);
    lemma_hop_on_board(men, me, -1, 1);
    lemma_hop_on_board(men, me, -1, -1);
    lemma_all_on_board_add(a, b);
    lemma_all_on_board_add(a + b, c);
    lemma_all_on_board_add(a + b + c, d);
    lemma_all_on_board_add(a + b + c + d, e);
    lemma_all_on_board_add(a + b + c + d + e, f);
    lemma_all_on_board_add(a + b + c + d + e + f, g);
    lemma_all_on_board_add(a + b + c + d + e + f + g, h);
    assert(all_on_board(castle_kingside(pos, me)));
    assert(all_on_board(castle_queenside(pos, me)));
    lemma_all_on_board_add(king_steps(men, me), castle_kingside(pos, me));
    lemma_all_on_board_add(
        king_steps(men, me) + castle_kingside(pos, me),
        castle_queenside(pos, me),
    );
}

proof fn lemma_pawn_moves_on_board(pos: Position, me: Man)
    ensures
        all_on_board(pawn_moves(pos, me)),
{
    let a = pawn_advances(pos.men, me);
    let b = pawn_capture(pos.men, me, -1);
    let c = pawn_capture(pos.men, me, 1);
    let d = pawn_en_passant(pos, me);
    assert(all_on_board(a));
    assert(all_on_board(b));
    assert(all_on_board(c));
    assert(all_on_board(d));
    lemma_all_on_board_add(a, b);
    lemma_all_on_board_add(a + b, c);
    lemma_all_on_board_add(a + b + c, d);
}

/// No man has a pseudo-legal move to a square off the board.
pub proof fn lemma_pseudo_moves_on_board(pos: Position, me: Man)
    ensures
        all_on_board(pseudo_moves(pos, me)),
{
    if on_board(me.rank as int, me.file as int) {
        match me.kind {
            Kind::Pawn => {
                lemma_pawn_moves_on_board(pos, me);
            },
            Kind::Knight => {
                lemma_knight_moves_on_board(pos.men, me);
            },
            Kind::Bishop => {
                lemma_bishop_moves_on_board(pos.men, me);
            },
            Kind::Rook => {
                lemma_rook_moves_on_board(pos.men, me);
            },
            Kind::Queen => {
                lemma_rook_moves_on_board(pos.men, me);
                lemma_bishop_moves_on_board(pos.men, me);
                lemma_all_on_board_add(rook_moves(pos.men, me), bishop_moves(pos.men, me));
            },
            Kind::King => {
                lemma_king_moves_on_board(pos, me);
            },
        }
    }
}

/// No two men stand on the same square of the board.
pub open spec fn one_man_per_square(men: Seq<Man>) -> bool {
    forall|i: int, j: int|
        0 <= i < men.len() && 0 <= j < men.len() && i != j && on_board(
            men[i].rank as int,
            men[i].file as int,
        ) ==> !stands_on(#[trigger] men[j], (#[trigger] men[i]).rank as int, men[i].file as int)
}

/// Some man of `color` stands on (r, f).
pub open spec fn friend_at(men: Seq<Man>, color: Color, r: int, f: int) -> bool {
    exists|i: int| 0 <= i < men.len() && stands_on(#[trigger] men[i], r, f) && men[i].color == color
}

/// None of `squares` holds a man of `color`.
pub open spec fn none_on_friend(squares: Seq<Square>, men: Seq<Man>, color: Color) -> bool {
    forall|k: int|
        0 <= k < squares.len() ==> !friend_at(
            men,
            color,
            (#[trigger] squares[k]).0 as int,
            squares[k].1 as int,
        )
}

proof fn lemma_none_on_friend_add(a: Seq<Square>, b: Seq<Square>, men: Seq<Man>, color: Color)
    requires
        none_on_friend(a, men, color),
        none_on_friend(b, men, color),
    ensures
        none_on_friend(a + b, men, color),
{
    assert forall|k: int| 0 <= k < (a + b).len() implies !friend_at(
        men,
        color,
        (#[trigger] (a + b)[k]).0 as int,
        (a + b)[k].1 as int,
    ) by {
        if k < a.len() {
            assert((a + b)[k] == a[k]);
        } else {
            assert((a + b)[k] == b[k - a.len()]);
        }
    }
}

/// Where no two men share a square, a square with an enemy on it has no
/// friend on it, and an empty square has none anyway.
proof fn lemma_landing_spares_friends(men: Seq<Man>, color: Color, r: int, f: int)
    requires
        one_man_per_square(men),
        on_board(r, f),
        !occupied(men, r, f) || enemy_at(men, color, r, f),
    ensures
        !friend_at(men, color, r, f),
{
    if friend_at(men, color, r, f) {
        let j = choose|j: int|
            0 <= j < men.len() && stands_on(#[trigger] men[j], r, f) && men[j].color == color;
        assert(occupied(men, r, f));
        let i = choose|i: int|
            0 <= i < men.len() && stands_on(#[trigger] men[i], r, f) && men[i].color != color;
        assert(stands_on(men[j], men[i].rank as int, men[i].file as int));
    }
}

proof fn lemma_hop_spares_friends(men: Seq<Man>, me: Man, dr: int, df: int)
    requires
        one_man_per_square(men),
    ensures
        none_on_friend(hop(men, me, dr, df), men, me.color),
{
    if can_land(men, me.color, me.rank + dr, me.file + df) {
        lemma_landing_spares_friends(men, me.color, me.rank + dr, me.file + df);
    }
}

proof fn lemma_ray_spares_friends(
    men: Seq<Man>,
    color: Color,
    r: int,
    f: int,
    dr: int,
    df: int,
    left: nat,
)
    requires
        one_man_per_square(men),
    ensures
        none_on_friend(ray(men, color, r, f, dr, df, left), men, color),
    decreases left,
{
    if left > 0 && on_board(r, f) {
        if occupied(men, r, f) {
            if enemy_at(men, color, r, f) {
                lemma_landing_spares_friends(men, color, r, f);
            }
        } else {
            lemma_landing_spares_friends(men, color, r, f);
            lemma_ray_spares_friends(men, color, r + dr, f + df, dr, df, (left - 1) as nat);
            lemma_none_on_friend_add(
                seq![sq(r, f)],
                ray(men, color, r + dr, f + df, dr, df, (left - 1) as nat),
                men,
                color,
            );
        }
    }
}

proof fn lemma_rook_moves_spare_friends(men: Seq<Man>, me: Man)
    requires
        one_man_per_square(men),
    ensures
        none_on_friend(rook_moves(men, me), men, me.color),
{
    lemma_ray_spares_friends(men, me.color, me.rank + 0, me.file + 1, 0, 1, 7);
    lemma_ray_spares_friends(men, me.color, me.rank + 0, me.file - 1, 0, -1, 7);
    lemma_ray_spares_friends(men, me.color, me.rank + 1, me.file + 0, 1, 0, 7);
    lemma_ray_spares_friends(men, me.color, me.rank - 1, me.file + 0, -1, 0, 7);
    let a = slide(men, me, 0, 1);
    let b = slide(men, me, 0, -1);
    let c = slide(men, me, 1, 0);
    let d = slide(men, me, -1, 0);
    lemma_none_on_friend_add(a, b, men, me.color);
    lemma_none_on_friend_add(a + b, c, men, me.color);
    lemma_none_on_friend_add(a + b + c, d, men, me.color);
}

proof fn lemma_bishop_moves_spare_friends(men: Seq<Man>, me: Man)
    requires
        one_man_per_square(men),
    ensures
        none_on_friend(bishop_moves(men, me), men, me.color),
{
    lemma_ray_spares_friends(men, me.color, me.rank + 1, me.file + 1, 1, 1, 7);
    lemma_ray_spares_friends(men, me.color, me.rank + 1, me.file - 1, 1, -1, 7);
    lemma_ray_spares_friends(men, me.color, me.rank - 1, me.file + 1, -1, 1, 7);
    lemma_ray_spares_friends(men, me.color, me.rank - 1, me.file - 1, -1, -1, 7);
    let a = slide(men, me, 1, 1);
    let b = slide(men, me, 1, -1);
    let c = slide(men, me, -1, 1);
    let d = slide(men, me, -1, -1);
    lemma_none_on_friend_add(a, b, men, me.color);
    lemma_none_on_friend_add(a + b, c, men, me.color);
    lemma_none_on_friend_add(a + b + c, d, men, me.color);
}

proof fn lemma_knight_moves_spare_friends(men: Seq<Man>, me: Man)
    requires
        one_man_per_square(men),
    ensures
        none_on_friend(knight_moves(men, me), men, me.color),
{
    let a = hop(men, me, 2, 1);
    let b = hop(men, me, 2, -1);
    let c = hop(men, me, -2, 1);
    let d = hop(men, me, -2, -1);
    let e = hop(men, me, 1, 2);
    let f = hop(men, me, 1, -2);
    let g = hop(men, me, -1, 2);
    let h = hop(men, me, -1, -2);
    lemma_hop_spares_friends(men, me, 2, 1);
    lemma_hop_spares_friends(men, me, 2, -1);
    lemma_hop_spares_friends(men, me, -2, 1);
    lemma_hop_spares_friends(men, me, -2, -1);
    lemma_hop_spares_friends(men, me, 1, 2);
    lemma_hop_spares_friends(men, me, 1, -2);
    lemma_hop_spares_friends(men, me, -1, 2);
    lemma_hop_spares_friends(men, me, -1, -2);
    lemma_none_on_friend_add(a, b, men, me.color);
    lemma_none_on_friend_add(a + b, c, men, me.color);
    lemma_none_on_friend_add(a + b + c, d, men, me.color);
    lemma_none_on_friend_add(a + b + c + d, e, men, me.color);
    lemma_none_on_friend_add(a + b + c + d + e, f, men, me.color);
    lemma_none_on_friend_add(a + b + c + d + e + f, g, men, me.color);
    lemma_none_on_friend_add(a + b + c + d + e + f + g, h, men, me.color);
}

proof fn lemma_king_moves_spare_friends(pos: Position, me: Man)
    requires
        one_man_per_square(pos.men),
    ensures
        none_on_friend(king_moves(pos, me), pos.men, me.color),
{
    let men = pos.men;
    let a = hop(men, me, 0, 1);
    let b = hop(men, me, 0, -1);
    let c = hop(men, me, 1, 0);
    let d = hop(men, me, -1, 0);
    let e = hop(men, me, 1, 1);
    let f = hop(men, me, 1, -1);
    let g = hop(men, me, -1, 1);
    let h = hop(men, me, -1, -1);
    lemma_hop_spares_friends(men, me, 0, 1);
    lemma_hop_spares_friends(men, me, 0, -1);
    lemma_hop_spares_friends(men, me, 1, 0);
    lemma_hop_spares_friends(men, me, -1, 0);
    lemma_hop_spares_friends(men, me, 1, 1);
    lemma_hop_spares_friends(men, me, 1, -1);
    lemma_hop_spares_friends(men, me, -1, 1);
    lemma_hop_spares_friends(men, me, -1, -1);
    lemma_none_on_friend_add(a, b, men, me.color);
    lemma_none_on_friend_add(a + b, c, men, me.color);
    lemma_none_on_friend_add(a + b + c, d, men, me.color);
    lemma_none_on_friend_add(a + b + c + d, e, men, me.color);
    lemma_none_on_friend_add(a + b + c + d + e, f, men, me.color);
    lemma_none_on_friend_add(a + b + c + d + e + f, g, men, me.color);
    lemma_none_on_friend_add(a + b + c + d + e + f + g, h, men, me.color);
    let r = back_rank(me.color);
    if castle_kingside(pos, me).len() > 0 {
        lemma_landing_spares_friends(men, me.color, r, 6);
    }
    if castle_queenside(pos, me).len() > 0 {
        lemma_landing_spares_friends(men, me.color, r, 2);
    }
    lemma_none_on_friend_add(king_steps(men, me), castle_kingside(pos, me), men, me.color);
    lemma_none_on_friend_add(
        king_steps(men, me) + castle_kingside(pos, me),
        castle_queenside(pos, me),
        men,
        me.color,
    );
}

proof fn lemma_pawn_moves_spare_friends(pos: Position, me: Man)
    requires
        one_man_per_square(pos.men),
    ensures
        none_on_friend(pawn_moves(pos, me), pos.men, me.color),
{
    let men = pos.men;
    let a = pawn_advances(men, me);
    let b = pawn_capture(men, me, -1);
    let c = pawn_capture(men, me, 1);
    let d = pawn_en_passant(pos, me);
    let r1 = me.rank + forward(me.color);
    let r2 = r1 + forward(me.color);
    if a.len() > 0 {
        lemma_landing_spares_friends(men, me.color, r1, me.file as int);
        if a.len() > 1 {
            lemma_landing_spares_friends(men, me.color, r2, me.file as int);
        }
    }
    if b.len() > 0 {
        lemma_landing_spares_friends(men, me.color, r1, me.file - 1);
    }
    if c.len() > 0 {
        lemma_landing_spares_friends(men, me.color, r1, me.file + 1);
    }
    if d.len() > 0 {
        lemma_landing_spares_friends(men, me.color, r1, pos.en_passant->0 as int);
    }
    assert(none_on_friend(a, men, me.color));
    assert(none_on_friend(b, men, me.color));
    assert(none_on_friend(c, men, me.color));
    assert(none_on_friend(d, men, me.color));
    lemma_none_on_friend_add(a, b, men, me.color);
    lemma_none_on_friend_add(a + b, c, men, me.color);
    lemma_none_on_friend_add(a + b + c, d, men, me.color);
}

/// Where no two men share a square, no man has a pseudo-legal move onto a
/// man of its own colour.
pub proof fn lemma_pseudo_moves_spare_friends(pos: Position, me: Man)
    requires
        one_man_per_square(pos.men),
    ensures
        none_on_friend(pseudo_moves(pos, me), pos.men, me.color),
{
    if on_board(me.rank as int, me.file as int) {
        match me.kind {
            Kind::Pawn => {
                lemma_pawn_moves_spare_friends(pos, me);
            },
            Kind::Knight => {
                lemma_knight_moves_spare_friends(pos.men, me);
            },
            Kind::Bishop => {
                lemma_bishop_moves_spare_friends(pos.men, me);
            },
            Kind::Rook => {
                lemma_rook_moves_spare_friends(pos.men, me);
            },
            Kind::Queen => {
                lemma_rook_moves_spare_friends(pos.men, me);
                lemma_bishop_moves_spare_friends(pos.men, me);
                lemma_none_on_friend_add(
                    rook_moves(pos.men, me),
                    bishop_moves(pos.men, me),
                    pos.men,
                    me.color,
                );
            },
            Kind::King => {
                lemma_king_moves_spare_friends(pos, me);
            },
        }
    }
}

/// A king has at most ten pseudo-legal moves, and a knight at most eight, on
/// any board.
pub proof fn lemma_steps_are_few(pos: Position, me: Man)
    ensures
        king_moves(pos, me).len() <= 10,
        knight_moves(pos.men, me).len() <= 8,
{
}

} // verus!
