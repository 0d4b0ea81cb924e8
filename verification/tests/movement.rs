use chess_engine::chessboard::Board;
use chess_engine::pieces::bishop::Bishop;
use chess_engine::pieces::chessman::Chessman;
use chess_engine::pieces::king::King;
use chess_engine::pieces::knight::Knight;
use chess_engine::pieces::pawn::Pawn;
use chess_engine::pieces::piece::{Color, Kind, Piece};
use chess_engine::pieces::queen::Queen;
use chess_engine::pieces::rook::Rook;

fn put(board: &mut Board, kind: Kind, color: Color, rank: i32, file: i32) {
    assert!(board.place(Chessman::of_kind(kind, color, rank, file)));
}

fn kings_only(turn: Color) -> Board {
    let mut board = Board::empty(turn);
    put(&mut board, Kind::King, Color::White, 0, 4);
    put(&mut board, Kind::King, Color::Black, 7, 4);
    board
}

#[test]
fn each_kind_has_its_letter() {
    assert_eq!(Pawn::new(Color::White, 1, 0).get_name(), "P");
    assert_eq!(Knight::new(Color::White, 0, 1).get_name(), "N");
    assert_eq!(Bishop::new(Color::White, 0, 2).get_name(), "B");
    assert_eq!(Rook::new(Color::White, 0, 0).get_name(), "R");
    assert_eq!(Queen::new(Color::White, 0, 3).get_name(), "Q");
    assert_eq!(King::new(Color::White, 0, 4).get_name(), "K");
    assert_eq!(Rook::new(Color::Black, 7, 0).get_kind(), Kind::Rook);
}

#[test]
fn setters_change_one_attribute_only() {
    let mut queen = Queen::new(Color::Black, 7, 3);
    queen.set_rank(4);
    assert_eq!((queen.get_rank(), queen.get_file(), queen.get_color()), (4, 3, Color::Black));
    queen.set_file(6);
    assert_eq!((queen.get_rank(), queen.get_file(), queen.get_color()), (4, 6, Color::Black));
    queen.set_color(Color::White);
    assert_eq!((queen.get_rank(), queen.get_file(), queen.get_color()), (4, 6, Color::White));
    let mut any = Chessman::of_kind(Kind::Bishop, Color::White, 2, 2);
    any.set_rank(5);
    any.set_file(1);
    let m = any.to_man();
    assert_eq!((m.kind, m.color, m.rank, m.file), (Kind::Bishop, Color::White, 5, 1));
}

#[test]
fn color_has_an_opponent() {
    assert_eq!(Color::White.opponent(), Color::Black);
    assert_eq!(Color::Black.opponent(), Color::White);
}

#[test]
fn knight_at_the_start_has_two_jumps() {
    let board = Board::new();
    let knight = Knight::new(Color::White, 0, 1);
    assert_eq!(knight.get_possible_moves(&board), vec![(2, 2), (2, 0)]);
}

#[test]
fn knight_in_the_middle_has_eight_jumps_in_order() {
    let board = kings_only(Color::White);
    let knight = Knight::new(Color::White, 3, 3);
    assert_eq!(
        knight.get_possible_moves(&board),
        vec![(5, 4), (5, 2), (1, 4), (1, 2), (4, 5), (4, 1), (2, 5), (2, 1)]
    );
}

#[test]
fn knight_takes_an_enemy_but_not_a_friend() {
    let mut board = kings_only(Color::White);
    put(&mut board, Kind::Pawn, Color::White, 5, 4);
    put(&mut board, Kind::Pawn, Color::Black, 5, 2);
    let knight = Knight::new(Color::White, 3, 3);
    let moves = knight.get_possible_moves(&board);
    assert!(!moves.contains(&(5, 4)));
    assert!(moves.contains(&(5, 2)));
    assert_eq!(moves.len(), 7);
}

#[test]
fn pawn_steps_once_or_twice_from_home() {
    let board = Board::new();
    assert_eq!(Pawn::new(Color::White, 1, 4).get_possible_moves(&board), vec![(2, 4), (3, 4)]);
    assert_eq!(Pawn::new(Color::Black, 6, 2).get_possible_moves(&board), vec![(5, 2), (4, 2)]);
}

#[test]
fn pawn_away_from_home_steps_once() {
    let board = kings_only(Color::White);
    assert_eq!(Pawn::new(Color::White, 2, 4).get_possible_moves(&board), vec![(3, 4)]);
    assert_eq!(Pawn::new(Color::Black, 5, 4).get_possible_moves(&board), vec![(4, 4)]);
}

#[test]
fn pawn_is_blocked_by_any_man_ahead() {
    let mut board = kings_only(Color::White);
    put(&mut board, Kind::Knight, Color::Black, 2, 0);
    put(&mut board, Kind::Knight, Color::White, 3, 1);
    assert!(Pawn::new(Color::White, 1, 0).get_possible_moves(&board).is_empty());
    assert_eq!(Pawn::new(Color::White, 1, 1).get_possible_moves(&board), vec![(2, 1), (2, 0)]);
    assert_eq!(Pawn::new(Color::White, 1, 6).get_possible_moves(&board), vec![(2, 6), (3, 6)]);
}

#[test]
fn pawn_captures_diagonally_only_enemies() {
    let mut board = kings_only(Color::White);
    put(&mut board, Kind::Knight, Color::Black, 3, 2);
    put(&mut board, Kind::Knight, Color::White, 3, 4);
    put(&mut board, Kind::Rook, Color::Black, 3, 3);
    assert_eq!(Pawn::new(Color::White, 2, 3).get_possible_moves(&board), vec![(3, 2)]);
    put(&mut board, Kind::Bishop, Color::Black, 4, 7);
    put(&mut board, Kind::Bishop, Color::Black, 4, 5);
    assert_eq!(
        Pawn::new(Color::White, 3, 6).get_possible_moves(&board),
        vec![(4, 6), (4, 5), (4, 7)]
    );
}

#[test]
fn pawn_on_the_far_rank_has_no_move() {
    let board = kings_only(Color::White);
    assert!(Pawn::new(Color::White, 7, 0).get_possible_moves(&board).is_empty());
    assert!(Pawn::new(Color::Black, 0, 0).get_possible_moves(&board).is_empty());
}

#[test]
fn en_passant_needs_rank_file_and_pawn() {
    let mut board = kings_only(Color::White);
    put(&mut board, Kind::Pawn, Color::Black, 4, 3);
    board.set_last_double_pawn_file(Some(3));
    let beside = Pawn::new(Color::White, 4, 4);
    assert_eq!(beside.get_possible_moves(&board), vec![(5, 4), (5, 3)]);
    let other_side = Pawn::new(Color::White, 4, 2);
    assert_eq!(other_side.get_possible_moves(&board), vec![(5, 2), (5, 3)]);
    let too_far = Pawn::new(Color::White, 4, 5);
    assert_eq!(too_far.get_possible_moves(&board), vec![(5, 5)]);
    let wrong_rank = Pawn::new(Color::White, 3, 4);
    assert_eq!(wrong_rank.get_possible_moves(&board), vec![(4, 4), (4, 3)]);
    board.set_last_double_pawn_file(None);
    assert_eq!(beside.get_possible_moves(&board), vec![(5, 4)]);
    board.set_last_double_pawn_file(Some(5));
    assert_eq!(beside.get_possible_moves(&board), vec![(5, 4)]);
}

#[test]
fn en_passant_for_black_goes_down() {
    let mut board = kings_only(Color::Black);
    put(&mut board, Kind::Pawn, Color::White, 3, 6);
    board.set_last_double_pawn_file(Some(6));
    assert_eq!(
        Pawn::new(Color::Black, 3, 7).get_possible_moves(&board),
        vec![(2, 7), (2, 6)]
    );
}

#[test]
fn rook_slides_until_blocked() {
    let mut board = kings_only(Color::White);
    put(&mut board, Kind::Pawn, Color::White, 3, 5);
    put(&mut board, Kind::Pawn, Color::Black, 5, 3);
    let rook = Rook::new(Color::White, 3, 3);
    assert_eq!(
        rook.get_possible_moves(&board),
        vec![(3, 4), (3, 2), (3, 1), (3, 0), (4, 3), (5, 3), (2, 3), (1, 3), (0, 3)]
    );
}

#[test]
fn rook_on_an_open_board_has_fourteen_moves() {
    let board = kings_only(Color::White);
    assert_eq!(Rook::new(Color::White, 3, 3).get_possible_moves(&board).len(), 14);
}

#[test]
fn bishop_slides_along_diagonals() {
    let mut board = kings_only(Color::White);
    put(&mut board, Kind::Pawn, Color::Black, 4, 4);
    put(&mut board, Kind::Pawn, Color::White, 1, 1);
    let bishop = Bishop::new(Color::White, 2, 2);
    assert_eq!(
        bishop.get_possible_moves(&board),
        vec![(3, 3), (4, 4), (3, 1), (4, 0), (1, 3)]
    );
}

#[test]
fn queen_moves_like_rook_then_bishop() {
    let board = kings_only(Color::White);
    let queen = Queen::new(Color::White, 0, 0);
    let mut expected = Vec::new();
    for file in 1..4 {
        expected.push((0, file));
    }
    for rank in 1..8 {
        expected.push((rank, 0));
    }
    for step in 1..8 {
        expected.push((step, step));
    }
    assert_eq!(queen.get_possible_moves(&board), expected);
    assert_eq!(Queen::new(Color::White, 3, 3).get_possible_moves(&board).len(), 27);
}

#[test]
fn king_steps_to_the_eight_neighbours_in_order() {
    let mut board = Board::empty(Color::White);
    put(&mut board, Kind::King, Color::Black, 7, 7);
    let king = King::new(Color::White, 3, 3);
    assert_eq!(
        king.get_possible_moves(&board),
        vec![(3, 4), (3, 2), (4, 3), (2, 3), (4, 4), (4, 2), (2, 4), (2, 2)]
    );
}

#[test]
fn king_in_the_corner_stays_on_the_board() {
    let mut board = Board::empty(Color::White);
    board.mark_king_moved(Color::White);
    let king = King::new(Color::White, 0, 0);
    assert_eq!(king.get_possible_moves(&board), vec![(0, 1), (1, 0), (1, 1)]);
}

#[test]
fn king_may_castle_both_ways_when_the_way_is_clear() {
    let mut board = Board::empty(Color::White);
    put(&mut board, Kind::Rook, Color::White, 0, 0);
    put(&mut board, Kind::Rook, Color::White, 0, 7);
    let king = King::new(Color::White, 0, 4);
    let moves = king.get_possible_moves(&board);
    assert_eq!(moves, vec![(0, 5), (0, 3), (1, 4), (1, 5), (1, 3), (0, 6), (0, 2)]);
    let black = King::new(Color::Black, 7, 4);
    let moves = black.get_possible_moves(&board);
    assert_eq!(moves, vec![(7, 5), (7, 3), (6, 4), (6, 5), (6, 3), (7, 6), (7, 2)]);
}

#[test]
fn castling_is_gone_once_king_or_rook_has_moved() {
    let mut board = Board::empty(Color::White);
    let king = King::new(Color::White, 0, 4);
    board.mark_rook_h_moved(Color::White);
    let moves = king.get_possible_moves(&board);
    assert!(!moves.contains(&(0, 6)));
    assert!(moves.contains(&(0, 2)));
    board.mark_rook_a_moved(Color::White);
    assert!(!king.get_possible_moves(&board).contains(&(0, 2)));
    let mut board = Board::empty(Color::White);
    board.mark_king_moved(Color::White);
    let moves = king.get_possible_moves(&board);
    assert!(!moves.contains(&(0, 6)));
    assert!(!moves.contains(&(0, 2)));
    assert!(King::new(Color::Black, 7, 4).get_possible_moves(&board).contains(&(7, 6)));
}

#[test]
fn castling_needs_empty_squares_between() {
    let board = Board::new();
    let king = King::new(Color::White, 0, 4);
    assert!(king.get_possible_moves(&board).is_empty());
    let mut board = Board::empty(Color::White);
    put(&mut board, Kind::Knight, Color::White, 0, 1);
    put(&mut board, Kind::Bishop, Color::Black, 0, 5);
    let moves = king.get_possible_moves(&board);
    assert!(!moves.contains(&(0, 2)));
    assert!(!moves.contains(&(0, 6)));
    assert!(moves.contains(&(0, 5)));
}

#[test]
fn king_away_from_its_square_does_not_castle() {
    let board = Board::empty(Color::White);
    let moves = King::new(Color::White, 0, 3).get_possible_moves(&board);
    assert!(!moves.contains(&(0, 6)));
    assert_eq!(moves, vec![(0, 4), (0, 2), (1, 3), (1, 4), (1, 2)]);
}

#[test]
fn a_man_off_the_board_has_no_moves() {
    let board = kings_only(Color::White);
    for kind in [Kind::Pawn, Kind::Knight, Kind::Bishop, Kind::Rook, Kind::Queen, Kind::King] {
        let gone = Chessman::of_kind(kind, Color::Black, -1, -1);
        assert!(gone.get_possible_moves(&board).is_empty());
        let far = Chessman::of_kind(kind, Color::White, i32::MAX, i32::MIN);
        assert!(far.get_possible_moves(&board).is_empty());
    }
}

#[test]
fn possible_moves_never_leave_the_board() {
    let mut boards = vec![Board::new(), kings_only(Color::Black)];
    let mut busy = kings_only(Color::White);
    put(&mut busy, Kind::Queen, Color::White, 0, 0);
    put(&mut busy, Kind::Knight, Color::Black, 7, 7);
    put(&mut busy, Kind::Bishop, Color::Black, 0, 7);
    put(&mut busy, Kind::Rook, Color::White, 7, 0);
    put(&mut busy, Kind::Pawn, Color::White, 4, 0);
    put(&mut busy, Kind::Pawn, Color::Black, 4, 1);
    busy.set_last_double_pawn_file(Some(1));
    boards.push(busy);
    for board in &boards {
        for i in 0..board.piece_count() {
            for (rank, file) in board.get_piece(i).get_possible_moves(board) {
                assert!((0..8).contains(&rank) && (0..8).contains(&file));
            }
        }
    }
}
