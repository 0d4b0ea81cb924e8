use chess_engine::ai::minimax::{evaluate_board, minimax, minimax_ab};
use chess_engine::chessboard::Board;
use chess_engine::pieces::chessman::Chessman;
use chess_engine::pieces::piece::{Color, Kind, Piece};

fn man(kind: Kind, color: Color, rank: i32, file: i32) -> Chessman {
    Chessman::of_kind(kind, color, rank, file)
}

fn board_of(turn: Color, men: &[Chessman]) -> Board {
    let mut board = Board::empty(turn);
    for m in men {
        assert!(board.place(*m));
    }
    board
}

fn clear_square(board: &mut Board, rank: i32, file: i32) {
    let i = board.find_at(rank, file);
    assert!(i < board.piece_count());
    board.remove_piece(i);
}

#[test]
fn start_position_has_thirty_two_men_and_white_to_move() {
    let board = Board::new();
    assert_eq!(board.piece_count(), 32);
    assert_eq!(board.get_current_turn(), Color::White);
    assert_eq!(board.last_double_pawn_file(), None);
    assert_eq!(board.promotion_state(), None);
    assert!(!board.white_king_moved());
    assert!(!board.black_rook_h_moved());
    let king = board.get_piece(4);
    assert_eq!(king.get_name(), "K");
    assert_eq!((king.get_rank(), king.get_file()), (0, 4));
    assert_eq!(king.get_color(), Color::White);
    let black_pawn = board.get_piece(24);
    assert_eq!(black_pawn.get_kind(), Kind::Pawn);
    assert_eq!((black_pawn.get_rank(), black_pawn.get_file()), (6, 0));
    assert_eq!(black_pawn.get_color(), Color::Black);
}

#[test]
fn start_position_offers_twenty_moves_to_each_side() {
    let board = Board::new();
    assert_eq!(board.get_all_moves(Color::White).len(), 20);
    assert_eq!(board.get_all_moves(Color::Black).len(), 20);
    assert!(!board.is_game_over());
    assert!(!board.is_in_check(Color::White));
    assert!(!board.is_in_check(Color::Black));
}

#[test]
fn castling_kingside_moves_the_rook_and_sets_both_flags() {
    let mut board = Board::new();
    clear_square(&mut board, 0, 5);
    clear_square(&mut board, 0, 6);
    let king = board.find_at(0, 4);
    assert_eq!(board.get_piece(king).get_kind(), Kind::King);
    let legal = board.get_legal_moves(king);
    assert!(legal.contains(&(0, 6)));
    board.make_move(((0, 4), (0, 6)));
    let rook = board.find_at(0, 5);
    assert!(rook < board.piece_count());
    assert_eq!(board.get_piece(rook).get_kind(), Kind::Rook);
    assert_eq!(board.get_piece(rook).get_color(), Color::White);
    let king = board.find_at(0, 6);
    assert_eq!(board.get_piece(king).get_kind(), Kind::King);
    assert_eq!(board.find_at(0, 7), board.piece_count());
    assert_eq!(board.find_at(0, 4), board.piece_count());
    assert!(board.white_king_moved());
    assert!(board.white_rook_h_moved());
    assert!(!board.white_rook_a_moved());
    assert_eq!(board.get_current_turn(), Color::Black);
}

#[test]
fn en_passant_removes_the_pawn_that_stepped_twice() {
    let mut board = board_of(
        Color::White,
        &[
            man(Kind::King, Color::White, 0, 4),
            man(Kind::King, Color::Black, 7, 4),
            man(Kind::Pawn, Color::White, 1, 3),
            man(Kind::Pawn, Color::Black, 3, 2),
        ],
    );
    board.make_move(((1, 3), (3, 3)));
    assert_eq!(board.last_double_pawn_file(), Some(3));
    assert_eq!(board.get_current_turn(), Color::Black);
    let black_pawn = board.find_at(3, 2);
    let possible = board.get_piece(black_pawn).get_possible_moves(&board);
    assert!(possible.contains(&(2, 3)));
    assert!(board.get_legal_moves(black_pawn).contains(&(2, 3)));
    board.make_move(((3, 2), (2, 3)));
    assert_eq!(board.piece_count(), 3);
    assert_eq!(board.find_at(3, 3), board.piece_count());
    let arrived = board.find_at(2, 3);
    assert_eq!(board.get_piece(arrived).get_kind(), Kind::Pawn);
    assert_eq!(board.get_piece(arrived).get_color(), Color::Black);
    assert_eq!(board.last_double_pawn_file(), None);
}

#[test]
fn promotion_waits_for_a_choice_and_then_passes_the_turn() {
    let mut board = board_of(
        Color::White,
        &[
            man(Kind::King, Color::White, 0, 4),
            man(Kind::King, Color::Black, 7, 4),
            man(Kind::Pawn, Color::White, 6, 0),
        ],
    );
    board.make_move(((6, 0), (7, 0)));
    let index = board.find_at(7, 0);
    assert_eq!(board.promotion_state(), Some(index));
    assert_eq!(board.get_current_turn(), Color::White);
    board.promote_piece(index, 'N');
    assert_eq!(board.promotion_state(), None);
    assert_eq!(board.get_current_turn(), Color::Black);
    assert_eq!(board.piece_count(), 3);
    let knight = board.find_at(7, 0);
    assert_eq!(board.get_piece(knight).get_kind(), Kind::Knight);
    assert_eq!(board.get_piece(knight).get_name(), "N");
    assert_eq!(board.get_piece(knight).get_color(), Color::White);
}

#[test]
fn back_rank_mate_is_game_over_and_depth_zero_is_material() {
    let mut board = board_of(
        Color::White,
        &[
            man(Kind::King, Color::White, 0, 6),
            man(Kind::Pawn, Color::White, 1, 5),
            man(Kind::Pawn, Color::White, 1, 6),
            man(Kind::Pawn, Color::White, 1, 7),
            man(Kind::King, Color::Black, 7, 4),
            man(Kind::Rook, Color::Black, 0, 0),
        ],
    );
    assert!(board.is_in_check(Color::White));
    assert!(board.get_all_moves(Color::White).is_empty());
    assert!(board.is_game_over());
    assert_eq!(evaluate_board(&board), -2);
    assert_eq!(minimax(&mut board, 0, true), -2);
    assert_eq!(minimax(&mut board, 2, true), -2);
}

#[test]
fn stalemate_is_game_over_without_check() {
    let board = board_of(
        Color::White,
        &[
            man(Kind::King, Color::White, 0, 0),
            man(Kind::King, Color::Black, 2, 1),
            man(Kind::Queen, Color::Black, 1, 2),
        ],
    );
    assert!(!board.is_in_check(Color::White));
    assert!(board.is_game_over());
}

#[test]
fn search_finds_the_winning_capture() {
    let mut board = board_of(
        Color::White,
        &[
            man(Kind::King, Color::White, 0, 1),
            man(Kind::Rook, Color::White, 0, 7),
            man(Kind::King, Color::Black, 7, 0),
            man(Kind::Queen, Color::Black, 7, 7),
        ],
    );
    assert_eq!(evaluate_board(&board), -4);
    assert_eq!(minimax(&mut board, 1, true), 5);
    let mut best = i32::MIN;
    let mut best_move = ((0, 0), (0, 0));
    for m in board.get_all_moves(Color::White) {
        let mut next = board.clone();
        next.make_move(m);
        let score = minimax_ab(&next, 0, i32::MIN / 4, i32::MAX / 4, false);
        if m == ((0, 7), (7, 7)) {
            assert_eq!(score, 5);
        } else {
            assert!(score <= 5);
        }
        if score > best {
            best = score;
            best_move = m;
        }
    }
    assert_eq!(best_move, ((0, 7), (7, 7)));
}
