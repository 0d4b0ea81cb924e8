use chess_engine::ai::minimax::{evaluate_board, minimax, PieceValues};
use chess_engine::chessboard::{Board, MAX_MEN};
use chess_engine::pieces::chessman::Chessman;
use chess_engine::pieces::piece::{Color, Kind, Piece};

fn put(board: &mut Board, kind: Kind, color: Color, rank: i32, file: i32) {
    assert!(board.place(Chessman::of_kind(kind, color, rank, file)));
}

fn kings_only(turn: Color) -> Board {
    let mut board = Board::empty(turn);
    put(&mut board, Kind::King, Color::White, 0, 4);
    put(&mut board, Kind::King, Color::Black, 7, 0);
    board
}

fn kind_at(board: &Board, rank: i32, file: i32) -> Option<(Kind, Color)> {
    let i = board.find_at(rank, file);
    if i < board.piece_count() {
        let piece = board.get_piece(i);
        Some((piece.get_kind(), piece.get_color()))
    } else {
        None
    }
}

#[test]
fn a_pinned_rook_moves_only_along_the_pin() {
    let mut board = kings_only(Color::White);
    put(&mut board, Kind::Rook, Color::White, 1, 4);
    put(&mut board, Kind::Rook, Color::Black, 7, 4);
    let rook = board.find_at(1, 4);
    assert_eq!(board.get_piece(rook).get_possible_moves(&board).len(), 13);
    assert_eq!(
        board.get_legal_moves(rook),
        vec![(2, 4), (3, 4), (4, 4), (5, 4), (6, 4), (7, 4)]
    );
}

#[test]
fn a_king_does_not_step_into_check() {
    let mut board = kings_only(Color::White);
    put(&mut board, Kind::Rook, Color::Black, 7, 5);
    board.mark_king_moved(Color::White);
    let king = board.find_at(0, 4);
    assert_eq!(board.get_legal_moves(king), vec![(0, 3), (1, 4), (1, 3)]);
}

#[test]
fn a_king_in_check_may_take_the_checking_man() {
    let mut board = kings_only(Color::White);
    board.mark_king_moved(Color::White);
    put(&mut board, Kind::Queen, Color::Black, 1, 4);
    assert!(board.is_in_check(Color::White));
    let king = board.find_at(0, 4);
    assert_eq!(board.get_legal_moves(king), vec![(1, 4)]);
    assert!(!board.is_game_over());
}

#[test]
fn a_king_does_not_castle_across_an_attacked_square() {
    let mut board = kings_only(Color::White);
    put(&mut board, Kind::Rook, Color::White, 0, 7);
    put(&mut board, Kind::Rook, Color::White, 0, 0);
    put(&mut board, Kind::Rook, Color::Black, 7, 5);
    let king = board.find_at(0, 4);
    assert!(board.get_piece(king).get_possible_moves(&board).contains(&(0, 6)));
    let legal = board.get_legal_moves(king);
    assert!(!legal.contains(&(0, 6)));
    assert!(!legal.contains(&(0, 5)));
    assert!(legal.contains(&(0, 2)));
}

#[test]
fn a_king_does_not_castle_into_check() {
    let mut board = kings_only(Color::White);
    put(&mut board, Kind::Rook, Color::White, 0, 7);
    put(&mut board, Kind::Rook, Color::Black, 7, 6);
    let king = board.find_at(0, 4);
    let legal = board.get_legal_moves(king);
    assert!(!legal.contains(&(0, 6)));
    assert!(legal.contains(&(0, 5)));
}

#[test]
fn legal_moves_are_possible_moves_that_keep_the_king_safe() {
    let mut pinned = kings_only(Color::White);
    put(&mut pinned, Kind::Bishop, Color::White, 1, 4);
    put(&mut pinned, Kind::Rook, Color::Black, 6, 4);
    put(&mut pinned, Kind::Knight, Color::White, 2, 2);
    put(&mut pinned, Kind::Pawn, Color::Black, 3, 3);
    for board in [Board::new(), pinned] {
        for i in 0..board.piece_count() {
            let possible = board.get_piece(i).get_possible_moves(&board);
            let legal = board.get_legal_moves(i);
            for to in &legal {
                assert!(possible.contains(to));
                assert!(board.move_keeps_king_safe(i, *to));
            }
            for to in &possible {
                assert_eq!(legal.contains(to), board.move_keeps_king_safe(i, *to));
            }
        }
    }
}

#[test]
fn all_moves_go_man_by_man() {
    let mut board = kings_only(Color::White);
    board.mark_king_moved(Color::White);
    put(&mut board, Kind::Pawn, Color::White, 1, 0);
    assert_eq!(
        board.get_all_moves(Color::White),
        vec![
            ((0, 4), (0, 5)),
            ((0, 4), (0, 3)),
            ((0, 4), (1, 4)),
            ((0, 4), (1, 5)),
            ((0, 4), (1, 3)),
            ((1, 0), (2, 0)),
            ((1, 0), (3, 0)),
        ]
    );
    assert_eq!(board.get_all_moves(Color::Black), vec![((7, 0), (7, 1)), ((7, 0), (6, 0)), ((7, 0), (6, 1))]);
}

#[test]
fn a_capture_takes_the_man_and_keeps_track_of_the_mover() {
    let mut board = Board::empty(Color::White);
    put(&mut board, Kind::Knight, Color::Black, 7, 1);
    put(&mut board, Kind::King, Color::White, 0, 4);
    put(&mut board, Kind::Pawn, Color::White, 6, 0);
    put(&mut board, Kind::King, Color::Black, 7, 7);
    board.make_move(((6, 0), (7, 1)));
    assert_eq!(board.piece_count(), 3);
    assert_eq!(kind_at(&board, 7, 1), Some((Kind::Pawn, Color::White)));
    assert_eq!(kind_at(&board, 6, 0), None);
    assert_eq!(board.promotion_state(), Some(1));
    assert_eq!(board.get_current_turn(), Color::White);
    board.promote_piece(1, 'X');
    assert_eq!(kind_at(&board, 7, 1), Some((Kind::Queen, Color::White)));
    assert_eq!(board.find_at(7, 1), 2);
    assert_eq!(board.get_current_turn(), Color::Black);
}

#[test]
fn promotion_letters_choose_the_kind() {
    for (letter, kind) in [
        ('Q', Kind::Queen),
        ('R', Kind::Rook),
        ('B', Kind::Bishop),
        ('N', Kind::Knight),
        ('K', Kind::Queen),
        ('q', Kind::Queen),
    ] {
        let mut board = kings_only(Color::Black);
        put(&mut board, Kind::Pawn, Color::Black, 1, 7);
        board.make_move(((1, 7), (0, 7)));
        assert_eq!(board.promotion_state(), Some(2));
        assert_eq!(board.get_current_turn(), Color::Black);
        board.promote_piece(2, letter);
        assert_eq!(kind_at(&board, 0, 7), Some((kind, Color::Black)));
        assert_eq!(board.promotion_state(), None);
        assert_eq!(board.get_current_turn(), Color::White);
    }
}

#[test]
fn moving_a_king_or_a_rook_gives_up_castling() {
    let mut board = Board::empty(Color::White);
    put(&mut board, Kind::King, Color::White, 0, 4);
    put(&mut board, Kind::Rook, Color::White, 0, 0);
    put(&mut board, Kind::Rook, Color::White, 0, 7);
    put(&mut board, Kind::King, Color::Black, 7, 4);
    put(&mut board, Kind::Rook, Color::Black, 7, 0);
    put(&mut board, Kind::Rook, Color::Black, 7, 7);
    board.make_move(((0, 0), (0, 1)));
    assert!(board.white_rook_a_moved());
    assert!(!board.white_rook_h_moved() && !board.white_king_moved());
    board.make_move(((7, 7), (6, 7)));
    assert!(board.black_rook_h_moved());
    assert!(!board.black_rook_a_moved() && !board.black_king_moved());
    board.make_move(((0, 4), (1, 4)));
    assert!(board.white_king_moved());
    assert!(!board.white_rook_h_moved());
    board.make_move(((7, 4), (7, 3)));
    assert!(board.black_king_moved());
    board.make_move(((1, 4), (0, 4)));
    assert!(board.white_king_moved());
    let king = board.find_at(0, 4);
    assert!(!board.get_legal_moves(king).contains(&(0, 6)));
}

#[test]
fn castling_queenside_puts_the_rook_beside_the_king() {
    let mut board = Board::empty(Color::Black);
    put(&mut board, Kind::King, Color::White, 0, 4);
    put(&mut board, Kind::King, Color::Black, 7, 4);
    put(&mut board, Kind::Rook, Color::Black, 7, 0);
    put(&mut board, Kind::Rook, Color::Black, 7, 7);
    let king = board.find_at(7, 4);
    assert!(board.get_legal_moves(king).contains(&(7, 2)));
    board.make_move(((7, 4), (7, 2)));
    assert_eq!(kind_at(&board, 7, 2), Some((Kind::King, Color::Black)));
    assert_eq!(kind_at(&board, 7, 3), Some((Kind::Rook, Color::Black)));
    assert_eq!(kind_at(&board, 7, 0), None);
    assert_eq!(kind_at(&board, 7, 7), Some((Kind::Rook, Color::Black)));
    assert!(board.black_king_moved() && board.black_rook_a_moved());
    assert!(!board.black_rook_h_moved());
    assert!(!board.white_king_moved());
    assert_eq!(board.get_current_turn(), Color::White);
}

#[test]
fn a_double_step_is_remembered_for_one_move() {
    let mut board = Board::new();
    board.make_move(((1, 4), (3, 4)));
    assert_eq!(board.last_double_pawn_file(), Some(4));
    board.make_move(((6, 0), (5, 0)));
    assert_eq!(board.last_double_pawn_file(), None);
    board.make_move(((0, 6), (2, 5)));
    assert_eq!(board.last_double_pawn_file(), None);
    board.make_move(((6, 7), (4, 7)));
    assert_eq!(board.last_double_pawn_file(), Some(7));
    assert_eq!(board.piece_count(), 32);
    assert_eq!(board.get_current_turn(), Color::White);
}

#[test]
fn a_move_from_an_empty_square_changes_nothing() {
    let mut board = Board::new();
    let key = board.position_key();
    board.make_move(((3, 3), (4, 3)));
    assert_eq!(board.position_key(), key);
    assert_eq!(board.get_current_turn(), Color::White);
    assert_eq!(board.piece_count(), 32);
    assert_eq!(board.last_double_pawn_file(), None);
}

#[test]
fn a_pawn_capturing_a_man_does_not_take_in_passing_too() {
    let mut board = kings_only(Color::White);
    put(&mut board, Kind::Pawn, Color::White, 4, 3);
    put(&mut board, Kind::Pawn, Color::Black, 4, 4);
    put(&mut board, Kind::Knight, Color::Black, 5, 4);
    board.make_move(((4, 3), (5, 4)));
    assert_eq!(kind_at(&board, 5, 4), Some((Kind::Pawn, Color::White)));
    assert_eq!(kind_at(&board, 4, 4), Some((Kind::Pawn, Color::Black)));
    assert_eq!(board.piece_count(), 4);
}

#[test]
fn fools_mate_ends_the_game() {
    let mut board = Board::new();
    for m in [((1, 5), (2, 5)), ((6, 4), (4, 4)), ((1, 6), (3, 6)), ((7, 3), (3, 7))] {
        assert!(!board.is_game_over());
        assert!(board.get_all_moves(board.get_current_turn()).contains(&m));
        board.make_move(m);
    }
    assert_eq!(board.get_current_turn(), Color::White);
    assert!(board.is_in_check(Color::White));
    assert!(board.is_game_over());
    assert_eq!(evaluate_board(&board), 0);
    assert_eq!(minimax(&mut board, 3, true), 0);
}

#[test]
fn asking_twice_for_check_gives_the_same_answer() {
    let mut board = kings_only(Color::White);
    put(&mut board, Kind::Rook, Color::Black, 5, 4);
    for color in [Color::White, Color::Black] {
        let first = board.is_in_check(color);
        let second = board.is_in_check(color);
        assert_eq!(first, second);
    }
    assert!(board.is_in_check(Color::White));
    assert!(!board.is_in_check(Color::Black));
    assert!(!Board::empty(Color::White).is_in_check(Color::White));
}

#[test]
fn a_saved_copy_keeps_the_key_of_before_the_move() {
    let mut board = Board::new();
    let saved = board.clone();
    let before = board.position_key();
    board.make_move(((1, 4), (3, 4)));
    assert_ne!(board.position_key(), before);
    assert_eq!(saved.position_key(), before);
    assert_eq!(saved.get_current_turn(), Color::White);
    let next = saved.after_move(((1, 4), (3, 4)));
    assert_eq!(next.position_key(), board.position_key());
    assert_eq!(saved.position_key(), before);
    board.restore_from(&saved);
    assert_eq!(board.position_key(), before);
    assert_eq!(board.get_current_turn(), Color::White);
    assert_eq!(board.last_double_pawn_file(), None);
    assert_eq!(board.piece_count(), 32);
}

#[test]
fn the_key_lists_the_squares_rank_by_rank() {
    let key = Board::new().position_key();
    assert_eq!(key.len(), 64);
    assert_eq!(&key[0..8], &[4, 2, 3, 5, 6, 3, 2, 4]);
    assert_eq!(&key[8..16], &[1; 8]);
    assert_eq!(&key[16..48], &[0; 32]);
    assert_eq!(&key[48..56], &[7; 8]);
    assert_eq!(&key[56..64], &[10, 8, 9, 11, 12, 9, 8, 10]);
}

#[test]
fn the_key_does_not_depend_on_the_order_of_the_men() {
    let mut one = Board::empty(Color::White);
    put(&mut one, Kind::King, Color::White, 0, 4);
    put(&mut one, Kind::Queen, Color::Black, 5, 5);
    put(&mut one, Kind::King, Color::Black, 7, 4);
    let mut other = Board::empty(Color::Black);
    put(&mut other, Kind::King, Color::Black, 7, 4);
    put(&mut other, Kind::King, Color::White, 0, 4);
    put(&mut other, Kind::Queen, Color::Black, 5, 5);
    put(&mut other, Kind::Rook, Color::White, -1, -1);
    assert_eq!(one.position_key(), other.position_key());
    assert_eq!(one.code_at(5, 5), 11);
    assert_eq!(one.code_at(5, 4), 0);
}

#[test]
fn a_full_board_takes_no_more_men() {
    let mut board = Board::empty(Color::White);
    for i in 0..MAX_MEN {
        assert!(board.place(Chessman::of_kind(Kind::Pawn, Color::White, (i / 8) as i32, (i % 8) as i32)));
    }
    assert_eq!(board.piece_count(), 64);
    assert!(!board.place(Chessman::of_kind(Kind::Pawn, Color::Black, -1, -1)));
    assert_eq!(board.piece_count(), 64);
    assert_eq!(evaluate_board(&board), 64);
}

#[test]
fn material_counts_white_up_and_black_down() {
    let values = PieceValues::new();
    assert_eq!(
        (values.pawn, values.knight, values.bishop, values.rook, values.queen, values.king),
        (1, 3, 3, 5, 9, 1000)
    );
    assert_eq!(values.value(Kind::Queen), 9);
    assert_eq!(evaluate_board(&Board::new()), 0);
    assert_eq!(evaluate_board(&Board::empty(Color::White)), 0);
    let mut board = kings_only(Color::White);
    put(&mut board, Kind::Queen, Color::White, 3, 3);
    put(&mut board, Kind::Pawn, Color::White, 1, 1);
    put(&mut board, Kind::Rook, Color::Black, 6, 6);
    put(&mut board, Kind::Knight, Color::Black, 5, 5);
    put(&mut board, Kind::Bishop, Color::Black, 5, 6);
    assert_eq!(evaluate_board(&board), 9 + 1 - 5 - 3 - 3);
    let mut lone = Board::empty(Color::White);
    put(&mut lone, Kind::King, Color::Black, 7, 4);
    assert_eq!(evaluate_board(&lone), -1000);
}

#[test]
fn search_for_black_minimizes() {
    let mut board = Board::empty(Color::Black);
    put(&mut board, Kind::King, Color::White, 0, 1);
    put(&mut board, Kind::Rook, Color::White, 0, 7);
    put(&mut board, Kind::King, Color::Black, 7, 0);
    put(&mut board, Kind::Queen, Color::Black, 7, 7);
    assert_eq!(minimax(&mut board, 1, false), -9);
    assert_eq!(minimax(&mut board, 0, false), -4);
    assert_eq!(board.piece_count(), 4);
    assert_eq!(board.get_current_turn(), Color::Black);
}

#[test]
fn clicking_picks_up_moves_and_puts_down() {
    let mut board = Board::new();
    board.mark_piece(6, 0);
    assert_eq!(board.selected_piece(), None);
    board.mark_piece(8, 0);
    assert_eq!(board.selected_piece(), None);
    board.mark_piece(1, 4);
    assert_eq!(board.selected_piece(), Some(12));
    assert_eq!(board.possible_moves(), &vec![(2, 4), (3, 4)]);
    board.mark_piece(-1, 4);
    assert_eq!(board.selected_piece(), Some(12));
    board.mark_piece(4, 4);
    assert_eq!(board.selected_piece(), None);
    assert!(board.possible_moves().is_empty());
    assert_eq!(board.get_current_turn(), Color::White);
    board.mark_piece(1, 4);
    board.mark_piece(3, 4);
    assert_eq!(board.selected_piece(), None);
    assert!(board.possible_moves().is_empty());
    assert_eq!(board.get_current_turn(), Color::Black);
    assert_eq!(kind_at(&board, 3, 4), Some((Kind::Pawn, Color::White)));
    assert_eq!(kind_at(&board, 1, 4), None);
    assert_eq!(board.last_double_pawn_file(), Some(4));
    board.mark_piece(3, 4);
    assert_eq!(board.selected_piece(), None);
    board.mark_piece(7, 1);
    assert_eq!(board.selected_piece(), Some(17));
    assert_eq!(board.possible_moves(), &vec![(5, 2), (5, 0)]);
}

#[test]
fn editing_a_board_by_hand() {
    let mut board = Board::new();
    board.move_piece_to(0, 3, 3);
    assert_eq!(kind_at(&board, 3, 3), Some((Kind::Rook, Color::White)));
    let gone = board.remove_piece(0);
    assert_eq!((gone.get_kind(), gone.get_rank(), gone.get_file()), (Kind::Rook, 3, 3));
    assert_eq!(board.piece_count(), 31);
    assert_eq!(board.get_piece(0).get_kind(), Kind::Knight);
    board.set_turn(Color::Black);
    assert_eq!(board.get_current_turn(), Color::Black);
    board.set_promotion_state(Some(3));
    assert_eq!(board.promotion_state(), Some(3));
    board.select(2, vec![(4, 4)]);
    assert_eq!(board.selected_piece(), Some(2));
    board.deselect();
    assert_eq!(board.selected_piece(), None);
    assert!(board.possible_moves().is_empty());
    let copy = board.relocated(1, 4, 4);
    assert_eq!(kind_at(&copy, 4, 4), Some((Kind::Bishop, Color::White)));
    assert_eq!(kind_at(&board, 4, 4), None);
    assert!(board.is_occupied(1, 0) && !board.is_occupied(3, 0));
    assert!(board.has_enemy_at(Color::Black, 1, 0) && !board.has_enemy_at(Color::White, 1, 0));
    assert!(board.has_enemy_pawn_at(Color::White, 6, 0));
    assert!(!board.has_enemy_pawn_at(Color::White, 7, 0));
    assert_eq!(board.find_king(Color::Black), 19);
    assert_eq!(board.find_king(Color::White), 3);
    assert_eq!(Board::empty(Color::White).find_king(Color::White), 0);
    assert_eq!(board.find_other_at(7, 1, 1), 8);
    assert_eq!(board.find_other_at(8, 1, 1), board.piece_count());
    assert_eq!(board.find_other_at(7, 1, 0), board.piece_count());
    assert_eq!(board.find_rook_on(7, 0), 15);
    assert_eq!(board.find_rook_on(7, 1), board.piece_count());
    assert_eq!(board.find_enemy_pawn_on(Color::White, 6, 3), 26);
    assert_eq!(board.find_enemy_pawn_on(Color::Black, 6, 3), board.piece_count());
    assert_eq!(board.find_own_at(Color::Black, 6, 3), 26);
    assert_eq!(board.find_own_at(Color::White, 6, 3), board.piece_count());
}

#[test]
fn a_capture_in_passing_that_bares_the_king_is_not_legal() {
    let mut board = Board::empty(Color::White);
    put(&mut board, Kind::King, Color::White, 4, 0);
    put(&mut board, Kind::Pawn, Color::White, 4, 4);
    put(&mut board, Kind::Pawn, Color::Black, 4, 5);
    put(&mut board, Kind::Rook, Color::Black, 4, 7);
    put(&mut board, Kind::King, Color::Black, 7, 7);
    board.mark_king_moved(Color::White);
    board.set_last_double_pawn_file(Some(5));
    assert_eq!(board.get_piece(1).get_possible_moves(&board), vec![(5, 4), (5, 5)]);
    assert_eq!(board.get_legal_moves(1), vec![(5, 4)]);
    assert!(!board.move_keeps_king_safe(1, (5, 5)));
    let mut made = board.clone();
    made.move_man(1, (5, 5));
    assert_eq!(made.piece_count(), 4);
    assert!(made.is_in_check(Color::White));
}

#[test]
fn a_capture_in_passing_may_take_the_checking_pawn() {
    let mut board = Board::empty(Color::White);
    put(&mut board, Kind::King, Color::White, 3, 4);
    put(&mut board, Kind::Pawn, Color::White, 4, 4);
    put(&mut board, Kind::Pawn, Color::Black, 4, 5);
    put(&mut board, Kind::King, Color::Black, 7, 7);
    board.mark_king_moved(Color::White);
    board.set_last_double_pawn_file(Some(5));
    assert!(board.is_in_check(Color::White));
    assert_eq!(board.get_legal_moves(1), vec![(5, 5)]);
    assert!(!board.is_game_over());
    board.make_move(((4, 4), (5, 5)));
    assert_eq!(board.piece_count(), 3);
    assert!(!board.is_in_check(Color::White));
}

#[test]
fn when_the_only_move_would_bare_the_king_the_game_is_over() {
    let mut board = Board::empty(Color::White);
    put(&mut board, Kind::King, Color::White, 4, 0);
    put(&mut board, Kind::Pawn, Color::White, 4, 4);
    put(&mut board, Kind::Pawn, Color::Black, 4, 5);
    put(&mut board, Kind::Rook, Color::Black, 4, 7);
    put(&mut board, Kind::King, Color::Black, 2, 0);
    put(&mut board, Kind::Queen, Color::Black, 6, 1);
    put(&mut board, Kind::Pawn, Color::Black, 5, 4);
    board.mark_king_moved(Color::White);
    board.mark_king_moved(Color::Black);
    board.set_last_double_pawn_file(Some(5));
    assert!(!board.is_in_check(Color::White));
    assert!(board.get_all_moves(Color::White).is_empty());
    assert!(board.is_game_over());
    assert_eq!(evaluate_board(&board), -15);
    assert_eq!(minimax(&mut board, 1, true), -15);
    assert_eq!(minimax(&mut board, 3, true), -15);
}

#[test]
fn no_legal_move_leaves_the_mover_in_check_once_made() {
    let mut pinned = kings_only(Color::White);
    put(&mut pinned, Kind::Bishop, Color::White, 1, 4);
    put(&mut pinned, Kind::Rook, Color::Black, 6, 4);
    put(&mut pinned, Kind::Pawn, Color::White, 4, 2);
    put(&mut pinned, Kind::Pawn, Color::Black, 4, 3);
    pinned.set_last_double_pawn_file(Some(3));
    let mut castling = Board::empty(Color::White);
    put(&mut castling, Kind::King, Color::White, 0, 4);
    put(&mut castling, Kind::Rook, Color::White, 0, 7);
    put(&mut castling, Kind::Rook, Color::White, 0, 0);
    put(&mut castling, Kind::King, Color::Black, 7, 4);
    put(&mut castling, Kind::Bishop, Color::Black, 3, 5);
    for board in [Board::new(), pinned, castling] {
        for color in [Color::White, Color::Black] {
            for m in board.get_all_moves(color) {
                assert!(!board.after_move(m).is_in_check(color));
            }
        }
    }
}

#[test]
fn only_the_first_man_on_a_square_has_moves() {
    let mut board = kings_only(Color::White);
    board.mark_king_moved(Color::White);
    put(&mut board, Kind::Pawn, Color::White, 1, 0);
    put(&mut board, Kind::Knight, Color::White, 1, 0);
    let moves = board.get_all_moves(Color::White);
    assert!(moves.contains(&((1, 0), (2, 0))));
    assert!(!moves.contains(&((1, 0), (3, 1))));
    assert_eq!(moves.len(), 7);
}

#[test]
fn a_search_value_is_never_more_than_the_material() {
    let mut board = Board::empty(Color::White);
    put(&mut board, Kind::King, Color::White, 0, 0);
    put(&mut board, Kind::King, Color::Black, 7, 7);
    put(&mut board, Kind::Queen, Color::White, 3, 3);
    put(&mut board, Kind::Rook, Color::Black, 3, 6);
    for depth in 0..4 {
        for maximizing in [true, false] {
            let score = minimax(&mut board, depth, maximizing);
            assert!((-4000..=4000).contains(&score));
        }
    }
}
