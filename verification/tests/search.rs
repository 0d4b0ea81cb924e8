use chess_engine::ai::minimax::{evaluate_board, minimax, minimax_ab, ALPHA_START, BETA_START};
use chess_engine::chessboard::Board;
use chess_engine::pieces::chessman::Chessman;
use chess_engine::pieces::piece::{Color, Kind};

fn put(board: &mut Board, kind: Kind, color: Color, rank: i32, file: i32) {
    assert!(board.place(Chessman::of_kind(kind, color, rank, file)));
}

fn side(maximizing: bool) -> Color {
    if maximizing {
        Color::White
    } else {
        Color::Black
    }
}

/// Minimax without pruning, written out for comparison.
fn plain(board: &Board, depth: i32, maximizing: bool) -> i32 {
    if depth == 0 || board.is_game_over() {
        return evaluate_board(board);
    }
    let moves = board.get_all_moves(side(maximizing));
    if moves.is_empty() {
        return evaluate_board(board);
    }
    let mut value = if maximizing { i32::MIN } else { i32::MAX };
    for m in moves {
        let next = board.after_move(m);
        if next.is_in_check(side(maximizing)) {
            continue;
        }
        let score = plain(&next, depth - 1, !maximizing);
        value = if maximizing { value.max(score) } else { value.min(score) };
    }
    value
}

fn skirmish(turn: Color) -> Board {
    let mut board = Board::empty(turn);
    put(&mut board, Kind::King, Color::White, 0, 6);
    put(&mut board, Kind::Rook, Color::White, 0, 3);
    put(&mut board, Kind::Knight, Color::White, 2, 5);
    put(&mut board, Kind::Pawn, Color::White, 3, 4);
    put(&mut board, Kind::Pawn, Color::White, 1, 6);
    put(&mut board, Kind::King, Color::Black, 7, 6);
    put(&mut board, Kind::Queen, Color::Black, 5, 3);
    put(&mut board, Kind::Bishop, Color::Black, 4, 6);
    put(&mut board, Kind::Pawn, Color::Black, 4, 3);
    put(&mut board, Kind::Pawn, Color::Black, 6, 6);
    board
}

#[test]
fn the_window_starts_at_a_quarter_of_the_range() {
    assert_eq!(ALPHA_START, i32::MIN / 4);
    assert_eq!(BETA_START, i32::MAX / 4);
}

#[test]
fn pruning_does_not_change_the_value() {
    for turn in [Color::White, Color::Black] {
        let mut board = skirmish(turn);
        for depth in 0..4 {
            for maximizing in [true, false] {
                let expected = plain(&board, depth, maximizing);
                assert_eq!(minimax(&mut board, depth, maximizing), expected);
                assert_eq!(
                    minimax_ab(&board, depth, ALPHA_START, BETA_START, maximizing),
                    expected
                );
            }
        }
    }
}

#[test]
fn pruning_does_not_change_the_value_at_the_start() {
    let mut board = Board::new();
    assert_eq!(minimax(&mut board, 2, true), plain(&board, 2, true));
    assert_eq!(minimax(&mut board, 2, true), 0);
    assert_eq!(minimax(&mut board, 1, false), 0);
}

#[test]
fn a_narrow_window_bounds_the_value() {
    let board = skirmish(Color::White);
    let exact = plain(&board, 2, true);
    let below = minimax_ab(&board, 2, exact + 1, exact + 5, true);
    assert!(below <= exact + 1 && exact <= below);
    let above = minimax_ab(&board, 2, exact - 5, exact - 1, true);
    assert!(above >= exact - 1 && exact >= above);
    let around = minimax_ab(&board, 2, exact - 1, exact + 1, true);
    assert_eq!(around, exact);
}

#[test]
fn a_node_is_worth_at_least_its_best_move() {
    let board = skirmish(Color::White);
    let value = plain(&board, 1, true);
    assert_eq!(minimax_ab(&board, 1, ALPHA_START, BETA_START, true), value);
    let mut best = i32::MIN;
    for m in board.get_all_moves(Color::White) {
        let next = board.after_move(m);
        if !next.is_in_check(Color::White) {
            let score = evaluate_board(&next);
            assert!(value >= score);
            best = best.max(score);
        }
    }
    assert_eq!(value, best);
    assert_eq!(evaluate_board(&board), -4);
    assert_eq!(value, -1);
}

#[test]
fn a_move_never_adds_men_nor_gives_castling_rights_back() {
    let mut board = skirmish(Color::White);
    board.mark_rook_a_moved(Color::White);
    board.mark_king_moved(Color::Black);
    let before = board.piece_count();
    for color in [Color::White, Color::Black] {
        for m in board.get_all_moves(color) {
            let next = board.after_move(m);
            assert!(next.piece_count() <= before);
            assert!(next.piece_count() + 1 >= before);
            assert!(next.white_rook_a_moved());
            assert!(next.black_king_moved());
            assert_eq!(board.piece_count(), before);
        }
    }
}
