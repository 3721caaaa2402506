use tetris_ai::features::calculate_complete_lines;
use tetris_ai::placement::place_piece_on_grid;
use tetris_ai::{Grid, Move, MoveError, Shape, TetrisAI, Weights, MAX_DEPTH_SUM};

#[test]
fn single_piece_on_empty_board_goes_bottom_left() {
    let ai = TetrisAI::new();
    let grid = vec![0; 16];
    let r = ai.get_best_move(&grid, 4, 4, &[1], 1, 1);
    assert_eq!(r, Ok(Move { x: 0, y: 3, rotation: 0, score: -152 }));
}

#[test]
fn piece_filling_the_gap_completes_the_row() {
    let ai = TetrisAI::new();
    let mut grid = vec![0; 16];
    for c in [0usize, 1, 3] {
        grid[3 * 4 + c] = 1;
    }
    let r = ai.get_best_move(&grid, 4, 4, &[1], 1, 1).unwrap();
    assert_eq!((r.x, r.y, r.rotation), (2, 3, 0));
    // One complete row, heights 1 everywhere: 3.80 - 2.04 - 0.65.
    assert_eq!(r.score, 380 - 204 - 65);
    let board = Grid { cells: grid, width: 4, height: 4 };
    let piece = Shape { cells: vec![1], width: 1, height: 1 };
    let placed = place_piece_on_grid(&board, &piece, r.x, r.y);
    assert_eq!(calculate_complete_lines(&placed), 1);
}

#[test]
fn vertical_bar_fills_deep_gap() {
    let ai = TetrisAI::new();
    // 3 wide, 4 tall; columns 0 and 2 full, column 1 empty.
    let grid = vec![1, 0, 1, 1, 0, 1, 1, 0, 1, 1, 0, 1];
    // A horizontal bar of 4 cannot fit; turned once it drops into the gap.
    let r = ai.get_best_move(&grid, 3, 4, &[1, 1, 1, 1], 4, 1).unwrap();
    assert_eq!((r.x, r.y, r.rotation), (1, 0, 1));
    assert_eq!(r.score, 4 * 380 - 12 * 51 - 4 * 65);
}

#[test]
fn full_board_has_no_legal_move() {
    let ai = TetrisAI::new();
    let r = ai.get_best_move(&[1, 1, 1, 1], 2, 2, &[1], 1, 1);
    assert_eq!(r, Err(MoveError::NoLegalMove));
    let wide = ai.get_best_move(&[0, 0], 2, 1, &[1, 1, 1], 3, 1);
    assert_eq!(wide, Err(MoveError::NoLegalMove));
}

#[test]
fn mismatched_buffers_are_rejected() {
    let ai = TetrisAI::new();
    assert_eq!(ai.get_best_move(&[0; 15], 4, 4, &[1], 1, 1), Err(MoveError::GridSizeMismatch));
    assert_eq!(ai.get_best_move(&[0; 16], 4, 4, &[1, 1], 1, 1), Err(MoveError::PieceSizeMismatch));
    assert_eq!(
        ai.get_best_move(&[0; 16], usize::MAX, 2, &[1], 1, 1),
        Err(MoveError::GridSizeMismatch)
    );
    assert_eq!(
        ai.get_best_move_with_lookahead(&[0; 16], 4, 4, &[1], 1, 1, &[1, 1, 1], 2, 2),
        Err(MoveError::NextPieceSizeMismatch)
    );
}

#[test]
fn oversized_board_is_rejected() {
    let ai = TetrisAI::new();
    assert_eq!(ai.get_best_move(&[], 0, MAX_DEPTH_SUM + 1, &[1], 1, 1), Err(MoveError::BoardTooLarge));
    // One column, 40000 rows: width * height * height is 1.6e9, over 2^30.
    let tall = vec![0; 40000];
    assert_eq!(ai.get_best_move(&tall, 1, 40000, &[1], 1, 1), Err(MoveError::BoardTooLarge));
    assert_eq!(
        ai.get_best_move_with_lookahead(&tall, 1, 40000, &[1], 1, 1, &[1], 1, 1),
        Err(MoveError::BoardTooLarge)
    );
    assert_eq!(
        ai.get_best_move_with_lookahead(&[], 0, MAX_DEPTH_SUM + 1, &[1], 1, 1, &[1], 1, 1),
        Err(MoveError::BoardTooLarge)
    );
}

#[test]
fn wide_board_without_rows_has_no_move() {
    let ai = TetrisAI::new();
    // Height 0 is within the budget at any width; nothing can land.
    assert_eq!(ai.get_best_move(&[], usize::MAX, 0, &[1], 1, 1), Err(MoveError::NoLegalMove));
}

#[test]
fn tall_narrow_board_within_budget_is_scored() {
    let ai = TetrisAI::new();
    // 2 wide and 2000 tall: width * height * height is 8e6, within 2^30.
    let grid = vec![0; 4000];
    let r = ai.get_best_move(&grid, 2, 2000, &[1], 1, 1).unwrap();
    assert_eq!((r.x, r.y, r.rotation), (0, 1999, 0));
}

#[test]
fn lookahead_combines_discounted_future() {
    let ai = TetrisAI::new();
    let grid = vec![0; 16];
    let r = ai.get_best_move_with_lookahead(&grid, 4, 4, &[1], 1, 1, &[1], 1, 1);
    // Immediate -152; the next piece's best reply scores -203;
    // -152 + 0.75 * -203 = -304.25, rounded to -304.
    assert_eq!(r, Ok(Move { x: 0, y: 3, rotation: 0, score: -304 }));
}

#[test]
fn empty_beam_is_not_a_valid_setting() {
    assert!(TetrisAI::with_settings(0, 3, 4, Weights::standard()).is_none());
    assert!(TetrisAI::with_settings(1, 3, 4, Weights::standard()).is_some());
}

#[test]
fn lookahead_without_room_for_next_piece_keeps_best_immediate() {
    let ai = TetrisAI::new();
    // The current piece fits, but a bar of three never fits a board two wide:
    // the best immediate placement comes back with its immediate score
    // (heights 1 and 0, a well of depth 1: -0.36 - 0.51 - 0.65 - 0.12).
    let r = ai.get_best_move_with_lookahead(&[0; 4], 2, 2, &[1], 1, 1, &[1, 1, 1], 3, 1);
    assert_eq!(r, Ok(Move { x: 0, y: 1, rotation: 0, score: -164 }));
}

#[test]
fn lookahead_on_full_board_has_no_move() {
    let ai = TetrisAI::new();
    let r = ai.get_best_move_with_lookahead(&[1; 4], 2, 2, &[1], 1, 1, &[1], 1, 1);
    assert_eq!(r, Err(MoveError::NoLegalMove));
}

#[test]
fn lookahead_clears_completed_row_before_next_piece() {
    let ai = TetrisAI::new();
    // The current piece completes the bottom row; once it is cleared the
    // board is empty again and the next piece lands on the floor.
    let r = ai.get_best_move_with_lookahead(&[0, 0, 1, 0], 2, 2, &[1], 1, 1, &[1], 1, 1).unwrap();
    assert_eq!((r.x, r.y, r.rotation), (1, 1, 0));
    // Immediate: 1 row, heights 1 and 1: 3.80 - 1.02 - 0.65 = 2.13.
    // Future on the cleared 2x2 board: heights 1, 0 and a well of depth 1:
    // -0.36 - 0.51 - 0.65 - 0.12 = -1.64. 213 + 0.75 * -164 = 90.
    assert_eq!(r.score, 90);
}

#[test]
fn lookahead_beam_of_one_keeps_top_candidate() {
    let ai = TetrisAI::with_settings(1, 1, 2, Weights::standard()).unwrap();
    let r = ai.get_best_move_with_lookahead(&[0; 16], 4, 4, &[1], 1, 1, &[1], 1, 1).unwrap();
    // -152 + 0.5 * -203 = -253.5, rounded away from zero.
    assert_eq!(r, Move { x: 0, y: 3, rotation: 0, score: -254 });
}

#[test]
fn settings_are_validated() {
    assert!(TetrisAI::with_settings(5, 3, 4, Weights::standard()).is_some());
    assert!(TetrisAI::with_settings(5, 5, 4, Weights::standard()).is_none());
    assert!(TetrisAI::with_settings(5, 0, 0, Weights::standard()).is_none());
    let mut w = Weights::standard();
    w.lines = 0;
    assert!(TetrisAI::with_settings(5, 3, 4, w).is_none());
    let ai = TetrisAI::new();
    assert_eq!(ai.beam_width, 5);
    assert_eq!((ai.discount_num, ai.discount_den), (3, 4));
    assert_eq!(ai.weights, Weights::standard());
}
