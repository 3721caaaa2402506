use tetris_ai::evaluate::{evaluate_board, evaluate_position, Weights};
use tetris_ai::features::{
    calculate_aggregate_height, calculate_bumpiness, calculate_complete_lines, calculate_holes,
    calculate_max_height, calculate_wells, get_column_height,
};
use tetris_ai::placement::{can_place, clear_lines_from_grid, find_landing_position, place_piece_on_grid};
use tetris_ai::rotation::{rotate_piece, rotate_quarter};
use tetris_ai::{Grid, Shape};

fn grid(cells: Vec<i32>, width: usize, height: usize) -> Grid {
    Grid { cells, width, height }
}

fn shape(cells: Vec<i32>, width: usize, height: usize) -> Shape {
    Shape { cells, width, height }
}

fn l_piece() -> Shape {
    // X.
    // X.
    // XX
    shape(vec![1, 0, 1, 0, 1, 1], 2, 3)
}

#[test]
fn rotate_quarter_turns_clockwise() {
    let r = rotate_quarter(&l_piece());
    assert_eq!(r.width, 3);
    assert_eq!(r.height, 2);
    // XXX
    // X..
    assert_eq!(r.cells, vec![1, 1, 1, 1, 0, 0]);
}

#[test]
fn rotate_piece_four_turns_is_identity() {
    let p = l_piece();
    let r = rotate_piece(&p, 4);
    assert_eq!(r.cells, p.cells);
    assert_eq!((r.width, r.height), (2, 3));
    let zero = rotate_piece(&p, 0);
    assert_eq!(zero.cells, p.cells);
    assert_eq!((zero.width, zero.height), (2, 3));
    let mut step = shape(p.cells.clone(), 2, 3);
    for _ in 0..4 {
        step = rotate_quarter(&step);
    }
    assert_eq!(step.cells, p.cells);
    assert_eq!((step.width, step.height), (2, 3));
}

#[test]
fn rotate_piece_counts_modulo_four() {
    let p = l_piece();
    let two = rotate_piece(&p, 2);
    let six = rotate_piece(&p, 6);
    assert_eq!(two.cells, six.cells);
    // XX
    // .X
    // .X
    assert_eq!(two.cells, vec![1, 1, 0, 1, 0, 1]);
}

#[test]
fn can_place_rejects_collision_and_out_of_bounds() {
    let mut cells = vec![0; 16];
    cells[2 * 4 + 1] = 5;
    let g = grid(cells, 4, 4);
    let p = shape(vec![1, 1], 2, 1);
    assert!(can_place(&g, &p, 0, 0));
    assert!(!can_place(&g, &p, 0, 2));
    assert!(!can_place(&g, &p, 1, 2));
    assert!(can_place(&g, &p, 2, 2));
    assert!(!can_place(&g, &p, 3, 0));
    assert!(!can_place(&g, &p, 0, 4));
}

#[test]
fn can_place_ignores_empty_piece_cells() {
    let mut cells = vec![0; 9];
    cells[0] = 1;
    let g = grid(cells, 3, 3);
    let p = shape(vec![0, 1, 1, 1], 2, 2);
    assert!(can_place(&g, &p, 0, 0));
}

#[test]
fn landing_on_empty_board_reaches_floor() {
    let g = grid(vec![0; 40], 4, 10);
    let p = l_piece();
    assert_eq!(find_landing_position(&g, &p, 0), Some(7));
    assert_eq!(find_landing_position(&g, &p, 2), Some(7));
    let bar = shape(vec![1, 1, 1, 1], 1, 4);
    assert_eq!(find_landing_position(&g, &bar, 3), Some(6));
}

#[test]
fn landing_stops_above_blocks() {
    let mut cells = vec![0; 20];
    cells[3 * 4] = 1;
    let g = grid(cells, 4, 5);
    let p = shape(vec![1], 1, 1);
    assert_eq!(find_landing_position(&g, &p, 0), Some(2));
    assert_eq!(find_landing_position(&g, &p, 1), Some(4));
}

#[test]
fn landing_none_when_spawn_blocked() {
    let mut cells = vec![0; 16];
    cells[1] = 1;
    let g = grid(cells, 4, 4);
    let p = shape(vec![1, 1], 2, 1);
    assert_eq!(find_landing_position(&g, &p, 0), None);
    assert_eq!(find_landing_position(&g, &p, 2), Some(3));
    let flat = grid(vec![], 4, 0);
    assert_eq!(find_landing_position(&flat, &p, 0), None);
}

#[test]
fn place_piece_marks_cells_and_skips_outside() {
    let g = grid(vec![0; 9], 3, 3);
    let p = shape(vec![1, 1, 0, 1], 2, 2);
    let placed = place_piece_on_grid(&g, &p, 2, 2);
    assert_eq!(placed.cells, vec![0, 0, 0, 0, 0, 0, 0, 0, 1]);
    let inside = place_piece_on_grid(&g, &p, 0, 1);
    assert_eq!(inside.cells, vec![0, 0, 0, 1, 1, 0, 0, 1, 0]);
    assert_eq!(g.cells, vec![0; 9]);
}

#[test]
fn clear_lines_shifts_rows_down() {
    let g = grid(
        vec![
            0, 0, 1, //
            1, 1, 1, //
            1, 0, 1, //
            2, 3, 4, //
        ],
        3,
        4,
    );
    let (cleared, n) = clear_lines_from_grid(&g);
    assert_eq!(n, 2);
    assert_eq!(cleared.cells, vec![0, 0, 0, 0, 0, 0, 0, 0, 1, 1, 0, 1]);
    assert_eq!((cleared.width, cleared.height), (3, 4));
}

#[test]
fn clear_lines_without_full_rows_keeps_board() {
    let g = grid(vec![0, 1, 1, 0], 2, 2);
    let (cleared, n) = clear_lines_from_grid(&g);
    assert_eq!(n, 0);
    assert_eq!(cleared.cells, vec![0, 1, 1, 0]);
}

#[test]
fn hole_column_with_cap_counts_three() {
    let mut cells = vec![0; 8];
    cells[0] = 1;
    let g = grid(cells, 2, 4);
    assert_eq!(calculate_holes(&g), 3);
    let empty = grid(vec![0; 8], 2, 4);
    assert_eq!(calculate_holes(&empty), 0);
}

#[test]
fn holes_count_only_below_blocks() {
    let g = grid(
        vec![
            0, 0, //
            1, 0, //
            0, 1, //
            0, 0, //
        ],
        2,
        4,
    );
    assert_eq!(calculate_holes(&g), 3);
}

#[test]
fn column_heights_and_aggregates() {
    let g = grid(
        vec![
            0, 0, 0, 0, //
            0, 1, 0, 0, //
            1, 1, 0, 0, //
            1, 1, 0, 1, //
        ],
        4,
        4,
    );
    assert_eq!(get_column_height(&g, 0), 2);
    assert_eq!(get_column_height(&g, 1), 3);
    assert_eq!(get_column_height(&g, 2), 0);
    assert_eq!(get_column_height(&g, 3), 1);
    assert_eq!(calculate_aggregate_height(&g), 6);
    assert_eq!(calculate_max_height(&g), 3);
    assert_eq!(calculate_bumpiness(&g), 1 + 3 + 1);
}

#[test]
fn complete_lines_count_full_rows() {
    let g = grid(vec![1, 1, 0, 1, 7, 7], 2, 3);
    assert_eq!(calculate_complete_lines(&g), 2);
    let narrow = grid(vec![], 0, 3);
    assert_eq!(calculate_complete_lines(&narrow), 3);
}

#[test]
fn wells_sum_flanked_runs() {
    let g = grid(
        vec![
            1, 0, 1, //
            1, 0, 1, //
            1, 1, 1, //
        ],
        3,
        3,
    );
    // Row 0 column 1 opens a run of 2, row 1 column 1 a run of 1.
    assert_eq!(calculate_wells(&g), 3);
    let empty = grid(vec![0; 4], 1, 4);
    // A single column is walled on both sides: runs of 4, 3, 2 and 1.
    assert_eq!(calculate_wells(&empty), 10);
}

#[test]
fn evaluate_board_weights_features() {
    let w = Weights::standard();
    let g = grid(vec![0, 0, 0, 0, 0, 0, 0, 0, 0, 0, 0, 0, 1, 0, 0, 0], 4, 4);
    // Heights 1, 0, 0, 0: bumpiness 1, aggregate 1, max 1.
    assert_eq!(evaluate_board(&w, &g), -36 - 51 - 65);
}

#[test]
fn evaluate_position_stamps_then_scores() {
    let w = Weights::standard();
    let g = grid(vec![0; 16], 4, 4);
    let p = shape(vec![1], 1, 1);
    assert_eq!(evaluate_position(&w, &g, &p, 0, 3), -152);
    assert_eq!(evaluate_position(&w, &g, &p, 1, 3), -72 - 51 - 65 - 12);
    assert_eq!(g.cells, vec![0; 16]);
}

#[test]
fn completed_row_scores_higher_than_open_row() {
    let w = Weights::standard();
    // Both boards: 1 hole, bumpiness 2, aggregate height 6, max height 3,
    // well depth 2. Only the first completes its bottom row.
    let full = grid(vec![0, 0, 1, 0, 1, 0, 1, 1, 1], 3, 3);
    let open = grid(vec![0, 0, 1, 0, 1, 1, 1, 0, 1], 3, 3);
    for g in [&full, &open] {
        assert_eq!(calculate_holes(g), 1);
        assert_eq!(calculate_bumpiness(g), 2);
        assert_eq!(calculate_aggregate_height(g), 6);
        assert_eq!(calculate_max_height(g), 3);
        assert_eq!(calculate_wells(g), 2);
    }
    assert_eq!(calculate_complete_lines(&full), 1);
    assert_eq!(calculate_complete_lines(&open), 0);
    assert_eq!(evaluate_board(&w, &full), 380 - 80 - 72 - 306 - 195 - 24);
    assert_eq!(evaluate_board(&w, &open), -80 - 72 - 306 - 195 - 24);
    assert!(evaluate_board(&w, &full) > evaluate_board(&w, &open));
}
