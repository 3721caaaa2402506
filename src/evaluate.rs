//! The weighted board score.
use vstd::prelude::*;
use crate::bitmap::{Bitmap, Grid, Shape};
use crate::features::{
    aggregate_height, bumpiness, complete_lines, holes, max_height, wells,
    calculate_aggregate_height, calculate_bumpiness, calculate_complete_lines, calculate_holes,
    calculate_max_height, calculate_wells,
};
use crate::placement::{stamp, place_piece_on_grid};

verus! {

/// The largest weight a configuration may give one feature.
pub const MAX_WEIGHT: i64 = 10000;

/// Every board score of a bounded board lies within plus or minus this.
pub const SCORE_LIMIT: i64 = 0x4000_0000_0000;

/// Feature weights, in hundredths of a point per unit of the feature.
/// Complete rows count for the score; every other feature counts against it.
#[derive(Clone, Copy, Debug, PartialEq, Eq, Structural)]
pub struct Weights {
    pub lines: i64,
    pub holes: i64,
    pub bumpiness: i64,
    pub aggregate_height: i64,
    pub max_height: i64,
    pub wells: i64,
}

impl Weights {
    /// Every weight lies in `0..=MAX_WEIGHT`, and complete rows weigh more
    /// than nothing.
    pub open spec fn wf(self) -> bool {
        &&& 0 < self.lines <= MAX_WEIGHT
        &&& 0 <= self.holes <= MAX_WEIGHT
        &&& 0 <= self.bumpiness <= MAX_WEIGHT
        &&& 0 <= self.aggregate_height <= MAX_WEIGHT
        &&& 0 <= self.max_height <= MAX_WEIGHT
        &&& 0 <= self.wells <= MAX_WEIGHT
    }

    /// The tuned weights.
    pub fn standard() -> (r: Weights)
        ensures
            r.wf(),
            r == standard_weights(),
    {
        Weights { lines: 380, holes: 80, bumpiness: 36, aggregate_height: 51, max_height: 65, wells: 12 }
    }
}

/// 3.8 per complete row, 0.8 per hole, 0.36 per unit of bumpiness, 0.51 per
/// unit of aggregate height, 0.65 per unit of maximum height and 0.12 per
/// unit of well depth.
pub open spec fn standard_weights() -> Weights {
    Weights { lines: 380, holes: 80, bumpiness: 36, aggregate_height: 51, max_height: 65, wells: 12 }
}

/// The score of a board, in hundredths of a point.
pub open spec fn board_score(w: Weights, b: Bitmap) -> int {
    w.lines * complete_lines(b) - w.holes * holes(b) - w.bumpiness * bumpiness(b)
        - w.aggregate_height * aggregate_height(b) - w.max_height * max_height(b) - w.wells * wells(b)
}

/// The score of the board after the piece is stamped at column `x`, row `y`.
pub open spec fn placement_score(w: Weights, g: Bitmap, p: Bitmap, x: int, y: int) -> int {
    board_score(w, stamp(g, p, x, y))
}

/// Of two boards whose features agree except that the first has more
/// complete rows, the first scores strictly higher.
pub proof fn lemma_line_clear_dominance(w: Weights, a: Bitmap, b: Bitmap)
    requires
        w.wf(),
        complete_lines(a) > complete_lines(b),
        holes(a) == holes(b),
        bumpiness(a) == bumpiness(b),
        aggregate_height(a) == aggregate_height(b),
        max_height(a) == max_height(b),
        wells(a) == wells(b),
    ensures
        board_score(w, a) > board_score(w, b),
{
    assert(w.lines * complete_lines(a) > w.lines * complete_lines(b)) by (nonlinear_arith)
        requires w.lines > 0, complete_lines(a) > complete_lines(b);
}

/// Of two placements whose stamped boards agree on holes, bumpiness,
/// aggregate height, maximum height and wells, the one that leaves more
/// complete rows is scored strictly higher.
pub proof fn lemma_line_clear_dominance_placements(
    w: Weights,
    g1: Bitmap,
    p1: Bitmap,
    x1: int,
    y1: int,
    g2: Bitmap,
    p2: Bitmap,
    x2: int,
    y2: int,
)
    requires
        w.wf(),
        complete_lines(stamp(g1, p1, x1, y1)) > complete_lines(stamp(g2, p2, x2, y2)),
        holes(stamp(g1, p1, x1, y1)) == holes(stamp(g2, p2, x2, y2)),
        bumpiness(stamp(g1, p1, x1, y1)) == bumpiness(stamp(g2, p2, x2, y2)),
        aggregate_height(stamp(g1, p1, x1, y1)) == aggregate_height(stamp(g2, p2, x2, y2)),
        max_height(stamp(g1, p1, x1, y1)) == max_height(stamp(g2, p2, x2, y2)),
        wells(stamp(g1, p1, x1, y1)) == wells(stamp(g2, p2, x2, y2)),
    ensures
        placement_score(w, g1, p1, x1, y1) > placement_score(w, g2, p2, x2, y2),
{
    lemma_line_clear_dominance(w, stamp(g1, p1, x1, y1), stamp(g2, p2, x2, y2));
}

/// Scores a board.
pub fn evaluate_board(weights: &Weights, grid: &Grid) -> (r: i64)
    requires
        weights.wf(),
        grid@.wf(),
        grid@.bounded(),
    ensures
        r == board_score(*weights, grid@),
        -SCORE_LIMIT <= r <= SCORE_LIMIT,
{
    let lines = calculate_complete_lines(grid);
    let hole_count = calculate_holes(grid);
    let bump = calculate_bumpiness(grid);
    let total = calculate_aggregate_height(grid);
    let top = calculate_max_height(grid);
    let well_sum = calculate_wells(grid);
    let gw = grid.width;
    let gh = grid.height;
    let ghost budget: int = 1073741824;
    assert(gw * gh <= budget) by (nonlinear_arith)
        requires gw * gh * gh <= budget, 0 <= gw, 0 <= gh, budget >= 0;
    let wt = *weights;
    assert(0 <= wt.lines * lines <= 10000 * budget) by (nonlinear_arith)
        requires 0 <= wt.lines <= 10000, 0 <= lines <= budget;
    assert(0 <= wt.holes * hole_count <= 10000 * budget) by (nonlinear_arith)
        requires 0 <= wt.holes <= 10000, 0 <= hole_count <= budget;
    assert(0 <= wt.bumpiness * bump <= 10000 * budget) by (nonlinear_arith)
        requires 0 <= wt.bumpiness <= 10000, 0 <= bump <= budget;
    assert(0 <= wt.aggregate_height * total <= 10000 * budget) by (nonlinear_arith)
        requires 0 <= wt.aggregate_height <= 10000, 0 <= total <= budget;
    assert(0 <= wt.max_height * top <= 10000 * budget) by (nonlinear_arith)
        requires 0 <= wt.max_height <= 10000, 0 <= top <= budget;
    assert(0 <= wt.wells * well_sum <= 10000 * budget) by (nonlinear_arith)
        requires 0 <= wt.wells <= 10000, 0 <= well_sum <= budget;
    let a = wt.lines * (lines as i64);
    let b = wt.holes * (hole_count as i64);
    let c = wt.bumpiness * (bump as i64);
    let d = wt.aggregate_height * (total as i64);
    let e = wt.max_height * (top as i64);
    let f = wt.wells * (well_sum as i64);
    a - b - c - d - e - f
}

/// Stamps the piece onto a copy of the board at column `x`, row `y` and
/// scores the result.
pub fn evaluate_position(weights: &Weights, grid: &Grid, piece: &Shape, x: usize, y: usize) -> (r: i64)
    requires
        weights.wf(),
        grid@.wf(),
        grid@.bounded(),
        piece@.wf(),
    ensures
        r == placement_score(*weights, grid@, piece@, x as int, y as int),
        -SCORE_LIMIT <= r <= SCORE_LIMIT,
{
    let placed = place_piece_on_grid(grid, piece, x, y);
    evaluate_board(weights, &placed)
}

} // verus!
