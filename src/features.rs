//! Board features: column heights, holes, bumpiness, wells, complete rows.
use vstd::prelude::*;
use crate::bitmap::{Bitmap, Grid, lemma_index_in_range};

verus! {

/// The first occupied row at or below row `r` in column `c`, or the board
/// height when there is none.
pub open spec fn top_from(g: Bitmap, c: int, r: int) -> int
    decreases g.height - r,
{
    if r >= g.height {
        g.height as int
    } else if g.filled(r, c) {
        r
    } else {
        top_from(g, c, r + 1)
    }
}

/// Rows from the topmost occupied cell of column `c` down to the floor; 0
/// for an empty column.
pub open spec fn column_height(g: Bitmap, c: int) -> int {
    g.height - top_from(g, c, 0)
}

/// Sum of the heights of the first `n` columns.
pub open spec fn sum_heights(g: Bitmap, n: int) -> int
    decreases n,
{
    if n <= 0 {
        0
    } else {
        sum_heights(g, n - 1) + column_height(g, n - 1)
    }
}

/// Largest height among the first `n` columns, 0 when `n` is 0.
pub open spec fn max_heights(g: Bitmap, n: int) -> int
    decreases n,
{
    if n <= 0 {
        0
    } else if column_height(g, n - 1) > max_heights(g, n - 1) {
        column_height(g, n - 1)
    } else {
        max_heights(g, n - 1)
    }
}

pub open spec fn abs_diff(a: int, b: int) -> int {
    if a >= b {
        a - b
    } else {
        b - a
    }
}

/// Sum of the height differences of adjacent columns among the first `n`.
pub open spec fn bump_upto(g: Bitmap, n: int) -> int
    decreases n,
{
    if n <= 1 {
        0
    } else {
        bump_upto(g, n - 1) + abs_diff(column_height(g, n - 1), column_height(g, n - 2))
    }
}

pub open spec fn aggregate_height(g: Bitmap) -> int {
    sum_heights(g, g.width as int)
}

pub open spec fn max_height(g: Bitmap) -> int {
    max_heights(g, g.width as int)
}

pub open spec fn bumpiness(g: Bitmap) -> int {
    bump_upto(g, g.width as int)
}

/// Every cell of row `r` is occupied.
pub open spec fn row_full(g: Bitmap, r: int) -> bool {
    forall|c: int| 0 <= c < g.width ==> #[trigger] g.filled(r, c)
}

/// Number of full rows among the first `n`.
pub open spec fn full_rows_upto(g: Bitmap, n: int) -> int
    decreases n,
{
    if n <= 0 {
        0
    } else {
        full_rows_upto(g, n - 1) + if row_full(g, n - 1) { 1int } else { 0int }
    }
}

pub open spec fn complete_lines(g: Bitmap) -> int {
    full_rows_upto(g, g.height as int)
}

/// An empty cell with an occupied cell somewhere above it in its column.
pub open spec fn is_hole(g: Bitmap, r: int, c: int) -> bool {
    &&& !g.filled(r, c)
    &&& exists|k: int| 0 <= k < r && #[trigger] g.filled(k, c)
}

/// Holes among the first `n` rows of column `c`.
pub open spec fn holes_in_column(g: Bitmap, c: int, n: int) -> int
    decreases n,
{
    if n <= 0 {
        0
    } else {
        holes_in_column(g, c, n - 1) + if is_hole(g, n - 1, c) { 1int } else { 0int }
    }
}

/// Holes in the first `n` columns.
pub open spec fn holes_upto(g: Bitmap, n: int) -> int
    decreases n,
{
    if n <= 0 {
        0
    } else {
        holes_upto(g, n - 1) + holes_in_column(g, n - 1, g.height as int)
    }
}

pub open spec fn holes(g: Bitmap) -> int {
    holes_upto(g, g.width as int)
}

/// An empty cell whose left and right neighbours are occupied or walls.
pub open spec fn is_well_top(g: Bitmap, r: int, c: int) -> bool {
    &&& !g.filled(r, c)
    &&& (c == 0 || g.filled(r, c - 1))
    &&& (c == g.width - 1 || g.filled(r, c + 1))
}

/// Length of the run of empty cells in column `c` from row `r` downward.
pub open spec fn run_below(g: Bitmap, c: int, r: int) -> int
    decreases g.height - r,
{
    if r >= g.height || g.filled(r, c) {
        0
    } else {
        1 + run_below(g, c, r + 1)
    }
}

pub open spec fn well_depth_at(g: Bitmap, r: int, c: int) -> int {
    if is_well_top(g, r, c) {
        run_below(g, c, r)
    } else {
        0
    }
}

/// Well depths over the first `n` rows of column `c`.
pub open spec fn wells_in_column(g: Bitmap, c: int, n: int) -> int
    decreases n,
{
    if n <= 0 {
        0
    } else {
        wells_in_column(g, c, n - 1) + well_depth_at(g, n - 1, c)
    }
}

/// Well depths over the first `n` columns.
pub open spec fn wells_upto(g: Bitmap, n: int) -> int
    decreases n,
{
    if n <= 0 {
        0
    } else {
        wells_upto(g, n - 1) + wells_in_column(g, n - 1, g.height as int)
    }
}

pub open spec fn wells(g: Bitmap) -> int {
    wells_upto(g, g.width as int)
}

/// An empty run from row `r` never reaches past the floor.
pub proof fn lemma_run_below_range(g: Bitmap, c: int, r: int)
    requires
        0 <= r <= g.height,
    ensures
        0 <= run_below(g, c, r) <= g.height - r,
    decreases g.height - r,
{
    if r < g.height && !g.filled(r, c) {
        lemma_run_below_range(g, c, r + 1);
    }
}

/// An empty column holds no hole.
pub proof fn lemma_empty_column_has_no_holes(g: Bitmap, c: int, n: int)
    requires
        forall|r: int| 0 <= r < g.height ==> !#[trigger] g.filled(r, c),
        n <= g.height,
    ensures
        holes_in_column(g, c, n) == 0,
    decreases n,
{
    if n > 0 {
        lemma_empty_column_has_no_holes(g, c, n - 1);
        assert(!is_hole(g, n - 1, c));
    }
}

/// A column whose top cell is occupied and whose next three cells are
/// empty has exactly three holes among its first four rows.
pub proof fn lemma_three_holes_under_cap(g: Bitmap, c: int)
    requires
        g.height >= 4,
        g.filled(0, c),
        !g.filled(1, c),
        !g.filled(2, c),
        !g.filled(3, c),
    ensures
        holes_in_column(g, c, 4) == 3,
{
    assert(!is_hole(g, 0, c));
    assert(is_hole(g, 1, c));
    assert(is_hole(g, 2, c));
    assert(is_hole(g, 3, c));
    assert(holes_in_column(g, c, 0) == 0);
    assert(holes_in_column(g, c, 1) == 0);
    assert(holes_in_column(g, c, 2) == 1);
    assert(holes_in_column(g, c, 3) == 2);
}

/// Height of column `col`.
pub fn get_column_height(grid: &Grid, col: usize) -> (r: usize)
    requires
        grid@.wf(),
        col < grid.width,
    ensures
        r == column_height(grid@, col as int),
        r <= grid.height,
{
    let gw = grid.width;
    let gh = grid.height;
    let glen = grid.cells.len();
    let mut row: usize = 0;
    while row < gh
        invariant
            grid@.wf(),
            gw == grid.width,
            gh == grid.height,
            glen == grid.cells@.len(),
            col < gw,
            row <= gh,
            top_from(grid@, col as int, 0) == top_from(grid@, col as int, row as int),
        decreases gh - row,
    {
        proof {
            lemma_index_in_range(gw as int, gh as int, row as int, col as int);
        }
        if grid.cells[row * gw + col] != 0 {
            return gh - row;
        }
        row = row + 1;
    }
    0
}

/// Sum of all column heights.
pub fn calculate_aggregate_height(grid: &Grid) -> (r: usize)
    requires
        grid@.wf(),
    ensures
        r == aggregate_height(grid@),
        r <= grid.width * grid.height,
{
    let gw = grid.width;
    let gh = grid.height;
    let glen = grid.cells.len();
    let mut total: usize = 0;
    let mut col: usize = 0;
    while col < gw
        invariant
            grid@.wf(),
            gw == grid.width,
            gh == grid.height,
            glen == grid.cells@.len(),
            col <= gw,
            total == sum_heights(grid@, col as int),
            total <= col * gh,
        decreases gw - col,
    {
        let h = get_column_height(grid, col);
        assert((col + 1) * gh == col * gh + gh) by (nonlinear_arith);
        assert((col + 1) * gh <= gw * gh) by (nonlinear_arith)
            requires col < gw;
        total = total + h;
        col = col + 1;
    }
    total
}

/// Largest column height.
pub fn calculate_max_height(grid: &Grid) -> (r: usize)
    requires
        grid@.wf(),
    ensures
        r == max_height(grid@),
        r <= grid.height,
{
    let gw = grid.width;
    let mut best: usize = 0;
    let mut col: usize = 0;
    while col < gw
        invariant
            grid@.wf(),
            gw == grid.width,
            col <= gw,
            best == max_heights(grid@, col as int),
            best <= grid.height,
        decreases gw - col,
    {
        let h = get_column_height(grid, col);
        if h > best {
            best = h;
        }
        col = col + 1;
    }
    best
}

/// Sum over adjacent column pairs of the difference of their heights.
pub fn calculate_bumpiness(grid: &Grid) -> (r: usize)
    requires
        grid@.wf(),
    ensures
        r == bumpiness(grid@),
        r <= grid.width * grid.height,
{
    let gw = grid.width;
    let gh = grid.height;
    let glen = grid.cells.len();
    let mut bump: usize = 0;
    let mut prev: usize = 0;
    let mut col: usize = 0;
    while col < gw
        invariant
            grid@.wf(),
            gw == grid.width,
            gh == grid.height,
            glen == grid.cells@.len(),
            col <= gw,
            col > 0 ==> prev == column_height(grid@, col - 1),
            prev <= gh,
            bump == bump_upto(grid@, col as int),
            bump <= col * gh,
        decreases gw - col,
    {
        let h = get_column_height(grid, col);
        assert((col + 1) * gh == col * gh + gh) by (nonlinear_arith);
        assert((col + 1) * gh <= gw * gh) by (nonlinear_arith)
            requires col < gw;
        if col > 0 {
            let d = if h >= prev { h - prev } else { prev - h };
            bump = bump + d;
        }
        prev = h;
        col = col + 1;
    }
    bump
}

/// Whether every cell of row `row` is occupied.
pub fn row_is_full(grid: &Grid, row: usize) -> (r: bool)
    requires
        grid@.wf(),
        row < grid.height,
    ensures
        r == row_full(grid@, row as int),
{
    let gw = grid.width;
    let gh = grid.height;
    let glen = grid.cells.len();
    let mut col: usize = 0;
    while col < gw
        invariant
            grid@.wf(),
            gw == grid.width,
            gh == grid.height,
            glen == grid.cells@.len(),
            row < gh,
            col <= gw,
            forall|c: int| 0 <= c < col ==> #[trigger] grid@.filled(row as int, c),
        decreases gw - col,
    {
        proof {
            lemma_index_in_range(gw as int, gh as int, row as int, col as int);
        }
        if grid.cells[row * gw + col] == 0 {
            assert(!grid@.filled(row as int, col as int));
            return false;
        }
        col = col + 1;
    }
    true
}

/// Number of fully occupied rows.
pub fn calculate_complete_lines(grid: &Grid) -> (r: usize)
    requires
        grid@.wf(),
    ensures
        r == complete_lines(grid@),
        r <= grid.height,
{
    let gh = grid.height;
    let mut lines: usize = 0;
    let mut row: usize = 0;
    while row < gh
        invariant
            grid@.wf(),
            gh == grid.height,
            row <= gh,
            lines == full_rows_upto(grid@, row as int),
            lines <= row,
        decreases gh - row,
    {
        if row_is_full(grid, row) {
            lines = lines + 1;
        }
        row = row + 1;
    }
    lines
}

/// Number of empty cells lying below an occupied cell of their column.
pub fn calculate_holes(grid: &Grid) -> (r: usize)
    requires
        grid@.wf(),
    ensures
        r == holes(grid@),
        r <= grid.width * grid.height,
{
    let gw = grid.width;
    let gh = grid.height;
    let glen = grid.cells.len();
    let ghost g = grid@;
    let mut count: usize = 0;
    let mut col: usize = 0;
    while col < gw
        invariant
            g == grid@,
            g.wf(),
            gw == grid.width,
            gh == grid.height,
            glen == grid.cells@.len(),
            col <= gw,
            count == holes_upto(g, col as int),
            count <= col * gh,
        decreases gw - col,
    {
        let mut found = false;
        let mut row: usize = 0;
        assert((col + 1) * gh == col * gh + gh) by (nonlinear_arith);
        assert((col + 1) * gh <= gw * gh) by (nonlinear_arith)
            requires col < gw;
        while row < gh
            invariant
                g == grid@,
                g.wf(),
                gw == grid.width,
                gh == grid.height,
                glen == grid.cells@.len(),
                col < gw,
                row <= gh,
                found == exists|k: int| 0 <= k < row && #[trigger] g.filled(k, col as int),
                count == holes_upto(g, col as int) + holes_in_column(g, col as int, row as int),
                count <= col * gh + row,
                (col + 1) * gh <= gw * gh,
                (col + 1) * gh == col * gh + gh,
            decreases gh - row,
        {
            proof {
                lemma_index_in_range(gw as int, gh as int, row as int, col as int);
            }
            if grid.cells[row * gw + col] != 0 {
                assert(g.filled(row as int, col as int));
                found = true;
            } else if found {
                count = count + 1;
            }
            row = row + 1;
        }
        col = col + 1;
    }
    count
}

/// Sum, over every empty cell flanked by occupied cells or walls, of the run
/// of empty cells from it down to the first occupied cell.
pub fn calculate_wells(grid: &Grid) -> (r: usize)
    requires
        grid@.wf(),
        grid@.bounded(),
    ensures
        r == wells(grid@),
        r <= grid.width * grid.height * grid.height,
{
    let gw = grid.width;
    let gh = grid.height;
    let glen = grid.cells.len();
    let ghost g = grid@;
    let mut total: usize = 0;
    let mut col: usize = 0;
    while col < gw
        invariant
            g == grid@,
            g.wf(),
            g.bounded(),
            gw == grid.width,
            gh == grid.height,
            gw * gh * gh <= 1073741824,
            glen == grid.cells@.len(),
            col <= gw,
            total == wells_upto(g, col as int),
            total <= col * gh * gh,
        decreases gw - col,
    {
        let mut row: usize = 0;
        assert((col + 1) * gh * gh == col * gh * gh + gh * gh) by (nonlinear_arith);
        assert((col + 1) * gh * gh <= gw * gh * gh) by (nonlinear_arith)
            requires col < gw;
        while row < gh
            invariant
                g == grid@,
                g.wf(),
                gw == grid.width,
                gh == grid.height,
                gw * gh * gh <= 1073741824,
                glen == grid.cells@.len(),
                col < gw,
                row <= gh,
                total == wells_upto(g, col as int) + wells_in_column(g, col as int, row as int),
                total <= col * gh * gh + row * gh,
                (col + 1) * gh * gh <= gw * gh * gh,
                (col + 1) * gh * gh == col * gh * gh + gh * gh,
            decreases gh - row,
        {
            proof {
                lemma_index_in_range(gw as int, gh as int, row as int, col as int);
                lemma_run_below_range(g, col as int, row as int);
                assert((row + 1) * gh == row * gh + gh) by (nonlinear_arith);
                assert((row + 1) * gh <= gh * gh) by (nonlinear_arith)
                    requires row < gh;
            }
            if grid.cells[row * gw + col] == 0 {
                let left_blocked = if col == 0 {
                    true
                } else {
                    proof {
                        lemma_index_in_range(gw as int, gh as int, row as int, col - 1);
                    }
                    grid.cells[row * gw + (col - 1)] != 0
                };
                let right_blocked = if col == gw - 1 {
                    true
                } else {
                    proof {
                        lemma_index_in_range(gw as int, gh as int, row as int, col + 1);
                    }
                    grid.cells[row * gw + (col + 1)] != 0
                };
                if left_blocked && right_blocked {
                    let mut depth: usize = 0;
                    let mut below: usize = row;
                    loop
                        invariant
                            g == grid@,
                            g.wf(),
                            gw == grid.width,
                            gh == grid.height,
                            glen == grid.cells@.len(),
                            col < gw,
                            row <= below <= gh,
                            depth == below - row,
                            run_below(g, col as int, row as int) == depth + run_below(g, col as int, below as int),
                        ensures
                            run_below(g, col as int, below as int) == 0,
                            depth == below - row,
                            below <= gh,
                        decreases gh - below,
                    {
                        if below >= gh {
                            break;
                        }
                        proof {
                            lemma_index_in_range(gw as int, gh as int, below as int, col as int);
                        }
                        if grid.cells[below * gw + col] != 0 {
                            break;
                        }
                        depth = depth + 1;
                        below = below + 1;
                    }
                    total = total + depth;
                }
            }
            row = row + 1;
        }
        col = col + 1;
    }
    total
}

} // verus!
