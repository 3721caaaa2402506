//! Collision checks, gravity drops and stamping a piece onto a board.
use vstd::prelude::*;
use crate::bitmap::{Bitmap, Grid, Shape, lemma_index_in_range, lemma_index_split};
use crate::rotation::copy_cells;
use crate::features::{row_full, full_rows_upto, complete_lines, row_is_full, calculate_complete_lines};

verus! {

/// The piece cell in row `py`, column `px` lands on board row `y + py`,
/// column `x + px`.
pub open spec fn fits(g: Bitmap, p: Bitmap, x: int, y: int) -> bool {
    forall|py: int, px: int|
        0 <= py < p.height && 0 <= px < p.width && #[trigger] p.filled(py, px) ==> {
            &&& g.in_bounds(y + py, x + px)
            &&& !g.filled(y + py, x + px)
        }
}

/// The row reached by dropping a piece that fits at row `y` one row at a
/// time until the next row down would collide or leave the board.
pub open spec fn drop_from(g: Bitmap, p: Bitmap, x: int, y: int) -> int
    decreases g.height - y,
{
    if y + 1 < g.height && fits(g, p, x, y + 1) {
        drop_from(g, p, x, y + 1)
    } else {
        y
    }
}

/// Where a piece released at row 0 in column `x` comes to rest, or `None`
/// when it does not fit even at row 0.
pub open spec fn landing_row(g: Bitmap, p: Bitmap, x: int) -> Option<int> {
    if 0 < g.height && fits(g, p, x, 0) {
        Some(drop_from(g, p, x, 0))
    } else {
        None
    }
}

/// Board cell `(r, c)` lies under an occupied cell of the piece placed with
/// its top-left corner at column `x`, row `y`.
pub open spec fn covers(p: Bitmap, x: int, y: int, r: int, c: int) -> bool {
    &&& y <= r < y + p.height
    &&& x <= c < x + p.width
    &&& p.filled(r - y, c - x)
}

/// The board with every cell under an occupied piece cell set to 1.
pub open spec fn stamp(g: Bitmap, p: Bitmap, x: int, y: int) -> Bitmap {
    Bitmap {
        cells: Seq::new(
            g.cells.len(),
            |i: int|
                if covers(p, x, y, i / (g.width as int), i % (g.width as int)) {
                    1i32
                } else {
                    g.cells[i]
                },
        ),
        width: g.width,
        height: g.height,
    }
}

/// An optional row as an integer.
pub open spec fn opt_int(o: Option<usize>) -> Option<int> {
    match o {
        Some(v) => Some(v as int),
        None => None,
    }
}

/// Dropping from a row where the piece fits passes only through rows where
/// it fits and stops above a collision or at the floor.
proof fn lemma_drop_from_stops(g: Bitmap, p: Bitmap, x: int, y: int)
    requires
        0 <= y < g.height,
        fits(g, p, x, y),
    ensures
        y <= drop_from(g, p, x, y) < g.height,
        forall|k: int| y <= k <= drop_from(g, p, x, y) ==> #[trigger] fits(g, p, x, k),
        drop_from(g, p, x, y) + 1 == g.height || !fits(g, p, x, drop_from(g, p, x, y) + 1),
    decreases g.height - y,
{
    if y + 1 < g.height && fits(g, p, x, y + 1) {
        lemma_drop_from_stops(g, p, x, y + 1);
    }
}

/// The landing row is the last row, going down from row 0, at which the
/// piece is free of collisions: the piece fits at every row from 0 to it,
/// and one row lower it would collide or leave the board. There is none
/// when the piece does not fit at row 0.
pub proof fn lemma_landing_row_is_last_free_row(g: Bitmap, p: Bitmap, x: int)
    ensures
        landing_row(g, p, x) is None <==> (g.height == 0 || !fits(g, p, x, 0)),
        landing_row(g, p, x) is Some ==> {
            let y = landing_row(g, p, x)->0;
            &&& 0 <= y < g.height
            &&& forall|k: int| 0 <= k <= y ==> #[trigger] fits(g, p, x, k)
            &&& (y + 1 == g.height || !fits(g, p, x, y + 1))
        },
{
    if 0 < g.height && fits(g, p, x, 0) {
        lemma_drop_from_stops(g, p, x, 0);
    }
}

/// On an empty board a piece whose bottom row holds an occupied cell fits at
/// every row from 0 down to `height - piece height`, and no lower.
proof fn lemma_drop_on_empty(g: Bitmap, p: Bitmap, x: int, y: int)
    requires
        g.wf(),
        p.wf(),
        forall|r: int, c: int| g.in_bounds(r, c) ==> !#[trigger] g.filled(r, c),
        1 <= p.height <= g.height,
        0 <= x,
        x + p.width <= g.width,
        exists|px: int| 0 <= px < p.width && #[trigger] p.filled(p.height - 1, px),
        0 <= y <= g.height - p.height,
    ensures
        fits(g, p, x, y),
        drop_from(g, p, x, y) == g.height - p.height,
    decreases g.height - p.height - y,
{
    if y < g.height - p.height {
        lemma_drop_on_empty(g, p, x, y + 1);
    } else {
        let px = choose|px: int| 0 <= px < p.width && #[trigger] p.filled(p.height - 1, px);
        assert(!g.in_bounds(y + 1 + p.height - 1, x + px));
        assert(!fits(g, p, x, y + 1));
    }
}

/// Dropped on an empty board, a piece whose bottom row holds an occupied
/// cell comes to rest with that row on the floor: at row
/// `height - piece height`.
pub proof fn lemma_landing_on_empty_board(g: Bitmap, p: Bitmap, x: int)
    requires
        g.wf(),
        p.wf(),
        forall|r: int, c: int| g.in_bounds(r, c) ==> !#[trigger] g.filled(r, c),
        1 <= p.height <= g.height,
        0 <= x,
        x + p.width <= g.width,
        exists|px: int| 0 <= px < p.width && #[trigger] p.filled(p.height - 1, px),
    ensures
        landing_row(g, p, x) == Some(g.height - p.height),
{
    lemma_drop_on_empty(g, p, x, 0);
}

/// The stamped board, read cell by cell.
proof fn lemma_stamp_at(g: Bitmap, p: Bitmap, x: int, y: int, r: int, c: int)
    requires
        g.wf(),
        g.in_bounds(r, c),
    ensures
        stamp(g, p, x, y).at(r, c) == if covers(p, x, y, r, c) { 1i32 } else { g.at(r, c) },
{
    lemma_index_in_range(g.width as int, g.height as int, r, c);
}

/// A piece that fits at every row from `y` down to the bottom row drops to
/// the bottom row.
proof fn lemma_drop_to_floor(g: Bitmap, p: Bitmap, x: int, y: int)
    requires
        0 <= y < g.height,
        forall|k: int| y <= k < g.height ==> #[trigger] fits(g, p, x, k),
    ensures
        drop_from(g, p, x, y) == g.height - 1,
    decreases g.height - y,
{
    if y + 1 < g.height {
        lemma_drop_to_floor(g, p, x, y + 1);
    }
}

/// Rows before `n` of the stamped board are not full while `n` stays above
/// the bottom row, and only the bottom row is full.
proof fn lemma_gap_board_rows(g: Bitmap, p: Bitmap, c0: int, n: int)
    requires
        g.wf(),
        p.width == 1,
        p.height == 1,
        p.cells == seq![1i32],
        0 <= c0 < g.width,
        1 <= g.height,
        0 <= n <= g.height,
        forall|r: int, c: int| 0 <= r < g.height - 1 && 0 <= c < g.width ==> !#[trigger] g.filled(r, c),
        forall|c: int| 0 <= c < g.width && c != c0 ==> #[trigger] g.filled(g.height - 1, c),
    ensures
        full_rows_upto(stamp(g, p, c0, g.height - 1), n) == if n == g.height { 1int } else { 0int },
    decreases n,
{
    let h = g.height as int;
    let b = stamp(g, p, c0, h - 1);
    if n > 0 {
        lemma_gap_board_rows(g, p, c0, n - 1);
        assert(p.cells[0] == 1i32);
        assert(p.filled(0, 0));
        if n - 1 < h - 1 {
            lemma_stamp_at(g, p, c0, h - 1, n - 1, c0);
            assert(!g.filled(n - 1, c0));
            assert(!covers(p, c0, h - 1, n - 1, c0));
            assert(!b.filled(n - 1, c0));
            assert(!row_full(b, n - 1));
        } else {
            assert forall|c: int| 0 <= c < b.width implies #[trigger] b.filled(h - 1, c) by {
                lemma_stamp_at(g, p, c0, h - 1, h - 1, c);
                if c == c0 {
                    assert(covers(p, c0, h - 1, h - 1, c));
                } else {
                    assert(g.filled(h - 1, c));
                }
            }
            assert(row_full(b, h - 1));
        }
    }
}

/// On a board that is empty but for its bottom row, itself full except at
/// column `c0`, a single cell dropped in column `c0` lands on the bottom
/// row, and the board it leaves has exactly one complete row.
pub proof fn lemma_single_cell_completes_bottom_row(g: Bitmap, p: Bitmap, c0: int)
    requires
        g.wf(),
        p.width == 1,
        p.height == 1,
        p.cells == seq![1i32],
        0 <= c0 < g.width,
        1 <= g.height,
        forall|r: int, c: int| 0 <= r < g.height - 1 && 0 <= c < g.width ==> !#[trigger] g.filled(r, c),
        forall|c: int| 0 <= c < g.width && c != c0 ==> #[trigger] g.filled(g.height - 1, c),
        !g.filled(g.height - 1, c0),
    ensures
        landing_row(g, p, c0) == Some(g.height - 1),
        complete_lines(stamp(g, p, c0, g.height - 1)) == 1,
{
    let h = g.height as int;
    assert forall|k: int| 0 <= k < h implies #[trigger] fits(g, p, c0, k) by {
        assert forall|py: int, px: int|
            0 <= py < p.height && 0 <= px < p.width && #[trigger] p.filled(py, px) implies {
                &&& g.in_bounds(k + py, c0 + px)
                &&& !g.filled(k + py, c0 + px)
            } by {
            assert(py == 0 && px == 0);
            if k < h - 1 {
                assert(0 <= c0 < g.width);
                assert(!g.filled(k, c0));
            }
        }
    }
    lemma_drop_to_floor(g, p, c0, 0);
    lemma_gap_board_rows(g, p, c0, h);
}

/// Whether every occupied cell of the piece, placed with its top-left corner
/// at column `x`, row `y`, falls on an empty cell inside the board.
pub fn can_place(grid: &Grid, piece: &Shape, x: usize, y: usize) -> (r: bool)
    requires
        grid@.wf(),
        piece@.wf(),
    ensures
        r == fits(grid@, piece@, x as int, y as int),
{
    let gw = grid.width;
    let gh = grid.height;
    let pw = piece.width;
    let ph = piece.height;
    let plen = piece.cells.len();
    let glen = grid.cells.len();
    let mut py: usize = 0;
    while py < ph
        invariant
            grid@.wf(),
            piece@.wf(),
            gw == grid.width,
            gh == grid.height,
            pw == piece.width,
            ph == piece.height,
            plen == piece.cells@.len(),
            glen == grid.cells@.len(),
            py <= ph,
            forall|qy: int, qx: int|
                0 <= qy < py && 0 <= qx < pw && #[trigger] piece@.filled(qy, qx) ==> {
                    &&& grid@.in_bounds(y + qy, x + qx)
                    &&& !grid@.filled(y + qy, x + qx)
                },
        decreases ph - py,
    {
        let mut px: usize = 0;
        while px < pw
            invariant
                grid@.wf(),
                piece@.wf(),
                gw == grid.width,
                gh == grid.height,
                pw == piece.width,
                ph == piece.height,
                plen == piece.cells@.len(),
                glen == grid.cells@.len(),
                py < ph,
                px <= pw,
                forall|qy: int, qx: int|
                    0 <= qy < py && 0 <= qx < pw && #[trigger] piece@.filled(qy, qx) ==> {
                        &&& grid@.in_bounds(y + qy, x + qx)
                        &&& !grid@.filled(y + qy, x + qx)
                    },
                forall|qx: int|
                    0 <= qx < px && #[trigger] piece@.filled(py as int, qx) ==> {
                        &&& grid@.in_bounds(y + py, x + qx)
                        &&& !grid@.filled(y + py, x + qx)
                    },
            decreases pw - px,
        {
            proof {
                lemma_index_in_range(pw as int, ph as int, py as int, px as int);
            }
            if piece.cells[py * pw + px] != 0 {
                if x >= gw || px >= gw - x || y >= gh || py >= gh - y {
                    assert(piece@.filled(py as int, px as int));
                    return false;
                }
                proof {
                    lemma_index_in_range(gw as int, gh as int, (y + py) as int, (x + px) as int);
                }
                if grid.cells[(y + py) * gw + (x + px)] != 0 {
                    assert(piece@.filled(py as int, px as int));
                    return false;
                }
            }
            px = px + 1;
        }
        py = py + 1;
    }
    true
}

/// Drops a piece released at row 0 in column `x` and returns the row where it
/// comes to rest: the last row before it would collide or leave the board.
/// `None` when it does not fit even at row 0.
pub fn find_landing_position(grid: &Grid, piece: &Shape, x: usize) -> (r: Option<usize>)
    requires
        grid@.wf(),
        piece@.wf(),
    ensures
        opt_int(r) == landing_row(grid@, piece@, x as int),
{
    if grid.height == 0 || !can_place(grid, piece, x, 0) {
        return None;
    }
    let mut y: usize = 0;
    while y + 1 < grid.height && can_place(grid, piece, x, y + 1)
        invariant
            grid@.wf(),
            piece@.wf(),
            y < grid.height,
            drop_from(grid@, piece@, x as int, y as int) == drop_from(grid@, piece@, x as int, 0),
        decreases grid.height - y,
    {
        y = y + 1;
    }
    Some(y)
}

/// A copy of the board with every cell under an occupied piece cell set to 1;
/// piece cells outside the board are skipped.
pub fn place_piece_on_grid(grid: &Grid, piece: &Shape, x: usize, y: usize) -> (r: Grid)
    requires
        grid@.wf(),
        piece@.wf(),
    ensures
        r@ == stamp(grid@, piece@, x as int, y as int),
        r@.wf(),
{
    let gw = grid.width;
    let gh = grid.height;
    let pw = piece.width;
    let ph = piece.height;
    let plen = piece.cells.len();
    let glen = grid.cells.len();
    let mut cells = copy_cells(grid.cells.as_slice());
    let ghost g = grid@;
    let ghost p = piece@;
    let mut py: usize = 0;
    while py < ph
        invariant
            g == grid@,
            p == piece@,
            g.wf(),
            p.wf(),
            gw == grid.width,
            gh == grid.height,
            pw == piece.width,
            ph == piece.height,
            plen == piece.cells@.len(),
            glen == grid.cells@.len(),
            cells@.len() == glen,
            py <= ph,
            forall|r: int, c: int|
                g.in_bounds(r, c) ==> #[trigger] cells@[r * gw + c] == if covers(p, x as int, y as int, r, c) && r - y < py {
                    1i32
                } else {
                    g.at(r, c)
                },
        decreases ph - py,
    {
        let mut px: usize = 0;
        while px < pw
            invariant
                g == grid@,
                p == piece@,
                g.wf(),
                p.wf(),
                gw == grid.width,
                gh == grid.height,
                pw == piece.width,
                ph == piece.height,
                plen == piece.cells@.len(),
                glen == grid.cells@.len(),
                cells@.len() == glen,
                py < ph,
                px <= pw,
                forall|r: int, c: int|
                    g.in_bounds(r, c) ==> #[trigger] cells@[r * gw + c] == if covers(p, x as int, y as int, r, c) && (r - y < py || (r - y == py && c - x < px)) {
                        1i32
                    } else {
                        g.at(r, c)
                    },
            decreases pw - px,
        {
            proof {
                lemma_index_in_range(pw as int, ph as int, py as int, px as int);
            }
            if piece.cells[py * pw + px] != 0 {
                if x < gw && px < gw - x && y < gh && py < gh - y {
                    let gy = y + py;
                    let gx = x + px;
                    proof {
                        lemma_index_in_range(gw as int, gh as int, gy as int, gx as int);
                    }
                    let ghost before = cells@;
                    cells.set(gy * gw + gx, 1);
                    assert forall|r: int, c: int| g.in_bounds(r, c) implies #[trigger] cells@[r * gw + c] == if covers(p, x as int, y as int, r, c) && (r - y < py || (r - y == py && c - x < px + 1)) {
                        1i32
                    } else {
                        g.at(r, c)
                    } by {
                        lemma_index_in_range(gw as int, gh as int, r, c);
                        if r == gy && c == gx {
                        } else {
                            assert(before[r * gw + c] == cells@[r * gw + c]);
                        }
                    }
                }
            }
            px = px + 1;
        }
        py = py + 1;
    }
    let r = Grid { cells, width: gw, height: gh };
    assert forall|i: int| 0 <= i < glen implies r@.cells[i] == stamp(g, p, x as int, y as int).cells[i] by {
        lemma_index_split(gw as int, gh as int, i);
        let rr = i / (gw as int);
        let cc = i % (gw as int);
        assert(cells@[rr * gw + cc] == r@.cells[i]);
    }
    assert(r@.cells =~= stamp(g, p, x as int, y as int).cells);
    r
}

/// The cells of row `r`.
pub open spec fn row_cells(g: Bitmap, r: int) -> Seq<i32> {
    g.cells.subrange(r * g.width, r * g.width + g.width)
}

/// The cells of the rows among the first `n` that are not full, in order.
pub open spec fn kept_cells(g: Bitmap, n: int) -> Seq<i32>
    decreases n,
{
    if n <= 0 {
        Seq::empty()
    } else {
        kept_cells(g, n - 1) + if row_full(g, n - 1) { Seq::empty() } else { row_cells(g, n - 1) }
    }
}

/// The board with every full row removed, the other rows moved down in their
/// order, and as many empty rows added at the top as were removed.
pub open spec fn clear_lines(g: Bitmap) -> Bitmap {
    Bitmap {
        cells: Seq::new((complete_lines(g) * g.width) as nat, |i: int| 0i32) + kept_cells(g, g.height as int),
        width: g.width,
        height: g.height,
    }
}

/// Among the first `n` rows, full ones number at most `n`, and the others
/// hold `width` cells each.
pub proof fn lemma_kept_cells_len(g: Bitmap, n: int)
    requires
        g.wf(),
        0 <= n <= g.height,
    ensures
        0 <= full_rows_upto(g, n) <= n,
        kept_cells(g, n).len() == (n - full_rows_upto(g, n)) * g.width,
    decreases n,
{
    if n > 0 {
        lemma_kept_cells_len(g, n - 1);
        let w = g.width as int;
        let k = n - 1 - full_rows_upto(g, n - 1);
        assert(0 <= (n - 1) * w) by (nonlinear_arith)
            requires n >= 1, w >= 0;
        assert((n - 1) * w + w <= w * g.height) by (nonlinear_arith)
            requires n <= g.height, w >= 0;
        assert((k + 1) * w == k * w + w) by (nonlinear_arith);
    }
}

/// Clearing lines keeps the board's dimensions.
pub proof fn lemma_clear_lines_wf(g: Bitmap)
    requires
        g.wf(),
    ensures
        clear_lines(g).wf(),
{
    lemma_kept_cells_len(g, g.height as int);
    let l = complete_lines(g);
    let w = g.width as int;
    let h = g.height as int;
    assert(l * w + (h - l) * w == w * h) by (nonlinear_arith);
    assert(0 <= l * w) by (nonlinear_arith)
        requires 0 <= l, 0 <= w;
}

/// Each `width`-cell row of what is kept is a row of the board that is not
/// full.
proof fn lemma_kept_rows_not_full(g: Bitmap, n: int, j: int)
    requires
        g.wf(),
        0 <= n <= g.height,
        0 <= j < n - full_rows_upto(g, n),
    ensures
        exists|r: int|
            0 <= r < n && !row_full(g, r) && kept_cells(g, n).subrange(j * g.width, j * g.width + g.width)
                == #[trigger] row_cells(g, r),
    decreases n,
{
    let w = g.width as int;
    lemma_kept_cells_len(g, n - 1);
    lemma_kept_cells_len(g, n);
    let prev = kept_cells(g, n - 1);
    let m = n - 1 - full_rows_upto(g, n - 1);
    assert(0 <= j * w) by (nonlinear_arith)
        requires 0 <= j, 0 <= w;
    if j < m {
        lemma_kept_rows_not_full(g, n - 1, j);
        let r = choose|r: int|
            0 <= r < n - 1 && !row_full(g, r) && prev.subrange(j * w, j * w + w) == #[trigger] row_cells(g, r);
        assert(j * w + w <= m * w) by (nonlinear_arith)
            requires j < m, 0 <= w;
        assert(kept_cells(g, n).subrange(j * w, j * w + w) =~= prev.subrange(j * w, j * w + w));
        assert(row_cells(g, r) == row_cells(g, r));
    } else {
        assert(!row_full(g, n - 1));
        assert(j == m);
        assert(0 <= (n - 1) * w) by (nonlinear_arith)
            requires n >= 1, w >= 0;
        assert((n - 1) * w + w <= w * g.height) by (nonlinear_arith)
            requires n <= g.height, w >= 0;
        assert(kept_cells(g, n) == prev + row_cells(g, n - 1));
        assert(prev.len() == j * w);
        assert(kept_cells(g, n).subrange(j * w, j * w + w) =~= row_cells(g, n - 1));
        assert(row_cells(g, n - 1) == row_cells(g, n - 1));
    }
}

/// Among the first `n` rows of a board without full rows, none is full.
proof fn lemma_no_full_rows(g: Bitmap, n: int)
    requires
        forall|r: int| 0 <= r < g.height ==> !#[trigger] row_full(g, r),
        n <= g.height,
    ensures
        full_rows_upto(g, n) == 0,
    decreases n,
{
    if n > 0 {
        lemma_no_full_rows(g, n - 1);
    }
}

/// Once full rows are removed none is left, provided the board has columns
/// (a board without columns has every row full, vacuously).
pub proof fn lemma_cleared_board_has_no_full_rows(g: Bitmap)
    requires
        g.wf(),
        g.width > 0,
    ensures
        forall|t: int| 0 <= t < g.height ==> !#[trigger] row_full(clear_lines(g), t),
        complete_lines(clear_lines(g)) == 0,
{
    let b = clear_lines(g);
    let w = g.width as int;
    let h = g.height as int;
    let l = complete_lines(g);
    lemma_kept_cells_len(g, h);
    lemma_clear_lines_wf(g);
    let kept = kept_cells(g, h);
    assert forall|t: int| 0 <= t < h implies !#[trigger] row_full(b, t) by {
        assert(0 <= t * w) by (nonlinear_arith)
            requires 0 <= t, 0 <= w;
        if t < l {
            assert(t * w < l * w) by (nonlinear_arith)
                requires t < l, 0 < w;
            assert(!b.filled(t, 0));
        } else {
            let j = t - l;
            lemma_kept_rows_not_full(g, h, j);
            let r = choose|r: int|
                0 <= r < h && !row_full(g, r) && kept.subrange(j * w, j * w + w) == #[trigger] row_cells(g, r);
            let c = choose|c: int| 0 <= c < w && !#[trigger] g.filled(r, c);
            assert(t * w + c == l * w + (j * w + c)) by (nonlinear_arith)
                requires j == t - l;
            assert(j * w + w <= (h - l) * w) by (nonlinear_arith)
                requires j < h - l, 0 < w;
            assert(0 <= r * w) by (nonlinear_arith)
                requires 0 <= r, 0 <= w;
            assert(r * w + w <= w * h) by (nonlinear_arith)
                requires r < h, 0 < w;
            assert(l * w >= 0) by (nonlinear_arith)
                requires l >= 0, w >= 0;
            assert(b.cells[t * w + c] == kept[j * w + c]);
            assert(kept.subrange(j * w, j * w + w)[c] == row_cells(g, r)[c]);
            assert(!b.filled(t, c));
        }
    }
    lemma_no_full_rows(b, h);
}

/// Removes every full row, moves the rows above it down and fills the top
/// with empty rows; also returns how many rows were removed.
pub fn clear_lines_from_grid(grid: &Grid) -> (r: (Grid, usize))
    requires
        grid@.wf(),
    ensures
        r.0@ == clear_lines(grid@),
        r.0@.wf(),
        r.1 == complete_lines(grid@),
{
    let gw = grid.width;
    let gh = grid.height;
    let glen = grid.cells.len();
    let ghost g = grid@;
    let lines = calculate_complete_lines(grid);
    assert(lines * gw <= gh * gw) by (nonlinear_arith)
        requires lines <= gh;
    assert(gh * gw == gw * gh) by (nonlinear_arith);
    let zeros = lines * gw;
    let mut cells: Vec<i32> = Vec::new();
    let mut i: usize = 0;
    while i < zeros
        invariant
            i <= zeros,
            cells@ == Seq::new(i as nat, |j: int| 0i32),
        decreases zeros - i,
    {
        cells.push(0);
        i = i + 1;
        assert(cells@ =~= Seq::new(i as nat, |j: int| 0i32));
    }
    let ghost top = cells@;
    assert(top =~= Seq::new((complete_lines(g) * g.width) as nat, |j: int| 0i32));
    let mut row: usize = 0;
    while row < gh
        invariant
            g == grid@,
            g.wf(),
            gw == grid.width,
            gh == grid.height,
            glen == grid.cells@.len(),
            row <= gh,
            cells@ == top + kept_cells(g, row as int),
            top.len() == lines * gw,
            lines == full_rows_upto(g, gh as int),
        decreases gh - row,
    {
        proof {
            lemma_kept_cells_len(g, row as int);
            lemma_kept_cells_len(g, gh as int);
        }
        if !row_is_full(grid, row) {
            let mut c: usize = 0;
            let ghost before = cells@;
            while c < gw
                invariant
                    g == grid@,
                    g.wf(),
                    gw == grid.width,
                    gh == grid.height,
                    glen == grid.cells@.len(),
                    row < gh,
                    c <= gw,
                    cells@ == before + row_cells(g, row as int).subrange(0, c as int),
                decreases gw - c,
            {
                proof {
                    lemma_index_in_range(gw as int, gh as int, row as int, c as int);
                    lemma_index_in_range(gw as int, gh as int, row as int, gw - 1);
                }
                cells.push(grid.cells[row * gw + c]);
                c = c + 1;
                assert(cells@ =~= before + row_cells(g, row as int).subrange(0, c as int));
            }
            proof {
                if gw > 0 {
                    lemma_index_in_range(gw as int, gh as int, row as int, 0);
                    lemma_index_in_range(gw as int, gh as int, row as int, gw - 1);
                }
                assert(row_cells(g, row as int).subrange(0, gw as int) =~= row_cells(g, row as int));
                assert(cells@ =~= top + kept_cells(g, row as int + 1));
            }
        } else {
            assert(cells@ =~= top + kept_cells(g, row as int + 1));
        }
        row = row + 1;
    }
    proof {
        lemma_clear_lines_wf(g);
    }
    (Grid { cells, width: gw, height: gh }, lines)
}

} // verus!
