//! Flat row-major cell buffers and their mathematical model.
use vstd::prelude::*;

verus! {

/// The size budget of a scored board (2^30). The largest board feature is
/// the sum of well depths, which can reach `width * height * height`; the
/// number of complete rows can reach `height` even on a board without
/// columns. With both at most this budget every feature is at most 2^30,
/// every score (six weights of at most `MAX_WEIGHT` each) stays below 2^46,
/// and the lookahead's scaled sums stay below 2^61, all exact in `i64`.
pub const MAX_DEPTH_SUM: usize = 1073741824;

/// The model of a row-major cell buffer: `cells[r * width + c]` is the cell
/// in row `r` (row 0 at the top) and column `c`.
pub struct Bitmap {
    pub cells: Seq<i32>,
    pub width: nat,
    pub height: nat,
}

impl Bitmap {
    /// The buffer holds exactly one cell per row and column.
    pub open spec fn wf(self) -> bool {
        self.cells.len() == self.width * self.height
    }

    /// Within the size budget: `height` and `width * height * height` are
    /// at most `MAX_DEPTH_SUM`.
    pub open spec fn bounded(self) -> bool {
        self.height <= MAX_DEPTH_SUM && self.width * self.height * self.height <= MAX_DEPTH_SUM
    }

    pub open spec fn in_bounds(self, r: int, c: int) -> bool {
        0 <= r < self.height && 0 <= c < self.width
    }

    pub open spec fn at(self, r: int, c: int) -> i32 {
        self.cells[r * self.width + c]
    }

    pub open spec fn filled(self, r: int, c: int) -> bool {
        self.at(r, c) != 0
    }
}

/// Index `r * w + c` of a cell inside a `w`-wide buffer with `h` rows lies in
/// the buffer, and distinct cells have distinct indices.
pub proof fn lemma_index_in_range(w: int, h: int, r: int, c: int)
    requires
        0 <= r < h,
        0 <= c < w,
    ensures
        0 <= r * w + c < w * h,
        r * w + c == (r * w + c) / w * w + (r * w + c) % w,
        (r * w + c) / w == r,
        (r * w + c) % w == c,
{
    assert(0 <= r * w) by (nonlinear_arith)
        requires 0 <= r, 0 <= c, c < w;
    assert(r * w + c < w * h) by (nonlinear_arith)
        requires 0 <= r < h, 0 <= c < w;
    vstd::arithmetic::div_mod::lemma_fundamental_div_mod_converse(r * w + c, w, r, c);
}

/// Every index of a `w`-wide buffer with `h` rows is `r * w + c` for the row
/// `i / w` and the column `i % w`.
pub proof fn lemma_index_split(w: int, h: int, i: int)
    requires
        0 <= h,
        0 <= i < w * h,
    ensures
        w > 0,
        0 <= i / w < h,
        0 <= i % w < w,
        i == (i / w) * w + i % w,
{
    assert(w > 0) by (nonlinear_arith)
        requires 0 <= h, 0 <= i < w * h;
    vstd::arithmetic::div_mod::lemma_fundamental_div_mod(i, w);
    vstd::arithmetic::div_mod::lemma_mod_pos_bound(i, w);
    vstd::arithmetic::div_mod::lemma_div_pos_is_pos(i, w);
    let q = i / w;
    let m = i % w;
    assert(q * w == w * q) by (nonlinear_arith);
    assert(q < h) by (nonlinear_arith)
        requires i == q * w + m, 0 <= m, i < w * h, w > 0;
}

/// A board: a cell buffer `width` columns wide and `height` rows tall.
pub struct Grid {
    pub cells: Vec<i32>,
    pub width: usize,
    pub height: usize,
}

/// A piece: the occupancy bitmap of its bounding box.
pub struct Shape {
    pub cells: Vec<i32>,
    pub width: usize,
    pub height: usize,
}

impl View for Grid {
    type V = Bitmap;

    open spec fn view(&self) -> Bitmap {
        Bitmap { cells: self.cells@, width: self.width as nat, height: self.height as nat }
    }
}

impl View for Shape {
    type V = Bitmap;

    open spec fn view(&self) -> Bitmap {
        Bitmap { cells: self.cells@, width: self.width as nat, height: self.height as nat }
    }
}

} // verus!
