//! The move-selection engine: input checks, single-ply search and the
//! two-ply beam search.
use vstd::prelude::*;
use crate::bitmap::{Bitmap, Grid, Shape, MAX_DEPTH_SUM};
use crate::rotation::{rotate_times, rotate_piece, copy_cells};
use crate::placement::{stamp, clear_lines, place_piece_on_grid, clear_lines_from_grid};
use crate::evaluate::{Weights, MAX_WEIGHT, SCORE_LIMIT, standard_weights};
use crate::search::{
    Move, best_of, beam, candidates, score_in_range, lemma_best_of_is_max, lemma_sort_desc_len,
    enumerate_candidates, select_best, sort_by_score,
};

verus! {

/// Why no placement came back.
#[derive(Clone, Copy, Debug, PartialEq, Eq, Structural)]
pub enum MoveError {
    /// The board buffer does not hold `grid_width * grid_height` cells.
    GridSizeMismatch,
    /// The piece buffer does not hold `piece_width * piece_height` cells.
    PieceSizeMismatch,
    /// The next piece's buffer does not hold its width times its height.
    NextPieceSizeMismatch,
    /// The board exceeds the size budget: its height, or its width times
    /// its height squared, is above `MAX_DEPTH_SUM`.
    BoardTooLarge,
    /// The piece fits nowhere on the board.
    NoLegalMove,
}

/// The engine's fixed settings: how many candidates the beam keeps, the
/// weight `discount_num / discount_den` given to the next piece's best
/// score, and the feature weights.
pub struct TetrisAI {
    pub beam_width: usize,
    pub discount_num: i64,
    pub discount_den: i64,
    pub weights: Weights,
}

/// A row-major buffer read as a bitmap of the given size.
pub open spec fn layout(cells: Seq<i32>, width: usize, height: usize) -> Bitmap {
    Bitmap { cells, width: width as nat, height: height as nat }
}

/// The first problem with the inputs of one search, if any.
pub open spec fn input_error(
    grid: Seq<i32>,
    grid_width: usize,
    grid_height: usize,
    piece: Seq<i32>,
    piece_width: usize,
    piece_height: usize,
) -> Option<MoveError> {
    if grid.len() != grid_width * grid_height {
        Some(MoveError::GridSizeMismatch)
    } else if piece.len() != piece_width * piece_height {
        Some(MoveError::PieceSizeMismatch)
    } else if grid_height > MAX_DEPTH_SUM || grid_width * grid_height * grid_height > MAX_DEPTH_SUM {
        Some(MoveError::BoardTooLarge)
    } else {
        None
    }
}

/// The first problem with the inputs of a search that looks one piece
/// ahead, if any.
pub open spec fn lookahead_input_error(
    grid: Seq<i32>,
    grid_width: usize,
    grid_height: usize,
    piece: Seq<i32>,
    piece_width: usize,
    piece_height: usize,
    next_piece: Seq<i32>,
    next_piece_width: usize,
    next_piece_height: usize,
) -> Option<MoveError> {
    if grid.len() != grid_width * grid_height {
        Some(MoveError::GridSizeMismatch)
    } else if piece.len() != piece_width * piece_height {
        Some(MoveError::PieceSizeMismatch)
    } else if next_piece.len() != next_piece_width * next_piece_height {
        Some(MoveError::NextPieceSizeMismatch)
    } else if grid_height > MAX_DEPTH_SUM || grid_width * grid_height * grid_height > MAX_DEPTH_SUM {
        Some(MoveError::BoardTooLarge)
    } else {
        None
    }
}

/// `a / d` rounded to the nearest integer, halves away from zero.
pub open spec fn round_div(a: int, d: int) -> int {
    if a >= 0 {
        (2 * a + d) / (2 * d)
    } else {
        -((d - 2 * a) / (2 * d))
    }
}

/// The best score of the next piece on the board left after placement `m`
/// of the current piece and the removal of the rows it completes; `None`
/// when the next piece then fits nowhere.
pub open spec fn future_value(w: Weights, g: Bitmap, p: Bitmap, next: Bitmap, m: Move) -> Option<int> {
    let q = rotate_times(p, (m.rotation % 4) as nat);
    match best_of(candidates(w, clear_lines(stamp(g, q, m.x as int, m.y as int)), next)) {
        Some(b) => Some(b.score as int),
        None => None,
    }
}

impl TetrisAI {
    /// Weights are valid, the beam keeps at least one candidate, and the
    /// discount is a fraction in `0..=1` whose denominator is at most
    /// `MAX_WEIGHT`.
    pub open spec fn wf(&self) -> bool {
        &&& self.weights.wf()
        &&& self.beam_width >= 1
        &&& 0 < self.discount_den <= MAX_WEIGHT
        &&& 0 <= self.discount_num <= self.discount_den
    }

    /// Score of placement `m` with the next piece taken into account, scaled
    /// by `discount_den`: `m.score * den + num * future`.
    pub open spec fn combined(&self, g: Bitmap, p: Bitmap, next: Bitmap, m: Move) -> Option<int> {
        match future_value(self.weights, g, p, next, m) {
            Some(f) => Some(m.score * self.discount_den + self.discount_num * f),
            None => None,
        }
    }

    /// The first placement of `s` with the strictly highest combined score,
    /// with that score; placements without one never win.
    pub open spec fn pick(&self, g: Bitmap, p: Bitmap, next: Bitmap, s: Seq<Move>) -> Option<(Move, int)>
        decreases s.len(),
    {
        if s.len() == 0 {
            None
        } else {
            let prev = self.pick(g, p, next, s.drop_last());
            let m = s.last();
            match self.combined(g, p, next, m) {
                None => prev,
                Some(c) => match prev {
                    None => Some((m, c)),
                    Some(b) => if c > b.1 {
                        Some((m, c))
                    } else {
                        prev
                    },
                },
            }
        }
    }

    /// The two-ply choice on well-formed inputs. Placements after which the
    /// next piece fits somewhere win over those after which it fits nowhere;
    /// among the first, the highest combined score wins, reported as
    /// `round(combined / discount_den)`. When the next piece fits after none
    /// of the kept placements, the first of them (the best immediate score)
    /// is returned with its immediate score. No move only when the piece
    /// fits nowhere.
    pub open spec fn lookahead_choice(&self, g: Bitmap, p: Bitmap, next: Bitmap) -> Result<Move, MoveError> {
        let kept = beam(self.weights, g, p, self.beam_width as int);
        match self.pick(g, p, next, kept) {
            Some(b) => Ok(
                Move {
                    x: b.0.x,
                    y: b.0.y,
                    rotation: b.0.rotation,
                    score: round_div(b.1, self.discount_den as int) as i64,
                },
            ),
            None => if kept.len() > 0 {
                Ok(kept[0])
            } else {
                Err(MoveError::NoLegalMove)
            },
        }
    }

    /// Beam width 5, next piece weighted at 3/4, the tuned weights.
    pub fn new() -> (r: TetrisAI)
        ensures
            r.wf(),
            r.beam_width == 5,
            r.discount_num == 3,
            r.discount_den == 4,
            r.weights == standard_weights(),
    {
        TetrisAI { beam_width: 5, discount_num: 3, discount_den: 4, weights: Weights::standard() }
    }

    /// An engine with the given settings, or `None` when they are not valid.
    pub fn with_settings(beam_width: usize, discount_num: i64, discount_den: i64, weights: Weights) -> (r: Option<TetrisAI>)
        ensures
            r is Some <==> (TetrisAI { beam_width, discount_num, discount_den, weights }).wf(),
            r is Some ==> r->0 == (TetrisAI { beam_width, discount_num, discount_den, weights }),
    {
        let ok = beam_width >= 1
            && 0 < weights.lines && weights.lines <= MAX_WEIGHT
            && 0 <= weights.holes && weights.holes <= MAX_WEIGHT
            && 0 <= weights.bumpiness && weights.bumpiness <= MAX_WEIGHT
            && 0 <= weights.aggregate_height && weights.aggregate_height <= MAX_WEIGHT
            && 0 <= weights.max_height && weights.max_height <= MAX_WEIGHT
            && 0 <= weights.wells && weights.wells <= MAX_WEIGHT
            && 0 < discount_den && discount_den <= MAX_WEIGHT
            && 0 <= discount_num && discount_num <= discount_den;
        if ok {
            Some(TetrisAI { beam_width, discount_num, discount_den, weights })
        } else {
            None
        }
    }

    /// The best placement of the piece on the board: the highest score, the
    /// earliest in enumeration order among equals.
    pub fn get_best_move_simple(&self, grid: &Grid, piece: &Shape) -> (r: Option<Move>)
        requires
            self.wf(),
            grid@.wf(),
            grid@.bounded(),
            piece@.wf(),
        ensures
            r == best_of(candidates(self.weights, grid@, piece@)),
            r is Some ==> score_in_range(r->0),
    {
        let cands = enumerate_candidates(&self.weights, grid, piece);
        let r = select_best(&cands);
        proof {
            lemma_best_of_is_max(cands@);
        }
        r
    }

    /// The best score the piece can reach on the board, `None` when it fits
    /// nowhere.
    pub fn evaluate_best_next_piece(&self, grid: &Grid, piece: &Shape) -> (r: Option<i64>)
        requires
            self.wf(),
            grid@.wf(),
            grid@.bounded(),
            piece@.wf(),
        ensures
            r == match best_of(candidates(self.weights, grid@, piece@)) {
                Some(b) => Some(b.score),
                None => None,
            },
            r is Some ==> -SCORE_LIMIT <= r->0 <= SCORE_LIMIT,
    {
        match self.get_best_move_simple(grid, piece) {
            Some(m) => Some(m.score),
            None => None,
        }
    }

    /// Best placement of the piece on the board, searching every rotation
    /// and column. Fails on buffers that do not match their sizes, on boards
    /// beyond the size budget `MAX_DEPTH_SUM`, and when the piece fits nowhere.
    pub fn get_best_move(
        &self,
        grid: &[i32],
        grid_width: usize,
        grid_height: usize,
        piece_shape: &[i32],
        piece_width: usize,
        piece_height: usize,
    ) -> (r: Result<Move, MoveError>)
        requires
            self.wf(),
        ensures
            r == match input_error(grid@, grid_width, grid_height, piece_shape@, piece_width, piece_height) {
                Some(e) => Err(e),
                None => match best_of(
                    candidates(
                        self.weights,
                        layout(grid@, grid_width, grid_height),
                        layout(piece_shape@, piece_width, piece_height),
                    ),
                ) {
                    Some(m) => Ok(m),
                    None => Err(MoveError::NoLegalMove),
                },
            },
    {
        if !same_size(grid.len(), grid_width, grid_height) {
            return Err(MoveError::GridSizeMismatch);
        }
        if !same_size(piece_shape.len(), piece_width, piece_height) {
            return Err(MoveError::PieceSizeMismatch);
        }
        if grid_height > MAX_DEPTH_SUM || !within_depth_budget(grid_width, grid_height) {
            return Err(MoveError::BoardTooLarge);
        }
        let board = Grid { cells: copy_cells(grid), width: grid_width, height: grid_height };
        let piece = Shape { cells: copy_cells(piece_shape), width: piece_width, height: piece_height };
        match self.get_best_move_simple(&board, &piece) {
            Some(m) => Ok(m),
            None => Err(MoveError::NoLegalMove),
        }
    }

    /// The two-ply beam search on well-formed inputs: rank every placement
    /// by its own score, keep the first `beam_width`, and for each one add
    /// the discounted best score of the next piece on the board it leaves
    /// after its complete rows are removed. When the next piece fits after
    /// none of them, the first kept placement comes back with its own score.
    pub fn search_with_lookahead(&self, grid: &Grid, piece: &Shape, next: &Shape) -> (r: Result<Move, MoveError>)
        requires
            self.wf(),
            grid@.wf(),
            grid@.bounded(),
            piece@.wf(),
            next@.wf(),
        ensures
            r == self.lookahead_choice(grid@, piece@, next@),
    {
        let ghost g = grid@;
        let ghost p = piece@;
        let ghost n = next@;
        let cands = enumerate_candidates(&self.weights, grid, piece);
        let mut ranked = sort_by_score(&cands);
        proof {
            lemma_sort_desc_len(cands@);
        }
        ranked.truncate(self.beam_width);
        assert(ranked@ =~= beam(self.weights, g, p, self.beam_width as int));
        let den = self.discount_den;
        let num = self.discount_num;
        let mut best_move: Option<Move> = None;
        let mut best_c: i64 = 0;
        let mut i: usize = 0;
        while i < ranked.len()
            invariant
                self.wf(),
                g == grid@,
                p == piece@,
                n == next@,
                g.wf(),
                g.bounded(),
                p.wf(),
                n.wf(),
                den == self.discount_den,
                num == self.discount_num,
                i <= ranked@.len(),
                forall|j: int| 0 <= j < ranked@.len() ==> score_in_range(#[trigger] ranked@[j]),
                match self.pick(g, p, n, ranked@.take(i as int)) {
                    Some(b) => best_move == Some(b.0) && best_c == b.1,
                    None => best_move is None,
                },
                best_move is Some ==> -0x2000_0000_0000_0000 <= best_c <= 0x2000_0000_0000_0000,
            decreases ranked@.len() - i,
        {
            let m = ranked[i];
            assert(score_in_range(ranked@[i as int]));
            let q = rotate_piece(piece, m.rotation);
            let placed = place_piece_on_grid(grid, &q, m.x, m.y);
            let (cleared, _lines) = clear_lines_from_grid(&placed);
            proof {
                let t = ranked@.take(i + 1);
                assert(t.drop_last() =~= ranked@.take(i as int));
                assert(t.last() == m);
            }
            match self.evaluate_best_next_piece(&cleared, next) {
                Some(f) => {
                    assert(-0x4000_0000_0000 * 10000 <= m.score * den <= 0x4000_0000_0000 * 10000) by (nonlinear_arith)
                        requires -0x4000_0000_0000 <= m.score <= 0x4000_0000_0000, 0 < den <= 10000;
                    assert(-0x4000_0000_0000 * 10000 <= num * f <= 0x4000_0000_0000 * 10000) by (nonlinear_arith)
                        requires -0x4000_0000_0000 <= f <= 0x4000_0000_0000, 0 <= num <= 10000;
                    let c = m.score * den + num * f;
                    match best_move {
                        None => {
                            best_move = Some(m);
                            best_c = c;
                        },
                        Some(_) => {
                            if c > best_c {
                                best_move = Some(m);
                                best_c = c;
                            }
                        },
                    }
                },
                None => {},
            }
            i = i + 1;
        }
        assert(ranked@.take(ranked@.len() as int) =~= ranked@);
        match best_move {
            Some(b) => Ok(Move { x: b.x, y: b.y, rotation: b.rotation, score: round_to_nearest(best_c, den) }),
            None => if ranked.len() > 0 {
                Ok(ranked[0])
            } else {
                Err(MoveError::NoLegalMove)
            },
        }
    }

    /// Best placement of the piece when the next piece is known, by the
    /// two-ply beam search. The score is the combined score in hundredths,
    /// rounded. Fails on buffers that do not match their sizes, on boards
    /// beyond the size budget `MAX_DEPTH_SUM`, and when the piece fits nowhere.
    pub fn get_best_move_with_lookahead(
        &self,
        grid: &[i32],
        grid_width: usize,
        grid_height: usize,
        piece_shape: &[i32],
        piece_width: usize,
        piece_height: usize,
        next_piece_shape: &[i32],
        next_piece_width: usize,
        next_piece_height: usize,
    ) -> (r: Result<Move, MoveError>)
        requires
            self.wf(),
        ensures
            r == match lookahead_input_error(
                grid@,
                grid_width,
                grid_height,
                piece_shape@,
                piece_width,
                piece_height,
                next_piece_shape@,
                next_piece_width,
                next_piece_height,
            ) {
                Some(e) => Err(e),
                None => self.lookahead_choice(
                    layout(grid@, grid_width, grid_height),
                    layout(piece_shape@, piece_width, piece_height),
                    layout(next_piece_shape@, next_piece_width, next_piece_height),
                ),
            },
    {
        if !same_size(grid.len(), grid_width, grid_height) {
            return Err(MoveError::GridSizeMismatch);
        }
        if !same_size(piece_shape.len(), piece_width, piece_height) {
            return Err(MoveError::PieceSizeMismatch);
        }
        if !same_size(next_piece_shape.len(), next_piece_width, next_piece_height) {
            return Err(MoveError::NextPieceSizeMismatch);
        }
        if grid_height > MAX_DEPTH_SUM || !within_depth_budget(grid_width, grid_height) {
            return Err(MoveError::BoardTooLarge);
        }
        let board = Grid { cells: copy_cells(grid), width: grid_width, height: grid_height };
        let piece = Shape { cells: copy_cells(piece_shape), width: piece_width, height: piece_height };
        let next = Shape { cells: copy_cells(next_piece_shape), width: next_piece_width, height: next_piece_height };
        self.search_with_lookahead(&board, &piece, &next)
    }
}

/// Whether `width * height * height` is within `MAX_DEPTH_SUM`.
pub fn within_depth_budget(width: usize, height: usize) -> (r: bool)
    ensures
        r == (width * height * height <= MAX_DEPTH_SUM),
{
    match width.checked_mul(height) {
        Some(a) => match a.checked_mul(height) {
            Some(b) => b <= MAX_DEPTH_SUM,
            None => false,
        },
        None => {
            assert(width * height * height >= width * height) by (nonlinear_arith)
                requires width * height > 0, height >= 0, width >= 0;
            false
        },
    }
}

/// Whether a buffer of `len` cells matches a `width` by `height` bitmap.
pub fn same_size(len: usize, width: usize, height: usize) -> (r: bool)
    ensures
        r == (len == width * height),
{
    match width.checked_mul(height) {
        Some(n) => n == len,
        None => false,
    }
}

/// Looking ahead never loses a move: when the piece has a legal placement
/// the two-ply search returns one of its placements, and it reports no move
/// only when the piece fits nowhere.
pub proof fn lemma_lookahead_succeeds_when_piece_fits(ai: TetrisAI, g: Bitmap, p: Bitmap, next: Bitmap)
    requires
        ai.wf(),
    ensures
        candidates(ai.weights, g, p).len() > 0 ==> ai.lookahead_choice(g, p, next) is Ok,
        candidates(ai.weights, g, p).len() == 0 ==> ai.lookahead_choice(g, p, next) == Err::<Move, MoveError>(
            MoveError::NoLegalMove,
        ),
{
    lemma_sort_desc_len(candidates(ai.weights, g, p));
    let kept = beam(ai.weights, g, p, ai.beam_width as int);
    if kept.len() == 0 {
        assert(ai.pick(g, p, next, kept) is None);
    }
}

/// `a / d` rounded to the nearest integer, halves away from zero.
pub fn round_to_nearest(a: i64, d: i64) -> (r: i64)
    requires
        0 < d <= MAX_WEIGHT,
        -0x2000_0000_0000_0000 <= a <= 0x2000_0000_0000_0000,
    ensures
        r == round_div(a as int, d as int),
{
    if a >= 0 {
        (2 * a + d) / (2 * d)
    } else {
        -((d - 2 * a) / (2 * d))
    }
}

} // verus!
