//! Quarter turns of a piece bitmap.
use vstd::prelude::*;
use crate::bitmap::{Bitmap, Shape, lemma_index_in_range, lemma_index_split};

verus! {

/// One clockwise quarter turn: a `w`-wide, `h`-tall bitmap becomes `h` wide
/// and `w` tall, and the old cell at column `x`, row `y` moves to column
/// `h - 1 - y`, row `x`.
pub open spec fn rotate_once(p: Bitmap) -> Bitmap {
    Bitmap {
        cells: Seq::new(
            p.width * p.height,
            |i: int| p.at(p.height - 1 - i % (p.height as int), i / (p.height as int)),
        ),
        width: p.height,
        height: p.width,
    }
}

/// `n` successive quarter turns.
pub open spec fn rotate_times(p: Bitmap, n: nat) -> Bitmap
    decreases n,
{
    if n == 0 {
        p
    } else {
        rotate_once(rotate_times(p, (n - 1) as nat))
    }
}

/// Cell by cell, a quarter turn reads the old bitmap at the turned position.
pub proof fn lemma_rotate_once_at(p: Bitmap, r: int, c: int)
    requires
        p.wf(),
        0 <= r < p.width,
        0 <= c < p.height,
    ensures
        rotate_once(p).wf(),
        rotate_once(p).at(r, c) == p.at(p.height - 1 - c, r),
{
    let q = rotate_once(p);
    assert(q.cells.len() == q.width * q.height) by (nonlinear_arith)
        requires q.cells.len() == p.width * p.height, q.width == p.height, q.height == p.width;
    lemma_index_in_range(p.height as int, p.width as int, r, c);
}

/// Four quarter turns, and no turn at all, give back the bitmap itself.
pub proof fn lemma_rotation_round_trip(p: Bitmap)
    requires
        p.wf(),
    ensures
        rotate_times(p, 4) == p,
        rotate_times(p, 0) == p,
{
    let w = p.width as int;
    let h = p.height as int;
    let r1 = rotate_times(p, 1);
    let r2 = rotate_times(p, 2);
    let r3 = rotate_times(p, 3);
    let r4 = rotate_times(p, 4);
    assert(rotate_times(p, 0) == p);
    assert(r1 == rotate_once(p));
    assert(r2 == rotate_once(r1));
    assert(r3 == rotate_once(r2));
    assert(r4 == rotate_once(r3));
    assert forall|r: int, c: int| 0 <= r < w && 0 <= c < h implies r1.at(r, c) == p.at(h - 1 - c, r) by {
        lemma_rotate_once_at(p, r, c);
    }
    if w > 0 && h > 0 {
        lemma_rotate_once_at(p, 0, 0);
    }
    assert(r1.wf()) by (nonlinear_arith)
        requires r1.cells.len() == w * h, r1.width == h, r1.height == w;
    assert forall|r: int, c: int| 0 <= r < h && 0 <= c < w implies r2.at(r, c) == p.at(h - 1 - r, w - 1 - c) by {
        lemma_rotate_once_at(r1, r, c);
    }
    assert(r2.wf()) by (nonlinear_arith)
        requires r2.cells.len() == w * h, r2.width == w, r2.height == h;
    assert forall|r: int, c: int| 0 <= r < w && 0 <= c < h implies r3.at(r, c) == p.at(c, w - 1 - r) by {
        lemma_rotate_once_at(r2, r, c);
    }
    assert(r3.wf()) by (nonlinear_arith)
        requires r3.cells.len() == w * h, r3.width == h, r3.height == w;
    assert forall|r: int, c: int| 0 <= r < h && 0 <= c < w implies r4.at(r, c) == p.at(r, c) by {
        lemma_rotate_once_at(r3, r, c);
    }
    assert(r4.cells.len() == p.cells.len()) by (nonlinear_arith)
        requires r4.cells.len() == h * w, p.cells.len() == w * h;
    assert forall|i: int| 0 <= i < p.cells.len() implies r4.cells[i] == p.cells[i] by {
        lemma_index_split(w, h, i);
    }
    assert(r4.cells =~= p.cells);
}

/// Copies a cell buffer.
pub fn copy_cells(cells: &[i32]) -> (r: Vec<i32>)
    ensures
        r@ == cells@,
{
    let mut r: Vec<i32> = Vec::with_capacity(cells.len());
    let mut i: usize = 0;
    while i < cells.len()
        invariant
            i <= cells@.len(),
            r@ == cells@.subrange(0, i as int),
        decreases cells@.len() - i,
    {
        r.push(cells[i]);
        i = i + 1;
        assert(r@ =~= cells@.subrange(0, i as int));
    }
    assert(r@ =~= cells@);
    r
}

/// Turns a piece one quarter turn clockwise.
pub fn rotate_quarter(piece: &Shape) -> (r: Shape)
    requires
        piece@.wf(),
    ensures
        r@ == rotate_once(piece@),
        r@.wf(),
{
    let w = piece.width;
    let h = piece.height;
    let len = piece.cells.len();
    let ghost q = rotate_once(piece@);
    let mut cells: Vec<i32> = Vec::new();
    let mut ny: usize = 0;
    while ny < w
        invariant
            piece@.wf(),
            w == piece.width,
            h == piece.height,
            q == rotate_once(piece@),
            len == piece.cells@.len(),
            ny <= w,
            cells@.len() == ny * h,
            forall|j: int| 0 <= j < cells@.len() ==> cells@[j] == q.cells[j],
        decreases w - ny,
    {
        let mut nx: usize = 0;
        while nx < h
            invariant
                piece@.wf(),
                w == piece.width,
                h == piece.height,
                q == rotate_once(piece@),
                len == piece.cells@.len(),
                ny < w,
                nx <= h,
                cells@.len() == ny * h + nx,
                forall|j: int| 0 <= j < cells@.len() ==> cells@[j] == q.cells[j],
            decreases h - nx,
        {
            proof {
                lemma_index_in_range(h as int, w as int, ny as int, nx as int);
                lemma_index_in_range(w as int, h as int, (h - 1 - nx) as int, ny as int);
                assert(h * w == w * h) by (nonlinear_arith);
            }
            let v = piece.cells[(h - 1 - nx) * w + ny];
            cells.push(v);
            nx = nx + 1;
        }
        assert((ny + 1) * h == ny * h + h) by (nonlinear_arith);
        ny = ny + 1;
    }
    assert(cells@.len() == q.cells.len()) by (nonlinear_arith)
        requires cells@.len() == w * h, q.cells.len() == w * h;
    assert(cells@ =~= q.cells);
    proof {
        assert(q.cells.len() == q.width * q.height) by (nonlinear_arith)
            requires q.cells.len() == w * h, q.width == h, q.height == w;
    }
    Shape { cells, width: h, height: w }
}

/// Turns a piece `rotation % 4` quarter turns clockwise, starting each time
/// from the given orientation.
pub fn rotate_piece(piece: &Shape, rotation: usize) -> (r: Shape)
    requires
        piece@.wf(),
    ensures
        r@ == rotate_times(piece@, (rotation % 4) as nat),
        r@.wf(),
{
    let turns = rotation % 4;
    let mut current = Shape { cells: copy_cells(piece.cells.as_slice()), width: piece.width, height: piece.height };
    let mut k: usize = 0;
    while k < turns
        invariant
            turns < 4,
            k <= turns,
            current@ == rotate_times(piece@, k as nat),
            current@.wf(),
        decreases turns - k,
    {
        current = rotate_quarter(&current);
        k = k + 1;
    }
    current
}

} // verus!
