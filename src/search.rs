//! Enumerating placements, picking the best one, and ranking candidates.
use vstd::prelude::*;
use crate::bitmap::{Bitmap, Grid, Shape};
use crate::rotation::{rotate_times, rotate_piece};
use crate::placement::{landing_row, opt_int, find_landing_position};
use crate::evaluate::{Weights, SCORE_LIMIT, placement_score, evaluate_position};

verus! {

/// A placement: the piece turned `rotation` quarter turns clockwise, resting
/// with the top-left corner of its bounding box at column `x`, row `y`.
/// `score` is in hundredths of a point; larger is better.
#[derive(Clone, Copy, Debug, PartialEq, Eq, Structural)]
pub struct Move {
    pub x: usize,
    pub y: usize,
    pub rotation: usize,
    pub score: i64,
}

/// The placement of the turned piece `q` dropped in column `x`, if it fits.
pub open spec fn candidate_at(w: Weights, g: Bitmap, q: Bitmap, rotation: int, x: int) -> Option<Move> {
    match landing_row(g, q, x) {
        Some(y) => Some(
            Move {
                x: x as usize,
                y: y as usize,
                rotation: rotation as usize,
                score: placement_score(w, g, q, x, y) as i64,
            },
        ),
        None => None,
    }
}

/// Placements of the turned piece `q` over the columns `0..n`, in order.
pub open spec fn candidates_in_rotation(w: Weights, g: Bitmap, q: Bitmap, rotation: int, n: int) -> Seq<Move>
    decreases n,
{
    if n <= 0 {
        Seq::empty()
    } else {
        candidates_in_rotation(w, g, q, rotation, n - 1) + match candidate_at(w, g, q, rotation, n - 1) {
            Some(m) => seq![m],
            None => Seq::empty(),
        }
    }
}

/// How many columns the left edge of a `q.width`-wide piece can take.
pub open spec fn offsets(g: Bitmap, q: Bitmap) -> int {
    if q.width <= g.width {
        g.width - q.width + 1
    } else {
        0
    }
}

/// Placements for the rotations `0..k`, rotation by rotation, each over the
/// columns from left to right.
pub open spec fn candidates_upto(w: Weights, g: Bitmap, p: Bitmap, k: int) -> Seq<Move>
    decreases k,
{
    if k <= 0 {
        Seq::empty()
    } else {
        let q = rotate_times(p, (k - 1) as nat);
        candidates_upto(w, g, p, k - 1) + candidates_in_rotation(w, g, q, k - 1, offsets(g, q))
    }
}

/// Every legal placement of the piece, in enumeration order: rotation
/// ascending, then column ascending.
pub open spec fn candidates(w: Weights, g: Bitmap, p: Bitmap) -> Seq<Move> {
    candidates_upto(w, g, p, 4)
}

/// The highest-scoring placement, the earliest one among equals; `None` for
/// an empty sequence.
pub open spec fn best_of(s: Seq<Move>) -> Option<Move>
    decreases s.len(),
{
    if s.len() == 0 {
        None
    } else {
        match best_of(s.drop_last()) {
            None => Some(s.last()),
            Some(b) => if s.last().score > b.score {
                Some(s.last())
            } else {
                Some(b)
            },
        }
    }
}

/// `m` put into a sequence sorted by descending score, after every element
/// that scores at least as much.
pub open spec fn insert_desc(s: Seq<Move>, m: Move) -> Seq<Move>
    decreases s.len(),
{
    if s.len() == 0 {
        seq![m]
    } else if s.last().score < m.score {
        insert_desc(s.drop_last(), m).push(s.last())
    } else {
        s.push(m)
    }
}

/// The sequence sorted by descending score; equal scores keep their order.
pub open spec fn sort_desc(s: Seq<Move>) -> Seq<Move>
    decreases s.len(),
{
    if s.len() == 0 {
        Seq::empty()
    } else {
        insert_desc(sort_desc(s.drop_last()), s.last())
    }
}

/// The first `k` of the candidates ranked by descending score (all of them
/// when there are fewer).
pub open spec fn beam(w: Weights, g: Bitmap, p: Bitmap, k: int) -> Seq<Move> {
    let s = sort_desc(candidates(w, g, p));
    if k < s.len() {
        s.take(k)
    } else {
        s
    }
}

/// The score lies within what a bounded board can score.
pub open spec fn score_in_range(m: Move) -> bool {
    -SCORE_LIMIT <= m.score <= SCORE_LIMIT
}

/// Selection after one more element: the new element wins only when it
/// scores strictly higher.
pub proof fn lemma_best_of_push(s: Seq<Move>, m: Move)
    ensures
        best_of(s.push(m)) == match best_of(s) {
            None => Some(m),
            Some(b) => if m.score > b.score {
                Some(m)
            } else {
                Some(b)
            },
        },
{
    assert(s.push(m).drop_last() =~= s);
}

/// The selected placement is one of the candidates and no candidate scores
/// higher; an empty sequence gives `None`.
pub proof fn lemma_best_of_is_max(s: Seq<Move>)
    ensures
        best_of(s) is None <==> s.len() == 0,
        best_of(s) is Some ==> s.contains(best_of(s)->0),
        best_of(s) is Some ==> forall|i: int| 0 <= i < s.len() ==> #[trigger] s[i].score <= best_of(s)->0.score,
    decreases s.len(),
{
    if s.len() > 0 {
        let t = s.drop_last();
        lemma_best_of_is_max(t);
        assert(s =~= t.push(s.last()));
        if best_of(t) is Some {
            let b = best_of(t)->0;
            let j = choose|j: int| 0 <= j < t.len() && t[j] == b;
            assert(s[j] == b);
        }
        assert(s[s.len() - 1] == s.last());
    }
}

/// Inserting into a sorted sequence adds exactly one element.
pub proof fn lemma_insert_desc_len(s: Seq<Move>, m: Move)
    ensures
        insert_desc(s, m).len() == s.len() + 1,
    decreases s.len(),
{
    if s.len() > 0 && s.last().score < m.score {
        lemma_insert_desc_len(s.drop_last(), m);
    }
}

/// Sorting keeps the number of elements.
pub proof fn lemma_sort_desc_len(s: Seq<Move>)
    ensures
        sort_desc(s).len() == s.len(),
    decreases s.len(),
{
    if s.len() > 0 {
        lemma_sort_desc_len(s.drop_last());
        lemma_insert_desc_len(sort_desc(s.drop_last()), s.last());
    }
}

/// The beam holds `min(k, n)` placements for `n` legal placements: never
/// more than the beam width, never more than there are placements.
pub proof fn lemma_beam_bound(w: Weights, g: Bitmap, p: Bitmap, k: int)
    requires
        0 <= k,
    ensures
        beam(w, g, p, k).len() == if k < candidates(w, g, p).len() {
            k
        } else {
            candidates(w, g, p).len() as int
        },
        beam(w, g, p, k).len() <= k,
        beam(w, g, p, k).len() <= candidates(w, g, p).len(),
{
    lemma_sort_desc_len(candidates(w, g, p));
}

/// Insertion at `pos`, the place after the last element scoring at least
/// as much as `m`, is what `insert_desc` does.
proof fn lemma_insert_desc_at(s: Seq<Move>, m: Move, pos: int)
    requires
        0 <= pos <= s.len(),
        forall|j: int| pos <= j < s.len() ==> #[trigger] s[j].score < m.score,
        pos == 0 || s[pos - 1].score >= m.score,
    ensures
        insert_desc(s, m) == s.insert(pos, m),
    decreases s.len(),
{
    if s.len() == 0 {
        assert(s.insert(pos, m) =~= seq![m]);
    } else if pos == s.len() {
        assert(s.insert(pos, m) =~= s.push(m));
    } else {
        let t = s.drop_last();
        assert(s.last() == s[s.len() - 1]);
        lemma_insert_desc_at(t, m, pos);
        assert(s.insert(pos, m) =~= t.insert(pos, m).push(s.last()));
    }
}

/// A board without rows has no placements.
proof fn lemma_no_candidates_without_rows(w: Weights, g: Bitmap, q: Bitmap, rotation: int, n: int)
    requires
        g.height == 0,
    ensures
        candidates_in_rotation(w, g, q, rotation, n) == Seq::<Move>::empty(),
    decreases n,
{
    if n > 0 {
        lemma_no_candidates_without_rows(w, g, q, rotation, n - 1);
        assert(candidates_in_rotation(w, g, q, rotation, n) =~= Seq::<Move>::empty());
    }
}

/// Lists every legal placement of the piece, rotation by rotation and
/// column by column, with its landing row and score.
pub fn enumerate_candidates(weights: &Weights, grid: &Grid, piece: &Shape) -> (r: Vec<Move>)
    requires
        weights.wf(),
        grid@.wf(),
        grid@.bounded(),
        piece@.wf(),
    ensures
        r@ == candidates(*weights, grid@, piece@),
        forall|i: int| 0 <= i < r@.len() ==> score_in_range(#[trigger] r@[i]),
{
    let ghost w = *weights;
    let ghost g = grid@;
    let ghost p = piece@;
    let mut out: Vec<Move> = Vec::new();
    let mut rot: usize = 0;
    while rot < 4
        invariant
            w == *weights,
            g == grid@,
            p == piece@,
            weights.wf(),
            g.wf(),
            g.bounded(),
            p.wf(),
            rot <= 4,
            out@ == candidates_upto(w, g, p, rot as int),
            forall|i: int| 0 <= i < out@.len() ==> score_in_range(#[trigger] out@[i]),
        decreases 4 - rot,
    {
        let q = rotate_piece(piece, rot);
        let ghost before = out@;
        assert(rot % 4 == rot);
        if q.width <= grid.width && grid.height > 0 {
            let last = grid.width - q.width;
            let mut x: usize = 0;
            let mut done = false;
            while !done
                invariant
                    w == *weights,
                    g == grid@,
                    p == piece@,
                    weights.wf(),
                    g.wf(),
                    g.bounded(),
                    q@.wf(),
                    q@ == rotate_times(p, rot as nat),
                    rot < 4,
                    last == g.width - q.width,
                    x <= last,
                    !done ==> out@ == before + candidates_in_rotation(w, g, q@, rot as int, x as int),
                    done ==> out@ == before + candidates_in_rotation(w, g, q@, rot as int, last + 1),
                    forall|i: int| 0 <= i < out@.len() ==> score_in_range(#[trigger] out@[i]),
                decreases last - x + if done { 0int } else { 1int },
            {
                let ghost prefix = out@;
                match find_landing_position(grid, &q, x) {
                    Some(y) => {
                        let s = evaluate_position(weights, grid, &q, x, y);
                        out.push(Move { x, y, rotation: rot, score: s });
                    },
                    None => {},
                }
                assert(out@ =~= before + candidates_in_rotation(w, g, q@, rot as int, x + 1));
                if x == last {
                    done = true;
                } else {
                    x = x + 1;
                }
            }
            assert(out@ =~= candidates_upto(w, g, p, rot + 1));
        } else {
            proof {
                if g.height == 0 {
                    lemma_no_candidates_without_rows(w, g, q@, rot as int, offsets(g, q@));
                }
            }
            assert(out@ =~= candidates_upto(w, g, p, rot + 1));
        }
        rot = rot + 1;
    }
    out
}

/// The highest-scoring placement, the earliest among equals.
pub fn select_best(cands: &Vec<Move>) -> (r: Option<Move>)
    ensures
        r == best_of(cands@),
{
    let mut best: Option<Move> = None;
    let mut i: usize = 0;
    while i < cands.len()
        invariant
            i <= cands@.len(),
            best == best_of(cands@.take(i as int)),
        decreases cands@.len() - i,
    {
        let m = cands[i];
        proof {
            lemma_best_of_push(cands@.take(i as int), m);
            assert(cands@.take(i as int).push(m) =~= cands@.take(i + 1));
        }
        match best {
            None => {
                best = Some(m);
            },
            Some(b) => {
                if m.score > b.score {
                    best = Some(m);
                }
            },
        }
        i = i + 1;
    }
    assert(cands@.take(cands@.len() as int) =~= cands@);
    best
}

/// Puts `m` into a vector sorted by descending score, after every element
/// that scores at least as much.
pub fn insert_by_score(sorted: &mut Vec<Move>, m: Move)
    ensures
        final(sorted)@ == insert_desc(old(sorted)@, m),
        (forall|i: int| 0 <= i < old(sorted)@.len() ==> score_in_range(#[trigger] old(sorted)@[i]))
            && score_in_range(m) ==> forall|i: int|
            0 <= i < final(sorted)@.len() ==> score_in_range(#[trigger] final(sorted)@[i]),
{
    let mut pos: usize = sorted.len();
    while pos > 0 && sorted[pos - 1].score < m.score
        invariant
            pos <= sorted@.len(),
            forall|j: int| pos <= j < sorted@.len() ==> #[trigger] sorted@[j].score < m.score,
        decreases pos,
    {
        pos = pos - 1;
    }
    proof {
        lemma_insert_desc_at(sorted@, m, pos as int);
    }
    let ghost before = sorted@;
    sorted.insert(pos, m);
    assert forall|i: int| 0 <= i < sorted@.len() implies sorted@[i] == m || before.contains(sorted@[i]) by {
        if i < pos {
            assert(sorted@[i] == before[i]);
        } else if i > pos {
            assert(sorted@[i] == before[i - 1]);
        }
    }
}

/// Sorts placements by descending score; equal scores keep their order.
pub fn sort_by_score(cands: &Vec<Move>) -> (r: Vec<Move>)
    ensures
        r@ == sort_desc(cands@),
        (forall|i: int| 0 <= i < cands@.len() ==> score_in_range(#[trigger] cands@[i])) ==> forall|i: int|
            0 <= i < r@.len() ==> score_in_range(#[trigger] r@[i]),
{
    let mut sorted: Vec<Move> = Vec::new();
    let ghost bounded = forall|i: int| 0 <= i < cands@.len() ==> score_in_range(#[trigger] cands@[i]);
    let mut i: usize = 0;
    while i < cands.len()
        invariant
            i <= cands@.len(),
            sorted@ == sort_desc(cands@.take(i as int)),
            bounded == forall|i: int| 0 <= i < cands@.len() ==> score_in_range(#[trigger] cands@[i]),
            bounded ==> forall|j: int| 0 <= j < sorted@.len() ==> score_in_range(#[trigger] sorted@[j]),
        decreases cands@.len() - i,
    {
        let m = cands[i];
        proof {
            let t = cands@.take(i + 1);
            assert(t.drop_last() =~= cands@.take(i as int));
            assert(t.last() == m);
        }
        insert_by_score(&mut sorted, m);
        i = i + 1;
    }
    assert(cands@.take(cands@.len() as int) =~= cands@);
    sorted
}

} // verus!
