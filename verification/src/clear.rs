use vstd::prelude::*;
use crate::board::Cell;
use crate::game::Game;
use crate::count::{count_where, lemma_count_mono, lemma_count_strict};
use crate::timing::{clear_points, line_points, points_fit};

verus! {

/// Number of squares among the first `n` of `p` that lie on row `r`.
pub open spec fn row_count_upto(p: Seq<Cell>, r: int, n: int) -> int
    decreases n,
{
    if n <= 0 {
        0
    } else {
        row_count_upto(p, r, n - 1) + if p[n - 1].1 == r { 1int } else { 0int }
    }
}

/// Number of squares of `p` on row `r`.
pub open spec fn row_count(p: Seq<Cell>, r: int) -> int {
    row_count_upto(p, r, p.len() as int)
}

/// Row `r` is inside the well and holds at least ten squares.
pub open spec fn full(p: Seq<Cell>, r: int) -> bool {
    0 <= r < 18 && row_count(p, r) >= 10
}

/// Square `j` comes before square `i` on their common row: further left, or in the
/// same column and earlier in `p`.
pub open spec fn precedes(p: Seq<Cell>, j: int, i: int) -> bool {
    p[j].1 == p[i].1 && (p[j].0 < p[i].0 || (p[j].0 == p[i].0 && j < i))
}

pub open spec fn rank_upto(p: Seq<Cell>, i: int, n: int) -> int
    decreases n,
{
    if n <= 0 {
        0
    } else {
        rank_upto(p, i, n - 1) + if precedes(p, n - 1, i) { 1int } else { 0int }
    }
}

/// The place of square `i` on its row, counted from the left from 0 (squares in the
/// same column are taken in the order of `p`).
pub open spec fn rank(p: Seq<Cell>, i: int) -> int {
    rank_upto(p, i, p.len() as int)
}

/// Number of full rows in `lo..hi`.
pub open spec fn full_rows(p: Seq<Cell>, lo: int, hi: int) -> int
    decreases hi - lo,
{
    if hi <= lo {
        0
    } else {
        full_rows(p, lo, hi - 1) + if full(p, hi - 1) { 1int } else { 0int }
    }
}

/// Number of full rows in the well.
pub open spec fn full_count(p: Seq<Cell>) -> int {
    full_rows(p, 0, 18)
}

/// Square `i` is cleared: it is one of the ten leftmost squares of a full row.
pub open spec fn removed(p: Seq<Cell>, i: int) -> bool {
    full(p, p[i].1 as int) && rank(p, i) < 10
}

/// Square `i` after the clear: moved down by the number of full rows below it.
pub open spec fn moved_down(p: Seq<Cell>, i: int) -> Cell {
    (p[i].0, (p[i].1 + full_rows(p, p[i].1 + 1, 18)) as i32, p[i].2)
}

pub open spec fn cleared_upto(p: Seq<Cell>, n: int) -> Seq<Cell>
    decreases n,
{
    if n <= 0 {
        Seq::empty()
    } else if removed(p, n - 1) {
        cleared_upto(p, n - 1)
    } else {
        cleared_upto(p, n - 1).push(moved_down(p, n - 1))
    }
}

/// The well after clearing full rows: the squares that are not cleared, in their order,
/// each moved down by the number of full rows below it.
pub open spec fn cleared(p: Seq<Cell>) -> Seq<Cell> {
    cleared_upto(p, p.len() as int)
}

/// Every square lies on a row of the well (0..18).
pub open spec fn rows_in_well(p: Seq<Cell>) -> bool {
    forall|i: int| 0 <= i < p.len() ==> 0 <= #[trigger] p[i].1 < 18
}

/// During the clearing animation, in step `col` (0..5) after the full row `row`: the
/// squares of rank `4 - c` and `5 + c` of each full row are taken away for every earlier
/// step `c`, and for step `col` on the full rows up to `row`.
pub open spec fn scheduled_at(p: Seq<Cell>, i: int, col: int, row: int) -> bool {
    let k = rank(p, i);
    full(p, p[i].1 as int) && ((5 - col <= k <= 4 + col) || (p[i].1 <= row && (k == 4 - col || k == 5 + col)))
}

/// Number of squares among the first `n` of `p` that equal square `i` and come before it.
pub open spec fn copies_before_upto(p: Seq<Cell>, i: int, n: int) -> int
    decreases n,
{
    if n <= 0 {
        0
    } else {
        copies_before_upto(p, i, n - 1) + if n - 1 < i && p[n - 1] == p[i] { 1int } else { 0int }
    }
}

/// Number of squares among the first `n` of `p` that equal square `i` and are taken away
/// by the animation in step `col` after row `row`.
pub open spec fn scheduled_copies_upto(p: Seq<Cell>, i: int, col: int, row: int, n: int) -> int
    decreases n,
{
    if n <= 0 {
        0
    } else {
        scheduled_copies_upto(p, i, col, row, n - 1) + if p[n - 1] == p[i] && scheduled_at(p, n - 1, col, row) { 1int } else { 0int }
    }
}

/// Square `i` is gone from the picture in step `col` after row `row`. A square is taken
/// away by its value, the first equal square of the list going first: of the squares
/// equal to square `i`, as many go as are taken away, and they are the earliest ones.
pub open spec fn gone_at(p: Seq<Cell>, i: int, col: int, row: int) -> bool {
    copies_before_upto(p, i, p.len() as int) < scheduled_copies_upto(p, i, col, row, p.len() as int)
}

/// During the clearing animation: in the last step the rows above each full row already
/// done have moved down one row.
pub open spec fn drop_at(p: Seq<Cell>, i: int, col: int, row: int) -> int {
    if col == 4 { full_rows(p, p[i].1 + 1, row + 1) } else { 0 }
}

pub open spec fn frame_upto(p: Seq<Cell>, col: int, row: int, n: int) -> Seq<Cell>
    decreases n,
{
    if n <= 0 {
        Seq::empty()
    } else if gone_at(p, n - 1, col, row) {
        frame_upto(p, col, row, n - 1)
    } else {
        frame_upto(p, col, row, n - 1).push((p[n - 1].0, (p[n - 1].1 + drop_at(p, n - 1, col, row)) as i32, p[n - 1].2))
    }
}

/// The well as drawn during the clearing animation, in step `col` after full row `row`.
pub open spec fn frame(p: Seq<Cell>, col: int, row: int) -> Seq<Cell> {
    frame_upto(p, col, row, p.len() as int)
}

/// One picture of the clearing animation.
pub struct ClearFrame {
    /// The step (0..5): in step `c` the squares of rank `4 - c` and `5 + c` go.
    pub col: usize,
    /// The full row just treated.
    pub row: usize,
    /// The settled squares to draw.
    pub pieces: Vec<Cell>,
    /// The line count to show.
    pub lines: i32,
    /// The animation pauses before this picture (the first of each step).
    pub pause: bool,
}

/// Frame `k` of the animation of clearing `p` (with `f` full rows, starting from
/// `lines0` lines) is the picture after full row `fr.row` in step `fr.col`.
pub open spec fn frame_ok(p: Seq<Cell>, f: int, lines0: int, fr: ClearFrame, k: int) -> bool {
    &&& fr.col < 5
    &&& full(p, fr.row as int)
    &&& fr.col * f + full_rows(p, 0, fr.row as int) == k
    &&& fr.pieces@ == frame(p, fr.col as int, fr.row as int)
    &&& fr.lines == lines0 + if fr.col == 4 { full_rows(p, 0, fr.row + 1) } else { 0 }
    &&& fr.pause == (full_rows(p, 0, fr.row as int) == 0)
}

/// What clearing needs: every square on a row of the well, and room in `i32` for the new
/// line count and score.
pub open spec fn clear_allowed(g: Game) -> bool {
    let f = full_count(g.pieces@);
    &&& rows_in_well(g.pieces@)
    &&& g.lines + f <= i32::MAX
    &&& i32::MIN <= clear_points(f, g.lines + f) <= i32::MAX
    &&& i32::MIN <= g.score + clear_points(f, g.lines + f) <= i32::MAX
}

pub proof fn lemma_rank_as_count(p: Seq<Cell>, i: int, n: int, pred: spec_fn(int) -> bool)
    requires
        forall|j: int| #[trigger] pred(j) == precedes(p, j, i),
    ensures
        rank_upto(p, i, n) == count_where(n, pred),
    decreases n,
{
    if n > 0 {
        lemma_rank_as_count(p, i, n - 1, pred);
    }
}

pub proof fn lemma_full_rows_bounds(p: Seq<Cell>, lo: int, hi: int)
    ensures
        0 <= full_rows(p, lo, hi),
        lo <= hi ==> full_rows(p, lo, hi) <= hi - lo,
        hi <= lo ==> full_rows(p, lo, hi) == 0,
    decreases hi - lo,
{
    if hi > lo {
        lemma_full_rows_bounds(p, lo, hi - 1);
    }
}

pub proof fn lemma_full_rows_mono(p: Seq<Cell>, lo: int, h1: int, h2: int)
    requires
        h1 <= h2,
    ensures
        full_rows(p, lo, h1) <= full_rows(p, lo, h2),
    decreases h2 - h1,
{
    if h1 < h2 {
        lemma_full_rows_mono(p, lo, h1, h2 - 1);
        if h2 - 1 < lo {
            lemma_full_rows_bounds(p, lo, h2);
            lemma_full_rows_bounds(p, lo, h1);
        }
    }
}

pub proof fn lemma_rank_nonneg(p: Seq<Cell>, i: int, n: int)
    ensures
        0 <= rank_upto(p, i, n),
    decreases n,
{
    if n > 0 {
        lemma_rank_nonneg(p, i, n - 1);
    }
}

/// Two equal squares: the later one has the higher rank.
proof fn lemma_rank_copies(p: Seq<Cell>, j: int, i: int)
    requires
        0 <= j < i < p.len(),
        p[j] == p[i],
    ensures
        rank(p, j) < rank(p, i),
{
    let n = p.len() as int;
    let a = |k: int| precedes(p, k, j);
    let b = |k: int| precedes(p, k, i);
    lemma_rank_as_count(p, j, n, a);
    lemma_rank_as_count(p, i, n, b);
    lemma_count_strict(n, a, b, j);
}

/// In the last picture, exactly the cleared squares are gone.
proof fn lemma_gone_final(p: Seq<Cell>, i: int)
    requires
        rows_in_well(p),
        0 <= i < p.len(),
    ensures
        gone_at(p, i, 4, 17) == removed(p, i),
{
    let n = p.len() as int;
    let before = |j: int| j < i && p[j] == p[i];
    let sc = |j: int| p[j] == p[i] && scheduled_at(p, j, 4, 17);
    lemma_copies_before_as_count(p, i, n, before);
    lemma_scheduled_copies_as_count(p, i, 4, 17, n, sc);
    assert forall|j: int| 0 <= j < n implies #[trigger] scheduled_at(p, j, 4, 17) == removed(p, j) by {
        lemma_rank_nonneg(p, j, n);
        assert(0 <= p[j].1 < 18);
    }
    if removed(p, i) {
        let le = |j: int| j <= i && p[j] == p[i];
        assert forall|j: int| 0 <= j < n && #[trigger] le(j) implies sc(j) by {
            if j < i {
                lemma_rank_copies(p, j, i);
                lemma_rank_nonneg(p, j, n);
                assert(scheduled_at(p, j, 4, 17) == removed(p, j));
            }
            assert(scheduled_at(p, j, 4, 17) == removed(p, j));
        }
        lemma_count_mono(n, le, sc);
        lemma_count_strict(n, before, le, i);
    } else {
        assert forall|j: int| 0 <= j < n && #[trigger] sc(j) implies before(j) by {
            assert(scheduled_at(p, j, 4, 17) == removed(p, j));
            if j > i {
                lemma_rank_copies(p, i, j);
            }
        }
        lemma_count_mono(n, sc, before);
    }
}

proof fn lemma_copies_before_as_count(p: Seq<Cell>, i: int, n: int, pred: spec_fn(int) -> bool)
    requires
        forall|j: int| #[trigger] pred(j) == (j < i && p[j] == p[i]),
    ensures
        copies_before_upto(p, i, n) == count_where(n, pred),
    decreases n,
{
    if n > 0 {
        lemma_copies_before_as_count(p, i, n - 1, pred);
    }
}

proof fn lemma_scheduled_copies_as_count(p: Seq<Cell>, i: int, col: int, row: int, n: int, pred: spec_fn(int) -> bool)
    requires
        forall|j: int| #[trigger] pred(j) == (p[j] == p[i] && scheduled_at(p, j, col, row)),
    ensures
        scheduled_copies_upto(p, i, col, row, n) == count_where(n, pred),
    decreases n,
{
    if n > 0 {
        lemma_scheduled_copies_as_count(p, i, col, row, n - 1, pred);
    }
}

proof fn lemma_frame_final(p: Seq<Cell>, n: int)
    requires
        0 <= n <= p.len(),
        rows_in_well(p),
    ensures
        frame_upto(p, 4, 17, n) == cleared_upto(p, n),
    decreases n,
{
    if n > 0 {
        lemma_frame_final(p, n - 1);
        assert(0 <= p[n - 1].1 < 18);
        lemma_gone_final(p, n - 1);
    }
}

/// Whether every square lies on a row of the well.
pub fn is_rows_in_well(pieces: &Vec<Cell>) -> (r: bool)
    ensures
        r == rows_in_well(pieces@),
{
    let n = pieces.len();
    for i in 0..n
        invariant
            n == pieces.len(),
            forall|j: int| 0 <= j < i ==> 0 <= #[trigger] pieces@[j].1 < 18,
    {
        if pieces[i].1 < 0 || pieces[i].1 >= 18 {
            return false;
        }
    }
    true
}

/// Which rows are full, and how many.
fn full_table(pieces: &Vec<Cell>) -> (r: (Vec<bool>, usize))
    ensures
        r.0.len() == 18,
        forall|k: int| 0 <= k < 18 ==> #[trigger] r.0@[k] == full(pieces@, k),
        r.1 == full_count(pieces@),
{
    let n = pieces.len();
    let mut fulls: Vec<bool> = Vec::new();
    let mut count: usize = 0;
    for r in 0..18usize
        invariant
            n == pieces.len(),
            fulls.len() == r,
            forall|k: int| 0 <= k < r ==> #[trigger] fulls@[k] == full(pieces@, k),
            count == full_rows(pieces@, 0, r as int),
            count <= r,
    {
        let mut c: usize = 0;
        for j in 0..n
            invariant
                n == pieces.len(),
                r < 18,
                c == row_count_upto(pieces@, r as int, j as int),
                c <= j,
        {
            if pieces[j].1 == r as i32 {
                c += 1;
            }
        }
        let is_full = c >= 10;
        fulls.push(is_full);
        if is_full {
            count += 1;
        }
    }
    (fulls, count)
}

/// The rank of every square on its row.
fn rank_table(pieces: &Vec<Cell>) -> (r: Vec<usize>)
    ensures
        r.len() == pieces.len(),
        forall|i: int| 0 <= i < pieces.len() ==> #[trigger] r@[i] == rank(pieces@, i),
{
    let n = pieces.len();
    let mut ranks: Vec<usize> = Vec::new();
    for i in 0..n
        invariant
            n == pieces.len(),
            ranks.len() == i,
            forall|k: int| 0 <= k < i ==> #[trigger] ranks@[k] == rank(pieces@, k),
    {
        let mut r: usize = 0;
        for j in 0..n
            invariant
                n == pieces.len(),
                i < n,
                r == rank_upto(pieces@, i as int, j as int),
                r <= j,
        {
            let a = pieces[j];
            let b = pieces[i];
            if a.1 == b.1 && (a.0 < b.0 || (a.0 == b.0 && j < i)) {
                r += 1;
            }
        }
        ranks.push(r);
    }
    ranks
}

/// The squares that remain, with their current rows: of the squares equal to one
/// another, the earliest ones go, as many as are taken away.
fn picture(pieces: &Vec<Cell>, sched: &Vec<bool>, ys: &Vec<i32>, Ghost(col): Ghost<int>, Ghost(row): Ghost<int>) -> (r: Vec<Cell>)
    requires
        sched.len() == pieces.len(),
        ys.len() == pieces.len(),
        forall|i: int| 0 <= i < pieces.len() ==> #[trigger] sched@[i] == scheduled_at(pieces@, i, col, row),
        forall|i: int| 0 <= i < pieces.len() ==> #[trigger] ys@[i] == pieces@[i].1 + drop_at(pieces@, i, col, row),
    ensures
        r@ == frame(pieces@, col, row),
{
    let n = pieces.len();
    let mut out: Vec<Cell> = Vec::new();
    for j in 0..n
        invariant
            n == pieces.len(),
            sched.len() == n,
            ys.len() == n,
            forall|i: int| 0 <= i < n ==> #[trigger] sched@[i] == scheduled_at(pieces@, i, col, row),
            forall|i: int| 0 <= i < n ==> #[trigger] ys@[i] == pieces@[i].1 + drop_at(pieces@, i, col, row),
            out@ == frame_upto(pieces@, col, row, j as int),
    {
        let c = pieces[j];
        let mut before: usize = 0;
        let mut taken: usize = 0;
        for k in 0..n
            invariant
                n == pieces.len(),
                j < n,
                c == pieces@[j as int],
                sched.len() == n,
                forall|i: int| 0 <= i < n ==> #[trigger] sched@[i] == scheduled_at(pieces@, i, col, row),
                before == copies_before_upto(pieces@, j as int, k as int),
                taken == scheduled_copies_upto(pieces@, j as int, col, row, k as int),
                before <= k,
                taken <= k,
        {
            let d = pieces[k];
            let same = d.0 == c.0 && d.1 == c.1 && d.2 == c.2;
            proof {
                assert(same == (pieces@[k as int] == pieces@[j as int]));
            }
            if same && k < j {
                before += 1;
            }
            if same && sched[k] {
                taken += 1;
            }
        }
        if before >= taken {
            out.push((c.0, ys[j], c.2));
        }
    }
    out
}

impl Game {
    /// Whether `clear_lines` may run: every square on a row of the well, and room for
    /// the new line count and score.
    pub fn can_clear(&self) -> (r: bool)
        ensures
            r == clear_allowed(*self),
    {
        if !is_rows_in_well(&self.pieces) {
            return false;
        }
        let (_fulls, f) = full_table(&self.pieces);
        proof {
            lemma_full_rows_bounds(self.pieces@, 0, 18);
        }
        let f32v = f as i32;
        if self.lines > i32::MAX - f32v {
            return false;
        }
        let lines = self.lines + f32v;
        points_fit(f32v, lines, self.score)
    }

    /// Clears the full rows, as the game does after a piece settles: in five steps, the
    /// squares of each full row go from the middle outwards (ranks 4 and 5, then 3 and 6,
    /// and so on); in the last step each full row, from the top down, adds one to the
    /// line count and the rows above it move down one row. Ten squares go from each full
    /// row. A square is taken away by its value: when equal squares are in the list, the
    /// first of them goes first. The score gains the points for the number of rows
    /// cleared at the new line count. Returns the pictures of the animation: one per step and full row.
    pub fn clear_lines(&mut self) -> (frames: Vec<ClearFrame>)
        requires
            clear_allowed(*old(self)),
        ensures
            final(self).pieces@ == cleared(old(self).pieces@),
            final(self).lines == old(self).lines + full_count(old(self).pieces@),
            final(self).score == old(self).score + clear_points(full_count(old(self).pieces@), final(self).lines as int),
            final(self).cur == old(self).cur,
            final(self).next == old(self).next,
            final(self).hold == old(self).hold,
            frames.len() == 5 * full_count(old(self).pieces@),
            forall|k: int| 0 <= k < frames.len() ==> frame_ok(old(self).pieces@, full_count(old(self).pieces@), old(self).lines as int, #[trigger] frames@[k], k),
    {
        let ghost p = self.pieces@;
        let n = self.pieces.len();
        let (fulls, f) = full_table(&self.pieces);
        let ranks = rank_table(&self.pieces);
        proof {
            lemma_full_rows_bounds(p, 0, 18);
        }
        let mut gone: Vec<bool> = Vec::new();
        let mut ys: Vec<i32> = Vec::new();
        for i in 0..n
            invariant
                n == self.pieces.len(),
                self.pieces@ == p,
                rows_in_well(p),
                gone.len() == i,
                ys.len() == i,
                forall|k: int| 0 <= k < i ==> #[trigger] gone@[k] == scheduled_at(p, k, 0, -1),
                forall|k: int| 0 <= k < i ==> #[trigger] ys@[k] == p[k].1 + drop_at(p, k, 0, -1),
        {
            proof {
                lemma_rank_nonneg(p, i as int, n as int);
            }
            gone.push(false);
            ys.push(self.pieces[i].1);
        }
        let mut lines = self.lines;
        let mut frames: Vec<ClearFrame> = Vec::new();
        proof {
            assert(0 * f == 0);
        }
        for col in 0..5usize
            invariant
                n == self.pieces.len(),
                self.pieces@ == p,
                *self == *old(self),
                clear_allowed(*old(self)),
                fulls.len() == 18,
                forall|k: int| 0 <= k < 18 ==> #[trigger] fulls@[k] == full(p, k),
                f == full_count(p),
                0 <= f <= 18,
                ranks.len() == n,
                forall|i: int| 0 <= i < n ==> #[trigger] ranks@[i] == rank(p, i),
                gone.len() == n,
                ys.len() == n,
                rows_in_well(p),
                forall|i: int| 0 <= i < n ==> #[trigger] gone@[i] == scheduled_at(p, i, col as int, -1),
                col < 5 ==> forall|i: int| 0 <= i < n ==> #[trigger] ys@[i] == p[i].1 + drop_at(p, i, col as int, -1),
                col == 5 ==> forall|i: int| 0 <= i < n ==> #[trigger] ys@[i] == p[i].1 + drop_at(p, i, 4, 17),
                lines == old(self).lines + if col == 5 { f as int } else { 0 },
                frames.len() == col * f,
                forall|k: int| 0 <= k < frames.len() ==> frame_ok(p, f as int, old(self).lines as int, #[trigger] frames@[k], k),
            {
            let mut first = true;
            for row in 0..18usize
                invariant
                    n == self.pieces.len(),
                    self.pieces@ == p,
                    *self == *old(self),
                    clear_allowed(*old(self)),
                    col < 5,
                    fulls.len() == 18,
                    forall|k: int| 0 <= k < 18 ==> #[trigger] fulls@[k] == full(p, k),
                    f == full_count(p),
                    0 <= f <= 18,
                    ranks.len() == n,
                    forall|i: int| 0 <= i < n ==> #[trigger] ranks@[i] == rank(p, i),
                    gone.len() == n,
                    ys.len() == n,
                    forall|i: int| 0 <= i < n ==> #[trigger] gone@[i] == scheduled_at(p, i, col as int, row - 1),
                    forall|i: int| 0 <= i < n ==> #[trigger] ys@[i] == p[i].1 + drop_at(p, i, col as int, row - 1),
                    lines == old(self).lines + if col == 4 { full_rows(p, 0, row as int) } else { 0 },
                    first == (full_rows(p, 0, row as int) == 0),
                    frames.len() == col * f + full_rows(p, 0, row as int),
                    forall|k: int| 0 <= k < frames.len() ==> frame_ok(p, f as int, old(self).lines as int, #[trigger] frames@[k], k),
                            frames.len() > col * f ==> frames@[frames.len() - 1].col == col && frames@[frames.len() - 1].row < row,
            {
                proof {
                    lemma_full_rows_bounds(p, 0, row as int);
                    lemma_full_rows_mono(p, 0, row as int, 18);
                    lemma_full_rows_mono(p, 0, row + 1, 18);
                }
                if fulls[row] {
                    for i in 0..n
                        invariant
                            n == self.pieces.len(),
                            self.pieces@ == p,
                            rows_in_well(p),
                            col < 5,
                            row < 18,
                            full(p, row as int),
                            ranks.len() == n,
                            forall|i: int| 0 <= i < n ==> #[trigger] ranks@[i] == rank(p, i),
                            gone.len() == n,
                            forall|k: int| 0 <= k < i ==> #[trigger] gone@[k] == scheduled_at(p, k, col as int, row as int),
                            forall|k: int| i <= k < n ==> #[trigger] gone@[k] == scheduled_at(p, k, col as int, row - 1),
                    {
                        if self.pieces[i].1 == row as i32 && (ranks[i] == 4 - col || ranks[i] == 5 + col) {
                            gone.set(i, true);
                        }
                    }
                    if col == 4 {
                        lines = lines + 1;
                        for i in 0..n
                            invariant
                                n == self.pieces.len(),
                                self.pieces@ == p,
                                rows_in_well(p),
                                col == 4,
                                row < 18,
                                full(p, row as int),
                                ys.len() == n,
                                forall|k: int| 0 <= k < i ==> #[trigger] ys@[k] == p[k].1 + drop_at(p, k, 4, row as int),
                                forall|k: int| i <= k < n ==> #[trigger] ys@[k] == p[k].1 + drop_at(p, k, 4, row - 1),
                        {
                            proof {
                                lemma_full_rows_bounds(p, p[i as int].1 + 1, row as int);
                            }
                            if self.pieces[i].1 < row as i32 {
                                let y = ys[i];
                                ys.set(i, y + 1);
                            }
                        }
                    }
                    let pic = picture(&self.pieces, &gone, &ys, Ghost(col as int), Ghost(row as int));
                    let fr = ClearFrame { col, row, pieces: pic, lines, pause: first };
                    frames.push(fr);
                    first = false;
                }
            }
            proof {
                assert((col + 1) * f == col * f + f) by (nonlinear_arith);
                assert forall|i: int| 0 <= i < n implies #[trigger] gone@[i] == scheduled_at(p, i, col + 1, -1) by {
                    lemma_rank_nonneg(p, i, n as int);
                    assert(0 <= p[i].1 < 18);
                }
                if col < 4 {
                    assert forall|i: int| 0 <= i < n implies #[trigger] ys@[i] == p[i].1 + drop_at(p, i, col + 1, -1) by {
                        assert(0 <= p[i].1 < 18);
                        lemma_full_rows_bounds(p, p[i].1 + 1, 0);
                    }
                }
            }
        }
        let pic = picture(&self.pieces, &gone, &ys, Ghost(4int), Ghost(17int));
        proof {
            lemma_frame_final(p, n as int);
        }
        let fi = f as i32;
        let pts = line_points(fi, lines);
        self.pieces = pic;
        self.lines = lines;
        self.score = self.score + pts;
        frames
    }
}


} // verus!
