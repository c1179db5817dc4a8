use vstd::prelude::*;
use crate::board::{Cell, Falling, occupied, settled_squares};
use crate::clear::{row_count_upto, row_count, full, precedes, rank_upto, rank, full_rows, full_count,
    removed, moved_down, cleared_upto, cleared, lemma_rank_as_count, lemma_full_rows_bounds};
use crate::laws::fits;
use crate::count::{count_where, lemma_count_mono, lemma_count_positive, lemma_count_distinct_bound, lemma_count_split, lemma_count_ext, lemma_count_none};
use crate::shapes::{offset, shape_spec};

verus! {

/// A square inside the well (columns 0..10, rows 0..18) of one of the seven kinds.
pub open spec fn in_well(c: Cell) -> bool {
    0 <= c.0 < 10 && 0 <= c.1 < 18 && c.2 < 7
}

/// A proper well: every square inside it, and no two squares in the same place.
pub open spec fn board_ok(p: Seq<Cell>) -> bool {
    &&& forall|i: int| 0 <= i < p.len() ==> #[trigger] in_well(p[i])
    &&& forall|i: int, j: int| #![trigger p[i], p[j]] 0 <= i < j < p.len() ==> !(p[i].0 == p[j].0 && p[i].1 == p[j].1)
}







proof fn lemma_row_count_as_count(p: Seq<Cell>, r: int, n: int, pred: spec_fn(int) -> bool)
    requires
        forall|j: int| #[trigger] pred(j) == (p[j].1 == r),
    ensures
        row_count_upto(p, r, n) == count_where(n, pred),
    decreases n,
{
    if n > 0 {
        lemma_row_count_as_count(p, r, n - 1, pred);
    }
}


/// On a proper well, a square's rank on its row is at most its column.
proof fn lemma_rank_below_column(p: Seq<Cell>, i: int)
    requires
        board_ok(p),
        0 <= i < p.len(),
    ensures
        rank(p, i) <= p[i].0,
{
    let pred = |j: int| precedes(p, j, i);
    let val = |j: int| p[j].0 as int;
    lemma_rank_as_count(p, i, p.len() as int, pred);
    assert(in_well(p[i]));
    assert forall|j: int| 0 <= j < p.len() && #[trigger] pred(j) implies 0 <= val(j) < p[i].0 by {
        assert(in_well(p[j]));
        if j < i {
            assert(!(p[j].0 == p[i].0 && p[j].1 == p[i].1));
        } else if j > i {
            assert(!(p[i].0 == p[j].0 && p[i].1 == p[j].1));
        }
    }
    assert forall|j1: int, j2: int| #![trigger pred(j1), pred(j2)]
        0 <= j1 < p.len() && 0 <= j2 < p.len() && j1 != j2 && pred(j1) && pred(j2) implies val(j1) != val(j2) by {
        if j1 < j2 {
            assert(!(p[j1].0 == p[j2].0 && p[j1].1 == p[j2].1));
        } else {
            assert(!(p[j2].0 == p[j1].0 && p[j2].1 == p[j1].1));
        }
    }
    lemma_count_distinct_bound(p.len() as int, pred, val, p[i].0 as int);
}

/// On a proper well, a row holds at most ten squares.
proof fn lemma_row_count_at_most_ten(p: Seq<Cell>, r: int)
    requires
        board_ok(p),
    ensures
        row_count(p, r) <= 10,
{
    let pred = |j: int| p[j].1 == r;
    let val = |j: int| p[j].0 as int;
    lemma_row_count_as_count(p, r, p.len() as int, pred);
    assert forall|j: int| 0 <= j < p.len() && #[trigger] pred(j) implies 0 <= val(j) < 10 by {
        assert(in_well(p[j]));
    }
    assert forall|j1: int, j2: int| #![trigger pred(j1), pred(j2)]
        0 <= j1 < p.len() && 0 <= j2 < p.len() && j1 != j2 && pred(j1) && pred(j2) implies val(j1) != val(j2) by {
        if j1 < j2 {
            assert(!(p[j1].0 == p[j2].0 && p[j1].1 == p[j2].1));
        } else {
            assert(!(p[j2].0 == p[j1].0 && p[j2].1 == p[j1].1));
        }
    }
    lemma_count_distinct_bound(p.len() as int, pred, val, 10);
}

/// On a proper well, exactly the squares of full rows are cleared.
proof fn lemma_removed_iff_full(p: Seq<Cell>, i: int)
    requires
        board_ok(p),
        0 <= i < p.len(),
    ensures
        removed(p, i) == full(p, p[i].1 as int),
{
    lemma_rank_below_column(p, i);
    assert(in_well(p[i]));
}

proof fn lemma_full_rows_split(p: Seq<Cell>, lo: int, mid: int, hi: int)
    requires
        lo <= mid <= hi,
    ensures
        full_rows(p, lo, mid) + full_rows(p, mid, hi) == full_rows(p, lo, hi),
    decreases hi - mid,
{
    if mid < hi {
        lemma_full_rows_split(p, lo, mid, hi - 1);
    } else {
        lemma_full_rows_bounds(p, mid, hi);
    }
}

/// The row where a square of row `y` ends up after the clear.
pub open spec fn new_row(p: Seq<Cell>, y: int) -> int {
    y + full_rows(p, y + 1, 18)
}

/// Rows that are not full keep their order and stay apart after the clear.
proof fn lemma_new_row_strict(p: Seq<Cell>, y1: int, y2: int)
    requires
        0 <= y1 < y2 < 18,
        !full(p, y2),
    ensures
        new_row(p, y1) < new_row(p, y2),
{
    lemma_full_rows_split(p, y1 + 1, y2, 18);
    lemma_full_rows_split(p, y2, y2 + 1, 18);
    lemma_full_rows_bounds(p, y1 + 1, y2);
    assert(full_rows(p, y2, y2 + 1) == 0) by {
        assert(full_rows(p, y2, y2) == 0);
    }
}

proof fn lemma_new_row_range(p: Seq<Cell>, y: int)
    requires
        0 <= y < 18,
    ensures
        y <= new_row(p, y) <= 17,
{
    lemma_full_rows_bounds(p, y + 1, 18);
}

/// The index of `p` that the `k`-th square of `cleared_upto(p, n)` comes from.
pub open spec fn source(p: Seq<Cell>, n: int, k: int) -> int
    decreases n,
{
    if n <= 0 {
        0
    } else if removed(p, n - 1) {
        source(p, n - 1, k)
    } else if k == cleared_upto(p, n - 1).len() {
        n - 1
    } else {
        source(p, n - 1, k)
    }
}

proof fn lemma_source(p: Seq<Cell>, n: int)
    requires
        0 <= n <= p.len(),
    ensures
        cleared_upto(p, n).len() <= n,
        forall|k: int| 0 <= k < cleared_upto(p, n).len() ==> {
            let s = #[trigger] source(p, n, k);
            &&& 0 <= s < n
            &&& !removed(p, s)
            &&& cleared_upto(p, n)[k] == moved_down(p, s)
        },
        forall|k1: int, k2: int| 0 <= k1 < k2 < cleared_upto(p, n).len() ==> #[trigger] source(p, n, k1) < #[trigger] source(p, n, k2),
    decreases n,
{
    if n > 0 {
        lemma_source(p, n - 1);
        let prev = cleared_upto(p, n - 1);
        if !removed(p, n - 1) {
            assert forall|k: int| 0 <= k < cleared_upto(p, n).len() implies {
                let s = #[trigger] source(p, n, k);
                &&& 0 <= s < n
                &&& !removed(p, s)
                &&& cleared_upto(p, n)[k] == moved_down(p, s)
            } by {
                if k < prev.len() {
                    assert(source(p, n, k) == source(p, n - 1, k));
                }
            }
            assert forall|k1: int, k2: int| 0 <= k1 < k2 < cleared_upto(p, n).len() implies #[trigger] source(p, n, k1) < #[trigger] source(p, n, k2) by {
                assert(source(p, n, k1) == source(p, n - 1, k1));
                if k2 < prev.len() {
                    assert(source(p, n, k2) == source(p, n - 1, k2));
                }
            }
        } else {
            assert forall|k: int| 0 <= k < cleared_upto(p, n).len() implies {
                let s = #[trigger] source(p, n, k);
                &&& 0 <= s < n
                &&& !removed(p, s)
                &&& cleared_upto(p, n)[k] == moved_down(p, s)
            } by {
                assert(source(p, n, k) == source(p, n - 1, k));
            }
            assert forall|k1: int, k2: int| 0 <= k1 < k2 < cleared_upto(p, n).len() implies #[trigger] source(p, n, k1) < #[trigger] source(p, n, k2) by {
                assert(source(p, n, k1) == source(p, n - 1, k1));
                assert(source(p, n, k2) == source(p, n - 1, k2));
            }
        }
    }
}

proof fn lemma_row_count_prefix(s: Seq<Cell>, t: Seq<Cell>, r: int, k: int)
    requires
        0 <= k <= s.len(),
        k <= t.len(),
        forall|j: int| 0 <= j < k ==> s[j] == t[j],
    ensures
        row_count_upto(s, r, k) == row_count_upto(t, r, k),
    decreases k,
{
    if k > 0 {
        lemma_row_count_prefix(s, t, r, k - 1);
    }
}

/// A row of the cleared well holds the squares that are not cleared and move to it.
proof fn lemma_cleared_row_count(p: Seq<Cell>, r: int, n: int, pred: spec_fn(int) -> bool)
    requires
        board_ok(p),
        0 <= n <= p.len(),
        forall|i: int| #[trigger] pred(i) == (!removed(p, i) && new_row(p, p[i].1 as int) == r),
    ensures
        row_count_upto(cleared_upto(p, n), r, cleared_upto(p, n).len() as int) == count_where(n, pred),
    decreases n,
{
    if n > 0 {
        lemma_cleared_row_count(p, r, n - 1, pred);
        lemma_source(p, n - 1);
        let prev = cleared_upto(p, n - 1);
        if !removed(p, n - 1) {
            let cur = cleared_upto(p, n);
            assert(cur == prev.push(moved_down(p, n - 1)));
            lemma_row_count_prefix(cur, prev, r, prev.len() as int);
            assert(in_well(p[n - 1]));
            lemma_new_row_range(p, p[n - 1].1 as int);
            assert(cur[prev.len() as int].1 == new_row(p, p[n - 1].1 as int));
        }
    }
}

/// Clearing a proper well leaves a proper well with no full row, and it removes ten
/// squares for every full row.
pub proof fn law_clear_keeps_well_proper(p: Seq<Cell>)
    requires
        board_ok(p),
    ensures
        board_ok(cleared(p)),
        forall|r: int| !#[trigger] full(cleared(p), r),
        forall|i: int| 0 <= i < p.len() ==> (#[trigger] removed(p, i) <==> full(p, p[i].1 as int)),
{
    let n = p.len() as int;
    let c = cleared(p);
    lemma_source(p, n);
    assert forall|i: int| 0 <= i < p.len() implies (#[trigger] removed(p, i) <==> full(p, p[i].1 as int)) by {
        lemma_removed_iff_full(p, i);
    }
    assert forall|k: int| 0 <= k < c.len() implies #[trigger] in_well(c[k]) by {
        let s = source(p, n, k);
        assert(in_well(p[s]));
        lemma_new_row_range(p, p[s].1 as int);
    }
    assert forall|k1: int, k2: int| #![trigger c[k1], c[k2]] 0 <= k1 < k2 < c.len() implies !(c[k1].0 == c[k2].0 && c[k1].1 == c[k2].1) by {
        let s1 = source(p, n, k1);
        let s2 = source(p, n, k2);
        assert(s1 < s2);
        assert(in_well(p[s1]) && in_well(p[s2]));
        lemma_removed_iff_full(p, s1);
        lemma_removed_iff_full(p, s2);
        lemma_new_row_range(p, p[s1].1 as int);
        lemma_new_row_range(p, p[s2].1 as int);
        if c[k1].0 == c[k2].0 {
            assert(!(p[s1].0 == p[s2].0 && p[s1].1 == p[s2].1));
            if p[s1].1 < p[s2].1 {
                lemma_new_row_strict(p, p[s1].1 as int, p[s2].1 as int);
            } else {
                lemma_new_row_strict(p, p[s2].1 as int, p[s1].1 as int);
            }
        }
    }
    assert forall|r: int| !#[trigger] full(c, r) by {
        let pred = |i: int| !removed(p, i) && new_row(p, p[i].1 as int) == r;
        lemma_cleared_row_count(p, r, n, pred);
        if count_where(n, pred) > 0 {
            lemma_count_positive(n, pred);
            let i0 = choose|j: int| 0 <= j < n && #[trigger] pred(j);
            let y0 = p[i0].1 as int;
            assert(in_well(p[i0]));
            lemma_removed_iff_full(p, i0);
            let same = |j: int| p[j].1 == y0;
            assert forall|j: int| 0 <= j < n && #[trigger] pred(j) implies same(j) by {
                assert(in_well(p[j]));
                lemma_removed_iff_full(p, j);
                if (p[j].1 as int) < y0 {
                    lemma_new_row_strict(p, p[j].1 as int, y0);
                } else if (p[j].1 as int) > y0 {
                    lemma_new_row_strict(p, y0, p[j].1 as int);
                }
            }
            lemma_count_mono(n, pred, same);
            lemma_row_count_as_count(p, y0, n, same);
        }
    }
}




proof fn lemma_cleared_len(p: Seq<Cell>, n: int, rem: spec_fn(int) -> bool)
    requires
        0 <= n <= p.len(),
        forall|i: int| #[trigger] rem(i) == removed(p, i),
    ensures
        cleared_upto(p, n).len() == n - count_where(n, rem),
    decreases n,
{
    if n > 0 {
        lemma_cleared_len(p, n - 1, rem);
    }
}

/// On a proper well, the squares on full rows of `0..k` number ten per full row.
proof fn lemma_full_squares(p: Seq<Cell>, k: int, pred: spec_fn(int) -> bool)
    requires
        board_ok(p),
        0 <= k <= 18,
        forall|i: int| #[trigger] pred(i) == (0 <= p[i].1 < k && full(p, p[i].1 as int)),
    ensures
        count_where(p.len() as int, pred) == 10 * full_rows(p, 0, k),
    decreases k,
{
    let n = p.len() as int;
    if k == 0 {
        lemma_count_none(n, pred);
    } else {
        let a = |i: int| 0 <= p[i].1 < k - 1 && full(p, p[i].1 as int);
        let b = |i: int| p[i].1 == k - 1 && full(p, k - 1);
        lemma_full_squares(p, k - 1, a);
        lemma_count_split(n, a, b, pred);
        if full(p, k - 1) {
            let row = |i: int| p[i].1 == k - 1;
            lemma_count_ext(n, b, row);
            lemma_row_count_as_count(p, k - 1, n, row);
            lemma_row_count_at_most_ten(p, k - 1);
        } else {
            lemma_count_none(n, b);
        }
    }
}

/// On a proper well, clearing removes exactly ten squares for each full row.
pub proof fn law_clear_removes_full_rows(p: Seq<Cell>)
    requires
        board_ok(p),
    ensures
        cleared(p).len() == p.len() - 10 * full_count(p),
{
    let n = p.len() as int;
    let rem = |i: int| removed(p, i);
    let pred = |i: int| 0 <= p[i].1 < 18 && full(p, p[i].1 as int);
    lemma_cleared_len(p, n, rem);
    assert forall|i: int| 0 <= i < n implies #[trigger] rem(i) == pred(i) by {
        lemma_removed_iff_full(p, i);
        assert(in_well(p[i]));
    }
    lemma_count_ext(n, rem, pred);
    lemma_full_squares(p, 18, pred);
}

proof fn lemma_shape_distinct(kind: int, rot: int)
    requires
        0 <= kind < 7,
        0 <= rot < 4,
    ensures
        forall|i: int, j: int| 0 <= i < j < 4 ==> #[trigger] offset(shape_spec(kind, rot), i) != #[trigger] offset(shape_spec(kind, rot), j),
{
    let s = shape_spec(kind, rot);
    assert(s.0 != s.1 && s.0 != s.2 && s.0 != s.3 && s.1 != s.2 && s.1 != s.3 && s.2 != s.3);
}

/// A piece that fits, with every square at or below the top row, settles into a proper
/// well and leaves it proper.
pub proof fn law_settle_keeps_well_proper(p: Seq<Cell>, f: Falling)
    requires
        board_ok(p),
        f.kind < 7,
        f.rot < 4,
        fits(p, f),
        forall|i: int| 0 <= i < 4 ==> #[trigger] f.cy(i) >= 0,
    ensures
        board_ok(p + settled_squares(f)),
{
    let q = settled_squares(f);
    let s = p + q;
    let n = p.len() as int;
    lemma_shape_distinct(f.kind as int, f.rot as int);
    assert forall|k: int| 0 <= k < 4 implies #[trigger] q[k] == (f.cx(k) as i32, f.cy(k) as i32, f.kind)
        && 0 <= f.cx(k) <= 9 && 0 <= f.cy(k) <= 17 && !occupied(p, f.cx(k), f.cy(k)) by {
        assert(f.cy(k) >= 0);
    }
    assert forall|i: int| 0 <= i < s.len() implies #[trigger] in_well(s[i]) by {
        if i >= n {
            assert(s[i] == q[i - n]);
        }
    }
    assert forall|i: int, j: int| #![trigger s[i], s[j]] 0 <= i < j < s.len() implies !(s[i].0 == s[j].0 && s[i].1 == s[j].1) by {
        if j >= n {
            assert(s[j] == q[j - n]);
            if i >= n {
                assert(s[i] == q[i - n]);
                assert(offset(f.shape(), i - n) != offset(f.shape(), j - n));
            } else {
                assert(in_well(p[i]));
                if s[i].0 == s[j].0 && s[i].1 == s[j].1 {
                    assert(p[i].0 == f.cx(j - n) && p[i].1 == f.cy(j - n) && p[i].2 <= 6);
                    assert(occupied(p, f.cx(j - n), f.cy(j - n)));
                }
            }
        }
    }
}

} // verus!
