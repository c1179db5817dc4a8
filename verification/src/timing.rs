use vstd::prelude::*;

verus! {

/// `lines / 10`, rounded towards negative infinity (spec `/` on `int` is Euclidean,
/// which for a positive divisor is floor division).
pub open spec fn tens(lines: int) -> int {
    lines / 10
}

pub(crate) fn floor_tens(lines: i32) -> (r: i32)
    ensures
        r == tens(lines as int),
{
    if lines >= 0 {
        ((lines as u32) / 10) as i32
    } else {
        let m: i32 = -(lines + 1);
        let q: i32 = ((m as u32) / 10) as i32;
        proof {
            assert(-(m as int) - 1 == lines as int);
            assert(q as int == (m as int) / 10);
            assert((lines as int) / 10 == -q - 1) by {
                let qq = (m as int) / 10;
                let rr = (m as int) % 10;
                assert(m as int == 10 * qq + rr && 0 <= rr < 10);
                assert(lines as int == 10 * (-qq - 1) + (9 - rr));
                vstd::arithmetic::div_mod::lemma_fundamental_div_mod_converse(lines as int, 10, -qq - 1, 9 - rr);
            }
        }
        -q - 1
    }
}

/// The level shown on screen: one more than the completed tens of lines, and 1 while the
/// line count is negative.
pub open spec fn level_spec(lines: int) -> int {
    if lines < 0 { 1 } else { tens(lines) + 1 }
}

/// The level shown in the "Level" box.
pub fn level(lines: i32) -> (r: usize)
    ensures
        r == level_spec(lines as int),
{
    if lines < 0 {
        1
    } else {
        ((lines as u32) / 10) as usize + 1
    }
}

/// Index into the gravity table for a line count: the completed tens of lines, and 0
/// while the count is negative.
pub open spec fn speed_index_spec(lines: int) -> int {
    if lines < 0 { 0 } else { tens(lines) }
}

/// The gravity table index for a line count.
pub fn speed_index(lines: i32) -> (r: usize)
    ensures
        r == speed_index_spec(lines as int),
{
    if lines < 0 {
        0
    } else {
        ((lines as u32) / 10) as usize
    }
}

/// Frames (at 60 per second) between two gravity steps, by speed index.
pub open spec fn frames_per_row(idx: int) -> int {
    if idx == 0 { 48 } else if idx == 1 { 43 } else if idx == 2 { 38 } else if idx == 3 { 33 }
    else if idx == 4 { 28 } else if idx == 5 { 23 } else if idx == 6 { 18 } else if idx == 7 { 13 }
    else if idx == 8 { 8 } else if idx == 9 { 6 } else if idx <= 12 { 5 } else if idx <= 15 { 4 }
    else if idx <= 18 { 3 } else if idx <= 27 { 2 } else { 1 }
}

/// Milliseconds between two gravity steps at speed index `idx` (there are 29 speeds;
/// a larger index is outside the table).
pub fn gravity_interval_ms(idx: usize) -> (ms: u64)
    requires
        idx < 29,
    ensures
        ms == frames_per_row(idx as int) * 1000 / 60,
{
    let frames: u64 = if idx == 0 { 48 } else if idx == 1 { 43 } else if idx == 2 { 38 } else if idx == 3 { 33 }
    else if idx == 4 { 28 } else if idx == 5 { 23 } else if idx == 6 { 18 } else if idx == 7 { 13 }
    else if idx == 8 { 8 } else if idx == 9 { 6 } else if idx <= 12 { 5 } else if idx <= 15 { 4 }
    else if idx <= 18 { 3 } else if idx <= 27 { 2 } else { 1 };
    frames * 1000 / 60
}

/// Base points for clearing `n` lines at once: 100, 300, 500 or 800 for one to four
/// lines, nothing otherwise.
pub open spec fn base_points(n: int) -> int {
    if n == 1 { 100 } else if n == 2 { 300 } else if n == 3 { 500 } else if n == 4 { 800 } else { 0 }
}

/// Points for clearing `n` lines, given the line count after the clear: the base points
/// times one more than the completed tens of lines.
pub open spec fn clear_points(n: int, lines: int) -> int {
    base_points(n) * (tens(lines) + 1)
}

/// The points that clearing `n` lines earns when the line count has become `lines`.
pub fn line_points(n: i32, lines: i32) -> (p: i32)
    requires
        i32::MIN <= clear_points(n as int, lines as int) <= i32::MAX,
    ensures
        p == clear_points(n as int, lines as int),
{
    let b: i32 = if n == 1 { 100 } else if n == 2 { 300 } else if n == 3 { 500 } else if n == 4 { 800 } else { 0 };
    let t = floor_tens(lines);
    if b == 0 {
        return 0;
    }
    proof {
        assert(i32::MIN <= b * (t + 1) <= i32::MAX);
        assert(-2147483648 <= t + 1 <= 2147483647) by (nonlinear_arith)
            requires
                100 <= b,
                i32::MIN <= b * (t + 1) <= i32::MAX;
    }
    b * (t + 1)
}

/// Whether the points for clearing `n` lines at line count `lines` fit in `i32`, and so
/// does `score` plus those points.
pub fn points_fit(n: i32, lines: i32, score: i32) -> (r: bool)
    ensures
        r == (i32::MIN <= clear_points(n as int, lines as int) <= i32::MAX
            && i32::MIN <= score + clear_points(n as int, lines as int) <= i32::MAX),
{
    let b: i64 = if n == 1 { 100 } else if n == 2 { 300 } else if n == 3 { 500 } else if n == 4 { 800 } else { 0 };
    let t = floor_tens(lines) as i64;
    proof {
        assert(-214748365 <= t <= 214748364);
        assert(-200000000000 <= b * (t + 1) <= 200000000000) by (nonlinear_arith)
            requires
                0 <= b <= 800,
                -214748365 <= t <= 214748364;
    }
    let pts: i64 = b * (t + 1);
    let total: i64 = score as i64 + pts;
    i32::MIN as i64 <= pts && pts <= i32::MAX as i64 && i32::MIN as i64 <= total && total <= i32::MAX as i64
}

} // verus!
