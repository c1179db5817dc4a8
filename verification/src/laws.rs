use vstd::prelude::*;
use crate::board::{Cell, Falling, occupied, landed, blocked_below, blocked_turned, blocked_right, blocked_left, some_square, lemma_squares_near};
use crate::game::{turned, shifted, lowered, spawned, turn_result, right_result, left_result, held_in, rests_at};
use crate::timing::{clear_points, base_points, tens, frames_per_row, speed_index_spec, level_spec};
use crate::board::overlaps;
use crate::input::{command_spec, KeyInput, Command};
use crate::shapes::{Shape, shape_spec, preview_spec, offset};

verus! {

/// Every square of `f` is inside the walls, not below the floor, and not on a settled
/// square.
pub open spec fn fits(p: Seq<Cell>, f: Falling) -> bool {
    forall|i: int| 0 <= i < 4 ==> 0 <= #[trigger] f.cx(i) <= 9 && f.cy(i) <= 17 && !occupied(p, f.cx(i), f.cy(i))
}

proof fn lemma_squares_of(f: Falling)
    ensures
        f.cx(0) == f.x + f.shape().0.0 && f.cy(0) == f.y + f.shape().0.1,
        f.cx(1) == f.x + f.shape().1.0 && f.cy(1) == f.y + f.shape().1.1,
        f.cx(2) == f.x + f.shape().2.0 && f.cy(2) == f.y + f.shape().2.1,
        f.cx(3) == f.x + f.shape().3.0 && f.cy(3) == f.y + f.shape().3.1,
{
}

/// A piece comes to rest on one row only: the shadow drawn at `Game::ghost_row` is
/// exactly where `Game::hard_drop` leaves the piece.
pub proof fn law_rest_row_unique(p: Seq<Cell>, f: Falling, r1: int, r2: int)
    requires
        rests_at(p, f, r1),
        rests_at(p, f, r2),
    ensures
        r1 == r2,
{
    if r1 < r2 {
        assert(!landed(p, f.at_row(r1)));
    } else if r2 < r1 {
        assert(!landed(p, f.at_row(r2)));
    }
}

/// The player's moves keep a piece that fits in the well fitting: a turn, a step right,
/// a step left, and one row down when it has not landed never put a square past a wall,
/// below the floor, or on a settled square.
pub proof fn law_moves_keep_fit(p: Seq<Cell>, f: Falling)
    requires
        f.kind < 7,
        f.rot < 4,
        fits(p, f),
    ensures
        fits(p, turn_result(p, f)),
        fits(p, right_result(p, f)),
        fits(p, left_result(p, f)),
        !landed(p, f) ==> fits(p, lowered(f)),
{
    lemma_squares_near(f);
    assert(0 <= f.cx(0) <= 9);
    let t = turned(f);
    assert(t.rot < 4);
    lemma_squares_of(t);
    if !some_square(t, |x: int, y: int| blocked_turned(p, x, y)) {
        assert forall|i: int| 0 <= i < 4 implies 0 <= #[trigger] t.cx(i) <= 9 && t.cy(i) <= 17 && !occupied(p, t.cx(i), t.cy(i)) by {
            assert(!blocked_turned(p, t.cx(i), t.cy(i)));
        }
    }
    let r = shifted(f, 1);
    lemma_squares_of(r);
    lemma_squares_of(f);
    if !some_square(r, |x: int, y: int| blocked_right(p, x, y)) {
        assert forall|i: int| 0 <= i < 4 implies 0 <= #[trigger] r.cx(i) <= 9 && r.cy(i) <= 17 && !occupied(p, r.cx(i), r.cy(i)) by {
            assert(!blocked_right(p, r.cx(i), r.cy(i)));
            assert(r.cx(i) == f.cx(i) + 1 && r.cy(i) == f.cy(i));
        }
    }
    let l = shifted(f, -1);
    lemma_squares_of(l);
    if !some_square(l, |x: int, y: int| blocked_left(p, x, y)) {
        assert forall|i: int| 0 <= i < 4 implies 0 <= #[trigger] l.cx(i) <= 9 && l.cy(i) <= 17 && !occupied(p, l.cx(i), l.cy(i)) by {
            assert(!blocked_left(p, l.cx(i), l.cy(i)));
            assert(l.cx(i) == f.cx(i) - 1 && l.cy(i) == f.cy(i));
        }
    }
    let d = lowered(f);
    lemma_squares_of(d);
    if !landed(p, f) {
        assert forall|i: int| 0 <= i < 4 implies 0 <= #[trigger] d.cx(i) <= 9 && d.cy(i) <= 17 && !occupied(p, d.cx(i), d.cy(i)) by {
            assert(!blocked_below(p, f.cx(i), f.cy(i)));
            assert(d.cx(i) == f.cx(i) && d.cy(i) == f.cy(i) + 1);
        }
    }
}

/// A step right that moves a fitting piece is undone by a step left, and a step left
/// that moves it is undone by a step right.
pub proof fn law_steps_undo(p: Seq<Cell>, f: Falling)
    requires
        f.kind < 7,
        f.rot < 4,
        fits(p, f),
    ensures
        right_result(p, f) != f ==> left_result(p, right_result(p, f)) == f,
        left_result(p, f) != f ==> right_result(p, left_result(p, f)) == f,
{
    lemma_squares_near(f);
    assert(0 <= f.cx(0) <= 9);
    let r = shifted(f, 1);
    let l = shifted(f, -1);
    lemma_squares_of(f);
    lemma_squares_of(r);
    lemma_squares_of(l);
    if right_result(p, f) != f {
        let back = shifted(r, -1);
        assert(back == f);
        assert(!some_square(back, |x: int, y: int| blocked_left(p, x, y))) by {
            assert forall|i: int| 0 <= i < 4 implies !blocked_left(p, #[trigger] f.cx(i), f.cy(i)) by {}
        }
    }
    if left_result(p, f) != f {
        let back = shifted(l, 1);
        assert(back == f);
        assert(!some_square(back, |x: int, y: int| blocked_right(p, x, y))) by {
            assert forall|i: int| 0 <= i < 4 implies !blocked_right(p, #[trigger] f.cx(i), f.cy(i)) by {}
        }
    }
}

/// Four quarter turns bring a piece back to its orientation.
pub proof fn law_four_turns(f: Falling)
    requires
        f.rot < 4,
    ensures
        turned(turned(turned(turned(f)))) == f,
{
}

/// Holding twice in a row brings the falling kind back to the top, and when something
/// was held, puts it back in the hold box.
pub proof fn law_hold_twice(f: Falling, next: usize, hold: usize)
    requires
        f.kind < 7,
    ensures
        ({
            let cur1 = spawned(held_in(next, hold));
            let hold1 = f.kind;
            let cur2 = spawned(held_in(next, hold1));
            let hold2 = cur1.kind;
            cur2 == spawned(f.kind) && (hold != 7 ==> hold2 == hold)
        }),
{
}

/// Clearing never takes points away while the line count is not negative.
pub proof fn law_points_not_negative(n: int, lines: int)
    requires
        lines >= 0,
    ensures
        clear_points(n, lines) >= 0,
{
    assert(tens(lines) >= 0);
    assert(base_points(n) * (tens(lines) + 1) >= 0) by (nonlinear_arith)
        requires
            base_points(n) >= 0,
            tens(lines) + 1 >= 1;
}

/// Gravity never slows down as lines are cleared: a larger line count gives a speed index
/// at least as large, and a larger speed index waits no more frames per row.
pub proof fn law_gravity_speeds_up(l1: int, l2: int, i1: int, i2: int)
    requires
        l1 <= l2,
        0 <= i1 <= i2,
    ensures
        speed_index_spec(l1) <= speed_index_spec(l2),
        frames_per_row(i2) <= frames_per_row(i1),
{
    if l1 >= 0 {
        vstd::arithmetic::div_mod::lemma_div_is_ordered(l1, l2, 10);
        vstd::arithmetic::div_mod::lemma_div_pos_is_pos(l1, 10);
    } else if l2 >= 0 {
        vstd::arithmetic::div_mod::lemma_div_pos_is_pos(l2, 10);
    }
}

/// Shape `s` holds the square at offset (`x`, `y`).
pub open spec fn holds_square(s: Shape, x: int, y: int) -> bool {
    ||| (s.0.0 == x && s.0.1 == y)
    ||| (s.1.0 == x && s.1.1 == y)
    ||| (s.2.0 == x && s.2.1 == y)
    ||| (s.3.0 == x && s.3.1 == y)
}

/// Shape `b` is shape `a` turned a quarter turn clockwise on the screen (a square at
/// (x, y) goes to (-y, x), rows counting downwards) and then moved by (`tx`, `ty`): every
/// square of `a` lands on a square of `b`, and every square of `b` comes from one of `a`.
pub open spec fn quarter_turn_of(a: Shape, b: Shape, tx: int, ty: int) -> bool {
    &&& forall|i: int| 0 <= i < 4 ==> holds_square(b, -offset(a, i).1 + tx, #[trigger] offset(a, i).0 + ty)
    &&& forall|j: int| 0 <= j < 4 ==> holds_square(a, offset(b, j).1 - ty, tx - #[trigger] offset(b, j).0)
}

/// Where a kind pivots when it turns: T, S, J and L turn about their anchor; the square O
/// and, every other turn, I and Z move one column right after the quarter turn so that
/// they stay in place.
pub open spec fn pivot_shift(kind: int, rot: int) -> (int, int) {
    if kind == 3 || (kind == 0 && rot % 2 == 1) || (kind == 6 && rot % 2 == 0) { (1, 0) } else { (0, 0) }
}

/// The rotation table turns pieces: each orientation of a kind is the previous one
/// turned a quarter turn clockwise (about the anchor, or moved as `pivot_shift` says),
/// and every orientation holds the anchor square.
pub proof fn law_turns_are_quarter_turns(kind: int, rot: int)
    requires
        0 <= kind < 7,
        0 <= rot < 4,
    ensures
        quarter_turn_of(shape_spec(kind, rot), shape_spec(kind, (rot + 1) % 4), pivot_shift(kind, rot).0, pivot_shift(kind, rot).1),
        holds_square(shape_spec(kind, rot), 0, 0),
{
    let a = shape_spec(kind, rot);
    let b = shape_spec(kind, (rot + 1) % 4);
    assert(offset(a, 0) == a.0 && offset(a, 1) == a.1 && offset(a, 2) == a.2 && offset(a, 3) == a.3);
    assert(offset(b, 0) == b.0 && offset(b, 1) == b.1 && offset(b, 2) == b.2 && offset(b, 3) == b.3);
}

/// Where a kind's picture sits in the "next" and "hold" boxes.
pub open spec fn preview_origin(kind: int) -> (int, int) {
    if kind == 2 { (-1, 1) } else if kind == 4 { (0, 0) } else if kind == 1 || kind == 6 { (-1, 0) } else { (-2, 0) }
}

/// The preview of a kind is its first orientation with each square two screen columns
/// wide, square by square in the same order, placed at `preview_origin`.
pub proof fn law_preview_is_first_orientation(kind: int)
    requires
        0 <= kind < 7,
    ensures
        forall|i: int| 0 <= i < 4 ==> {
            &&& #[trigger] offset(preview_spec(kind), i).0 == 2 * offset(shape_spec(kind, 0), i).0 + preview_origin(kind).0
            &&& offset(preview_spec(kind), i).1 == offset(shape_spec(kind, 0), i).1 + preview_origin(kind).1
        },
{
}

/// The level starts at 1 and goes up by one every ten cleared lines: level `n` covers
/// the line counts `10 (n - 1)` to `10 n - 1`, and the gravity speed index is one less.
pub proof fn law_level_every_ten_lines(lines: int)
    requires
        lines >= 0,
    ensures
        level_spec(lines) >= 1,
        10 * (level_spec(lines) - 1) <= lines < 10 * level_spec(lines),
        level_spec(lines + 10) == level_spec(lines) + 1,
        lines <= 9 ==> level_spec(lines) == 1,
        speed_index_spec(lines) == level_spec(lines) - 1,
{
    vstd::arithmetic::div_mod::lemma_fundamental_div_mod(lines, 10);
    vstd::arithmetic::div_mod::lemma_div_pos_is_pos(lines, 10);
    vstd::arithmetic::div_mod::lemma_div_plus_one(lines, 10);
}

/// Gravity: 48 frames per row at first, five frames fewer at each of the next eight
/// speeds, two fewer at the ninth; then 5, 4 and 3 frames for three speeds each, 2 frames
/// up to speed 27, and 1 frame from speed 28 on. So every speed up to the tenth is strictly
/// faster than the one before.
pub proof fn law_gravity_table(i: int)
    requires
        0 <= i,
    ensures
        frames_per_row(0) == 48,
        i < 8 ==> frames_per_row(i + 1) == frames_per_row(i) - 5,
        frames_per_row(9) == frames_per_row(8) - 2,
        10 <= i <= 18 ==> frames_per_row(i) == 5 - (i - 10) / 3,
        19 <= i <= 27 ==> frames_per_row(i) == 2,
        28 <= i ==> frames_per_row(i) == 1,
        i < 9 ==> frames_per_row(i + 1) < frames_per_row(i),
        frames_per_row(i + 1) <= frames_per_row(i),
{
}

/// Game over after a piece settles is exactly this: some square of the new piece is on a
/// settled square. When it is not, none of the four squares is taken.
pub proof fn law_top_out_is_a_covered_square(p: Seq<Cell>, f: Falling)
    ensures
        overlaps(p, f) <==> exists|i: int| 0 <= i < 4 && occupied(p, #[trigger] f.cx(i), f.cy(i)),
        !overlaps(p, f) ==> forall|i: int| 0 <= i < 4 ==> !occupied(p, #[trigger] f.cx(i), f.cy(i)),
{
    if overlaps(p, f) {
        if occupied(p, f.cx(0), f.cy(0)) {
        } else if occupied(p, f.cx(1), f.cy(1)) {
        } else if occupied(p, f.cx(2), f.cy(2)) {
        } else {
            assert(occupied(p, f.cx(3), f.cy(3)));
        }
    }
    assert forall|i: int| 0 <= i < 4 && occupied(p, #[trigger] f.cx(i), f.cy(i)) implies overlaps(p, f) by {
        if i == 0 {} else if i == 1 {} else if i == 2 {} else {}
    }
}

/// A piece has landed exactly when one of its squares is on the bottom row or has a
/// settled square right below it.
pub proof fn law_landed_is_a_blocked_square(p: Seq<Cell>, f: Falling)
    ensures
        landed(p, f) <==> exists|i: int| 0 <= i < 4 && (#[trigger] f.cy(i) >= 17 || occupied(p, f.cx(i), f.cy(i) + 1)),
{
    if landed(p, f) {
        if f.cy(0) >= 17 || occupied(p, f.cx(0), f.cy(0) + 1) {
        } else if f.cy(1) >= 17 || occupied(p, f.cx(1), f.cy(1) + 1) {
        } else if f.cy(2) >= 17 || occupied(p, f.cx(2), f.cy(2) + 1) {
        } else {
            assert(f.cy(3) >= 17 || occupied(p, f.cx(3), f.cy(3) + 1));
        }
    }
    assert forall|i: int| 0 <= i < 4 && (#[trigger] f.cy(i) >= 17 || occupied(p, f.cx(i), f.cy(i) + 1)) implies landed(p, f) by {
        if i == 0 {} else if i == 1 {} else if i == 2 {} else {}
    }
}

/// The turn command turns the piece clockwise: the piece after a turn has the shape of
/// the piece before it turned a quarter turn clockwise, in the same place and of the
/// same kind.
pub proof fn law_turn_is_clockwise(f: Falling)
    requires
        f.kind < 7,
        f.rot < 4,
    ensures
        quarter_turn_of(f.shape(), turned(f).shape(), pivot_shift(f.kind as int, f.rot as int).0, pivot_shift(f.kind as int, f.rot as int).1),
        turned(f).x == f.x && turned(f).y == f.y && turned(f).kind == f.kind,
{
    law_turns_are_quarter_turns(f.kind as int, f.rot as int);
    assert(turned(f).rot == (f.rot + 1) % 4);
}

/// A step moves the piece by at most one column, in its own direction, and nothing else;
/// a turn never moves it; a soft drop moves it exactly one row down.
pub proof fn law_moves_by_one(p: Seq<Cell>, f: Falling)
    requires
        f.wf(),
    ensures
        0 <= right_result(p, f).x - f.x <= 1,
        -1 <= left_result(p, f).x - f.x <= 0,
        right_result(p, f).y == f.y && right_result(p, f).kind == f.kind && right_result(p, f).rot == f.rot,
        left_result(p, f).y == f.y && left_result(p, f).kind == f.kind && left_result(p, f).rot == f.rot,
        turn_result(p, f).x == f.x && turn_result(p, f).y == f.y && turn_result(p, f).kind == f.kind,
        lowered(f).y == f.y + 1 && lowered(f).x == f.x && lowered(f).kind == f.kind && lowered(f).rot == f.rot,
{
}

/// Each letter key does what its arrow does (`d` right, `a` left, `s` down, `w` up), the
/// four arrows give four different moves, and no arrow quits, holds or is ignored.
pub proof fn law_key_bindings(k: KeyInput)
    ensures
        command_spec(KeyInput::Char('d')) == command_spec(KeyInput::Right),
        command_spec(KeyInput::Char('a')) == command_spec(KeyInput::Left),
        command_spec(KeyInput::Char('s')) == command_spec(KeyInput::Down),
        command_spec(KeyInput::Char('w')) == command_spec(KeyInput::Up),
        command_spec(KeyInput::Right) != command_spec(KeyInput::Left),
        command_spec(KeyInput::Right) != command_spec(KeyInput::Down),
        command_spec(KeyInput::Right) != command_spec(KeyInput::Up),
        command_spec(KeyInput::Left) != command_spec(KeyInput::Down),
        command_spec(KeyInput::Left) != command_spec(KeyInput::Up),
        command_spec(KeyInput::Down) != command_spec(KeyInput::Up),
        (k is Left || k is Right || k is Up || k is Down) ==> command_spec(k) != Command::Quit && command_spec(k) != Command::Hold && command_spec(k) != Command::Ignore,
{
}

/// Points scale with the level shown: clearing `n` lines earns the base points times
/// the level at the new line count. The base grows with the number of lines, and more
/// per line the more lines are cleared at once; clearing none, or more than four, earns
/// nothing.
pub proof fn law_points_scale_with_level(n: int, lines: int)
    requires
        lines >= 0,
    ensures
        clear_points(n, lines) == base_points(n) * level_spec(lines),
        (n <= 0 || n > 4) ==> base_points(n) == 0,
        1 <= n < 4 ==> base_points(n) < base_points(n + 1),
        1 <= n < 4 ==> base_points(n) * (n + 1) < base_points(n + 1) * n,
        base_points(1) == 100,
{
}

} // verus!
