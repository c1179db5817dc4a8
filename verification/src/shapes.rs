use vstd::prelude::*;

verus! {

/// Offsets of the four squares of a tetromino, relative to its anchor.
pub type Shape = ((i32, i32), (i32, i32), (i32, i32), (i32, i32));

/// The four squares of `kind` (0..7: I, T, S, O, J, L, Z) in orientation `rot` (0..4),
/// as offsets from the anchor of the falling piece.
pub open spec fn shape_spec(kind: int, rot: int) -> Shape {
    let idx = kind + rot * 7;
    if idx == 0 { ((-1i32, 0i32), (0i32, 0i32), (1i32, 0i32), (2i32, 0i32)) }
    else if idx == 1 { ((-1i32, 0i32), (0i32, 0i32), (1i32, 0i32), (0i32, 1i32)) }
    else if idx == 2 { ((-1i32, 0i32), (0i32, 0i32), (0i32, -1i32), (1i32, -1i32)) }
    else if idx == 3 { ((0i32, 0i32), (1i32, 0i32), (0i32, 1i32), (1i32, 1i32)) }
    else if idx == 4 { ((0i32, 0i32), (0i32, -1i32), (-1i32, 1i32), (0i32, 1i32)) }
    else if idx == 5 { ((0i32, -1i32), (0i32, 0i32), (0i32, 1i32), (1i32, 1i32)) }
    else if idx == 6 { ((-1i32, 0i32), (0i32, 0i32), (0i32, 1i32), (1i32, 1i32)) }
    else if idx == 7 { ((0i32, -1i32), (0i32, 0i32), (0i32, 1i32), (0i32, 2i32)) }
    else if idx == 8 { ((-1i32, 0i32), (0i32, 0i32), (0i32, 1i32), (0i32, -1i32)) }
    else if idx == 9 { ((1i32, 1i32), (1i32, 0i32), (0i32, 0i32), (0i32, -1i32)) }
    else if idx == 10 { ((0i32, 0i32), (1i32, 0i32), (0i32, 1i32), (1i32, 1i32)) }
    else if idx == 11 { ((0i32, 0i32), (-1i32, 0i32), (-1i32, -1i32), (1i32, 0i32)) }
    else if idx == 12 { ((0i32, 0i32), (-1i32, 0i32), (-1i32, 1i32), (1i32, 0i32)) }
    else if idx == 13 { ((0i32, 1i32), (0i32, 0i32), (1i32, 0i32), (1i32, -1i32)) }
    else if idx == 14 { ((-1i32, 0i32), (0i32, 0i32), (1i32, 0i32), (2i32, 0i32)) }
    else if idx == 15 { ((-1i32, 0i32), (0i32, 0i32), (1i32, 0i32), (0i32, -1i32)) }
    else if idx == 16 { ((-1i32, 1i32), (0i32, 1i32), (0i32, 0i32), (1i32, 0i32)) }
    else if idx == 17 { ((0i32, 0i32), (1i32, 0i32), (0i32, 1i32), (1i32, 1i32)) }
    else if idx == 18 { ((0i32, 0i32), (0i32, 1i32), (0i32, -1i32), (1i32, -1i32)) }
    else if idx == 19 { ((0i32, 0i32), (0i32, 1i32), (0i32, -1i32), (-1i32, -1i32)) }
    else if idx == 20 { ((-1i32, 0i32), (0i32, 0i32), (0i32, 1i32), (1i32, 1i32)) }
    else if idx == 21 { ((0i32, -1i32), (0i32, 0i32), (0i32, 1i32), (0i32, 2i32)) }
    else if idx == 22 { ((1i32, 0i32), (0i32, 0i32), (0i32, 1i32), (0i32, -1i32)) }
    else if idx == 23 { ((0i32, 1i32), (0i32, 0i32), (-1i32, 0i32), (-1i32, -1i32)) }
    else if idx == 24 { ((0i32, 0i32), (1i32, 0i32), (0i32, 1i32), (1i32, 1i32)) }
    else if idx == 25 { ((0i32, 0i32), (-1i32, 0i32), (1i32, 0i32), (1i32, 1i32)) }
    else if idx == 26 { ((0i32, 0i32), (1i32, -1i32), (-1i32, 0i32), (1i32, 0i32)) }
    else { ((0i32, 1i32), (0i32, 0i32), (1i32, 0i32), (1i32, -1i32)) }
}

/// Offset number `i` (0..4) of a shape.
pub open spec fn offset(s: Shape, i: int) -> (i32, i32) {
    if i == 0 { s.0 } else if i == 1 { s.1 } else if i == 2 { s.2 } else { s.3 }
}

/// Every offset of every shape lies in -1..=2 on both axes, and each shape holds
/// a square whose vertical offset is at least zero.
pub open spec fn shape_is_small(s: Shape) -> bool {
    &&& forall|i: int| 0 <= i < 4 ==> -1 <= #[trigger] offset(s, i).0 <= 2 && -1 <= offset(s, i).1 <= 2
    &&& exists|i: int| 0 <= i < 4 && #[trigger] offset(s, i).1 >= 0
}

pub proof fn lemma_shape_small(kind: int, rot: int)
    requires
        0 <= kind < 7,
        0 <= rot < 4,
    ensures
        shape_is_small(shape_spec(kind, rot)),
{
    let s = shape_spec(kind, rot);
    assert(offset(s, 0) == s.0);
    assert(offset(s, 1) == s.1);
    assert(offset(s, 2) == s.2);
    assert(offset(s, 3) == s.3);
    assert(s.0.1 >= 0 || s.1.1 >= 0 || s.2.1 >= 0 || s.3.1 >= 0);
}

/// The squares of `kind` in orientation `rot` (the rotation table of the game).
pub fn shape(kind: usize, rot: usize) -> (s: Shape)
    requires
        kind < 7,
        rot < 4,
    ensures
        s == shape_spec(kind as int, rot as int),
{
    let idx = kind + rot * 7;
    if idx == 0 { ((-1i32, 0i32), (0i32, 0i32), (1i32, 0i32), (2i32, 0i32)) }
    else if idx == 1 { ((-1i32, 0i32), (0i32, 0i32), (1i32, 0i32), (0i32, 1i32)) }
    else if idx == 2 { ((-1i32, 0i32), (0i32, 0i32), (0i32, -1i32), (1i32, -1i32)) }
    else if idx == 3 { ((0i32, 0i32), (1i32, 0i32), (0i32, 1i32), (1i32, 1i32)) }
    else if idx == 4 { ((0i32, 0i32), (0i32, -1i32), (-1i32, 1i32), (0i32, 1i32)) }
    else if idx == 5 { ((0i32, -1i32), (0i32, 0i32), (0i32, 1i32), (1i32, 1i32)) }
    else if idx == 6 { ((-1i32, 0i32), (0i32, 0i32), (0i32, 1i32), (1i32, 1i32)) }
    else if idx == 7 { ((0i32, -1i32), (0i32, 0i32), (0i32, 1i32), (0i32, 2i32)) }
    else if idx == 8 { ((-1i32, 0i32), (0i32, 0i32), (0i32, 1i32), (0i32, -1i32)) }
    else if idx == 9 { ((1i32, 1i32), (1i32, 0i32), (0i32, 0i32), (0i32, -1i32)) }
    else if idx == 10 { ((0i32, 0i32), (1i32, 0i32), (0i32, 1i32), (1i32, 1i32)) }
    else if idx == 11 { ((0i32, 0i32), (-1i32, 0i32), (-1i32, -1i32), (1i32, 0i32)) }
    else if idx == 12 { ((0i32, 0i32), (-1i32, 0i32), (-1i32, 1i32), (1i32, 0i32)) }
    else if idx == 13 { ((0i32, 1i32), (0i32, 0i32), (1i32, 0i32), (1i32, -1i32)) }
    else if idx == 14 { ((-1i32, 0i32), (0i32, 0i32), (1i32, 0i32), (2i32, 0i32)) }
    else if idx == 15 { ((-1i32, 0i32), (0i32, 0i32), (1i32, 0i32), (0i32, -1i32)) }
    else if idx == 16 { ((-1i32, 1i32), (0i32, 1i32), (0i32, 0i32), (1i32, 0i32)) }
    else if idx == 17 { ((0i32, 0i32), (1i32, 0i32), (0i32, 1i32), (1i32, 1i32)) }
    else if idx == 18 { ((0i32, 0i32), (0i32, 1i32), (0i32, -1i32), (1i32, -1i32)) }
    else if idx == 19 { ((0i32, 0i32), (0i32, 1i32), (0i32, -1i32), (-1i32, -1i32)) }
    else if idx == 20 { ((-1i32, 0i32), (0i32, 0i32), (0i32, 1i32), (1i32, 1i32)) }
    else if idx == 21 { ((0i32, -1i32), (0i32, 0i32), (0i32, 1i32), (0i32, 2i32)) }
    else if idx == 22 { ((1i32, 0i32), (0i32, 0i32), (0i32, 1i32), (0i32, -1i32)) }
    else if idx == 23 { ((0i32, 1i32), (0i32, 0i32), (-1i32, 0i32), (-1i32, -1i32)) }
    else if idx == 24 { ((0i32, 0i32), (1i32, 0i32), (0i32, 1i32), (1i32, 1i32)) }
    else if idx == 25 { ((0i32, 0i32), (-1i32, 0i32), (1i32, 0i32), (1i32, 1i32)) }
    else if idx == 26 { ((0i32, 0i32), (1i32, -1i32), (-1i32, 0i32), (1i32, 0i32)) }
    else { ((0i32, 1i32), (0i32, 0i32), (1i32, 0i32), (1i32, -1i32)) }
}

/// The squares of `kind` as drawn in the "next" and "hold" boxes, in screen columns
/// (two per square) and rows, relative to the box centre.
pub open spec fn preview_spec(kind: int) -> Shape {
    if kind == 0 { ((-4i32, 0i32), (-2i32, 0i32), (0i32, 0i32), (2i32, 0i32)) }
    else if kind == 1 { ((-3i32, 0i32), (-1i32, 0i32), (1i32, 0i32), (-1i32, 1i32)) }
    else if kind == 2 { ((-3i32, 1i32), (-1i32, 1i32), (-1i32, 0i32), (1i32, 0i32)) }
    else if kind == 3 { ((-2i32, 0i32), (0i32, 0i32), (-2i32, 1i32), (0i32, 1i32)) }
    else if kind == 4 { ((0i32, 0i32), (0i32, -1i32), (-2i32, 1i32), (0i32, 1i32)) }
    else if kind == 5 { ((-2i32, -1i32), (-2i32, 0i32), (-2i32, 1i32), (0i32, 1i32)) }
    else { ((-3i32, 0i32), (-1i32, 0i32), (-1i32, 1i32), (1i32, 1i32)) }
}

/// The preview squares of `kind` (the table behind the "next" and "hold" boxes).
pub fn preview_shape(kind: usize) -> (s: Shape)
    requires
        kind < 7,
    ensures
        s == preview_spec(kind as int),
{
    if kind == 0 { ((-4i32, 0i32), (-2i32, 0i32), (0i32, 0i32), (2i32, 0i32)) }
    else if kind == 1 { ((-3i32, 0i32), (-1i32, 0i32), (1i32, 0i32), (-1i32, 1i32)) }
    else if kind == 2 { ((-3i32, 1i32), (-1i32, 1i32), (-1i32, 0i32), (1i32, 0i32)) }
    else if kind == 3 { ((-2i32, 0i32), (0i32, 0i32), (-2i32, 1i32), (0i32, 1i32)) }
    else if kind == 4 { ((0i32, 0i32), (0i32, -1i32), (-2i32, 1i32), (0i32, 1i32)) }
    else if kind == 5 { ((-2i32, -1i32), (-2i32, 0i32), (-2i32, 1i32), (0i32, 1i32)) }
    else { ((-3i32, 0i32), (-1i32, 0i32), (-1i32, 1i32), (1i32, 1i32)) }
}

} // verus!
