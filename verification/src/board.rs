use vstd::prelude::*;
use crate::shapes::{Shape, shape_spec, offset, lemma_shape_small, shape};

verus! {

/// A settled square of the well: column, row (0 is the top row), and the kind of the
/// tetromino it came from (which gives its colour).
pub type Cell = (i32, i32, usize);

/// The falling tetromino: anchor column and row, kind (0..7) and orientation (0..4).
#[derive(Clone, Copy, PartialEq, Eq, Structural, Debug)]
pub struct Falling {
    pub x: i32,
    pub y: i32,
    pub kind: usize,
    pub rot: usize,
}

impl Falling {
    /// Kind and orientation index the rotation table, and the anchor is far enough from
    /// the ends of `i32` that the squares and a few steps of movement can be computed.
    pub open spec fn wf(self) -> bool {
        &&& self.kind < 7
        &&& self.rot < 4
        &&& i32::MIN + 8 <= self.x <= i32::MAX - 8
        &&& i32::MIN + 8 <= self.y <= i32::MAX - 8
    }

    /// Kind and orientation index the rotation table, and the squares of the piece and
    /// the squares one row below them can be computed in `i32`.
    pub open spec fn computable(self) -> bool {
        &&& self.kind < 7
        &&& self.rot < 4
        &&& i32::MIN + 4 <= self.x <= i32::MAX - 4
        &&& i32::MIN + 4 <= self.y <= i32::MAX - 4
    }

    pub open spec fn shape(self) -> Shape {
        shape_spec(self.kind as int, self.rot as int)
    }

    /// Column of square `i` (0..4).
    pub open spec fn cx(self, i: int) -> int {
        self.x + offset(self.shape(), i).0
    }

    /// Row of square `i` (0..4).
    pub open spec fn cy(self, i: int) -> int {
        self.y + offset(self.shape(), i).1
    }

    /// The same piece with its anchor on row `y`.
    pub open spec fn at_row(self, y: int) -> Falling {
        Falling { x: self.x, y: y as i32, kind: self.kind, rot: self.rot }
    }
}

/// Some settled square at (`x`, `y`) whose kind is one of the seven tetrominoes.
pub open spec fn occupied(p: Seq<Cell>, x: int, y: int) -> bool {
    exists|i: int| 0 <= i < p.len() && #[trigger] p[i].0 == x && p[i].1 == y && p[i].2 <= 6
}

/// A square at (`x`, `y`) cannot move down: it is on the bottom row or the square
/// below it is taken.
pub open spec fn blocked_below(p: Seq<Cell>, x: int, y: int) -> bool {
    y >= 17 || occupied(p, x, y + 1)
}

/// After a turn, a square at (`x`, `y`) is outside the sides or the floor of the well,
/// or on a taken square.
pub open spec fn blocked_turned(p: Seq<Cell>, x: int, y: int) -> bool {
    x >= 10 || x <= -1 || y >= 18 || occupied(p, x, y)
}

/// After a step right, a square at (`x`, `y`) is past the right wall or on a taken square.
pub open spec fn blocked_right(p: Seq<Cell>, x: int, y: int) -> bool {
    x >= 10 || occupied(p, x, y)
}

/// After a step left, a square at (`x`, `y`) is past the left wall or on a taken square.
pub open spec fn blocked_left(p: Seq<Cell>, x: int, y: int) -> bool {
    x <= -1 || occupied(p, x, y)
}

/// Some square of `f` satisfies `pred`.
pub open spec fn some_square(f: Falling, pred: spec_fn(int, int) -> bool) -> bool {
    ||| pred(f.cx(0), f.cy(0))
    ||| pred(f.cx(1), f.cy(1))
    ||| pred(f.cx(2), f.cy(2))
    ||| pred(f.cx(3), f.cy(3))
}

/// The falling piece rests: one of its squares cannot move down.
pub open spec fn landed(p: Seq<Cell>, f: Falling) -> bool {
    some_square(f, |x: int, y: int| blocked_below(p, x, y))
}

/// The piece overlaps a settled square.
pub open spec fn overlaps(p: Seq<Cell>, f: Falling) -> bool {
    some_square(f, |x: int, y: int| occupied(p, x, y))
}

/// The squares that `f` leaves in the well when it settles, in the order of its shape.
pub open spec fn settled_squares(f: Falling) -> Seq<Cell> {
    seq![
        (f.cx(0) as i32, f.cy(0) as i32, f.kind),
        (f.cx(1) as i32, f.cy(1) as i32, f.kind),
        (f.cx(2) as i32, f.cy(2) as i32, f.kind),
        (f.cx(3) as i32, f.cy(3) as i32, f.kind),
    ]
}

pub proof fn lemma_squares_near(f: Falling)
    requires
        f.kind < 7,
        f.rot < 4,
    ensures
        forall|i: int| 0 <= i < 4 ==> f.x - 1 <= #[trigger] f.cx(i) <= f.x + 2 && f.y - 1 <= f.cy(i) <= f.y + 2,
        f.cy(0) >= f.y || f.cy(1) >= f.y || f.cy(2) >= f.y || f.cy(3) >= f.y,
{
    lemma_shape_small(f.kind as int, f.rot as int);
    let s = f.shape();
    assert forall|i: int| 0 <= i < 4 implies f.x - 1 <= #[trigger] f.cx(i) <= f.x + 2 && f.y - 1 <= f.cy(i) <= f.y + 2 by {
        assert(-1 <= offset(s, i).0 <= 2 && -1 <= offset(s, i).1 <= 2);
    }
    let w = choose|i: int| 0 <= i < 4 && #[trigger] offset(s, i).1 >= 0;
    assert(f.cy(w) >= f.y);
}

/// A piece whose anchor is on row 17 or lower has landed.
pub proof fn lemma_low_piece_landed(p: Seq<Cell>, f: Falling)
    requires
        f.kind < 7,
        f.rot < 4,
        f.y >= 17,
    ensures
        landed(p, f),
{
    lemma_squares_near(f);
}

/// Whether some settled square of a tetromino kind lies at (`x`, `y`).
pub fn is_occupied(pieces: &Vec<Cell>, x: i32, y: i32) -> (r: bool)
    ensures
        r == occupied(pieces@, x as int, y as int),
{
    let n = pieces.len();
    let mut i: usize = 0;
    while i < n
        invariant
            n == pieces.len(),
            i <= n,
            forall|j: int| 0 <= j < i ==> !(#[trigger] pieces@[j].0 == x && pieces@[j].1 == y && pieces@[j].2 <= 6),
        decreases n - i,
    {
        let c = pieces[i];
        if c.0 == x && c.1 == y && c.2 <= 6 {
            assert(pieces@[i as int].0 == x);
            return true;
        }
        i += 1;
    }
    proof {
        if occupied(pieces@, x as int, y as int) {
            let j = choose|j: int| 0 <= j < pieces@.len() && #[trigger] pieces@[j].0 == x && pieces@[j].1 == y && pieces@[j].2 <= 6;
            assert(false);
        }
    }
    false
}

/// The absolute squares of `f`: column and row of each of its four squares.
pub fn squares(f: Falling) -> (r: ((i32, i32), (i32, i32), (i32, i32), (i32, i32)))
    requires
        f.computable(),
    ensures
        r.0 == (f.cx(0) as i32, f.cy(0) as i32),
        r.1 == (f.cx(1) as i32, f.cy(1) as i32),
        r.2 == (f.cx(2) as i32, f.cy(2) as i32),
        r.3 == (f.cx(3) as i32, f.cy(3) as i32),
        r.0.0 == f.cx(0) && r.0.1 == f.cy(0),
        r.1.0 == f.cx(1) && r.1.1 == f.cy(1),
        r.2.0 == f.cx(2) && r.2.1 == f.cy(2),
        r.3.0 == f.cx(3) && r.3.1 == f.cy(3),
{
    let s = shape(f.kind, f.rot);
    proof {
        lemma_squares_near(f);
        assert(f.cx(0) == f.x + s.0.0 && f.cy(0) == f.y + s.0.1);
        assert(f.cx(1) == f.x + s.1.0 && f.cy(1) == f.y + s.1.1);
        assert(f.cx(2) == f.x + s.2.0 && f.cy(2) == f.y + s.2.1);
        assert(f.cx(3) == f.x + s.3.0 && f.cy(3) == f.y + s.3.1);
    }
    (
        (f.x + s.0.0, f.y + s.0.1),
        (f.x + s.1.0, f.y + s.1.1),
        (f.x + s.2.0, f.y + s.2.1),
        (f.x + s.3.0, f.y + s.3.1),
    )
}

fn square_blocked_below(pieces: &Vec<Cell>, x: i32, y: i32) -> (r: bool)
    requires
        y < i32::MAX,
    ensures
        r == blocked_below(pieces@, x as int, y as int),
{
    y >= 17 || is_occupied(pieces, x, y + 1)
}

/// Whether the piece rests on the floor or on a settled square.
pub fn is_landed(pieces: &Vec<Cell>, f: Falling) -> (r: bool)
    requires
        f.computable(),
    ensures
        r == landed(pieces@, f),
{
    let (a, b, c, d) = squares(f);
    square_blocked_below(pieces, a.0, a.1) || square_blocked_below(pieces, b.0, b.1)
        || square_blocked_below(pieces, c.0, c.1) || square_blocked_below(pieces, d.0, d.1)
}

/// Whether the piece covers a settled square.
pub fn is_overlapping(pieces: &Vec<Cell>, f: Falling) -> (r: bool)
    requires
        f.computable(),
    ensures
        r == overlaps(pieces@, f),
{
    let (a, b, c, d) = squares(f);
    is_occupied(pieces, a.0, a.1) || is_occupied(pieces, b.0, b.1)
        || is_occupied(pieces, c.0, c.1) || is_occupied(pieces, d.0, d.1)
}

fn square_blocked_turned(pieces: &Vec<Cell>, x: i32, y: i32) -> (r: bool)
    ensures
        r == blocked_turned(pieces@, x as int, y as int),
{
    x >= 10 || x <= -1 || y >= 18 || is_occupied(pieces, x, y)
}

/// Whether the piece, in the place it would take, is out of the well or on a taken square.
pub fn turn_blocked(pieces: &Vec<Cell>, f: Falling) -> (r: bool)
    requires
        f.computable(),
    ensures
        r == some_square(f, |x: int, y: int| blocked_turned(pieces@, x, y)),
{
    let (a, b, c, d) = squares(f);
    square_blocked_turned(pieces, a.0, a.1) || square_blocked_turned(pieces, b.0, b.1)
        || square_blocked_turned(pieces, c.0, c.1) || square_blocked_turned(pieces, d.0, d.1)
}

/// Whether the piece, one column to the right, is past the right wall or on a taken square.
pub fn right_blocked(pieces: &Vec<Cell>, f: Falling) -> (r: bool)
    requires
        f.computable(),
    ensures
        r == some_square(f, |x: int, y: int| blocked_right(pieces@, x, y)),
{
    let (a, b, c, d) = squares(f);
    (a.0 >= 10 || is_occupied(pieces, a.0, a.1)) || (b.0 >= 10 || is_occupied(pieces, b.0, b.1))
        || (c.0 >= 10 || is_occupied(pieces, c.0, c.1)) || (d.0 >= 10 || is_occupied(pieces, d.0, d.1))
}

/// Whether the piece, one column to the left, is past the left wall or on a taken square.
pub fn left_blocked(pieces: &Vec<Cell>, f: Falling) -> (r: bool)
    requires
        f.computable(),
    ensures
        r == some_square(f, |x: int, y: int| blocked_left(pieces@, x, y)),
{
    let (a, b, c, d) = squares(f);
    (a.0 <= -1 || is_occupied(pieces, a.0, a.1)) || (b.0 <= -1 || is_occupied(pieces, b.0, b.1))
        || (c.0 <= -1 || is_occupied(pieces, c.0, c.1)) || (d.0 <= -1 || is_occupied(pieces, d.0, d.1))
}

} // verus!
