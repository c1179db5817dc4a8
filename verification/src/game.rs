use vstd::prelude::*;
use crate::board::{Cell, Falling, landed, overlaps, some_square, blocked_turned, blocked_right, blocked_left, settled_squares, lemma_squares_near, lemma_low_piece_landed, is_landed, is_overlapping, squares, turn_blocked, right_blocked, left_blocked};
use crate::input::Command;
use crate::rng::random_kind;

verus! {

/// The whole state of a game: the settled squares, the falling piece, the next kind,
/// the held kind (7 when nothing is held), the cleared line count and the score.
pub struct Game {
    pub pieces: Vec<Cell>,
    pub cur: Falling,
    pub next: usize,
    pub hold: usize,
    pub lines: i32,
    pub score: i32,
}

/// What the game loop has to do after a command.
#[derive(Debug)]
pub enum Reaction {
    /// Leave the game.
    Quit,
    /// Draw the state again.
    Redraw,
    /// The falling piece is to settle now (see `Game::lock_and_spawn`).
    Settle,
    /// The piece fell to the bottom through these places (one per row, the last one
    /// is where it rests); draw each, then let it settle.
    Dropped(Vec<Falling>),
    /// Nothing happens.
    Nothing,
}

/// A fresh piece of `kind` at the top of the well.
pub open spec fn spawned(kind: usize) -> Falling {
    Falling { x: 4, y: 0, kind, rot: 0 }
}

/// The piece after one quarter turn.
pub open spec fn turned(f: Falling) -> Falling {
    Falling { rot: ((f.rot + 1) % 4) as usize, ..f }
}

/// The piece one column to the right (`d` = 1) or to the left (`d` = -1).
pub open spec fn shifted(f: Falling, d: int) -> Falling {
    Falling { x: (f.x + d) as i32, ..f }
}

/// The piece one row down.
pub open spec fn lowered(f: Falling) -> Falling {
    Falling { y: (f.y + 1) as i32, ..f }
}

/// The piece after a turn command: turned, unless turned it would be blocked.
pub open spec fn turn_result(p: Seq<Cell>, f: Falling) -> Falling {
    if some_square(turned(f), |x: int, y: int| blocked_turned(p, x, y)) { f } else { turned(f) }
}

/// The piece after a step right: one column right, unless it would be blocked there.
pub open spec fn right_result(p: Seq<Cell>, f: Falling) -> Falling {
    if some_square(shifted(f, 1), |x: int, y: int| blocked_right(p, x, y)) { f } else { shifted(f, 1) }
}

/// The piece after a step left: one column left, unless it would be blocked there.
pub open spec fn left_result(p: Seq<Cell>, f: Falling) -> Falling {
    if some_square(shifted(f, -1), |x: int, y: int| blocked_left(p, x, y)) { f } else { shifted(f, -1) }
}

/// The kind that a hold brings in: the held kind, or the next kind when nothing is held.
pub open spec fn held_in(next: usize, hold: usize) -> usize {
    if hold == 7 { next } else { hold }
}

/// Where `f` comes to rest when it falls straight down: row `r` is at or below the
/// piece, the piece has landed there, and on no row from its own to `r` (excluded) has
/// it landed.
pub open spec fn rests_at(p: Seq<Cell>, f: Falling, r: int) -> bool {
    &&& f.y <= r
    &&& landed(p, f.at_row(r))
    &&& forall|z: int| f.y <= z < r ==> !#[trigger] landed(p, f.at_row(z))
}

/// The row on which `f` comes to rest when it falls straight down among `pieces`.
pub fn rest_row(pieces: &Vec<Cell>, f: Falling) -> (r: i32)
    requires
        f.wf(),
    ensures
        rests_at(pieces@, f, r as int),
        r <= if f.y > 17 { f.y as int } else { 17 },
{
    let mut g = f;
    while !is_landed(pieces, g)
        invariant
            g == f.at_row(g.y as int),
            f.y <= g.y,
            g.y <= if f.y > 17 { f.y as int } else { 17 },
            g.wf(),
            forall|z: int| f.y <= z < g.y ==> !#[trigger] landed(pieces@, f.at_row(z)),
        decreases 17 - g.y,
    {
        proof {
            if g.y >= 17 {
                lemma_low_piece_landed(pieces@, g);
            }
        }
        g = Falling { y: g.y + 1, ..g };
    }
    g.y
}

impl Game {
    /// The falling piece is well formed and the kinds index the tables.
    pub open spec fn wf(&self) -> bool {
        &&& self.cur.wf()
        &&& self.next < 7
        &&& self.hold <= 7
    }

    /// A game with no settled squares, `first` falling from the top, `next` coming
    /// after it, nothing held, no lines and no score.
    pub fn new_with(first: usize, next: usize) -> (g: Game)
        requires
            first < 7,
            next < 7,
        ensures
            g.wf(),
            g.pieces@ == Seq::<Cell>::empty(),
            g.cur == spawned(first),
            g.next == next,
            g.hold == 7,
            g.lines == 0,
            g.score == 0,
    {
        Game {
            pieces: Vec::new(),
            cur: Falling { x: 4, y: 0, kind: first, rot: 0 },
            next,
            hold: 7,
            lines: 0,
            score: 0,
        }
    }

    /// A new game whose first and next kinds are drawn at random (first, then next).
    pub fn new() -> (g: Game)
        ensures
            g.wf(),
            g.pieces@ == Seq::<Cell>::empty(),
            g.cur.x == 4 && g.cur.y == 0 && g.cur.rot == 0,
            g.hold == 7,
            g.lines == 0,
            g.score == 0,
    {
        let first = random_kind();
        let next = random_kind();
        Game::new_with(first, next)
    }

    /// Whether the falling piece rests (it would settle at the next gravity step).
    pub fn is_landed(&self) -> (r: bool)
        requires
            self.wf(),
        ensures
            r == landed(self.pieces@, self.cur),
    {
        is_landed(&self.pieces, self.cur)
    }

    /// The row on which the falling piece would come to rest if it fell straight down
    /// (where its shadow is drawn).
    pub fn ghost_row(&self) -> (r: i32)
        requires
            self.wf(),
        ensures
            rests_at(self.pieces@, self.cur, r as int),
            r <= if self.cur.y > 17 { self.cur.y as int } else { 17 },
    {
        rest_row(&self.pieces, self.cur)
    }

    /// A quarter turn: the piece turns unless, turned, one of its squares would be past
    /// a side wall, below the floor, or on a settled square; then it stays as it was.
    pub fn turn(&mut self)
        requires
            old(self).wf(),
        ensures
            final(self).wf(),
            final(self).cur == turn_result(old(self).pieces@, old(self).cur),
            final(self).pieces@ == old(self).pieces@,
            final(self).next == old(self).next,
            final(self).hold == old(self).hold,
            final(self).lines == old(self).lines,
            final(self).score == old(self).score,
    {
        let t = Falling { rot: (self.cur.rot + 1) % 4, ..self.cur };
        if !turn_blocked(&self.pieces, t) {
            self.cur = t;
        }
    }

    /// One column to the right, unless a square would pass the right wall or land on
    /// a settled square.
    pub fn step_right(&mut self)
        requires
            old(self).wf(),
        ensures
            final(self).wf(),
            final(self).cur == right_result(old(self).pieces@, old(self).cur),
            final(self).pieces@ == old(self).pieces@,
            final(self).next == old(self).next,
            final(self).hold == old(self).hold,
            final(self).lines == old(self).lines,
            final(self).score == old(self).score,
    {
        let t = Falling { x: self.cur.x + 1, ..self.cur };
        proof {
            lemma_squares_near(t);
        }
        if !right_blocked(&self.pieces, t) {
            proof {
                assert(t.cx(0) < 10);
                assert(t.x <= 11);
            }
            self.cur = t;
        }
    }

    /// One column to the left, unless a square would pass the left wall or land on
    /// a settled square.
    pub fn step_left(&mut self)
        requires
            old(self).wf(),
        ensures
            final(self).wf(),
            final(self).cur == left_result(old(self).pieces@, old(self).cur),
            final(self).pieces@ == old(self).pieces@,
            final(self).next == old(self).next,
            final(self).hold == old(self).hold,
            final(self).lines == old(self).lines,
            final(self).score == old(self).score,
    {
        let t = Falling { x: self.cur.x - 1, ..self.cur };
        proof {
            lemma_squares_near(t);
        }
        if !left_blocked(&self.pieces, t) {
            proof {
                assert(t.cx(0) > -1);
                assert(t.x >= -2);
            }
            self.cur = t;
        }
    }

    /// One row down, for a piece that has not landed; returns whether it has landed
    /// in its new place.
    pub fn soft_drop(&mut self) -> (now_landed: bool)
        requires
            old(self).wf(),
            !landed(old(self).pieces@, old(self).cur),
        ensures
            final(self).wf(),
            final(self).cur == lowered(old(self).cur),
            now_landed == landed(final(self).pieces@, final(self).cur),
            final(self).pieces@ == old(self).pieces@,
            final(self).next == old(self).next,
            final(self).hold == old(self).hold,
            final(self).lines == old(self).lines,
            final(self).score == old(self).score,
    {
        proof {
            if self.cur.y >= 17 {
                lemma_low_piece_landed(self.pieces@, self.cur);
            }
        }
        self.cur = Falling { y: self.cur.y + 1, ..self.cur };
        is_landed(&self.pieces, self.cur)
    }

    /// One row down by gravity, whether or not the piece has landed.
    pub fn fall(&mut self)
        requires
            old(self).wf(),
            old(self).cur.y < i32::MAX - 8,
        ensures
            final(self).wf(),
            final(self).cur == lowered(old(self).cur),
            final(self).pieces@ == old(self).pieces@,
            final(self).next == old(self).next,
            final(self).hold == old(self).hold,
            final(self).lines == old(self).lines,
            final(self).score == old(self).score,
    {
        self.cur = Falling { y: self.cur.y + 1, ..self.cur };
    }

    /// The piece falls row by row until it has landed; returns its place after each
    /// row it fell (empty when it had already landed).
    pub fn hard_drop(&mut self) -> (path: Vec<Falling>)
        requires
            old(self).wf(),
        ensures
            final(self).wf(),
            rests_at(old(self).pieces@, old(self).cur, final(self).cur.y as int),
            final(self).cur == old(self).cur.at_row(final(self).cur.y as int),
            path.len() == final(self).cur.y - old(self).cur.y,
            forall|i: int| 0 <= i < path.len() ==> #[trigger] path@[i] == old(self).cur.at_row(old(self).cur.y + i + 1),
            final(self).pieces@ == old(self).pieces@,
            final(self).next == old(self).next,
            final(self).hold == old(self).hold,
            final(self).lines == old(self).lines,
            final(self).score == old(self).score,
    {
        let ghost start = self.cur;
        proof { assert(start == old(self).cur); }
        let mut path: Vec<Falling> = Vec::new();
        while !is_landed(&self.pieces, self.cur)
            invariant
                self.cur == start.at_row(self.cur.y as int),
                start.y <= self.cur.y,
                self.cur.y <= if start.y > 17 { start.y as int } else { 17 },
                self.cur.wf(),
                self.pieces@ == old(self).pieces@,
                self.next == old(self).next,
                self.hold == old(self).hold,
                self.lines == old(self).lines,
                self.score == old(self).score,
                forall|z: int| start.y <= z < self.cur.y ==> !#[trigger] landed(self.pieces@, start.at_row(z)),
                path.len() == self.cur.y - start.y,
                forall|i: int| 0 <= i < path.len() ==> #[trigger] path@[i] == start.at_row(start.y + i + 1),
            decreases 17 - self.cur.y,
        {
            proof {
                if self.cur.y >= 17 {
                    lemma_low_piece_landed(self.pieces@, self.cur);
                }
            }
            self.cur = Falling { y: self.cur.y + 1, ..self.cur };
            path.push(self.cur);
        }
        path
    }

    /// The falling piece settles: its four squares join the well, the next kind starts
    /// at the top and `new_next` becomes the next kind. Returns whether the new piece
    /// covers a settled square (the game is over).
    pub fn lock_and_spawn_with(&mut self, new_next: usize) -> (topped_out: bool)
        requires
            old(self).wf(),
            new_next < 7,
        ensures
            final(self).wf(),
            final(self).pieces@ == old(self).pieces@ + settled_squares(old(self).cur),
            final(self).cur == spawned(old(self).next),
            final(self).next == new_next,
            topped_out == overlaps(final(self).pieces@, final(self).cur),
            final(self).hold == old(self).hold,
            final(self).lines == old(self).lines,
            final(self).score == old(self).score,
    {
        let (a, b, c, d) = squares(self.cur);
        let k = self.cur.kind;
        self.pieces.push((a.0, a.1, k));
        self.pieces.push((b.0, b.1, k));
        self.pieces.push((c.0, c.1, k));
        self.pieces.push((d.0, d.1, k));
        self.cur = Falling { x: 4, y: 0, kind: self.next, rot: 0 };
        self.next = new_next;
        is_overlapping(&self.pieces, self.cur)
    }

    /// As `lock_and_spawn_with`, with the new next kind drawn at random.
    pub fn lock_and_spawn(&mut self) -> (topped_out: bool)
        requires
            old(self).wf(),
        ensures
            final(self).wf(),
            final(self).pieces@ == old(self).pieces@ + settled_squares(old(self).cur),
            final(self).cur == spawned(old(self).next),
            topped_out == overlaps(final(self).pieces@, final(self).cur),
            final(self).hold == old(self).hold,
            final(self).lines == old(self).lines,
            final(self).score == old(self).score,
    {
        let k = random_kind();
        self.lock_and_spawn_with(k)
    }

    /// Hold: the falling kind goes to the hold box, and the held kind (or, when nothing
    /// is held, the next kind) starts at the top. The next kind stays as it is.
    pub fn swap_hold(&mut self)
        requires
            old(self).wf(),
        ensures
            final(self).wf(),
            final(self).cur == spawned(held_in(old(self).next, old(self).hold)),
            final(self).hold == old(self).cur.kind,
            final(self).pieces@ == old(self).pieces@,
            final(self).next == old(self).next,
            final(self).lines == old(self).lines,
            final(self).score == old(self).score,
    {
        let last = self.cur.kind;
        let k = if self.hold == 7 { self.next } else { self.hold };
        self.cur = Falling { x: 4, y: 0, kind: k, rot: 0 };
        self.hold = last;
    }

    /// After a game over: an empty well, no score, nothing held, `next` as the next kind
    /// and `kind` falling from the top. The line count is kept.
    pub fn restart_with(&mut self, next: usize, kind: usize)
        requires
            next < 7,
            kind < 7,
        ensures
            final(self).wf(),
            final(self).pieces@ == Seq::<Cell>::empty(),
            final(self).cur == spawned(kind),
            final(self).next == next,
            final(self).hold == 7,
            final(self).score == 0,
            final(self).lines == old(self).lines,
    {
        self.score = 0;
        self.hold = 7;
        self.pieces = Vec::new();
        self.next = next;
        self.cur = Falling { x: 4, y: 0, kind, rot: 0 };
    }

    /// As `restart_with`, with the next kind and then the falling kind drawn at random.
    pub fn restart(&mut self)
        ensures
            final(self).wf(),
            final(self).pieces@ == Seq::<Cell>::empty(),
            final(self).cur.x == 4 && final(self).cur.y == 0 && final(self).cur.rot == 0,
            final(self).hold == 7,
            final(self).score == 0,
            final(self).lines == old(self).lines,
    {
        let next = random_kind();
        let kind = random_kind();
        self.restart_with(next, kind);
    }

    /// A key command during play. Returns what the game loop is to do, and whether the
    /// piece counts as landed for the gravity step that follows in the same turn of the
    /// loop: after a turn, a step sideways or a hold this is still whether it had landed
    /// before the command; after one row down it is whether it has landed now; after a
    /// settle or a drop to the bottom it is `false`.
    pub fn on_command(&mut self, cmd: Command) -> (r: (Reaction, bool))
        requires
            old(self).wf(),
        ensures
            final(self).wf(),
            ({
                let was = landed(old(self).pieces@, old(self).cur);
                match cmd {
                    Command::Quit => r.0 is Quit && *final(self) == *old(self) && r.1 == was,
                    Command::Turn => r.0 is Redraw && r.1 == was && final(self).pieces@ == old(self).pieces@
                        && final(self).cur == turn_result(old(self).pieces@, old(self).cur),
                    Command::Right => r.0 is Redraw && r.1 == was && final(self).pieces@ == old(self).pieces@
                        && final(self).cur == right_result(old(self).pieces@, old(self).cur),
                    Command::Left => r.0 is Redraw && r.1 == was && final(self).pieces@ == old(self).pieces@
                        && final(self).cur == left_result(old(self).pieces@, old(self).cur),
                    Command::SoftDrop => if was {
                        r.0 is Settle && *final(self) == *old(self) && !r.1
                    } else {
                        r.0 is Redraw && final(self).pieces@ == old(self).pieces@ && final(self).cur == lowered(old(self).cur)
                            && r.1 == landed(old(self).pieces@, lowered(old(self).cur))
                    },
                    Command::HardDrop => final(self).pieces@ == old(self).pieces@ && !r.1
                        && rests_at(old(self).pieces@, old(self).cur, final(self).cur.y as int)
                        && final(self).cur == old(self).cur.at_row(final(self).cur.y as int)
                        && (r.0 matches Reaction::Dropped(path) && path.len() == final(self).cur.y - old(self).cur.y
                            && forall|i: int| 0 <= i < path.len() ==> #[trigger] path@[i] == old(self).cur.at_row(old(self).cur.y + i + 1)),
                    Command::Hold => r.0 is Redraw && r.1 == was && final(self).pieces@ == old(self).pieces@
                        && final(self).cur == spawned(held_in(old(self).next, old(self).hold))
                        && final(self).hold == old(self).cur.kind,
                    Command::Ignore => r.0 is Nothing && *final(self) == *old(self) && r.1 == was,
                }
            }),
            cmd != Command::Hold ==> final(self).hold == old(self).hold,
            final(self).next == old(self).next,
            final(self).lines == old(self).lines,
            final(self).score == old(self).score,
    {
        let was = self.is_landed();
        match cmd {
            Command::Quit => (Reaction::Quit, was),
            Command::Turn => {
                self.turn();
                (Reaction::Redraw, was)
            },
            Command::Right => {
                self.step_right();
                (Reaction::Redraw, was)
            },
            Command::Left => {
                self.step_left();
                (Reaction::Redraw, was)
            },
            Command::SoftDrop => {
                if was {
                    (Reaction::Settle, false)
                } else {
                    let now = self.soft_drop();
                    (Reaction::Redraw, now)
                }
            },
            Command::HardDrop => {
                let path = self.hard_drop();
                (Reaction::Dropped(path), false)
            },
            Command::Hold => {
                self.swap_hold();
                (Reaction::Redraw, was)
            },
            Command::Ignore => (Reaction::Nothing, was),
        }
    }

    /// The gravity step: a piece counted as landed settles (returns `true`, and the
    /// game loop calls `lock_and_spawn`); otherwise it falls one row.
    pub fn on_tick(&mut self, landed_flag: bool) -> (settle: bool)
        requires
            old(self).wf(),
            !landed_flag ==> old(self).cur.y < i32::MAX - 8,
        ensures
            final(self).wf(),
            settle == landed_flag,
            final(self).cur == if landed_flag { old(self).cur } else { lowered(old(self).cur) },
            final(self).pieces@ == old(self).pieces@,
            final(self).next == old(self).next,
            final(self).hold == old(self).hold,
            final(self).lines == old(self).lines,
            final(self).score == old(self).score,
    {
        if landed_flag {
            true
        } else {
            self.fall();
            false
        }
    }
}

} // verus!
