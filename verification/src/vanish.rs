use vstd::prelude::*;
use crate::board::Cell;
use crate::game::Game;

verus! {

/// The order in which squares vanish at game over: by column plus ten times row, so row
/// by row from the top and, within a row, from left to right.
pub open spec fn vanish_key(c: Cell) -> int {
    c.0 + c.1 * 10
}

/// `perm` lists each index below `n` exactly once.
pub open spec fn is_index_perm(perm: Seq<int>, n: int) -> bool {
    &&& perm.len() == n
    &&& forall|k: int| 0 <= k < n ==> 0 <= #[trigger] perm[k] < n
    &&& forall|a: int, b: int| 0 <= a < b < n ==> perm[a] != perm[b]
}

/// `out` is `inp` rearranged by `perm` so that the keys do not decrease and squares with
/// equal keys keep their order (a stable sort by `vanish_key`).
pub open spec fn stably_sorted(out: Seq<Cell>, inp: Seq<Cell>, perm: Seq<int>) -> bool {
    &&& out.len() == inp.len()
    &&& is_index_perm(perm, inp.len() as int)
    &&& forall|k: int| 0 <= k < out.len() ==> #[trigger] out[k] == inp[perm[k]]
    &&& forall|a: int, b: int| 0 <= a < b < out.len() ==>
            vanish_key(#[trigger] out[a]) < vanish_key(#[trigger] out[b])
            || (vanish_key(out[a]) == vanish_key(out[b]) && perm[a] < perm[b])
}

/// The key of `c`, and ten times its row, fit in `i32`.
pub open spec fn key_fits(c: Cell) -> bool {
    i32::MIN <= c.1 * 10 <= i32::MAX && i32::MIN <= vanish_key(c) <= i32::MAX
}

/// Every square's key can be computed in `i32`.
pub open spec fn keys_fit(p: Seq<Cell>) -> bool {
    forall|i: int| 0 <= i < p.len() ==> #[trigger] key_fits(p[i])
}

fn key_of(c: Cell) -> (k: i32)
    requires
        key_fits(c),
    ensures
        k == vanish_key(c),
{
    c.0 + c.1 * 10
}

/// Whether every square's key can be computed in `i32`.
pub fn keys_computable(pieces: &Vec<Cell>) -> (r: bool)
    ensures
        r == keys_fit(pieces@),
{
    let n = pieces.len();
    for i in 0..n
        invariant
            n == pieces.len(),
            forall|j: int| 0 <= j < i ==> #[trigger] key_fits(pieces@[j]),
    {
        let c = pieces[i];
        let y10: i64 = c.1 as i64 * 10;
        let k: i64 = c.0 as i64 + y10;
        if y10 < i32::MIN as i64 || y10 > i32::MAX as i64 || k < i32::MIN as i64 || k > i32::MAX as i64 {
            assert(!key_fits(pieces@[i as int]));
            return false;
        }
    }
    true
}

impl Game {
    /// Orders the settled squares for the game-over animation, which removes them one by
    /// one from the end: a stable sort by `vanish_key`.
    pub fn sort_for_vanish(&mut self)
        requires
            keys_fit(old(self).pieces@),
        ensures
            exists|perm: Seq<int>| stably_sorted(final(self).pieces@, old(self).pieces@, perm),
            final(self).cur == old(self).cur,
            final(self).next == old(self).next,
            final(self).hold == old(self).hold,
            final(self).lines == old(self).lines,
            final(self).score == old(self).score,
    {
        let ghost inp = self.pieces@;
        let n = self.pieces.len();
        let mut out: Vec<Cell> = Vec::new();
        let ghost mut perm: Seq<int> = Seq::empty();
        for i in 0..n
            invariant
                n == self.pieces.len(),
                self.pieces@ == inp,
                keys_fit(inp),
                out.len() == i,
                perm.len() == i,
                forall|k: int| 0 <= k < i ==> 0 <= #[trigger] perm[k] < i,
                forall|a: int, b: int| 0 <= a < b < i ==> perm[a] != perm[b],
                forall|k: int| 0 <= k < i ==> #[trigger] out@[k] == inp[perm[k]],
                forall|a: int, b: int| 0 <= a < b < i ==>
                    vanish_key(#[trigger] out@[a]) < vanish_key(#[trigger] out@[b])
                    || (vanish_key(out@[a]) == vanish_key(out@[b]) && perm[a] < perm[b]),
        {
            let c = self.pieces[i];
            assert(key_fits(inp[i as int]));
            let kc = key_of(c);
            let mut pos = out.len();
            while pos > 0 && key_of(out[pos - 1]) > kc
                invariant
                    0 <= pos <= out.len(),
                    out.len() == i,
                    i < n,
                    n == inp.len(),
                    keys_fit(inp),
                    c == inp[i as int],
                    kc == vanish_key(c),
                    perm.len() == i,
                    forall|k: int| 0 <= k < i ==> 0 <= #[trigger] perm[k] < i,
                    forall|k: int| 0 <= k < i ==> #[trigger] out@[k] == inp[perm[k]],
                    forall|q: int| pos <= q < out.len() ==> vanish_key(#[trigger] out@[q]) > kc,
                decreases pos,
            {
                assert(out@[pos - 1] == inp[perm[pos - 1]]);
                assert(key_fits(inp[perm[pos - 1]]));
                pos = pos - 1;
            }
            proof {
                if pos > 0 {
                    assert(out@[pos - 1] == inp[perm[pos - 1]]);
                }
            }
            let ghost old_out = out@;
            let ghost old_perm = perm;
            out.insert(pos, c);
            proof {
                perm = old_perm.insert(pos as int, i as int);
                assert forall|a: int, b: int| 0 <= a < b < i + 1 implies
                    vanish_key(#[trigger] out@[a]) < vanish_key(#[trigger] out@[b])
                    || (vanish_key(out@[a]) == vanish_key(out@[b]) && perm[a] < perm[b]) by {
                    if b < pos {
                        assert(out@[a] == old_out[a] && out@[b] == old_out[b]);
                    } else if b == pos {
                        if a < pos - 1 {
                            assert(vanish_key(old_out[a]) <= vanish_key(old_out[pos - 1]));
                        }
                        assert(out@[a] == old_out[a]);
                    } else if a < pos {
                        assert(out@[a] == old_out[a] && out@[b] == old_out[b - 1]);
                        if pos < b - 1 {
                            assert(vanish_key(old_out[pos as int]) <= vanish_key(old_out[b - 1]));
                        }
                    } else if a == pos {
                        assert(out@[b] == old_out[b - 1]);
                    } else {
                        assert(out@[a] == old_out[a - 1] && out@[b] == old_out[b - 1]);
                    }
                }
                assert forall|k: int| 0 <= k < i + 1 implies #[trigger] out@[k] == inp[perm[k]] by {
                    if k < pos {
                        assert(out@[k] == old_out[k]);
                    } else if k > pos {
                        assert(out@[k] == old_out[k - 1]);
                    }
                }
                assert forall|a: int, b: int| 0 <= a < b < i + 1 implies perm[a] != perm[b] by {
                    if a != pos && b != pos {
                        let a0 = if a < pos { a } else { a - 1 };
                        let b0 = if b < pos { b } else { b - 1 };
                        assert(perm[a] == old_perm[a0] && perm[b] == old_perm[b0]);
                    } else if a == pos {
                        assert(perm[b] == old_perm[b - 1]);
                    } else {
                        assert(perm[a] == old_perm[a]);
                    }
                }
            }
        }
        self.pieces = out;
        proof {
            assert(stably_sorted(self.pieces@, inp, perm));
        }
    }
}

} // verus!
