use vstd::prelude::*;

verus! {

/// The tiles, in row-major order, that an iterator at `(cx, cy)` still yields:
/// the rest of row `cy` from `cx` to `max_tx` (at least the tile at `cx`),
/// then every following row up to `max_ty` from `min_tx`.
pub open spec fn tile_seq(min_tx: int, max_tx: int, max_ty: int, cx: int, cy: int) -> Seq<(int, int)>
    decreases max_ty + 1 - cy, max_tx - cx,
{
    if cy > max_ty {
        Seq::empty()
    } else if cx + 1 > max_tx {
        seq![(cx, cy)] + tile_seq(min_tx, max_tx, max_ty, min_tx, cy + 1)
    } else {
        seq![(cx, cy)] + tile_seq(min_tx, max_tx, max_ty, cx + 1, cy)
    }
}

/// Row-major order on tiles: by row, then by column.
pub open spec fn row_major_before(a: (int, int), b: (int, int)) -> bool {
    a.1 < b.1 || (a.1 == b.1 && a.0 < b.0)
}

/// From a position inside the rectangle, the iterator yields exactly the tiles
/// of the rectangle at or after that position, each once, in row-major order.
pub proof fn lemma_tile_seq(min_tx: int, max_tx: int, max_ty: int, cx: int, cy: int)
    requires
        min_tx <= cx <= max_tx,
    ensures
        forall|x: int, y: int| #[trigger] tile_seq(min_tx, max_tx, max_ty, cx, cy).contains((x, y)) <==> (
            cy <= y <= max_ty && min_tx <= x <= max_tx && (y > cy || x >= cx)),
        forall|i: int, j: int| 0 <= i < j < tile_seq(min_tx, max_tx, max_ty, cx, cy).len() ==>
            row_major_before(#[trigger] tile_seq(min_tx, max_tx, max_ty, cx, cy)[i],
                #[trigger] tile_seq(min_tx, max_tx, max_ty, cx, cy)[j]),
    decreases max_ty + 1 - cy, max_tx - cx,
{
    let s = tile_seq(min_tx, max_tx, max_ty, cx, cy);
    if cy > max_ty {
    } else {
        let (nx, ny) = if cx + 1 > max_tx { (min_tx, cy + 1) } else { (cx + 1, cy) };
        lemma_tile_seq(min_tx, max_tx, max_ty, nx, ny);
        let rest = tile_seq(min_tx, max_tx, max_ty, nx, ny);
        assert(s == seq![(cx, cy)] + rest);
        assert forall|x: int, y: int| #[trigger] s.contains((x, y)) <==> (
            cy <= y <= max_ty && min_tx <= x <= max_tx && (y > cy || x >= cx)) by {
            if s.contains((x, y)) {
                let k = choose|k: int| 0 <= k < s.len() && s[k] == (x, y);
                if k > 0 {
                    assert(rest[k - 1] == (x, y));
                    assert(rest.contains((x, y)));
                }
            }
            if cy <= y <= max_ty && min_tx <= x <= max_tx && (y > cy || x >= cx) {
                if x == cx && y == cy {
                    assert(s[0] == (x, y));
                } else {
                    assert(rest.contains((x, y)));
                    let k = choose|k: int| 0 <= k < rest.len() && rest[k] == (x, y);
                    assert(s[k + 1] == (x, y));
                }
            }
        }
        assert forall|i: int, j: int| 0 <= i < j < s.len() implies
            row_major_before(#[trigger] s[i], #[trigger] s[j]) by {
            if i == 0 {
                assert(rest[j - 1] == s[j]);
                assert(rest.contains(s[j]));
                assert(rest.contains((s[j].0, s[j].1)));
            } else {
                assert(rest[i - 1] == s[i]);
                assert(rest[j - 1] == s[j]);
            }
        }
    }
}

/// Iterator over the tile coordinates of a rectangle, row by row
/// (x fastest), from `(min_tx, min_ty)` to `(max_tx, max_ty)`.
#[derive(Debug)]
pub struct TileIterator {
    min_tx: i32,
    max_tx: i32,
    min_ty: i32,
    max_ty: i32,
    current_x: i32,
    current_y: i32,
}

impl TileIterator {
    #[verifier::type_invariant]
    spec fn inv(self) -> bool {
        &&& self.min_tx < i32::MAX
        &&& self.max_tx < i32::MAX
        &&& self.max_ty < i32::MAX
        &&& self.min_tx <= self.current_x
        &&& (self.current_x == self.min_tx || self.current_x <= self.max_tx)
    }

    /// The tiles this iterator will still yield.
    pub closed spec fn remaining(self) -> Seq<(int, int)> {
        tile_seq(self.min_tx as int, self.max_tx as int, self.max_ty as int, self.current_x as int, self.current_y as int)
    }

    /// An iterator over the rectangle `[min_tx, max_tx] x [min_ty, max_ty]`.
    pub fn new(min_tx: i32, max_tx: i32, min_ty: i32, max_ty: i32) -> (it: TileIterator)
        requires
            min_tx < i32::MAX,
            max_tx < i32::MAX,
            max_ty < i32::MAX,
        ensures
            it.remaining() == tile_seq(min_tx as int, max_tx as int, max_ty as int, min_tx as int, min_ty as int),
    {
        TileIterator { min_tx, max_tx, min_ty, max_ty, current_x: min_tx, current_y: min_ty }
    }

    /// Yield the next tile, or `None` when the rectangle is exhausted.
    pub fn next(&mut self) -> (r: Option<(i32, i32)>)
        ensures
            old(self).remaining().len() == 0 ==> r is None && final(self).remaining().len() == 0,
            old(self).remaining().len() > 0 ==> {
                &&& r is Some
                &&& (r.unwrap().0 as int, r.unwrap().1 as int) == old(self).remaining()[0]
                &&& final(self).remaining() == old(self).remaining().drop_first()
            },
    {
        proof {
            use_type_invariant(&*self);
        }
        if self.current_y > self.max_ty {
            return None;
        }
        let result = (self.current_x, self.current_y);
        if self.current_x + 1 > self.max_tx {
            self.current_x = self.min_tx;
            self.current_y = self.current_y + 1;
        } else {
            self.current_x = self.current_x + 1;
        }
        proof {
            let a = seq![(result.0 as int, result.1 as int)];
            assert((a + self.remaining()).drop_first() =~= self.remaining());
        }
        Some(result)
    }

    /// All the tiles this iterator still yields, in order.
    pub fn collect_tiles(self) -> (v: Vec<(i32, i32)>)
        ensures
            v@.len() == self.remaining().len(),
            forall|i: int| 0 <= i < v@.len() ==> (#[trigger] v@[i].0 as int, v@[i].1 as int) == self.remaining()[i],
    {
        let mut it = self;
        let mut v: Vec<(i32, i32)> = Vec::new();
        loop
            invariant
                v@.len() + it.remaining().len() == self.remaining().len(),
                forall|i: int| 0 <= i < v@.len() ==> (#[trigger] v@[i].0 as int, v@[i].1 as int) == self.remaining()[i],
                forall|i: int| 0 <= i < it.remaining().len() ==> #[trigger] it.remaining()[i] == self.remaining()[v@.len() + i],
            ensures
                v@.len() == self.remaining().len(),
                forall|i: int| 0 <= i < v@.len() ==> (#[trigger] v@[i].0 as int, v@[i].1 as int) == self.remaining()[i],
            decreases it.remaining().len(),
        {
            let ghost before = it.remaining();
            match it.next() {
                Some(t) => {
                    v.push(t);
                    proof {
                        assert forall|i: int| 0 <= i < it.remaining().len() implies
                            #[trigger] it.remaining()[i] == self.remaining()[v@.len() + i] by {
                            assert(it.remaining()[i] == before[i + 1]);
                        }
                    }
                },
                None => {
                    break;
                },
            }
        }
        v
    }
}

} // verus!
