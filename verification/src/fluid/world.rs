use vstd::prelude::*;

use vstd::arithmetic::div_mod::lemma_fundamental_div_mod_converse;

verus! {

/// Floor division (quotient rounded toward negative infinity).
pub fn div_floor(a: i32, b: i32) -> (q: i32)
    requires
        b > 0,
    ensures
        q == a as int / b as int,
{
    if a >= 0 {
        a / b
    } else {
        let p = (-(a as i64) - 1) / (b as i64);
        let q = (-p - 1) as i32;
        proof {
            let m = -(a as int) - 1;
            assert(0 <= m - p * b < b) by (nonlinear_arith)
                requires m >= 0, b > 0, p == m / (b as int);
            assert(a as int == q * b + (b - 1 - (m - p * b))) by (nonlinear_arith)
                requires q == -p - 1, m == -(a as int) - 1;
            lemma_fundamental_div_mod_converse(a as int, b as int, q as int, b - 1 - (m - p * b));
        }
        q
    }
}

/// Euclidean remainder (always in `[0, b)`).
pub fn rem_floor(a: i32, b: i32) -> (r: i32)
    requires
        b > 0,
    ensures
        r == a as int % b as int,
        0 <= r < b,
{
    let q = div_floor(a, b);
    proof {
        assert(q * b <= a as int) by (nonlinear_arith)
            requires q == a as int / b as int, b > 0;
        assert(a as int - q * b == a as int % b as int) by (nonlinear_arith)
            requires q == a as int / b as int, b > 0;
    }
    let qb = (q as i64) * (b as i64);
    (a as i64 - qb) as i32
}

/// The layout of a world made of square chunks: `width_chunks` chunks around
/// (the world wraps horizontally) and `height_chunks` chunks high.
#[derive(Debug, Clone, Copy)]
pub struct ChunkLayout {
    pub chunk_size: u32,
    pub width_chunks: i32,
    pub height_chunks: i32,
}

impl ChunkLayout {
    pub open spec fn valid(self) -> bool {
        &&& 0 < self.chunk_size <= i32::MAX
        &&& self.width_chunks > 0
        &&& 0 <= self.height_chunks * self.chunk_size <= i32::MAX
    }

    /// Global tile coordinates to `(chunk_x, chunk_y, local_x, local_y)`,
    /// wrapping horizontally; `None` outside the vertical bounds.
    pub open spec fn resolve_spec(self, gx: int, gy: int) -> Option<(int, int, int, int)> {
        let cs = self.chunk_size as int;
        if gy < 0 || gy >= self.height_chunks * cs {
            None
        } else {
            Some(((gx / cs) % (self.width_chunks as int), gy / cs, gx % cs, gy % cs))
        }
    }

    /// Global tile coordinates to `(chunk_x, chunk_y, local_x, local_y)`.
    pub fn resolve(&self, gx: i32, gy: i32) -> (r: Option<(i32, i32, u32, u32)>)
        requires
            self.valid(),
        ensures
            match r {
                Some((cx, cy, lx, ly)) => self.resolve_spec(gx as int, gy as int)
                    == Some((cx as int, cy as int, lx as int, ly as int)),
                None => self.resolve_spec(gx as int, gy as int) is None,
            },
    {
        let cs = self.chunk_size as i32;
        let total_height = self.height_chunks * cs;
        if gy < 0 || gy >= total_height {
            return None;
        }
        let cx = rem_floor(div_floor(gx, cs), self.width_chunks);
        let cy = div_floor(gy, cs);
        let lx = rem_floor(gx, cs) as u32;
        let ly = rem_floor(gy, cs) as u32;
        Some((cx, cy, lx, ly))
    }
}

/// What `resolve` gives is a real position inside the world: the chunk column
/// is in range, the local position is inside the chunk, and chunk and local
/// position rebuild the coordinates (up to the horizontal wrap).
pub proof fn lemma_resolve_in_range(layout: ChunkLayout, gx: int, gy: int)
    requires
        layout.valid(),
        layout.resolve_spec(gx, gy) is Some,
    ensures
        ({
            let (cx, cy, lx, ly) = layout.resolve_spec(gx, gy).unwrap();
            let cs = layout.chunk_size as int;
            &&& 0 <= cx < layout.width_chunks
            &&& 0 <= cy < layout.height_chunks
            &&& 0 <= lx < cs
            &&& 0 <= ly < cs
            &&& cy * cs + ly == gy
            &&& (gx - lx) % cs == 0
        }),
{
    let cs = layout.chunk_size as int;
    let h = layout.height_chunks as int;
    assert(gy / cs < h && gy / cs >= 0 && (gy / cs) * cs + gy % cs == gy) by (nonlinear_arith)
        requires 0 <= gy < h * cs, cs > 0;
    assert((gx / cs) * cs + gx % cs == gx && 0 <= gx % cs < cs) by (nonlinear_arith)
        requires cs > 0;
    assert((gx - gx % cs) % cs == 0) by {
        lemma_fundamental_div_mod_converse(gx - gx % cs, cs, gx / cs, 0);
    }
}

/// Moving a whole world width to the side resolves to the same place.
pub proof fn lemma_resolve_wraps(layout: ChunkLayout, gx: int, gy: int)
    requires
        layout.valid(),
    ensures
        layout.resolve_spec(gx + layout.width_chunks * layout.chunk_size, gy) == layout.resolve_spec(gx, gy),
{
    let cs = layout.chunk_size as int;
    let w = layout.width_chunks as int;
    let g2 = gx + w * cs;
    let q = gx / cs;
    let r = gx % cs;
    assert(gx == q * cs + r && 0 <= r < cs) by (nonlinear_arith)
        requires cs > 0, q == gx / cs, r == gx % cs;
    assert(g2 == (q + w) * cs + r) by (nonlinear_arith)
        requires gx == q * cs + r, g2 == gx + w * cs;
    lemma_fundamental_div_mod_converse(g2, cs, q + w, r);
    let cq = q % w;
    let cd = q / w;
    assert(q == cd * w + cq && 0 <= cq < w) by (nonlinear_arith)
        requires w > 0, cq == q % w, cd == q / w;
    assert(q + w == (cd + 1) * w + cq) by (nonlinear_arith)
        requires q == cd * w + cq;
    lemma_fundamental_div_mod_converse(q + w, w, cd + 1, cq);
}

} // verus!
