use vstd::prelude::*;

use vstd::arithmetic::div_mod::lemma_fundamental_div_mod_converse;

verus! {

/// Side of a crack texture in pixels.
pub const CRACK_SIZE: usize = 16;

/// One step of Bresenham's line walk, in steps from the start: `i` steps along
/// x and `j` along y out of `dx` and `dy`, with error term `err`.
pub open spec fn bres_next(dx: int, dy: int, i: int, j: int, err: int) -> (int, int, int) {
    let e2 = 2 * err;
    let (i2, e1) = if e2 > -dy { (i + 1, err - dy) } else { (i, err) };
    if e2 < dx { (i2, j + 1, e1 + dx) } else { (i2, j, e1) }
}

/// A state the walk can be in: within the box, with the error term that the
/// steps taken so far give.
pub open spec fn bres_valid(dx: int, dy: int, i: int, j: int, err: int) -> bool {
    &&& dx >= 0 && dy >= 0
    &&& 0 <= i <= dx && 0 <= j <= dy
    &&& err == dx - dy - i * dy + j * dx
    &&& -2 * dy <= err <= 2 * dx
}

/// From a valid state that is not the end, a step stays valid and moves on.
pub proof fn lemma_bres_step(dx: int, dy: int, i: int, j: int, err: int)
    requires
        bres_valid(dx, dy, i, j, err),
        !(i == dx && j == dy),
    ensures
        ({
            let (i2, j2, e2) = bres_next(dx, dy, i, j, err);
            &&& bres_valid(dx, dy, i2, j2, e2)
            &&& i2 + j2 > i + j
        }),
{
    let e2 = 2 * err;
    if i == dx {
        assert(err <= -dy) by (nonlinear_arith)
            requires err == dx - dy - i * dy + j * dx, i == dx, j <= dy - 1, dx >= 0, dy >= 1;
    }
    if j == dy {
        assert(err >= dx) by (nonlinear_arith)
            requires err == dx - dy - i * dy + j * dx, j == dy, i <= dx - 1, dx >= 1, dy >= 0;
    }
    let (i2, j2, e3) = bres_next(dx, dy, i, j, err);
    assert(e3 == dx - dy - i2 * dy + j2 * dx) by (nonlinear_arith)
        requires
            err == dx - dy - i * dy + j * dx,
            (i2 == i + 1 && e2 > -dy) || (i2 == i && e2 <= -dy),
            e3 == err - (if e2 > -dy { dy } else { 0 }) + (if e2 < dx { dx } else { 0 }),
            (j2 == j + 1 && e2 < dx) || (j2 == j && e2 >= dx),
            e2 == 2 * err;
}


/// The steps of the walk from a valid state to the end, as `(i, j)` pairs.
pub open spec fn bres_steps(dx: int, dy: int, i: int, j: int, err: int) -> Seq<(int, int)>
    decreases (dx - i) + (dy - j)
    when bres_valid(dx, dy, i, j, err)
    via bres_steps_decreases
{
    if i == dx && j == dy {
        seq![(i, j)]
    } else {
        let (i2, j2, e2) = bres_next(dx, dy, i, j, err);
        seq![(i, j)] + bres_steps(dx, dy, i2, j2, e2)
    }
}

#[via_fn]
proof fn bres_steps_decreases(dx: int, dy: int, i: int, j: int, err: int) {
    if bres_valid(dx, dy, i, j, err) && !(i == dx && j == dy) {
        lemma_bres_step(dx, dy, i, j, err);
    }
}

pub open spec fn abs_diff(a: int, b: int) -> int {
    if a <= b { b - a } else { a - b }
}

pub open spec fn step_sign(a: int, b: int) -> int {
    if a < b { 1 } else { -1 }
}

/// The pixels Bresenham's algorithm visits going from `(x0, y0)` to `(x1, y1)`.
pub open spec fn line_points(x0: int, y0: int, x1: int, y1: int) -> Seq<(int, int)> {
    let dx = abs_diff(x0, x1);
    let dy = abs_diff(y0, y1);
    bres_steps(dx, dy, 0, 0, dx - dy).map_values(
        |p: (int, int)| (x0 + step_sign(x0, x1) * p.0, y0 + step_sign(y0, y1) * p.1),
    )
}

/// Pixel `(x, y)` of the byte at offset `k` of a 16x16 RGBA image.
pub open spec fn pixel_of(k: int) -> (int, int) {
    ((k / 4) % 16, (k / 4) / 16)
}

/// An RGBA image after painting the given pixels semi-transparent black.
pub open spec fn painted(data: Seq<u8>, pts: Seq<(int, int)>) -> Seq<u8> {
    Seq::new(data.len(), |k: int| if pts.contains(pixel_of(k)) {
        if k % 4 == 3 { 160u8 } else { 0u8 }
    } else {
        data[k]
    })
}

proof fn lemma_pixel_index(x: int, y: int, c: int)
    requires
        0 <= x < 16,
        0 <= y < 16,
        0 <= c < 4,
    ensures
        pixel_of((y * 16 + x) * 4 + c) == (x, y),
        ((y * 16 + x) * 4 + c) % 4 == c,
        0 <= (y * 16 + x) * 4 + c < 1024,
{
    lemma_fundamental_div_mod_converse((y * 16 + x) * 4 + c, 4, y * 16 + x, c);
    lemma_fundamental_div_mod_converse(y * 16 + x, 16, y, x);
}

proof fn lemma_pixel_of_range(k: int)
    requires
        0 <= k < 1024,
    ensures
        0 <= pixel_of(k).0 < 16,
        0 <= pixel_of(k).1 < 16,
        k == (pixel_of(k).1 * 16 + pixel_of(k).0) * 4 + k % 4,
{
    assert(0 <= k / 4 < 256 && k == (k / 4) * 4 + k % 4) by (nonlinear_arith)
        requires 0 <= k < 1024;
    assert(0 <= (k / 4) / 16 < 16 && k / 4 == ((k / 4) / 16) * 16 + (k / 4) % 16 && 0 <= (k / 4) % 16 < 16)
        by (nonlinear_arith)
        requires 0 <= k / 4 < 256;
}

/// Draw a line from `(x0, y0)` to `(x1, y1)` using Bresenham's algorithm,
/// painting the visited pixels inside the 16x16 image semi-transparent black.
pub fn draw_line(data: &mut Vec<u8>, x0: i32, y0: i32, x1: i32, y1: i32)
    requires
        old(data)@.len() == 1024,
        -0x1000_0000 <= x1 - x0 <= 0x1000_0000,
        -0x1000_0000 <= y1 - y0 <= 0x1000_0000,
    ensures
        final(data)@ == painted(old(data)@, line_points(x0 as int, y0 as int, x1 as int, y1 as int)),
{
    let dx: i32 = if x1 >= x0 { x1 - x0 } else { x0 - x1 };
    let dy: i32 = if y1 >= y0 { y1 - y0 } else { y0 - y1 };
    let sx: i32 = if x0 < x1 { 1 } else { -1 };
    let sy: i32 = if y0 < y1 { 1 } else { -1 };

    let mut x = x0;
    let mut y = y0;
    let mut err: i32 = dx - dy;

    let ghost full = line_points(x0 as int, y0 as int, x1 as int, y1 as int);
    let ghost to_abs = |p: (int, int)| (x0 + sx * p.0, y0 + sy * p.1);
    let ghost mut i: int = 0;
    let ghost mut j: int = 0;
    let ghost mut done: Seq<(int, int)> = Seq::empty();
    proof {
        assert(bres_valid(dx as int, dy as int, 0, 0, dx - dy));
        assert(data@ =~= painted(old(data)@, done));
        assert(full == done + bres_steps(dx as int, dy as int, 0, 0, dx - dy).map_values(to_abs));
    }

    loop
        invariant_except_break
            full == done + bres_steps(dx as int, dy as int, i, j, err as int).map_values(to_abs),
            data@ == painted(old(data)@, done),
        invariant
            data@.len() == 1024,
            bres_valid(dx as int, dy as int, i, j, err as int),
            dx == abs_diff(x0 as int, x1 as int),
            dy == abs_diff(y0 as int, y1 as int),
            0 <= dx <= 0x1000_0000,
            0 <= dy <= 0x1000_0000,
            sx == step_sign(x0 as int, x1 as int),
            sy == step_sign(y0 as int, y1 as int),
            x == x0 + sx * i,
            y == y0 + sy * j,
            to_abs == (|p: (int, int)| (x0 + sx * p.0, y0 + sy * p.1)),
            full == line_points(x0 as int, y0 as int, x1 as int, y1 as int),
        ensures
            data@ == painted(old(data)@, full),
        decreases (dx - i) + (dy - j),
    {
        let ghost before = data@;
        let ghost here = (x as int, y as int);
        if x >= 0 && x < 16 && y >= 0 && y < 16 {
            let idx = ((y as usize) * 16 + (x as usize)) * 4;
            proof {
                lemma_pixel_index(x as int, y as int, 0);
                lemma_pixel_index(x as int, y as int, 1);
                lemma_pixel_index(x as int, y as int, 2);
                lemma_pixel_index(x as int, y as int, 3);
            }
            data.set(idx, 0);
            data.set(idx + 1, 0);
            data.set(idx + 2, 0);
            data.set(idx + 3, 160);
        }
        proof {
            let done2 = done.push(here);
            assert forall|k: int| 0 <= k < 1024 implies #[trigger] data@[k] == painted(old(data)@, done2)[k] by {
                lemma_pixel_of_range(k);
                let p = pixel_of(k);
                if p == here {
                    assert(done2.contains(p)) by {
                        assert(done2[done.len() as int] == here);
                    }
                    lemma_pixel_index(x as int, y as int, k % 4);
                } else {
                    assert(done2.contains(p) == done.contains(p)) by {
                        if done2.contains(p) {
                            let q = choose|q: int| 0 <= q < done2.len() && done2[q] == p;
                            assert(q < done.len());
                            assert(done[q] == p);
                        }
                        if done.contains(p) {
                            let q = choose|q: int| 0 <= q < done.len() && done[q] == p;
                            assert(done2[q] == p);
                        }
                    }
                    if 0 <= x < 16 && 0 <= y < 16 {
                        let base = ((y as int) * 16 + (x as int)) * 4;
                        assert(k < base || k >= base + 4) by {
                            if base <= k < base + 4 {
                                lemma_pixel_index(x as int, y as int, k - base);
                            }
                        }
                    }
                }
            }
            assert(data@ =~= painted(old(data)@, done2));
            let rest = bres_steps(dx as int, dy as int, i, j, err as int);
            assert(rest[0] == (i, j));
            assert(to_abs((i, j)) == here);
        }
        if x == x1 && y == y1 {
            proof {
                assert(i == dx as int && j == dy as int) by (nonlinear_arith)
                    requires
                        x == x0 + sx * i,
                        y == y0 + sy * j,
                        x == x1,
                        y == y1,
                        sx == 1 || sx == -1,
                        sy == 1 || sy == -1,
                        dx == (if x0 <= x1 { x1 - x0 } else { x0 - x1 }),
                        dy == (if y0 <= y1 { y1 - y0 } else { y0 - y1 }),
                        sx == (if x0 < x1 { 1int } else { -1int }),
                        sy == (if y0 < y1 { 1int } else { -1int }),
                        0 <= i,
                        0 <= j;
                let rest = bres_steps(dx as int, dy as int, i, j, err as int);
                assert(rest =~= seq![(i, j)]);
                assert(full =~= done.push(here));
            }
            break;
        }
        proof {
            if i == dx && j == dy {
                assert(x == x1 && y == y1) by (nonlinear_arith)
                    requires
                        x == x0 + sx * i,
                        y == y0 + sy * j,
                        i == dx,
                        j == dy,
                        dx == (if x0 <= x1 { x1 - x0 } else { x0 - x1 }),
                        dy == (if y0 <= y1 { y1 - y0 } else { y0 - y1 }),
                        sx == (if x0 < x1 { 1int } else { -1int }),
                        sy == (if y0 < y1 { 1int } else { -1int });
            }
            lemma_bres_step(dx as int, dy as int, i, j, err as int);
        }
        let ghost i0 = i;
        let ghost j0 = j;
        let ghost err0 = err as int;
        let e2 = 2 * err;
        if e2 > -dy {
            err = err - dy;
            x = x + sx;
            proof {
                i = i + 1;
            }
        }
        if e2 < dx {
            err = err + dx;
            y = y + sy;
            proof {
                j = j + 1;
            }
        }
        proof {
            assert((i, j, err as int) == bres_next(dx as int, dy as int, i0, j0, err0));
            let rest0 = bres_steps(dx as int, dy as int, i0, j0, err0);
            let rest1 = bres_steps(dx as int, dy as int, i, j, err as int);
            assert(rest0 == seq![(i0, j0)] + rest1);
            assert((seq![(i0, j0)] + rest1).map_values(to_abs) =~= seq![to_abs((i0, j0))] + rest1.map_values(to_abs));
            assert(to_abs((i0, j0)) == here);
            assert(done + (seq![here] + rest1.map_values(to_abs)) =~= done.push(here) + rest1.map_values(to_abs));
            done = done.push(here);
        }
    }
}

/// The walk from a valid state starts there, ends at `(dx, dy)`, and moves by
/// at most one pixel in each direction per step (an 8-connected path).
pub proof fn lemma_bres_steps_shape(dx: int, dy: int, i: int, j: int, err: int)
    requires
        bres_valid(dx, dy, i, j, err),
    ensures
        bres_steps(dx, dy, i, j, err).len() >= 1,
        bres_steps(dx, dy, i, j, err)[0] == (i, j),
        bres_steps(dx, dy, i, j, err).last() == (dx, dy),
        forall|k: int| 0 <= k < bres_steps(dx, dy, i, j, err).len() - 1 ==> {
            let a = #[trigger] bres_steps(dx, dy, i, j, err)[k];
            let b = bres_steps(dx, dy, i, j, err)[k + 1];
            &&& 0 <= b.0 - a.0 <= 1
            &&& 0 <= b.1 - a.1 <= 1
            &&& b.0 - a.0 + b.1 - a.1 >= 1
        },
    decreases (dx - i) + (dy - j),
{
    if i == dx && j == dy {
    } else {
        lemma_bres_step(dx, dy, i, j, err);
        let (i2, j2, e2) = bres_next(dx, dy, i, j, err);
        lemma_bres_steps_shape(dx, dy, i2, j2, e2);
        let rest = bres_steps(dx, dy, i2, j2, e2);
        let s = bres_steps(dx, dy, i, j, err);
        assert(s == seq![(i, j)] + rest);
        assert forall|k: int| 0 <= k < s.len() - 1 implies {
            let a = #[trigger] s[k];
            let b = s[k + 1];
            &&& 0 <= b.0 - a.0 <= 1
            &&& 0 <= b.1 - a.1 <= 1
            &&& b.0 - a.0 + b.1 - a.1 >= 1
        } by {
            if k == 0 {
                assert(s[1] == rest[0]);
            } else {
                assert(s[k] == rest[k - 1]);
                assert(s[k + 1] == rest[k]);
            }
        }
    }
}

/// A drawn line starts at its first end point and finishes at its second.
pub proof fn lemma_line_end_points(x0: int, y0: int, x1: int, y1: int)
    ensures
        line_points(x0, y0, x1, y1).len() >= 1,
        line_points(x0, y0, x1, y1)[0] == (x0, y0),
        line_points(x0, y0, x1, y1).last() == (x1, y1),
{
    let dx = abs_diff(x0, x1);
    let dy = abs_diff(y0, y1);
    assert(bres_valid(dx, dy, 0, 0, dx - dy));
    lemma_bres_steps_shape(dx, dy, 0, 0, dx - dy);
    let steps = bres_steps(dx, dy, 0, 0, dx - dy);
    let n = steps.len() as int;
    assert(line_points(x0, y0, x1, y1)[n - 1] == (x0 + step_sign(x0, x1) * dx, y0 + step_sign(y0, y1) * dy));
}

/// Painting two sets of pixels one after the other paints their union.
pub proof fn lemma_painted_twice(data: Seq<u8>, a: Seq<(int, int)>, b: Seq<(int, int)>)
    ensures
        painted(painted(data, a), b) == painted(data, a + b),
{
    assert forall|p: (int, int)| #[trigger] (a + b).contains(p) <==> a.contains(p) || b.contains(p) by {
        if (a + b).contains(p) {
            let q = choose|q: int| 0 <= q < (a + b).len() && (a + b)[q] == p;
            if q < a.len() {
                assert(a[q] == p);
            } else {
                assert(b[q - a.len()] == p);
            }
        }
        if a.contains(p) {
            let q = choose|q: int| 0 <= q < a.len() && a[q] == p;
            assert((a + b)[q] == p);
        }
        if b.contains(p) {
            let q = choose|q: int| 0 <= q < b.len() && b[q] == p;
            assert((a + b)[a.len() + q] == p);
        }
    }
    assert(painted(painted(data, a), b) =~= painted(data, a + b));
}

/// The crack segments `(x0, y0, x1, y1)` drawn for each damage stage (0..=3);
/// later stages have more cracks.
pub open spec fn crack_segments(stage: int) -> Seq<(int, int, int, int)> {
    if stage == 0 {
        seq![(3, 2, 7, 9), (10, 5, 13, 12)]
    } else if stage == 1 {
        seq![(2, 1, 8, 10), (10, 4, 14, 13), (5, 7, 9, 15)]
    } else if stage == 2 {
        seq![(1, 2, 7, 11), (9, 3, 14, 12), (4, 6, 10, 15), (6, 0, 3, 8)]
    } else {
        seq![(1, 1, 6, 10), (8, 2, 14, 11), (3, 5, 9, 15), (11, 0, 7, 8), (0, 8, 5, 14), (12, 6, 15, 13)]
    }
}

/// All pixels the segments visit, segment by segment.
pub open spec fn segments_points(segs: Seq<(int, int, int, int)>) -> Seq<(int, int)>
    decreases segs.len(),
{
    if segs.len() == 0 {
        Seq::empty()
    } else {
        segments_points(segs.drop_last()) + line_points(segs.last().0, segs.last().1, segs.last().2, segs.last().3)
    }
}

/// Draw every segment of `segs`, in order, onto `data`.
fn draw_segments(data: &mut Vec<u8>, segs: &Vec<(i32, i32, i32, i32)>)
    requires
        old(data)@.len() == 1024,
        forall|k: int| 0 <= k < segs@.len() ==> {
            let s = #[trigger] segs@[k];
            &&& 0 <= s.0 < 16 && 0 <= s.1 < 16 && 0 <= s.2 < 16 && 0 <= s.3 < 16
        },
    ensures
        final(data)@ == painted(old(data)@, segments_points(
            segs@.map_values(|s: (i32, i32, i32, i32)| (s.0 as int, s.1 as int, s.2 as int, s.3 as int)),
        )),
{
    let ghost conv = |s: (i32, i32, i32, i32)| (s.0 as int, s.1 as int, s.2 as int, s.3 as int);
    let n = segs.len();
    let mut k: usize = 0;
    proof {
        assert(segs@.map_values(conv).subrange(0, 0) =~= Seq::<(int, int, int, int)>::empty());
        assert(painted(old(data)@, Seq::<(int, int)>::empty()) =~= old(data)@);
    }
    while k < n
        invariant
            n == segs@.len(),
            0 <= k <= n,
            data@.len() == 1024,
            conv == (|s: (i32, i32, i32, i32)| (s.0 as int, s.1 as int, s.2 as int, s.3 as int)),
            forall|q: int| 0 <= q < segs@.len() ==> {
                let s = #[trigger] segs@[q];
                &&& 0 <= s.0 < 16 && 0 <= s.1 < 16 && 0 <= s.2 < 16 && 0 <= s.3 < 16
            },
            data@ == painted(old(data)@, segments_points(segs@.map_values(conv).subrange(0, k as int))),
        decreases n - k,
    {
        let s = segs[k];
        let ghost before = data@;
        draw_line(data, s.0, s.1, s.2, s.3);
        proof {
            let pre = segs@.map_values(conv).subrange(0, k as int);
            let next = segs@.map_values(conv).subrange(0, k as int + 1);
            assert(next.drop_last() =~= pre);
            assert(next.last() == conv(s));
            lemma_painted_twice(old(data)@, segments_points(pre), line_points(s.0 as int, s.1 as int, s.2 as int, s.3 as int));
        }
        k = k + 1;
    }
    proof {
        assert(segs@.map_values(conv).subrange(0, n as int) =~= segs@.map_values(conv));
    }
}

/// The RGBA pixels of the 16x16 crack texture for a damage stage (stages
/// above 3 look like stage 3): transparent, with the stage's cracks painted
/// semi-transparent black.
pub fn crack_image_data(stage: usize) -> (data: Vec<u8>)
    ensures
        data@ == painted(Seq::new(1024, |k: int| 0u8), segments_points(crack_segments(if stage < 3 { stage as int } else { 3 }))),
{
    let mut data: Vec<u8> = Vec::new();
    let mut k: usize = 0;
    while k < 1024
        invariant
            k <= 1024,
            data@.len() == k,
            forall|q: int| 0 <= q < k ==> #[trigger] data@[q] == 0u8,
        decreases 1024 - k,
    {
        data.push(0);
        k = k + 1;
    }
    proof {
        assert(data@ =~= Seq::new(1024, |k: int| 0u8));
    }
    let st = if stage < 3 { stage } else { 3 };
    let mut segs: Vec<(i32, i32, i32, i32)> = Vec::new();
    if st == 0 {
        segs.push((3, 2, 7, 9));
        segs.push((10, 5, 13, 12));
    } else if st == 1 {
        segs.push((2, 1, 8, 10));
        segs.push((10, 4, 14, 13));
        segs.push((5, 7, 9, 15));
    } else if st == 2 {
        segs.push((1, 2, 7, 11));
        segs.push((9, 3, 14, 12));
        segs.push((4, 6, 10, 15));
        segs.push((6, 0, 3, 8));
    } else {
        segs.push((1, 1, 6, 10));
        segs.push((8, 2, 14, 11));
        segs.push((3, 5, 9, 15));
        segs.push((11, 0, 7, 8));
        segs.push((0, 8, 5, 14));
        segs.push((12, 6, 15, 13));
    }
    proof {
        let conv = |s: (i32, i32, i32, i32)| (s.0 as int, s.1 as int, s.2 as int, s.3 as int);
        assert(segs@.map_values(conv) =~= crack_segments(st as int));
    }
    draw_segments(&mut data, &segs);
    data
}
} // verus!
