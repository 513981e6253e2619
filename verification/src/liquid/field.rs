use vstd::prelude::*;

use crate::liquid::data::LiquidId;

use vstd::arithmetic::div_mod::lemma_fundamental_div_mod_converse;

verus! {

/// Byte offset of channel `c` of pixel `(x, y)` in a row-major RGBA image of width `w`.
pub open spec fn byte_at(w: int, x: int, y: int, c: int) -> int {
    (y * w + x) * 4 + c
}

/// Pixel column, pixel row and channel of byte `k` of an RGBA image of width `w`.
pub open spec fn pixel_parts(k: int, w: int) -> (int, int, int) {
    ((k / 4) % w, (k / 4) / w, k % 4)
}

/// First index of the blur window around `x` (clipped at 0).
pub open spec fn window_lo(x: int, r: int) -> int {
    if x >= r { x - r } else { 0 }
}

/// One past the last index of the blur window around `x` (clipped at `n`).
pub open spec fn window_hi(x: int, r: int, n: int) -> int {
    if x + r + 1 < n { x + r + 1 } else { n }
}

/// Sum of channel `c` over pixels `lo..hi` of row `y`.
pub open spec fn row_sum(p: Seq<u8>, w: int, y: int, c: int, lo: int, hi: int) -> int
    decreases hi - lo,
{
    if hi <= lo { 0 } else { row_sum(p, w, y, c, lo, hi - 1) + p[byte_at(w, hi - 1, y, c)] }
}

/// Sum of channel `c` over pixels `lo..hi` of column `x`.
pub open spec fn col_sum(p: Seq<u8>, w: int, x: int, c: int, lo: int, hi: int) -> int
    decreases hi - lo,
{
    if hi <= lo { 0 } else { col_sum(p, w, x, c, lo, hi - 1) + p[byte_at(w, x, hi - 1, c)] }
}

/// The horizontal pass: each channel of each pixel becomes the (rounded down)
/// mean of that channel over the pixels within `r` of it in its row. Bytes
/// past the image are 0.
pub open spec fn horizontal_blur(p: Seq<u8>, w: int, h: int, r: int) -> Seq<u8> {
    Seq::new(p.len(), |k: int| if k < w * h * 4 {
        let (x, y, c) = pixel_parts(k, w);
        let lo = window_lo(x, r);
        let hi = window_hi(x, r, w);
        (row_sum(p, w, y, c, lo, hi) / (hi - lo)) as u8
    } else {
        0u8
    })
}

/// The separable box blur: the horizontal pass, then the same mean over the
/// pixels within `r` in each column. Bytes past the image are unchanged; a
/// radius of 0 or an empty image leaves everything unchanged.
pub open spec fn box_blur(p: Seq<u8>, w: int, h: int, r: int) -> Seq<u8> {
    if r == 0 || w == 0 || h == 0 {
        p
    } else {
        let t = horizontal_blur(p, w, h, r);
        Seq::new(p.len(), |k: int| if k < w * h * 4 {
            let (x, y, c) = pixel_parts(k, w);
            let lo = window_lo(y, r);
            let hi = window_hi(y, r, h);
            (col_sum(t, w, x, c, lo, hi) / (hi - lo)) as u8
        } else {
            p[k]
        })
    }
}

proof fn lemma_byte_at(w: int, h: int, x: int, y: int, c: int)
    requires
        0 <= x < w,
        0 <= y < h,
        0 <= c < 4,
    ensures
        0 <= byte_at(w, x, y, c) < w * h * 4,
        pixel_parts(byte_at(w, x, y, c), w) == (x, y, c),
        byte_at(w, x, y, c) == byte_at(w, x, y, 0) + c,
{
    assert(0 <= y * w + x < w * h) by (nonlinear_arith)
        requires 0 <= x < w, 0 <= y < h;
    lemma_fundamental_div_mod_converse(byte_at(w, x, y, c), 4, y * w + x, c);
    lemma_fundamental_div_mod_converse(y * w + x, w, y, x);
}

proof fn lemma_row_sum_bound(p: Seq<u8>, w: int, y: int, c: int, lo: int, hi: int)
    requires
        lo <= hi,
    ensures
        0 <= row_sum(p, w, y, c, lo, hi) <= 255 * (hi - lo),
    decreases hi - lo,
{
    if hi > lo {
        lemma_row_sum_bound(p, w, y, c, lo, hi - 1);
    }
}

proof fn lemma_col_sum_bound(p: Seq<u8>, w: int, x: int, c: int, lo: int, hi: int)
    requires
        lo <= hi,
    ensures
        0 <= col_sum(p, w, x, c, lo, hi) <= 255 * (hi - lo),
    decreases hi - lo,
{
    if hi > lo {
        lemma_col_sum_bound(p, w, x, c, lo, hi - 1);
    }
}

proof fn lemma_mean_fits(sum: int, count: int)
    requires
        count > 0,
        0 <= sum <= 255 * count,
    ensures
        0 <= sum / count <= 255,
{
    assert(0 <= sum / count <= 255) by (nonlinear_arith)
        requires count > 0, 0 <= sum <= 255 * count;
}

/// Separable box blur on an RGBA8 pixel buffer of `width` x `height` pixels;
/// radius 1 is a 3x3 kernel.
pub fn blur_liquid_field(pixels: &mut Vec<u8>, width: u32, height: u32, radius: u32)
    requires
        old(pixels)@.len() >= width * height * 4,
        255 * width <= u32::MAX,
        255 * height <= u32::MAX,
    ensures
        final(pixels)@ == box_blur(old(pixels)@, width as int, height as int, radius as int),
{
    if radius == 0 || width == 0 || height == 0 {
        return;
    }
    let w = width as usize;
    let h = height as usize;
    let r = radius as usize;
    let ghost p0 = pixels@;
    let ghost wi = w as int;
    let ghost hi_ = h as int;
    let ghost ri = r as int;
    proof {
        assert(w * h * 4 <= pixels@.len());
    }
    let n = pixels.len();
    let mut temp: Vec<u8> = Vec::new();
    let mut k: usize = 0;
    while k < n
        invariant
            k <= n,
            temp@.len() == k,
            forall|q: int| 0 <= q < k ==> #[trigger] temp@[q] == 0u8,
        decreases n - k,
    {
        temp.push(0);
        k = k + 1;
    }

    // Horizontal pass: pixels -> temp.
    let ghost target = horizontal_blur(p0, wi, hi_, ri);
    let mut y: usize = 0;
    while y < h
        invariant
            pixels@ == p0,
            n == p0.len(),
            w * h * 4 <= n,
            wi == w, hi_ == h, ri == r,
            w > 0, h > 0, r > 0,
            255 * w <= u32::MAX,
            target == horizontal_blur(p0, wi, hi_, ri),
            temp@.len() == n,
            0 <= y <= h,
            forall|q: int| 0 <= q < n ==> #[trigger] temp@[q] == if q < y * w * 4 { target[q] } else { 0u8 },
        decreases h - y,
    {
        let mut x: usize = 0;
        while x < w
            invariant
                pixels@ == p0,
                n == p0.len(),
                w * h * 4 <= n,
                wi == w, hi_ == h, ri == r,
                w > 0, h > 0, r > 0,
                255 * w <= u32::MAX,
                target == horizontal_blur(p0, wi, hi_, ri),
                temp@.len() == n,
                0 <= y < h,
                0 <= x <= w,
                forall|q: int| 0 <= q < n ==> #[trigger] temp@[q] == if q < (y * w + x) * 4 { target[q] } else { 0u8 },
            decreases w - x,
        {
            let x_lo = if x >= r { x - r } else { 0 };
            let x_hi = if w - x - 1 > r { x + r + 1 } else { w };
            let mut s0: u32 = 0;
            let mut s1: u32 = 0;
            let mut s2: u32 = 0;
            let mut s3: u32 = 0;
            let mut sx = x_lo;
            proof {
                assert(y * w + x < w * h) by (nonlinear_arith)
                    requires x < w, y < h;
            }
            while sx < x_hi
                invariant
                    pixels@ == p0,
                    n == p0.len(),
                    w * h * 4 <= n,
                    255 * w <= u32::MAX,
                    0 <= y < h,
                    x_lo <= sx <= x_hi <= w,
                    s0 == row_sum(p0, w as int, y as int, 0, x_lo as int, sx as int),
                    s1 == row_sum(p0, w as int, y as int, 1, x_lo as int, sx as int),
                    s2 == row_sum(p0, w as int, y as int, 2, x_lo as int, sx as int),
                    s3 == row_sum(p0, w as int, y as int, 3, x_lo as int, sx as int),
                decreases x_hi - sx,
            {
                proof {
                    lemma_byte_at(w as int, h as int, sx as int, y as int, 0);
                    lemma_byte_at(w as int, h as int, sx as int, y as int, 1);
                    lemma_byte_at(w as int, h as int, sx as int, y as int, 2);
                    lemma_byte_at(w as int, h as int, sx as int, y as int, 3);
                    lemma_row_sum_bound(p0, w as int, y as int, 0, x_lo as int, sx as int);
                    lemma_row_sum_bound(p0, w as int, y as int, 1, x_lo as int, sx as int);
                    lemma_row_sum_bound(p0, w as int, y as int, 2, x_lo as int, sx as int);
                    lemma_row_sum_bound(p0, w as int, y as int, 3, x_lo as int, sx as int);
                    assert(255 * (sx - x_lo) + 255 <= 255 * w) by (nonlinear_arith)
                        requires x_lo <= sx < x_hi <= w;
                }
                let si = (y * w + sx) * 4;
                s0 = s0 + pixels[si] as u32;
                s1 = s1 + pixels[si + 1] as u32;
                s2 = s2 + pixels[si + 2] as u32;
                s3 = s3 + pixels[si + 3] as u32;
                sx = sx + 1;
            }
            let count = (x_hi - x_lo) as u32;
            proof {
                lemma_row_sum_bound(p0, w as int, y as int, 0, x_lo as int, x_hi as int);
                lemma_row_sum_bound(p0, w as int, y as int, 1, x_lo as int, x_hi as int);
                lemma_row_sum_bound(p0, w as int, y as int, 2, x_lo as int, x_hi as int);
                lemma_row_sum_bound(p0, w as int, y as int, 3, x_lo as int, x_hi as int);
                lemma_mean_fits(s0 as int, count as int);
                lemma_mean_fits(s1 as int, count as int);
                lemma_mean_fits(s2 as int, count as int);
                lemma_mean_fits(s3 as int, count as int);
                lemma_byte_at(w as int, h as int, x as int, y as int, 3);
            }
            let di = (y * w + x) * 4;
            let ghost before = temp@;
            temp.set(di, (s0 / count) as u8);
            temp.set(di + 1, (s1 / count) as u8);
            temp.set(di + 2, (s2 / count) as u8);
            temp.set(di + 3, (s3 / count) as u8);
            proof {
                assert forall|q: int| 0 <= q < n implies #[trigger] temp@[q]
                    == if q < (y * w + x + 1) * 4 { target[q] } else { 0u8 } by {
                    if di <= q < di + 4 {
                        let c = q - di;
                        lemma_byte_at(w as int, h as int, x as int, y as int, c);
                        assert(window_lo(x as int, r as int) == x_lo);
                        assert(window_hi(x as int, r as int, w as int) == x_hi);
                    } else {
                        assert(temp@[q] == before[q]);
                    }
                }
            }
            x = x + 1;
        }
        proof {
            assert((y * w + w) * 4 == (y + 1) * w * 4) by (nonlinear_arith);
        }
        y = y + 1;
    }

    // Vertical pass: temp -> pixels.
    let ghost result = box_blur(p0, wi, hi_, ri);
    proof {
        assert(h * w * 4 == w * h * 4) by (nonlinear_arith);
        assert(temp@ == target);
    }
    let mut y: usize = 0;
    while y < h
        invariant
            temp@ == target,
            n == p0.len(),
            pixels@.len() == n,
            w * h * 4 <= n,
            wi == w, hi_ == h, ri == r,
            w > 0, h > 0, r > 0,
            255 * h <= u32::MAX,
            target == horizontal_blur(p0, wi, hi_, ri),
            result == box_blur(p0, wi, hi_, ri),
            0 <= y <= h,
            forall|q: int| 0 <= q < n ==> #[trigger] pixels@[q] == if q < y * w * 4 { result[q] } else { p0[q] },
        decreases h - y,
    {
        let mut x: usize = 0;
        while x < w
            invariant
                temp@ == target,
                n == p0.len(),
                pixels@.len() == n,
                w * h * 4 <= n,
                wi == w, hi_ == h, ri == r,
                w > 0, h > 0, r > 0,
                255 * h <= u32::MAX,
                target == horizontal_blur(p0, wi, hi_, ri),
                result == box_blur(p0, wi, hi_, ri),
                0 <= y < h,
                0 <= x <= w,
                forall|q: int| 0 <= q < n ==> #[trigger] pixels@[q] == if q < (y * w + x) * 4 { result[q] } else { p0[q] },
            decreases w - x,
        {
            let y_lo = if y >= r { y - r } else { 0 };
            let y_hi = if h - y - 1 > r { y + r + 1 } else { h };
            let mut s0: u32 = 0;
            let mut s1: u32 = 0;
            let mut s2: u32 = 0;
            let mut s3: u32 = 0;
            let mut sy = y_lo;
            while sy < y_hi
                invariant
                    temp@ == target,
                    target.len() == n,
                    n == p0.len(),
                    w * h * 4 <= n,
                    255 * h <= u32::MAX,
                    0 <= x < w,
                    y_lo <= sy <= y_hi <= h,
                    s0 == col_sum(target, w as int, x as int, 0, y_lo as int, sy as int),
                    s1 == col_sum(target, w as int, x as int, 1, y_lo as int, sy as int),
                    s2 == col_sum(target, w as int, x as int, 2, y_lo as int, sy as int),
                    s3 == col_sum(target, w as int, x as int, 3, y_lo as int, sy as int),
                decreases y_hi - sy,
            {
                proof {
                    lemma_byte_at(w as int, h as int, x as int, sy as int, 0);
                    lemma_byte_at(w as int, h as int, x as int, sy as int, 1);
                    lemma_byte_at(w as int, h as int, x as int, sy as int, 2);
                    lemma_byte_at(w as int, h as int, x as int, sy as int, 3);
                    lemma_col_sum_bound(target, w as int, x as int, 0, y_lo as int, sy as int);
                    lemma_col_sum_bound(target, w as int, x as int, 1, y_lo as int, sy as int);
                    lemma_col_sum_bound(target, w as int, x as int, 2, y_lo as int, sy as int);
                    lemma_col_sum_bound(target, w as int, x as int, 3, y_lo as int, sy as int);
                    assert(255 * (sy - y_lo) + 255 <= 255 * h) by (nonlinear_arith)
                        requires y_lo <= sy < y_hi <= h;
                }
                let si = (sy * w + x) * 4;
                s0 = s0 + temp[si] as u32;
                s1 = s1 + temp[si + 1] as u32;
                s2 = s2 + temp[si + 2] as u32;
                s3 = s3 + temp[si + 3] as u32;
                sy = sy + 1;
            }
            let count = (y_hi - y_lo) as u32;
            proof {
                lemma_col_sum_bound(target, w as int, x as int, 0, y_lo as int, y_hi as int);
                lemma_col_sum_bound(target, w as int, x as int, 1, y_lo as int, y_hi as int);
                lemma_col_sum_bound(target, w as int, x as int, 2, y_lo as int, y_hi as int);
                lemma_col_sum_bound(target, w as int, x as int, 3, y_lo as int, y_hi as int);
                lemma_mean_fits(s0 as int, count as int);
                lemma_mean_fits(s1 as int, count as int);
                lemma_mean_fits(s2 as int, count as int);
                lemma_mean_fits(s3 as int, count as int);
                lemma_byte_at(w as int, h as int, x as int, y as int, 3);
            }
            let di = (y * w + x) * 4;
            let ghost before = pixels@;
            pixels.set(di, (s0 / count) as u8);
            pixels.set(di + 1, (s1 / count) as u8);
            pixels.set(di + 2, (s2 / count) as u8);
            pixels.set(di + 3, (s3 / count) as u8);
            proof {
                assert forall|q: int| 0 <= q < n implies #[trigger] pixels@[q]
                    == if q < (y * w + x + 1) * 4 { result[q] } else { p0[q] } by {
                    if di <= q < di + 4 {
                        let c = q - di;
                        lemma_byte_at(w as int, h as int, x as int, y as int, c);
                        assert(window_lo(y as int, r as int) == y_lo);
                        assert(window_hi(y as int, r as int, h as int) == y_hi);
                    } else {
                        assert(pixels@[q] == before[q]);
                    }
                }
            }
            x = x + 1;
        }
        proof {
            assert((y * w + w) * 4 == (y + 1) * w * 4) by (nonlinear_arith);
        }
        y = y + 1;
    }
    proof {
        assert(h * w * 4 == w * h * 4) by (nonlinear_arith);
        assert(pixels@ =~= result);
    }
}


/// The RGBA channels of a field pixel for a liquid of type `t` at level
/// `level` (0..=255): water (1) in red, lava (2) in green, oil (3) in blue,
/// any other type as water; alpha is the largest of the three.
pub open spec fn liquid_channels(t: LiquidId, level: u8) -> Seq<u8> {
    if t.0 == 2 {
        seq![0u8, level, 0u8, level]
    } else if t.0 == 3 {
        seq![0u8, 0u8, level, level]
    } else {
        seq![level, 0u8, 0u8, level]
    }
}

/// The field image for `samples`: `samples` holds one entry per tile, row by
/// row from the bottom row of the visible area (`None` where the tile holds
/// no liquid); the image holds one RGBA pixel per tile, row by row from the
/// top. Bytes past the image are 0.
pub open spec fn field_image(samples: Seq<Option<(LiquidId, u8)>>, w: int, h: int, len: int) -> Seq<u8> {
    Seq::new(len as nat, |k: int| if k < w * h * 4 {
        let j = k / 4;
        let sample = samples[(h - 1 - j / w) * w + j % w];
        match sample {
            Some((t, level)) => liquid_channels(t, level)[k % 4],
            None => 0u8,
        }
    } else {
        0u8
    })
}

/// The visible tile rectangle of the liquid field: `x`, `y` of its
/// bottom-left tile and its size in tiles.
#[derive(Clone, Copy, Debug, PartialEq, Eq, Structural)]
pub struct FieldRect {
    pub min_tx: i32,
    pub min_ty: i32,
    pub width: u32,
    pub height: u32,
}

/// Padding (in tiles) added around the visible area.
pub const FIELD_PADDING: i32 = 4;

/// `v / 2` rounded towards zero, as integer division does.
pub open spec fn half_toward_zero(v: int) -> int {
    if v >= 0 { v / 2 } else { -((-v) / 2) }
}

/// The field rectangle around camera tile `(cam_tx, cam_ty)` for a viewport
/// of `vp_w` x `vp_h` tiles: half the viewport plus the padding on each side,
/// clipped vertically to the world's `height_tiles` rows; at least 1x1.
pub open spec fn field_rect_of(cam_tx: int, cam_ty: int, vp_w: int, vp_h: int, height_tiles: int) -> (int, int, int, int) {
    let half_w = half_toward_zero(vp_w) + FIELD_PADDING;
    let half_h = half_toward_zero(vp_h) + FIELD_PADDING;
    let min_tx = cam_tx - half_w;
    let min_ty = if cam_ty - half_h > 0 { cam_ty - half_h } else { 0 };
    let max_tx = cam_tx + half_w;
    let max_ty = if cam_ty + half_h < height_tiles - 1 { cam_ty + half_h } else { height_tiles - 1 };
    let w = if max_tx - min_tx + 1 > 1 { max_tx - min_tx + 1 } else { 1 };
    let h = if max_ty - min_ty + 1 > 1 { max_ty - min_ty + 1 } else { 1 };
    (min_tx, min_ty, w, h)
}

fn half_padded(v: i32) -> (h: i64)
    ensures
        h == half_toward_zero(v as int) + FIELD_PADDING,
{
    let v64 = v as i64;
    let half: i64 = if v64 >= 0 { v64 / 2 } else { -((-v64) / 2) };
    half + FIELD_PADDING as i64
}

/// The visible rectangle of the liquid field (see `field_rect_of`).
pub fn field_rect(cam_tx: i32, cam_ty: i32, vp_w: i32, vp_h: i32, height_tiles: i32) -> (r: FieldRect)
    requires
        ({
            let half_w = half_toward_zero(vp_w as int) + FIELD_PADDING;
            let half_h = half_toward_zero(vp_h as int) + FIELD_PADDING;
            &&& i32::MIN <= cam_tx - half_w <= i32::MAX && i32::MIN <= cam_tx + half_w <= i32::MAX
            &&& i32::MIN <= cam_ty - half_h <= i32::MAX && i32::MIN <= cam_ty + half_h <= i32::MAX
            &&& i32::MIN < height_tiles
            &&& -i32::MAX < 2 * half_w < i32::MAX
            &&& -i32::MAX < 2 * half_h < i32::MAX
        }),
    ensures
        ({
            let (x, y, w, h) = field_rect_of(cam_tx as int, cam_ty as int, vp_w as int, vp_h as int, height_tiles as int);
            r.min_tx == x && r.min_ty == y && r.width == w && r.height == h
        }),
{
    let half_w = half_padded(vp_w);
    let half_h = half_padded(vp_h);
    let cx = cam_tx as i64;
    let cy = cam_ty as i64;
    let min_tx: i64 = cx - half_w;
    let min_ty: i64 = if cy - half_h > 0 { cy - half_h } else { 0 };
    let max_tx: i64 = cx + half_w;
    let top: i64 = height_tiles as i64 - 1;
    let max_ty: i64 = if cy + half_h < top { cy + half_h } else { top };
    let w: i64 = if max_tx - min_tx + 1 > 1 { max_tx - min_tx + 1 } else { 1 };
    let h: i64 = if max_ty - min_ty + 1 > 1 { max_ty - min_ty + 1 } else { 1 };
    FieldRect { min_tx: min_tx as i32, min_ty: min_ty as i32, width: w as u32, height: h as u32 }
}

/// The RGBA bytes of one field pixel (see `liquid_channels`).
pub fn liquid_pixel(t: LiquidId, level: u8) -> (p: [u8; 4])
    ensures
        p@ == liquid_channels(t, level),
{
    let p: [u8; 4] = if t.0 == 2 {
        [0u8, level, 0u8, level]
    } else if t.0 == 3 {
        [0u8, 0u8, level, level]
    } else {
        [level, 0u8, 0u8, level]
    };
    proof {
        assert(p@ =~= liquid_channels(t, level));
    }
    p
}

/// Clear the field's pixel buffer and paint the liquid samples into it (see
/// `field_image`).
pub fn fill_liquid_field(pixels: &mut Vec<u8>, width: u32, height: u32, samples: &Vec<Option<(LiquidId, u8)>>)
    requires
        old(pixels)@.len() >= width * height * 4,
        samples@.len() == width * height,
    ensures
        final(pixels)@ == field_image(samples@, width as int, height as int, old(pixels)@.len() as int),
{
    let n = pixels.len();
    let ghost len = n as int;
    let mut k: usize = 0;
    while k < n
        invariant
            k <= n,
            pixels@.len() == n,
            forall|q: int| 0 <= q < k ==> #[trigger] pixels@[q] == 0u8,
        decreases n - k,
    {
        pixels.set(k, 0);
        k = k + 1;
    }
    let w = width as usize;
    let h = height as usize;
    let ghost img = field_image(samples@, w as int, h as int, len);
    let mut row: usize = 0;
    while row < h
        invariant
            pixels@.len() == n,
            n == len,
            w * h * 4 <= n,
            samples@.len() == w * h,
            img == field_image(samples@, w as int, h as int, len),
            0 <= row <= h,
            forall|q: int| 0 <= q < n ==> #[trigger] pixels@[q] == if q < row * w * 4 { img[q] } else { 0u8 },
        decreases h - row,
    {
        let mut x: usize = 0;
        while x < w
            invariant
                pixels@.len() == n,
                n == len,
                w * h * 4 <= n,
                samples@.len() == w * h,
                img == field_image(samples@, w as int, h as int, len),
                0 <= row < h,
                0 <= x <= w,
                forall|q: int| 0 <= q < n ==> #[trigger] pixels@[q] == if q < (row * w + x) * 4 { img[q] } else { 0u8 },
            decreases w - x,
        {
            let src_row = h - 1 - row;
            proof {
                assert(src_row * w + x < w * h) by (nonlinear_arith)
                    requires src_row < h, x < w;
                assert(row * w + x < w * h) by (nonlinear_arith)
                    requires row < h, x < w;
                lemma_byte_at(w as int, h as int, x as int, row as int, 3);
            }
            let di = (row * w + x) * 4;
            let ghost before = pixels@;
            match samples[src_row * w + x] {
                Some((t, level)) => {
                    let p = liquid_pixel(t, level);
                    pixels.set(di, p[0]);
                    pixels.set(di + 1, p[1]);
                    pixels.set(di + 2, p[2]);
                    pixels.set(di + 3, p[3]);
                },
                None => {},
            }
            proof {
                assert forall|q: int| 0 <= q < n implies #[trigger] pixels@[q]
                    == if q < (row * w + x + 1) * 4 { img[q] } else { 0u8 } by {
                    if di <= q < di + 4 {
                        let c = q - di;
                        lemma_byte_at(w as int, h as int, x as int, row as int, c);
                        lemma_fundamental_div_mod_converse(q, 4, row * w + x, c);
                        lemma_fundamental_div_mod_converse(row * w + x, w as int, row as int, x as int);
                    } else {
                        assert(pixels@[q] == before[q]);
                    }
                }
            }
            x = x + 1;
        }
        proof {
            assert((row * w + w) * 4 == (row + 1) * w * 4) by (nonlinear_arith);
        }
        row = row + 1;
    }
    proof {
        assert(h * w * 4 == w * h * 4) by (nonlinear_arith);
        assert(pixels@ =~= img);
    }
}

} // verus!
