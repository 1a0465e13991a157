//! Rectangular pixel filters (mosaic and blur) over an RGBA8 buffer.
//!
//! Both filters average colour weighted by alpha, so fully transparent
//! pixels (gaps between outputs on the desktop) neither change nor darken
//! their neighbours. The caller converts the mark's floating-point bounds
//! and stroke width into a clamped pixel region and an integer strength.

use vstd::prelude::*;
use vstd::arithmetic::div_mod::{lemma_fundamental_div_mod, lemma_fundamental_div_mod_converse};
use crate::annotation::ShapeKind;

verus! {

/// Byte `c` of pixel `(x, y)` in a buffer `w` pixels wide.
pub open spec fn pixel_byte(s: Seq<u8>, w: int, x: int, y: int, c: int) -> int {
    s[4 * (y * w + x) + c] as int
}

/// What pixel `(x, y)` adds to the running sum of channel `c`: its alpha
/// for `c == 3`, its colour premultiplied by alpha otherwise.
pub open spec fn weight(s: Seq<u8>, w: int, x: int, y: int, c: int) -> int {
    if c == 3 {
        pixel_byte(s, w, x, y, 3)
    } else {
        pixel_byte(s, w, x, y, c) * pixel_byte(s, w, x, y, 3)
    }
}

/// Sum of [`weight`] over columns `x0..x1` of row `y`.
pub open spec fn row_sum(s: Seq<u8>, w: int, y: int, x0: int, x1: int, c: int) -> int
    decreases x1 - x0,
{
    if x1 <= x0 {
        0
    } else {
        row_sum(s, w, y, x0, x1 - 1, c) + weight(s, w, x1 - 1, y, c)
    }
}

/// Sum of [`weight`] over the rectangle `x0..x1` × `y0..y1`.
pub open spec fn rect_sum(s: Seq<u8>, w: int, x0: int, x1: int, y0: int, y1: int, c: int) -> int
    decreases y1 - y0,
{
    if y1 <= y0 {
        0
    } else {
        rect_sum(s, w, x0, x1, y0, y1 - 1, c) + row_sum(s, w, y1 - 1, x0, x1, c)
    }
}

/// Alpha-weighted mean rounded half up: `(total + alpha/2) / alpha`.
pub open spec fn rounded_mean(total: int, alpha: int) -> int {
    (total + alpha / 2) / alpha
}

/// Column of the pixel that byte `k` belongs to.
pub open spec fn col_of(k: int, w: int) -> int {
    (k / 4) % w
}

/// Row of the pixel that byte `k` belongs to.
pub open spec fn row_of(k: int, w: int) -> int {
    (k / 4) / w
}

/// Whether byte `k` lies in a pixel of the region `left..right` ×
/// `top..bottom`.
pub open spec fn in_region(k: int, w: int, left: int, top: int, right: int, bottom: int) -> bool {
    left <= col_of(k, w) < right && top <= row_of(k, w) < bottom
}

/// The averaged value of colour byte `k` over the rectangle `x0..x1` ×
/// `y0..y1`: the rounded alpha-weighted mean when the byte is a colour
/// channel of an opaque-enough pixel and the rectangle carries any alpha;
/// otherwise the byte as it was.
pub open spec fn averaged_byte(s: Seq<u8>, w: int, k: int, x0: int, x1: int, y0: int, y1: int) -> u8 {
    let alpha = rect_sum(s, w, x0, x1, y0, y1, 3);
    if k % 4 < 3 && s[k - k % 4 + 3] != 0 && alpha != 0 {
        rounded_mean(rect_sum(s, w, x0, x1, y0, y1, k % 4), alpha) as u8
    } else {
        s[k]
    }
}

/// Byte `k` after the mosaic: the region is cut into `strength`-sized tiles
/// anchored at its top-left corner (clipped at its right and bottom
/// edges), and every colour byte of a non-transparent pixel becomes its
/// tile's average.
pub open spec fn mosaic_byte(
    s: Seq<u8>,
    w: int,
    left: int,
    top: int,
    right: int,
    bottom: int,
    strength: int,
    k: int,
) -> u8 {
    let x = col_of(k, w);
    let y = row_of(k, w);
    let tx = left + (x - left) / strength * strength;
    let ty = top + (y - top) / strength * strength;
    let ex = if tx + strength < right { tx + strength } else { right };
    let ey = if ty + strength < bottom { ty + strength } else { bottom };
    if in_region(k, w, left, top, right, bottom) {
        averaged_byte(s, w, k, tx, ex, ty, ey)
    } else {
        s[k]
    }
}

/// The whole buffer after the mosaic.
pub open spec fn mosaic_spec(
    s: Seq<u8>,
    w: int,
    left: int,
    top: int,
    right: int,
    bottom: int,
    strength: int,
) -> Seq<u8> {
    Seq::new(s.len(), |k: int| mosaic_byte(s, w, left, top, right, bottom, strength, k))
}

/// Byte `k` after the box blur of the given radius: every colour byte of a
/// non-transparent pixel becomes the average over the
/// `(2·radius+1)`-square window around it, clipped to the region. All
/// windows read the buffer as it was before the blur.
pub open spec fn blur_byte(
    s: Seq<u8>,
    w: int,
    left: int,
    top: int,
    right: int,
    bottom: int,
    radius: int,
    k: int,
) -> u8 {
    let x = col_of(k, w);
    let y = row_of(k, w);
    let x0 = if x - radius > left { x - radius } else { left };
    let y0 = if y - radius > top { y - radius } else { top };
    let x1 = if x + radius + 1 < right { x + radius + 1 } else { right };
    let y1 = if y + radius + 1 < bottom { y + radius + 1 } else { bottom };
    if in_region(k, w, left, top, right, bottom) {
        averaged_byte(s, w, k, x0, x1, y0, y1)
    } else {
        s[k]
    }
}

/// The whole buffer after the blur.
pub open spec fn blur_spec(
    s: Seq<u8>,
    w: int,
    left: int,
    top: int,
    right: int,
    bottom: int,
    radius: int,
) -> Seq<u8> {
    Seq::new(s.len(), |k: int| blur_byte(s, w, left, top, right, bottom, radius, k))
}

proof fn lemma_weight_bounds(s: Seq<u8>, w: int, x: int, y: int, c: int)
    ensures
        0 <= weight(s, w, x, y, c) <= 65025,
        weight(s, w, x, y, 3) <= 255,
        c != 3 ==> weight(s, w, x, y, c) <= 255 * weight(s, w, x, y, 3),
{
    let a = pixel_byte(s, w, x, y, 3);
    let b = pixel_byte(s, w, x, y, c);
    assert(0 <= b * a <= 255 * a <= 65025) by (nonlinear_arith)
        requires 0 <= a <= 255, 0 <= b <= 255;
}

proof fn lemma_row_sum_bounds(s: Seq<u8>, w: int, y: int, x0: int, x1: int, c: int)
    requires
        x0 <= x1,
    ensures
        0 <= row_sum(s, w, y, x0, x1, c) <= 65025 * (x1 - x0),
        row_sum(s, w, y, x0, x1, 3) <= 255 * (x1 - x0),
        c != 3 ==> row_sum(s, w, y, x0, x1, c) <= 255 * row_sum(s, w, y, x0, x1, 3),
    decreases x1 - x0,
{
    if x1 > x0 {
        lemma_row_sum_bounds(s, w, y, x0, x1 - 1, c);
        lemma_row_sum_bounds(s, w, y, x0, x1 - 1, 3);
        lemma_weight_bounds(s, w, x1 - 1, y, c);
    }
}

proof fn lemma_rect_sum_bounds(s: Seq<u8>, w: int, x0: int, x1: int, y0: int, y1: int, c: int)
    requires
        x0 <= x1,
        y0 <= y1,
    ensures
        0 <= rect_sum(s, w, x0, x1, y0, y1, c) <= 65025 * ((x1 - x0) * (y1 - y0)),
        rect_sum(s, w, x0, x1, y0, y1, 3) <= 255 * ((x1 - x0) * (y1 - y0)),
        c != 3 ==> rect_sum(s, w, x0, x1, y0, y1, c) <= 255 * rect_sum(s, w, x0, x1, y0, y1, 3),
    decreases y1 - y0,
{
    if y1 > y0 {
        lemma_rect_sum_bounds(s, w, x0, x1, y0, y1 - 1, c);
        lemma_rect_sum_bounds(s, w, x0, x1, y0, y1 - 1, 3);
        lemma_row_sum_bounds(s, w, y1 - 1, x0, x1, c);
        lemma_row_sum_bounds(s, w, y1 - 1, x0, x1, 3);
        assert((x1 - x0) * (y1 - 1 - y0) + (x1 - x0) == (x1 - x0) * (y1 - y0)) by (nonlinear_arith);
    }
}

/// Dropping the first column of a row span subtracts that column's weight.
proof fn lemma_row_sum_drop_first(s: Seq<u8>, w: int, y: int, x0: int, x1: int, c: int)
    requires
        x0 < x1,
    ensures
        row_sum(s, w, y, x0, x1, c) == weight(s, w, x0, y, c) + row_sum(s, w, y, x0 + 1, x1, c),
    decreases x1 - x0,
{
    if x1 > x0 + 1 {
        lemma_row_sum_drop_first(s, w, y, x0, x1 - 1, c);
    } else {
        assert(row_sum(s, w, y, x0, x1 - 1, c) == 0);
        assert(row_sum(s, w, y, x0 + 1, x1, c) == 0);
    }
}

/// Dropping the first row of a rectangle subtracts that row's span.
proof fn lemma_rect_sum_drop_first(s: Seq<u8>, w: int, x0: int, x1: int, y0: int, y1: int, c: int)
    requires
        y0 < y1,
    ensures
        rect_sum(s, w, x0, x1, y0, y1, c) == row_sum(s, w, y0, x0, x1, c) + rect_sum(s, w, x0, x1, y0 + 1, y1, c),
    decreases y1 - y0,
{
    if y1 > y0 + 1 {
        lemma_rect_sum_drop_first(s, w, x0, x1, y0, y1 - 1, c);
    } else {
        assert(rect_sum(s, w, x0, x1, y0, y1 - 1, c) == 0);
        assert(rect_sum(s, w, x0, x1, y0 + 1, y1, c) == 0);
    }
}

/// The rounded mean of a channel sum never exceeds a byte.
proof fn lemma_rounded_mean_fits(total: int, alpha: int)
    requires
        alpha > 0,
        0 <= total <= 255 * alpha,
    ensures
        0 <= rounded_mean(total, alpha) <= 255,
{
    let n = total + alpha / 2;
    lemma_fundamental_div_mod(n, alpha);
    vstd::arithmetic::div_mod::lemma_mod_pos_bound(n, alpha);
    assert(0 <= n / alpha <= 255) by (nonlinear_arith)
        requires n == alpha * (n / alpha) + n % alpha, 0 <= n % alpha < alpha, 0 <= n < 256 * alpha, alpha > 0;
}

/// Byte `k = 4·(y·w + x) + c` belongs to pixel `(x, y)`, channel `c`.
pub(crate) proof fn lemma_byte_coords(k: int, w: int, x: int, y: int, c: int)
    requires
        k == 4 * (y * w + x) + c,
        0 <= x < w,
        0 <= y,
        0 <= c < 4,
    ensures
        k / 4 == y * w + x,
        k % 4 == c,
        col_of(k, w) == x,
        row_of(k, w) == y,
        k - k % 4 + 3 == 4 * (y * w + x) + 3,
{
    lemma_fundamental_div_mod_converse(k, 4, y * w + x, c);
    lemma_fundamental_div_mod_converse(y * w + x, w, y, x);
}

/// Every byte index splits into its pixel's row, column and channel.
pub(crate) proof fn lemma_byte_split(k: int, w: int)
    requires
        0 <= k,
        w > 0,
    ensures
        k == 4 * (row_of(k, w) * w + col_of(k, w)) + k % 4,
        0 <= k % 4 < 4,
        0 <= col_of(k, w) < w,
        0 <= row_of(k, w),
{
    lemma_fundamental_div_mod(k, 4);
    lemma_fundamental_div_mod(k / 4, w);
    vstd::arithmetic::div_mod::lemma_mod_pos_bound(k, 4);
    vstd::arithmetic::div_mod::lemma_mod_pos_bound(k / 4, w);
    vstd::arithmetic::div_mod::lemma_div_pos_is_pos(k, 4);
    vstd::arithmetic::div_mod::lemma_div_pos_is_pos(k / 4, w);
    assert((k / 4) / w * w == w * ((k / 4) / w)) by (nonlinear_arith);
}

/// The filters' `u64` arithmetic over `pixels` pixels cannot overflow: a
/// pixel adds at most `255 · 255` to a colour sum and `255` to the alpha
/// sum, and a rounded mean adds half the alpha sum to a colour sum. The
/// filters sum over rectangles inside their region, and a blur window can
/// span the whole region, so this is where their sums would overflow.
pub open spec fn sums_fit(pixels: int) -> bool {
    65280 * pixels <= 0xFFFF_FFFF_FFFF_FFFF
}

/// The buffer holds every pixel of rows `0..rows` of a `w`-wide image.
pub open spec fn frame_holds(len: int, w: int, rows: int) -> bool {
    4 * (rows * w) <= len
}

/// A rectangle inside another has no larger area.
proof fn lemma_sub_area(x0: int, x1: int, y0: int, y1: int, l: int, r: int, t: int, b: int)
    requires
        l <= x0 <= x1 <= r,
        t <= y0 <= y1 <= b,
    ensures
        0 <= (x1 - x0) * (y1 - y0) <= (r - l) * (b - t),
{
    assert(0 <= (x1 - x0) * (y1 - y0) <= (r - l) * (b - t)) by (nonlinear_arith)
        requires l <= x0 <= x1 <= r, t <= y0 <= y1 <= b;
}

pub(crate) proof fn lemma_pixel_in_frame(x: int, y: int, w: int, rows: int)
    requires
        0 <= x < w,
        0 <= y < rows,
    ensures
        0 <= y * w + x < rows * w,
        0 <= y * w,
{
    assert(0 <= y * w + x < rows * w) by (nonlinear_arith)
        requires 0 <= x < w, 0 <= y < rows;
    assert(0 <= y * w) by (nonlinear_arith) requires 0 <= y, 0 <= w;
}

proof fn lemma_area_in_frame(x0: int, x1: int, y0: int, y1: int, w: int)
    requires
        0 <= x0 <= x1 <= w,
        0 <= y0 <= y1,
    ensures
        (x1 - x0) * (y1 - y0) <= y1 * w,
        0 <= (x1 - x0) * (y1 - y0),
{
    assert((x1 - x0) * (y1 - y0) <= y1 * w) by (nonlinear_arith)
        requires 0 <= x0 <= x1 <= w, 0 <= y0 <= y1;
    assert(0 <= (x1 - x0) * (y1 - y0)) by (nonlinear_arith)
        requires x0 <= x1, y0 <= y1;
}

/// The four channel sums (premultiplied red, green, blue, then alpha) over
/// the rectangle `x0..x1` × `y0..y1`.
fn rect_sums(rgba: &[u8], w: usize, x0: usize, x1: usize, y0: usize, y1: usize) -> (r: (u64, u64, u64, u64))
    requires
        x0 <= x1 <= w,
        y0 <= y1,
        frame_holds(rgba.len() as int, w as int, y1 as int),
        sums_fit((x1 - x0) * (y1 - y0)),
    ensures
        r.0 == rect_sum(rgba@, w as int, x0 as int, x1 as int, y0 as int, y1 as int, 0),
        r.1 == rect_sum(rgba@, w as int, x0 as int, x1 as int, y0 as int, y1 as int, 1),
        r.2 == rect_sum(rgba@, w as int, x0 as int, x1 as int, y0 as int, y1 as int, 2),
        r.3 == rect_sum(rgba@, w as int, x0 as int, x1 as int, y0 as int, y1 as int, 3),
{
    let ghost s = rgba@;
    let ghost gw = w as int;
    let mut r: u64 = 0;
    let mut g: u64 = 0;
    let mut b: u64 = 0;
    let mut a: u64 = 0;
    let mut y = y0;
    while y < y1
        invariant
            x0 <= x1 <= w,
            y0 <= y <= y1,
            s == rgba@,
            gw == w as int,
            frame_holds(rgba.len() as int, gw, y1 as int),
            sums_fit((x1 - x0) * (y1 - y0)),
            r == rect_sum(s, gw, x0 as int, x1 as int, y0 as int, y as int, 0),
            g == rect_sum(s, gw, x0 as int, x1 as int, y0 as int, y as int, 1),
            b == rect_sum(s, gw, x0 as int, x1 as int, y0 as int, y as int, 2),
            a == rect_sum(s, gw, x0 as int, x1 as int, y0 as int, y as int, 3),
        decreases y1 - y,
    {
        let ghost base = (r as int, g as int, b as int, a as int);
        let mut x = x0;
        while x < x1
            invariant
                x0 <= x <= x1 <= w,
                y0 <= y < y1,
                s == rgba@,
                gw == w as int,
                frame_holds(rgba.len() as int, gw, y1 as int),
                sums_fit((x1 - x0) * (y1 - y0)),
                base.0 == rect_sum(s, gw, x0 as int, x1 as int, y0 as int, y as int, 0),
                base.1 == rect_sum(s, gw, x0 as int, x1 as int, y0 as int, y as int, 1),
                base.2 == rect_sum(s, gw, x0 as int, x1 as int, y0 as int, y as int, 2),
                base.3 == rect_sum(s, gw, x0 as int, x1 as int, y0 as int, y as int, 3),
                r == base.0 + row_sum(s, gw, y as int, x0 as int, x as int, 0),
                g == base.1 + row_sum(s, gw, y as int, x0 as int, x as int, 1),
                b == base.2 + row_sum(s, gw, y as int, x0 as int, x as int, 2),
                a == base.3 + row_sum(s, gw, y as int, x0 as int, x as int, 3),
            decreases x1 - x,
        {
            proof {
                lemma_pixel_in_frame(x as int, y as int, gw, y1 as int);
                lemma_sub_area(x0 as int, x1 as int, y0 as int, y as int + 1,
                    x0 as int, x1 as int, y0 as int, y1 as int);
                let ghost area = (x1 - x0) * (y + 1 - y0);
                assert((x1 - x0) * (y - y0) + (x + 1 - x0) <= area) by (nonlinear_arith)
                    requires x < x1, y0 <= y, x0 <= x, area == (x1 - x0) * (y + 1 - y0);
                lemma_rect_sum_bounds(s, gw, x0 as int, x1 as int, y0 as int, y as int, 0);
                lemma_rect_sum_bounds(s, gw, x0 as int, x1 as int, y0 as int, y as int, 1);
                lemma_rect_sum_bounds(s, gw, x0 as int, x1 as int, y0 as int, y as int, 2);
                lemma_rect_sum_bounds(s, gw, x0 as int, x1 as int, y0 as int, y as int, 3);
                lemma_row_sum_bounds(s, gw, y as int, x0 as int, x as int + 1, 0);
                lemma_row_sum_bounds(s, gw, y as int, x0 as int, x as int + 1, 1);
                lemma_row_sum_bounds(s, gw, y as int, x0 as int, x as int + 1, 2);
                lemma_row_sum_bounds(s, gw, y as int, x0 as int, x as int + 1, 3);
            }
            let at = 4 * (y * w + x);
            let pa = rgba[at + 3] as u64;
            r = r + rgba[at] as u64 * pa;
            g = g + rgba[at + 1] as u64 * pa;
            b = b + rgba[at + 2] as u64 * pa;
            a = a + pa;
            x = x + 1;
        }
        y = y + 1;
    }
    (r, g, b, a)
}

/// Byte `k` lies in a pixel that a row-major scan reaches before pixel
/// `(x, y)`.
pub(crate) open spec fn scanned_before(k: int, w: int, x: int, y: int) -> bool {
    row_of(k, w) < y || (row_of(k, w) == y && col_of(k, w) < x)
}

/// Entry `j` of the tile-sum table: channel `j % 4` summed over tile
/// `j / 4`, tiles numbered row-major with `nx` tiles per row.
spec fn tile_sum_at(
    s: Seq<u8>,
    w: int,
    left: int,
    top: int,
    right: int,
    bottom: int,
    strength: int,
    nx: int,
    j: int,
) -> int {
    let t = j / 4;
    let tx = left + (t % nx) * strength;
    let ty = top + (t / nx) * strength;
    let ex = if tx + strength < right { tx + strength } else { right };
    let ey = if ty + strength < bottom { ty + strength } else { bottom };
    rect_sum(s, w, tx, ex, ty, ey, j % 4)
}

/// Tile `i` of a span of `n` pixels cut into `strength`-sized tiles starts
/// inside the span, and there are at most `n` tiles.
proof fn lemma_tile_start(i: int, n: int, strength: int)
    requires
        n >= 1,
        strength >= 1,
        0 <= i <= (n - 1) / strength,
    ensures
        0 <= i * strength <= n - 1,
        (n - 1) / strength + 1 <= n,
{
    let q = (n - 1) / strength;
    lemma_fundamental_div_mod(n - 1, strength);
    vstd::arithmetic::div_mod::lemma_mod_pos_bound(n - 1, strength);
    assert(0 <= i * strength <= q * strength) by (nonlinear_arith)
        requires 0 <= i <= q, strength >= 1;
    assert(q * strength == strength * q) by (nonlinear_arith);
    assert(q <= q * strength) by (nonlinear_arith) requires q >= 0, strength >= 1;
    vstd::arithmetic::div_mod::lemma_div_pos_is_pos(n - 1, strength);
}

/// The tile index of an offset `d` inside a span of `n` pixels is below the
/// tile count.
proof fn lemma_tile_of(d: int, n: int, strength: int)
    requires
        0 <= d < n,
        strength >= 1,
    ensures
        0 <= d / strength <= (n - 1) / strength,
{
    vstd::arithmetic::div_mod::lemma_div_is_ordered(d, n - 1, strength);
    vstd::arithmetic::div_mod::lemma_div_pos_is_pos(d, strength);
}

/// Mosaic the region `left..right` × `top..bottom` of a `w`-wide RGBA8
/// buffer with square tiles of `strength` pixels.
pub fn mosaic(
    rgba: &mut [u8],
    w: usize,
    left: usize,
    top: usize,
    right: usize,
    bottom: usize,
    strength: usize,
)
    requires
        left < right <= w,
        top < bottom,
        strength >= 1,
        frame_holds(old(rgba).len() as int, w as int, bottom as int),
        sums_fit((right - left) * (bottom - top)),
    ensures
        final(rgba)@ == mosaic_spec(
            old(rgba)@,
            w as int,
            left as int,
            top as int,
            right as int,
            bottom as int,
            strength as int,
        ),
{
    let ghost s = rgba@;
    let ghost gw = w as int;
    let ghost st = strength as int;
    let ghost (gl, gt, gr, gb) = (left as int, top as int, right as int, bottom as int);
    let ghost spec = mosaic_spec(s, gw, gl, gt, gr, gb, st);
    let width = right - left;
    let height = bottom - top;
    let nx = (width - 1) / strength + 1;
    let ny = (height - 1) / strength + 1;
    proof {
        lemma_tile_start(0, width as int, st);
        lemma_tile_start(0, height as int, st);
        assert(nx * ny <= width * height) by (nonlinear_arith)
            requires 1 <= nx <= width, 1 <= ny <= height;
        lemma_area_in_frame(gl, gr, gt, gb, gw);
    }
    // Pass 1: the four channel sums of every tile, before any pixel changes.
    let mut sums: Vec<u64> = Vec::new();
    let mut tyi: usize = 0;
    while tyi < ny
        invariant
            s == rgba@,
            left < right <= w,
            top < bottom,
            strength >= 1,
            st == strength as int, gw == w as int,
            gl == left as int, gt == top as int, gr == right as int, gb == bottom as int,
            width == right - left, height == bottom - top,
            nx as int == (width as int - 1) / st + 1,
            ny as int == (height as int - 1) / st + 1,
            nx * ny <= width * height,
            frame_holds(rgba.len() as int, gw, gb),
                sums_fit((gr - gl) * (gb - gt)),
            tyi <= ny,
            sums.len() == 4 * (tyi * nx),
            forall|j: int| 0 <= j < sums.len() ==> sums@[j] == tile_sum_at(s, gw, gl, gt, gr, gb, st, nx as int, j),
        decreases ny - tyi,
    {
        proof {
            lemma_tile_start(tyi as int, height as int, st);
        }
        let ty = top + tyi * strength;
        let ey = if bottom - ty > strength { ty + strength } else { bottom };
        let mut txi: usize = 0;
        while txi < nx
            invariant
                s == rgba@,
                left < right <= w,
                top < bottom,
                strength >= 1,
                st == strength as int, gw == w as int,
                gl == left as int, gt == top as int, gr == right as int, gb == bottom as int,
                width == right - left, height == bottom - top,
                nx as int == (width as int - 1) / st + 1,
                ny as int == (height as int - 1) / st + 1,
                frame_holds(rgba.len() as int, gw, gb),
                sums_fit((gr - gl) * (gb - gt)),
                tyi < ny,
                ty == top + tyi * strength,
                ty < bottom,
                ey == (if ty + strength < bottom { ty + strength } else { bottom as int }),
                txi <= nx,
                sums.len() == 4 * (tyi * nx + txi),
                forall|j: int| 0 <= j < sums.len() ==> sums@[j] == tile_sum_at(s, gw, gl, gt, gr, gb, st, nx as int, j),
            decreases nx - txi,
        {
            proof {
                lemma_tile_start(txi as int, width as int, st);
            }
            let tx = left + txi * strength;
            let ex = if right - tx > strength { tx + strength } else { right };
            proof {
                assert(frame_holds(rgba.len() as int, gw, ey as int) ) by {
                    assert(ey as int * gw <= gb * gw) by (nonlinear_arith)
                        requires ey <= gb, gw >= 0;
                }
            }
            proof {
                lemma_sub_area(tx as int, ex as int, ty as int, ey as int, gl, gr, gt, gb);
            }
            let (r, g, b, a) = rect_sums(rgba, w, tx, ex, ty, ey);
            let ghost t = tyi as int * nx as int + txi as int;
            proof {
                assert forall|c: int| 0 <= c < 4 implies
                    tile_sum_at(s, gw, gl, gt, gr, gb, st, nx as int, 4 * t + c)
                        == rect_sum(s, gw, tx as int, ex as int, ty as int, ey as int, c) by {
                    lemma_fundamental_div_mod_converse(4 * t + c, 4, t, c);
                    lemma_fundamental_div_mod_converse(t, nx as int, tyi as int, txi as int);
                }
            }
            sums.push(r);
            sums.push(g);
            sums.push(b);
            sums.push(a);
            txi = txi + 1;
        }
        tyi = tyi + 1;
        proof {
            assert(tyi as int * nx == (tyi as int - 1) * nx + nx) by (nonlinear_arith);
        }
    }
    // Pass 2: a row-major scan writes each non-transparent pixel's colour
    // as its tile's mean; alpha bytes are never written.
    let total: usize = rgba.len();
    let mut y = top;
    while y < bottom
        invariant
            rgba@.len() == s.len(),
            s.len() == total,
            left < right <= w,
            top <= y <= bottom,
            strength >= 1,
            st == strength as int, gw == w as int,
            gl == left as int, gt == top as int, gr == right as int, gb == bottom as int,
            width == right - left, height == bottom - top,
            nx as int == (width as int - 1) / st + 1,
            ny as int == (height as int - 1) / st + 1,
            frame_holds(s.len() as int, gw, gb),
                sums_fit((gr - gl) * (gb - gt)),
            spec == mosaic_spec(s, gw, gl, gt, gr, gb, st),
            sums.len() == 4 * (ny * nx),
            forall|j: int| 0 <= j < sums.len() ==> sums@[j] == tile_sum_at(s, gw, gl, gt, gr, gb, st, nx as int, j),
            forall|k: int| 0 <= k < s.len() ==> rgba@[k] == (
                if in_region(k, gw, gl, gt, gr, gb) && scanned_before(k, gw, gl, y as int) { spec[k] } else { s[k] }),
        decreases bottom - y,
    {
        let mut x = left;
        while x < right
            invariant
                rgba@.len() == s.len(),
                s.len() == total,
                left <= x <= right <= w,
                top <= y < bottom,
                strength >= 1,
                st == strength as int, gw == w as int,
                gl == left as int, gt == top as int, gr == right as int, gb == bottom as int,
                width == right - left, height == bottom - top,
                nx as int == (width as int - 1) / st + 1,
                ny as int == (height as int - 1) / st + 1,
                frame_holds(s.len() as int, gw, gb),
                sums_fit((gr - gl) * (gb - gt)),
                spec == mosaic_spec(s, gw, gl, gt, gr, gb, st),
                sums.len() == 4 * (ny * nx),
                forall|j: int| 0 <= j < sums.len() ==> sums@[j] == tile_sum_at(s, gw, gl, gt, gr, gb, st, nx as int, j),
                forall|k: int| 0 <= k < s.len() ==> rgba@[k] == (
                    if in_region(k, gw, gl, gt, gr, gb) && scanned_before(k, gw, x as int, y as int) { spec[k] } else { s[k] }),
            decreases right - x,
        {
            let ghost before = rgba@;
            proof {
                lemma_pixel_in_frame(x as int, y as int, gw, gb);
                lemma_byte_coords(4 * (y * w + x) + 3, gw, x as int, y as int, 3);
            }
            let at = 4 * (y * w + x);
            let alpha = rgba[at + 3];
            assert(alpha == s[at + 3]);
            if alpha != 0 {
                let tyi = (y - top) / strength;
                let txi = (x - left) / strength;
                proof {
                    lemma_tile_of(y - top, height as int, st);
                    lemma_tile_of(x - left, width as int, st);
                    assert(tyi * nx + txi < ny * nx) by (nonlinear_arith)
                        requires tyi < ny, txi < nx;
                    assert(0 <= tyi * nx) by (nonlinear_arith) requires tyi >= 0, nx >= 0;
                }
                let t = tyi * nx + txi;
                let ghost tx = gl + (x - left) / st * st;
                let ghost ty = gt + (y - top) / st * st;
                let ghost ex = if tx + st < gr { tx + st } else { gr };
                let ghost ey = if ty + st < gb { ty + st } else { gb };
                proof {
                    lemma_tile_start(txi as int, width as int, st);
                    lemma_tile_start(tyi as int, height as int, st);
                    assert forall|c: int| 0 <= c < 4 implies
                        tile_sum_at(s, gw, gl, gt, gr, gb, st, nx as int, 4 * t + c)
                            == rect_sum(s, gw, tx, ex, ty, ey, c) by {
                        lemma_fundamental_div_mod_converse(4 * t + c, 4, t as int, c);
                        lemma_fundamental_div_mod_converse(t as int, nx as int, tyi as int, txi as int);
                    }
                    lemma_sub_area(tx, ex, ty, ey, gl, gr, gt, gb);
                    lemma_rect_sum_bounds(s, gw, tx, ex, ty, ey, 0);
                    lemma_rect_sum_bounds(s, gw, tx, ex, ty, ey, 1);
                    lemma_rect_sum_bounds(s, gw, tx, ex, ty, ey, 2);
                    lemma_rect_sum_bounds(s, gw, tx, ex, ty, ey, 3);
                    assert(sums@[4 * t + 0] == rect_sum(s, gw, tx, ex, ty, ey, 0));
                    assert(sums@[4 * t + 1] == rect_sum(s, gw, tx, ex, ty, ey, 1));
                    assert(sums@[4 * t + 2] == rect_sum(s, gw, tx, ex, ty, ey, 2));
                    assert(sums@[4 * t + 3] == rect_sum(s, gw, tx, ex, ty, ey, 3));
                }
                let sa = sums[4 * t + 3];
                if sa != 0 {
                    let half = sa / 2;
                    rgba[at] = ((sums[4 * t] + half) / sa) as u8;
                    rgba[at + 1] = ((sums[4 * t + 1] + half) / sa) as u8;
                    rgba[at + 2] = ((sums[4 * t + 2] + half) / sa) as u8;
                }
            }
            proof {
                assert forall|k: int| 0 <= k < s.len() implies rgba@[k] == (
                    if in_region(k, gw, gl, gt, gr, gb) && scanned_before(k, gw, x as int + 1, y as int) { spec[k] } else { s[k] }) by {
                    lemma_byte_split(k, gw);
                    if at <= k < at + 4 {
                        lemma_byte_coords(k, gw, x as int, y as int, k - at);
                    }
                }
            }
            x = x + 1;
        }
        y = y + 1;
    }
    proof {
        assert forall|k: int| 0 <= k < s.len() implies rgba@[k] == spec[k] by {
            lemma_byte_split(k, gw);
        }
    }
    assert(rgba@ =~= spec);
}

/// Start of the blur window around offset `i`, clipped at 0.
spec fn lo(i: int, radius: int) -> int {
    if i > radius { i - radius } else { 0 }
}

/// End (exclusive) of the blur window around offset `i`, clipped at `n`.
spec fn hi(i: int, radius: int, n: int) -> int {
    if i + radius + 1 < n { i + radius + 1 } else { n }
}

/// Entry `j` of the horizontal pass: channel `j % 4` summed over the
/// clipped window of region row `row_of(j, width)` around region column
/// `col_of(j, width)`.
spec fn hsum_at(s: Seq<u8>, w: int, left: int, top: int, width: int, radius: int, j: int) -> int {
    let col = col_of(j, width);
    row_sum(s, w, top + row_of(j, width), left + lo(col, radius), left + hi(col, radius, width), j % 4)
}

/// Channel `c` summed over the clipped square window around region pixel
/// `(col, r)`.
spec fn window_sum(
    s: Seq<u8>,
    w: int,
    left: int,
    top: int,
    width: int,
    height: int,
    radius: int,
    r: int,
    col: int,
    c: int,
) -> int {
    rect_sum(
        s,
        w,
        left + lo(col, radius),
        left + hi(col, radius, width),
        top + lo(r, radius),
        top + hi(r, radius, height),
        c,
    )
}

/// Entry `j` of the running column sums while region row `r` is written:
/// the window sum of channel `j % 4` for column `j / 4`.
spec fn vsum_at(
    s: Seq<u8>,
    w: int,
    left: int,
    top: int,
    width: int,
    height: int,
    radius: int,
    r: int,
    j: int,
) -> int {
    window_sum(s, w, left, top, width, height, radius, r, j / 4, j % 4)
}

proof fn lemma_vsum_entry(
    s: Seq<u8>,
    w: int,
    left: int,
    top: int,
    width: int,
    height: int,
    radius: int,
    r: int,
    col: int,
)
    requires
        0 <= col,
    ensures
        vsum_at(s, w, left, top, width, height, radius, r, 4 * col) == window_sum(s, w, left, top, width, height, radius, r, col, 0),
        vsum_at(s, w, left, top, width, height, radius, r, 4 * col + 1) == window_sum(s, w, left, top, width, height, radius, r, col, 1),
        vsum_at(s, w, left, top, width, height, radius, r, 4 * col + 2) == window_sum(s, w, left, top, width, height, radius, r, col, 2),
        vsum_at(s, w, left, top, width, height, radius, r, 4 * col + 3) == window_sum(s, w, left, top, width, height, radius, r, col, 3),
{
    lemma_fundamental_div_mod_converse(4 * col, 4, col, 0);
    lemma_fundamental_div_mod_converse(4 * col + 1, 4, col, 1);
    lemma_fundamental_div_mod_converse(4 * col + 2, 4, col, 2);
    lemma_fundamental_div_mod_converse(4 * col + 3, 4, col, 3);
}

proof fn lemma_single_row(s: Seq<u8>, w: int, x0: int, x1: int, y: int, c: int)
    ensures
        rect_sum(s, w, x0, x1, y, y + 1, c) == row_sum(s, w, y, x0, x1, c),
{
    assert(rect_sum(s, w, x0, x1, y, y, c) == 0);
}

/// Horizontal pass of the blur: for every region pixel, the four channel
/// sums over its clipped row window, stored row-major.
fn horizontal_sums(
    rgba: &[u8],
    w: usize,
    left: usize,
    top: usize,
    right: usize,
    bottom: usize,
    radius: usize,
) -> (hsum: Vec<u64>)
    requires
        left < right <= w,
        top < bottom,
        frame_holds(rgba.len() as int, w as int, bottom as int),
        sums_fit((right - left) * (bottom - top)),
    ensures
        hsum.len() == 4 * ((bottom - top) * (right - left)),
        forall|j: int| 0 <= j < hsum.len() ==> hsum@[j] == hsum_at(
            rgba@, w as int, left as int, top as int, (right - left) as int, radius as int, j),
{
    let ghost s = rgba@;
    let ghost gw = w as int;
    let ghost rad = radius as int;
    let width = right - left;
    let height = bottom - top;
    let ghost gwd = width as int;
    proof {
        lemma_area_in_frame(left as int, right as int, top as int, bottom as int, gw);
        assert(height * width == (right - left) * (bottom - top)) by (nonlinear_arith)
            requires height == bottom - top, width == right - left;
        assert(4 * (height * width) <= rgba.len()) by (nonlinear_arith)
            requires 4 * (bottom * w) <= rgba.len(), height * width <= bottom * w;
        assert(width as int <= (right - left) * (bottom - top)) by (nonlinear_arith)
            requires width == right - left, bottom - top >= 1;
    }
    let mut hsum: Vec<u64> = Vec::new();
    let mut r: usize = 0;
    while r < height
        invariant
            s == rgba@,
            left < right <= w,
            top < bottom,
            gw == w as int, rad == radius as int, gwd == width as int,
            width == right - left, height == bottom - top,
            frame_holds(rgba.len() as int, gw, bottom as int),
            sums_fit(width as int),
            r <= height,
            hsum.len() == 4 * (r * width),
            forall|j: int| 0 <= j < hsum.len() ==> hsum@[j] == hsum_at(s, gw, left as int, top as int, gwd, rad, j),
        decreases height - r,
    {
        let y = top + r;
        let first = if radius < width - 1 { radius + 1 } else { width };
        proof {
            assert(frame_holds(rgba.len() as int, gw, y as int + 1)) by {
                assert((y as int + 1) * gw <= bottom as int * gw) by (nonlinear_arith)
                    requires y < bottom, gw >= 0;
            }
            assert(((left + first) - left) * ((y + 1) - y) == first as int) by (nonlinear_arith);
        }
        let (mut s0, mut s1, mut s2, mut s3) = rect_sums(rgba, w, left, left + first, y, y + 1);
        proof {
            lemma_single_row(s, gw, left as int, left + first, y as int, 0);
            lemma_single_row(s, gw, left as int, left + first, y as int, 1);
            lemma_single_row(s, gw, left as int, left + first, y as int, 2);
            lemma_single_row(s, gw, left as int, left + first, y as int, 3);
        }
        let mut col: usize = 0;
        while col < width
            invariant
                s == rgba@,
                left < right <= w,
                top < bottom,
                gw == w as int, rad == radius as int, gwd == width as int,
                width == right - left, height == bottom - top,
                frame_holds(rgba.len() as int, gw, bottom as int),
                sums_fit(width as int),
                r < height,
                y == top + r,
                col <= width,
                hsum.len() == 4 * (r * width + col),
                forall|j: int| 0 <= j < hsum.len() ==> hsum@[j] == hsum_at(s, gw, left as int, top as int, gwd, rad, j),
                s0 == row_sum(s, gw, y as int, left + lo(col as int, rad), left + hi(col as int, rad, gwd), 0),
                s1 == row_sum(s, gw, y as int, left + lo(col as int, rad), left + hi(col as int, rad, gwd), 1),
                s2 == row_sum(s, gw, y as int, left + lo(col as int, rad), left + hi(col as int, rad, gwd), 2),
                s3 == row_sum(s, gw, y as int, left + lo(col as int, rad), left + hi(col as int, rad, gwd), 3),
            decreases width - col,
        {
            let ghost j0 = 4 * (r as int * gwd + col as int);
            let ghost x0 = left + lo(col as int, rad);
            let ghost x1 = left + hi(col as int, rad, gwd);
            proof {
                lemma_byte_coords(j0, gwd, col as int, r as int, 0);
                lemma_byte_coords(j0 + 1, gwd, col as int, r as int, 1);
                lemma_byte_coords(j0 + 2, gwd, col as int, r as int, 2);
                lemma_byte_coords(j0 + 3, gwd, col as int, r as int, 3);
                lemma_row_sum_bounds(s, gw, y as int, x0, x1, 0);
                lemma_row_sum_bounds(s, gw, y as int, x0, x1, 1);
                lemma_row_sum_bounds(s, gw, y as int, x0, x1, 2);
                lemma_row_sum_bounds(s, gw, y as int, x0, x1, 3);
            }
            hsum.push(s0);
            hsum.push(s1);
            hsum.push(s2);
            hsum.push(s3);
            if col >= radius {
                let xo = left + col - radius;
                proof {
                    lemma_pixel_in_frame(xo as int, y as int, gw, bottom as int);
                    lemma_row_sum_drop_first(s, gw, y as int, x0, x1, 0);
                    lemma_row_sum_drop_first(s, gw, y as int, x0, x1, 1);
                    lemma_row_sum_drop_first(s, gw, y as int, x0, x1, 2);
                    lemma_row_sum_drop_first(s, gw, y as int, x0, x1, 3);
                    lemma_weight_bounds(s, gw, xo as int, y as int, 0);
                    lemma_weight_bounds(s, gw, xo as int, y as int, 1);
                    lemma_weight_bounds(s, gw, xo as int, y as int, 2);
                    lemma_row_sum_bounds(s, gw, y as int, x0 + 1, x1, 0);
                    lemma_row_sum_bounds(s, gw, y as int, x0 + 1, x1, 1);
                    lemma_row_sum_bounds(s, gw, y as int, x0 + 1, x1, 2);
                    lemma_row_sum_bounds(s, gw, y as int, x0 + 1, x1, 3);
                }
                let at = 4 * (y * w + xo);
                let pa = rgba[at + 3] as u64;
                s0 = s0 - rgba[at] as u64 * pa;
                s1 = s1 - rgba[at + 1] as u64 * pa;
                s2 = s2 - rgba[at + 2] as u64 * pa;
                s3 = s3 - pa;
            }
            let ghost x0n = if col >= radius { x0 + 1 } else { x0 };
            assert(s0 == row_sum(s, gw, y as int, x0n, x1, 0));
            assert(s3 == row_sum(s, gw, y as int, x0n, x1, 3));
            if radius < width - 1 - col {
                let xi = left + col + radius + 1;
                proof {
                    lemma_pixel_in_frame(xi as int, y as int, gw, bottom as int);
                    lemma_weight_bounds(s, gw, xi as int, y as int, 0);
                    lemma_weight_bounds(s, gw, xi as int, y as int, 1);
                    lemma_weight_bounds(s, gw, xi as int, y as int, 2);
                    lemma_weight_bounds(s, gw, xi as int, y as int, 3);
                    lemma_row_sum_bounds(s, gw, y as int, x0n, x1, 0);
                    lemma_row_sum_bounds(s, gw, y as int, x0n, x1, 1);
                    lemma_row_sum_bounds(s, gw, y as int, x0n, x1, 2);
                    lemma_row_sum_bounds(s, gw, y as int, x0n, x1, 3);
                }
                let at = 4 * (y * w + xi);
                let pa = rgba[at + 3] as u64;
                s0 = s0 + rgba[at] as u64 * pa;
                s1 = s1 + rgba[at + 1] as u64 * pa;
                s2 = s2 + rgba[at + 2] as u64 * pa;
                s3 = s3 + pa;
            }
            col = col + 1;
        }
        r = r + 1;
        proof {
            assert(r as int * gwd == (r as int - 1) * gwd + gwd) by (nonlinear_arith);
        }
    }
    proof {
        assert(r as int * gwd == height as int * width as int);
    }
    hsum
}

/// The running column sums for region row 0: channel `c` of column `col`
/// summed over its clipped row window and the first `radius + 1` rows.
fn initial_column_sums(
    hsum: &Vec<u64>,
    width: usize,
    height: usize,
    radius: usize,
    Ghost(s): Ghost<Seq<u8>>,
    Ghost(w): Ghost<int>,
    Ghost(left): Ghost<int>,
    Ghost(top): Ghost<int>,
) -> (vs: Vec<u64>)
    requires
        width >= 1,
        height >= 1,
        0 <= left,
        left + width <= w,
        0 <= top,
        sums_fit(height * width),
        hsum.len() == 4 * (height * width),
        forall|j: int| 0 <= j < hsum.len() ==> hsum@[j] == hsum_at(s, w, left, top, width as int, radius as int, j),
    ensures
        vs.len() == 4 * width,
        forall|j: int| 0 <= j < vs.len() ==> vs@[j] == vsum_at(
            s, w, left, top, width as int, height as int, radius as int, 0, j),
{
    let ghost rad = radius as int;
    let ghost gwd = width as int;
    let ghost ght = height as int;
    let first = if radius < height - 1 { radius + 1 } else { height };
    let mut vs: Vec<u64> = Vec::new();
    let mut col: usize = 0;
    while col < width
        invariant
            width >= 1, height >= 1,
            0 <= left, left + width <= w, 0 <= top,
            sums_fit(height * width),
            rad == radius as int, gwd == width as int, ght == height as int,
            first as int == hi(0, rad, ght),
            hsum.len() == 4 * (height * width),
            forall|j: int| 0 <= j < hsum.len() ==> hsum@[j] == hsum_at(s, w, left, top, gwd, rad, j),
            col <= width,
            vs.len() == 4 * col,
            forall|j: int| 0 <= j < vs.len() ==> vs@[j] == vsum_at(s, w, left, top, gwd, ght, rad, 0, j),
        decreases width - col,
    {
        let ghost x0 = left + lo(col as int, rad);
        let ghost x1 = left + hi(col as int, rad, gwd);
        let mut a0: u64 = 0;
        let mut a1: u64 = 0;
        let mut a2: u64 = 0;
        let mut a3: u64 = 0;
        let mut rr: usize = 0;
        while rr < first
            invariant
                width >= 1, height >= 1,
                0 <= left, left + width <= w, 0 <= top,
                sums_fit(height * width),
                rad == radius as int, gwd == width as int, ght == height as int,
                first as int == hi(0, rad, ght),
                hsum.len() == 4 * (height * width),
                forall|j: int| 0 <= j < hsum.len() ==> hsum@[j] == hsum_at(s, w, left, top, gwd, rad, j),
                col < width,
                x0 == left + lo(col as int, rad),
                x1 == left + hi(col as int, rad, gwd),
                rr <= first,
                a0 == rect_sum(s, w, x0, x1, top, top + rr, 0),
                a1 == rect_sum(s, w, x0, x1, top, top + rr, 1),
                a2 == rect_sum(s, w, x0, x1, top, top + rr, 2),
                a3 == rect_sum(s, w, x0, x1, top, top + rr, 3),
            decreases first - rr,
        {
            let ghost j = 4 * (rr as int * gwd + col as int);
            proof {
                lemma_pixel_in_frame(col as int, rr as int, gwd, ght);
                lemma_byte_coords(j, gwd, col as int, rr as int, 0);
                lemma_byte_coords(j + 1, gwd, col as int, rr as int, 1);
                lemma_byte_coords(j + 2, gwd, col as int, rr as int, 2);
                lemma_byte_coords(j + 3, gwd, col as int, rr as int, 3);
                assert(4 * (ght * gwd) == 4 * (height * width));
                lemma_sub_area(x0, x1, top, top + rr + 1, left, left + width, top, top + height);
                assert((width as int) * (height as int) == height * width) by (nonlinear_arith);
                lemma_rect_sum_bounds(s, w, x0, x1, top, top + rr + 1, 0);
                lemma_rect_sum_bounds(s, w, x0, x1, top, top + rr + 1, 1);
                lemma_rect_sum_bounds(s, w, x0, x1, top, top + rr + 1, 2);
                lemma_rect_sum_bounds(s, w, x0, x1, top, top + rr + 1, 3);
            }
            let at = 4 * (rr * width + col);
            a0 = a0 + hsum[at];
            a1 = a1 + hsum[at + 1];
            a2 = a2 + hsum[at + 2];
            a3 = a3 + hsum[at + 3];
            rr = rr + 1;
        }
        proof {
            lemma_vsum_entry(s, w, left, top, gwd, ght, rad, 0, col as int);
        }
        vs.push(a0);
        vs.push(a1);
        vs.push(a2);
        vs.push(a3);
        col = col + 1;
    }
    vs
}

/// Overwrite the colour bytes of the pixel at byte `at` with the rounded
/// means of the given sums, unless the pixel or the sums carry no alpha.
fn write_mean(rgba: &mut [u8], at: usize, t0: u64, t1: u64, t2: u64, ta: u64)
    requires
        at + 3 < old(rgba).len(),
        t0 + ta <= 0xFFFF_FFFF_FFFF_FFFF,
        t1 + ta <= 0xFFFF_FFFF_FFFF_FFFF,
        t2 + ta <= 0xFFFF_FFFF_FFFF_FFFF,
    ensures
        final(rgba)@.len() == old(rgba)@.len(),
        forall|k: int| 0 <= k < old(rgba)@.len() && !(at <= k < at + 3) ==> final(rgba)@[k] == old(rgba)@[k],
        old(rgba)@[at + 3] != 0 && ta != 0 ==> {
            &&& final(rgba)@[at as int] == rounded_mean(t0 as int, ta as int) as u8
            &&& final(rgba)@[at + 1] == rounded_mean(t1 as int, ta as int) as u8
            &&& final(rgba)@[at + 2] == rounded_mean(t2 as int, ta as int) as u8
        },
        !(old(rgba)@[at + 3] != 0 && ta != 0) ==> final(rgba)@ == old(rgba)@,
{
    if rgba[at + 3] != 0 && ta != 0 {
        let half = ta / 2;
        rgba[at] = ((t0 + half) / ta) as u8;
        rgba[at + 1] = ((t1 + half) / ta) as u8;
        rgba[at + 2] = ((t2 + half) / ta) as u8;
    }
}

/// One pixel of a row-major scan over the region: if the buffer matched
/// the target on every region pixel scanned before `(x, y)` and the input
/// elsewhere, and the step rewrote exactly pixel `(x, y)` to its target,
/// the same holds with `(x, y)` counted as scanned.
pub(crate) proof fn lemma_scan_step(
    before: Seq<u8>,
    after: Seq<u8>,
    s: Seq<u8>,
    target: Seq<u8>,
    w: int,
    left: int,
    top: int,
    right: int,
    bottom: int,
    x: int,
    y: int,
)
    requires
        0 <= left <= x < right <= w,
        0 <= top <= y < bottom,
        before.len() == s.len(),
        after.len() == s.len(),
        target.len() == s.len(),
        4 * (y * w + x) + 4 <= s.len(),
        forall|k: int| 0 <= k < s.len() ==> before[k] == (
            if in_region(k, w, left, top, right, bottom) && scanned_before(k, w, x, y) { target[k] } else { s[k] }),
        forall|k: int| 0 <= k < s.len() && !(4 * (y * w + x) <= k < 4 * (y * w + x) + 4) ==> after[k] == before[k],
        forall|k: int| 4 * (y * w + x) <= k < 4 * (y * w + x) + 4 ==> after[k] == target[k],
    ensures
        forall|k: int| 0 <= k < s.len() ==> after[k] == (
            if in_region(k, w, left, top, right, bottom) && scanned_before(k, w, x + 1, y) { target[k] } else { s[k] }),
{
    let at = 4 * (y * w + x);
    assert forall|k: int| 0 <= k < s.len() implies after[k] == (
        if in_region(k, w, left, top, right, bottom) && scanned_before(k, w, x + 1, y) { target[k] } else { s[k] }) by {
        lemma_byte_split(k, w);
        if at <= k < at + 4 {
            lemma_byte_coords(k, w, x, y, k - at);
        }
    }
}

/// Slide column `col`'s running window sums from region row `r` down to
/// row `r + 1`: drop the row leaving the window, add the row entering it.
#[verifier::rlimit(40)]
fn slide_column(
    vs: &mut Vec<u64>,
    hsum: &Vec<u64>,
    col: usize,
    r: usize,
    width: usize,
    height: usize,
    radius: usize,
    Ghost(s): Ghost<Seq<u8>>,
    Ghost(w): Ghost<int>,
    Ghost(left): Ghost<int>,
    Ghost(top): Ghost<int>,
)
    requires
        col < width,
        r < height,
        0 <= left,
        left + width <= w,
        0 <= top,
        sums_fit(height * width),
        hsum.len() == 4 * (height * width),
        forall|j: int| 0 <= j < hsum.len() ==> hsum@[j] == hsum_at(s, w, left, top, width as int, radius as int, j),
        old(vs).len() == 4 * width,
        old(vs)@[4 * col as int] == window_sum(s, w, left, top, width as int, height as int, radius as int, r as int, col as int, 0),
        old(vs)@[4 * col + 1] == window_sum(s, w, left, top, width as int, height as int, radius as int, r as int, col as int, 1),
        old(vs)@[4 * col + 2] == window_sum(s, w, left, top, width as int, height as int, radius as int, r as int, col as int, 2),
        old(vs)@[4 * col + 3] == window_sum(s, w, left, top, width as int, height as int, radius as int, r as int, col as int, 3),
    ensures
        final(vs).len() == old(vs).len(),
        forall|j: int| 0 <= j < old(vs).len() && !(4 * col <= j < 4 * col + 4) ==> final(vs)@[j] == old(vs)@[j],
        final(vs)@[4 * col as int] == window_sum(s, w, left, top, width as int, height as int, radius as int, r + 1, col as int, 0),
        final(vs)@[4 * col + 1] == window_sum(s, w, left, top, width as int, height as int, radius as int, r + 1, col as int, 1),
        final(vs)@[4 * col + 2] == window_sum(s, w, left, top, width as int, height as int, radius as int, r + 1, col as int, 2),
        final(vs)@[4 * col + 3] == window_sum(s, w, left, top, width as int, height as int, radius as int, r + 1, col as int, 3),
{
    let ghost rad = radius as int;
    let ghost gwd = width as int;
    let ghost ght = height as int;
    let j = 4 * col;
    let ghost x0 = left + lo(col as int, rad);
    let ghost x1 = left + hi(col as int, rad, gwd);
    let ghost y0 = top + lo(r as int, rad);
    let ghost y1 = top + hi(r as int, rad, ght);
    let ghost y0n = if r >= radius { y0 + 1 } else { y0 };
    let ghost y1n = if radius < height - 1 - r { y1 + 1 } else { y1 };
    assert(y0n == top + lo(r + 1, rad) && y1n == top + hi(r + 1, rad, ght));
    if r >= radius {
        proof {
            lemma_pixel_in_frame(col as int, (r - radius) as int, gwd, ght);
        }
        let jo = 4 * ((r - radius) * width + col);
        proof {
            lemma_byte_coords(jo as int, gwd, col as int, (r - radius) as int, 0);
            lemma_byte_coords(jo + 1, gwd, col as int, (r - radius) as int, 1);
            lemma_byte_coords(jo + 2, gwd, col as int, (r - radius) as int, 2);
            lemma_byte_coords(jo + 3, gwd, col as int, (r - radius) as int, 3);
            lemma_rect_sum_drop_first(s, w, x0, x1, y0, y1, 0);
            lemma_rect_sum_drop_first(s, w, x0, x1, y0, y1, 1);
            lemma_rect_sum_drop_first(s, w, x0, x1, y0, y1, 2);
            lemma_rect_sum_drop_first(s, w, x0, x1, y0, y1, 3);
            lemma_rect_sum_bounds(s, w, x0, x1, y0 + 1, y1, 0);
            lemma_rect_sum_bounds(s, w, x0, x1, y0 + 1, y1, 1);
            lemma_rect_sum_bounds(s, w, x0, x1, y0 + 1, y1, 2);
            lemma_rect_sum_bounds(s, w, x0, x1, y0 + 1, y1, 3);
            lemma_row_sum_bounds(s, w, y0, x0, x1, 0);
            lemma_row_sum_bounds(s, w, y0, x0, x1, 1);
            lemma_row_sum_bounds(s, w, y0, x0, x1, 2);
            lemma_row_sum_bounds(s, w, y0, x0, x1, 3);
        }
        let v0 = vs[j] - hsum[jo];
        vs.set(j, v0);
        let v1 = vs[j + 1] - hsum[jo + 1];
        vs.set(j + 1, v1);
        let v2 = vs[j + 2] - hsum[jo + 2];
        vs.set(j + 2, v2);
        let v3 = vs[j + 3] - hsum[jo + 3];
        vs.set(j + 3, v3);
    }
    assert(vs@[j as int] == rect_sum(s, w, x0, x1, y0n, y1, 0));
    assert(vs@[j + 1] == rect_sum(s, w, x0, x1, y0n, y1, 1));
    assert(vs@[j + 2] == rect_sum(s, w, x0, x1, y0n, y1, 2));
    assert(vs@[j + 3] == rect_sum(s, w, x0, x1, y0n, y1, 3));
    if radius < height - 1 - r {
        proof {
            lemma_pixel_in_frame(col as int, (r + radius + 1) as int, gwd, ght);
        }
        let ji = 4 * ((r + radius + 1) * width + col);
        proof {
            lemma_byte_coords(ji as int, gwd, col as int, (r + radius + 1) as int, 0);
            lemma_byte_coords(ji + 1, gwd, col as int, (r + radius + 1) as int, 1);
            lemma_byte_coords(ji + 2, gwd, col as int, (r + radius + 1) as int, 2);
            lemma_byte_coords(ji + 3, gwd, col as int, (r + radius + 1) as int, 3);
            lemma_sub_area(x0, x1, y0n, y1 + 1, left, left + width, top, top + height);
            assert((width as int) * (height as int) == height * width) by (nonlinear_arith);
            lemma_rect_sum_bounds(s, w, x0, x1, y0n, y1 + 1, 0);
            lemma_rect_sum_bounds(s, w, x0, x1, y0n, y1 + 1, 1);
            lemma_rect_sum_bounds(s, w, x0, x1, y0n, y1 + 1, 2);
            lemma_rect_sum_bounds(s, w, x0, x1, y0n, y1 + 1, 3);
        }
        let v0 = vs[j] + hsum[ji];
        vs.set(j, v0);
        let v1 = vs[j + 1] + hsum[ji + 1];
        vs.set(j + 1, v1);
        let v2 = vs[j + 2] + hsum[ji + 2];
        vs.set(j + 2, v2);
        let v3 = vs[j + 3] + hsum[ji + 3];
        vs.set(j + 3, v3);
    }
}

/// Box-blur the region `left..right` × `top..bottom` of a `w`-wide RGBA8
/// buffer with the given window radius, using separable sliding sums
/// (linear in the region's area at any radius).
#[verifier::rlimit(40)]
pub fn blur(
    rgba: &mut [u8],
    w: usize,
    left: usize,
    top: usize,
    right: usize,
    bottom: usize,
    radius: usize,
)
    requires
        left < right <= w,
        top < bottom,
        frame_holds(old(rgba).len() as int, w as int, bottom as int),
        sums_fit((right - left) * (bottom - top)),
    ensures
        final(rgba)@ == blur_spec(
            old(rgba)@,
            w as int,
            left as int,
            top as int,
            right as int,
            bottom as int,
            radius as int,
        ),
{
    let ghost s = rgba@;
    let ghost gw = w as int;
    let ghost rad = radius as int;
    let ghost (gl, gt, gr, gb) = (left as int, top as int, right as int, bottom as int);
    let ghost spec = blur_spec(s, gw, gl, gt, gr, gb, rad);
    let width = right - left;
    let height = bottom - top;
    let ghost gwd = width as int;
    let ghost ght = height as int;
    proof {
        assert((height as int) * (width as int) == (right - left) * (bottom - top)) by (nonlinear_arith)
            requires width == right - left, height == bottom - top;
    }
    let hsum = horizontal_sums(rgba, w, left, top, right, bottom, radius);
    let mut vs = initial_column_sums(&hsum, width, height, radius, Ghost(s), Ghost(gw), Ghost(gl), Ghost(gt));
    let total: usize = rgba.len();
    let mut r: usize = 0;
    while r < height
        invariant
            rgba@.len() == s.len(),
            s.len() == total,
            left < right <= w,
            top < bottom,
            gw == w as int, rad == radius as int, gwd == width as int, ght == height as int,
            gl == left as int, gt == top as int, gr == right as int, gb == bottom as int,
            width == right - left, height == bottom - top,
            frame_holds(s.len() as int, gw, gb),
            sums_fit(height * width),
            spec == blur_spec(s, gw, gl, gt, gr, gb, rad),
            hsum.len() == 4 * (height * width),
            forall|j: int| 0 <= j < hsum.len() ==> hsum@[j] == hsum_at(s, gw, gl, gt, gwd, rad, j),
            r <= height,
            vs.len() == 4 * width,
            forall|j: int| 0 <= j < vs.len() ==> vs@[j] == vsum_at(s, gw, gl, gt, gwd, ght, rad, r as int, j),
            forall|k: int| 0 <= k < s.len() ==> rgba@[k] == (
                if in_region(k, gw, gl, gt, gr, gb) && scanned_before(k, gw, gl, gt + r) { spec[k] } else { s[k] }),
        decreases height - r,
    {
        let y = top + r;
        let mut col: usize = 0;
        while col < width
            invariant
                rgba@.len() == s.len(),
                s.len() == total,
                left < right <= w,
                top < bottom,
                gw == w as int, rad == radius as int, gwd == width as int, ght == height as int,
                gl == left as int, gt == top as int, gr == right as int, gb == bottom as int,
                width == right - left, height == bottom - top,
                frame_holds(s.len() as int, gw, gb),
                sums_fit(height * width),
                spec == blur_spec(s, gw, gl, gt, gr, gb, rad),
                hsum.len() == 4 * (height * width),
                forall|j: int| 0 <= j < hsum.len() ==> hsum@[j] == hsum_at(s, gw, gl, gt, gwd, rad, j),
                r < height,
                y == top + r,
                col <= width,
                vs.len() == 4 * width,
                forall|j: int| 0 <= j < vs.len() ==> vs@[j] == (
                    if j < 4 * col { vsum_at(s, gw, gl, gt, gwd, ght, rad, r as int + 1, j) }
                    else { vsum_at(s, gw, gl, gt, gwd, ght, rad, r as int, j) }),
                forall|k: int| 0 <= k < s.len() ==> rgba@[k] == (
                    if in_region(k, gw, gl, gt, gr, gb) && scanned_before(k, gw, gl + col, y as int) { spec[k] } else { s[k] }),
            decreases width - col,
        {
            let x = left + col;
            let j = 4 * col;
            let ghost x0 = gl + lo(col as int, rad);
            let ghost x1 = gl + hi(col as int, rad, gwd);
            let ghost y0 = gt + lo(r as int, rad);
            let ghost y1 = gt + hi(r as int, rad, ght);
            let ghost before = rgba@;
            proof {
                lemma_pixel_in_frame(x as int, y as int, gw, gb);
                lemma_vsum_entry(s, gw, gl, gt, gwd, ght, rad, r as int, col as int);
                lemma_vsum_entry(s, gw, gl, gt, gwd, ght, rad, r as int + 1, col as int);
                assert(vs@[j as int] == rect_sum(s, gw, x0, x1, y0, y1, 0));
                assert(vs@[j + 1] == rect_sum(s, gw, x0, x1, y0, y1, 1));
                assert(vs@[j + 2] == rect_sum(s, gw, x0, x1, y0, y1, 2));
                assert(vs@[j + 3] == rect_sum(s, gw, x0, x1, y0, y1, 3));
                lemma_sub_area(x0, x1, y0, y1, gl, gr, gt, gb);
                assert((height as int) * (width as int) == (gr - gl) * (gb - gt)) by (nonlinear_arith)
                    requires gwd == gr - gl, ght == gb - gt, gwd == width as int, ght == height as int;
                lemma_rect_sum_bounds(s, gw, x0, x1, y0, y1, 0);
                lemma_rect_sum_bounds(s, gw, x0, x1, y0, y1, 1);
                lemma_rect_sum_bounds(s, gw, x0, x1, y0, y1, 2);
                lemma_rect_sum_bounds(s, gw, x0, x1, y0, y1, 3);
            }
            let at = 4 * (y * w + x);
            proof {
                lemma_byte_coords(at + 3, gw, x as int, y as int, 3);
                assert(before[at + 3] == s[at + 3]);
            }
            write_mean(rgba, at, vs[j], vs[j + 1], vs[j + 2], vs[j + 3]);
            proof {
                lemma_byte_coords(at as int, gw, x as int, y as int, 0);
                lemma_byte_coords(at + 1, gw, x as int, y as int, 1);
                lemma_byte_coords(at + 2, gw, x as int, y as int, 2);
                assert(rgba@[at as int] == spec[at as int]);
                assert(rgba@[at + 1] == spec[at + 1]);
                assert(rgba@[at + 2] == spec[at + 2]);
                assert(rgba@[at + 3] == spec[at + 3]);
                lemma_scan_step(before, rgba@, s, spec, gw, gl, gt, gr, gb, x as int, y as int);
            }
            slide_column(&mut vs, &hsum, col, r, width, height, radius, Ghost(s), Ghost(gw), Ghost(gl), Ghost(gt));
            proof {
                assert forall|jj: int| 0 <= jj < vs.len() implies vs@[jj] == (
                    if jj < 4 * (col + 1) { vsum_at(s, gw, gl, gt, gwd, ght, rad, r as int + 1, jj) }
                    else { vsum_at(s, gw, gl, gt, gwd, ght, rad, r as int, jj) }) by {
                    if j <= jj < j + 4 {
                        assert(jj == 4 * col || jj == 4 * col + 1 || jj == 4 * col + 2 || jj == 4 * col + 3);
                    }
                }
            }
            col = col + 1;
        }
        r = r + 1;
    }
    proof {
        assert forall|k: int| 0 <= k < s.len() implies rgba@[k] == spec[k] by {
            lemma_byte_split(k, gw);
        }
    }
    assert(rgba@ =~= spec);
}

/// The blur radius for a mark of the given strength: half of it, at least 1.
pub open spec fn blur_radius(strength: int) -> int {
    if strength / 2 > 1 { strength / 2 } else { 1 }
}

/// Apply a filter mark to its pixel region `left..right` × `top..bottom`
/// (already clamped to the `w`×`h` image): `Mosaic` marks mosaic it with
/// tiles of `strength` pixels, every other kind blurs it with radius
/// `max(strength / 2, 1)`. An empty region leaves the buffer alone. The
/// buffer must hold the `w`×`h` pixels, and the region be small enough
/// that the filters' `u64` sums over it cannot overflow ([`sums_fit`]).
pub fn rasterize_region(
    kind: ShapeKind,
    rgba: &mut [u8],
    w: u32,
    h: u32,
    left: usize,
    top: usize,
    right: usize,
    bottom: usize,
    strength: usize,
)
    requires
        left <= right <= w,
        top <= bottom <= h,
        strength >= 1,
        frame_holds(old(rgba).len() as int, w as int, h as int),
        sums_fit((right - left) * (bottom - top)),
    ensures
        right <= left || bottom <= top ==> final(rgba)@ == old(rgba)@,
        left < right && top < bottom && kind == ShapeKind::Mosaic ==> final(rgba)@ == mosaic_spec(
            old(rgba)@, w as int, left as int, top as int, right as int, bottom as int, strength as int),
        left < right && top < bottom && kind != ShapeKind::Mosaic ==> final(rgba)@ == blur_spec(
            old(rgba)@, w as int, left as int, top as int, right as int, bottom as int, blur_radius(strength as int)),
{
    if right <= left || bottom <= top {
        return;
    }
    proof {
        assert(bottom as int * w as int <= h as int * w as int) by (nonlinear_arith)
            requires bottom <= h, w >= 0;
    }
    let stride = w as usize;
    if kind == ShapeKind::Mosaic {
        mosaic(rgba, stride, left, top, right, bottom, strength);
    } else {
        let half = strength / 2;
        let radius = if half > 1 { half } else { 1 };
        blur(rgba, stride, left, top, right, bottom, radius);
    }
}

/// Neither filter touches alpha, bytes outside its region, or fully
/// transparent pixels.
pub proof fn lemma_filters_keep_alpha_outside_and_gaps(
    s: Seq<u8>,
    w: int,
    left: int,
    top: int,
    right: int,
    bottom: int,
    strength: int,
    k: int,
)
    requires
        0 <= k < s.len(),
        k % 4 == 3 || !in_region(k, w, left, top, right, bottom) || s[k - k % 4 + 3] == 0,
    ensures
        mosaic_spec(s, w, left, top, right, bottom, strength)[k] == s[k],
        blur_spec(s, w, left, top, right, bottom, strength)[k] == s[k],
{
}

/// A filtered colour byte is a true byte: the rounded alpha-weighted mean
/// over any rectangle that carries alpha lies in `0..=255`.
pub proof fn lemma_filter_mean_is_byte(s: Seq<u8>, w: int, x0: int, x1: int, y0: int, y1: int, c: int)
    requires
        x0 <= x1,
        y0 <= y1,
        0 <= c < 3,
        rect_sum(s, w, x0, x1, y0, y1, 3) != 0,
    ensures
        0 <= rounded_mean(rect_sum(s, w, x0, x1, y0, y1, c), rect_sum(s, w, x0, x1, y0, y1, 3)) <= 255,
{
    lemma_rect_sum_bounds(s, w, x0, x1, y0, y1, c);
    lemma_rect_sum_bounds(s, w, x0, x1, y0, y1, 3);
    lemma_rounded_mean_fits(rect_sum(s, w, x0, x1, y0, y1, c), rect_sum(s, w, x0, x1, y0, y1, 3));
}

/// Every pixel of the region `left..right` × `top..bottom` holds the
/// bytes `px`.
pub open spec fn uniform_region(
    s: Seq<u8>,
    w: int,
    left: int,
    top: int,
    right: int,
    bottom: int,
    px: Seq<u8>,
) -> bool {
    forall|x: int, y: int, c: int| left <= x < right && top <= y < bottom && 0 <= c < 4
        ==> #[trigger] pixel_byte(s, w, x, y, c) == px[c] as int
}

/// The weight one pixel with bytes `px` adds to channel `c`.
spec fn uniform_weight(px: Seq<u8>, c: int) -> int {
    if c == 3 { px[3] as int } else { px[c] as int * px[3] as int }
}

proof fn lemma_uniform_row_sum(s: Seq<u8>, w: int, left: int, top: int, right: int, bottom: int,
    px: Seq<u8>, y: int, x0: int, x1: int, c: int)
    requires
        uniform_region(s, w, left, top, right, bottom, px),
        left <= x0 <= x1 <= right,
        top <= y < bottom,
        0 <= c < 4,
    ensures
        row_sum(s, w, y, x0, x1, c) == (x1 - x0) * uniform_weight(px, c),
    decreases x1 - x0,
{
    if x1 > x0 {
        lemma_uniform_row_sum(s, w, left, top, right, bottom, px, y, x0, x1 - 1, c);
        assert(pixel_byte(s, w, x1 - 1, y, c) == px[c] as int);
        assert(pixel_byte(s, w, x1 - 1, y, 3) == px[3] as int);
        assert(weight(s, w, x1 - 1, y, c) == uniform_weight(px, c));
        assert((x1 - 1 - x0) * uniform_weight(px, c) + uniform_weight(px, c) == (x1 - x0) * uniform_weight(px, c))
            by (nonlinear_arith);
    } else {
        assert((x1 - x0) * uniform_weight(px, c) == 0) by (nonlinear_arith) requires x1 == x0;
    }
}

proof fn lemma_uniform_rect_sum(s: Seq<u8>, w: int, left: int, top: int, right: int, bottom: int,
    px: Seq<u8>, x0: int, x1: int, y0: int, y1: int, c: int)
    requires
        uniform_region(s, w, left, top, right, bottom, px),
        left <= x0 <= x1 <= right,
        top <= y0 <= y1 <= bottom,
        0 <= c < 4,
    ensures
        rect_sum(s, w, x0, x1, y0, y1, c) == ((x1 - x0) * (y1 - y0)) * uniform_weight(px, c),
    decreases y1 - y0,
{
    if y1 > y0 {
        lemma_uniform_rect_sum(s, w, left, top, right, bottom, px, x0, x1, y0, y1 - 1, c);
        lemma_uniform_row_sum(s, w, left, top, right, bottom, px, y1 - 1, x0, x1, c);
        let n = x1 - x0;
        let u = uniform_weight(px, c);
        assert((n * (y1 - 1 - y0)) * u + n * u == (n * (y1 - y0)) * u) by (nonlinear_arith);
    } else {
        assert(((x1 - x0) * (y1 - y0)) * uniform_weight(px, c) == 0) by (nonlinear_arith) requires y1 == y0;
    }
}

/// The rounded mean of `n` equal values is that value.
proof fn lemma_mean_of_equal_values(n: int, v: int, a: int)
    requires
        n > 0,
        a > 0,
        v >= 0,
    ensures
        rounded_mean(n * (v * a), n * a) == v,
{
    let m = n * a;
    assert(m > 0) by (nonlinear_arith) requires n > 0, a > 0, m == n * a;
    assert(n * (v * a) == m * v) by (nonlinear_arith) requires m == n * a;
    vstd::arithmetic::div_mod::lemma_fundamental_div_mod(m, 2);
    lemma_fundamental_div_mod_converse(m * v + m / 2, m, v, m / 2);
}

/// A pixel of the region sees a non-empty sub-rectangle of the region as
/// its averaging area, under both filters.
proof fn lemma_windows_inside(x: int, lo_: int, hi_: int, strength: int, radius: int)
    requires
        lo_ <= x < hi_,
        strength >= 1,
        radius >= 0,
    ensures
        lo_ <= lo_ + (x - lo_) / strength * strength <= x,
        x < (if lo_ + (x - lo_) / strength * strength + strength < hi_ {
            lo_ + (x - lo_) / strength * strength + strength } else { hi_ }) <= hi_,
{
    let q = (x - lo_) / strength;
    lemma_fundamental_div_mod(x - lo_, strength);
    vstd::arithmetic::div_mod::lemma_mod_pos_bound(x - lo_, strength);
    vstd::arithmetic::div_mod::lemma_div_pos_is_pos(x - lo_, strength);
    assert(q * strength == strength * q) by (nonlinear_arith);
    assert(0 <= q * strength) by (nonlinear_arith) requires q >= 0, strength >= 1;
}

/// A region whose pixels all carry the same bytes, with non-zero alpha,
/// is left exactly as it was by the mosaic and by the blur: an average of
/// equal values is that value.
pub proof fn lemma_uniform_region_is_fixed(
    s: Seq<u8>,
    w: int,
    left: int,
    top: int,
    right: int,
    bottom: int,
    strength: int,
    radius: int,
    px: Seq<u8>,
)
    requires
        0 <= left < right <= w,
        0 <= top < bottom,
        strength >= 1,
        radius >= 0,
        px.len() == 4,
        px[3] > 0,
        uniform_region(s, w, left, top, right, bottom, px),
    ensures
        mosaic_spec(s, w, left, top, right, bottom, strength) == s,
        blur_spec(s, w, left, top, right, bottom, radius) == s,
{
    let ms = mosaic_spec(s, w, left, top, right, bottom, strength);
    let bs = blur_spec(s, w, left, top, right, bottom, radius);
    assert forall|k: int| 0 <= k < s.len() implies ms[k] == s[k] && bs[k] == s[k] by {
        lemma_byte_split(k, w);
        let x = col_of(k, w);
        let y = row_of(k, w);
        let c = k % 4;
        if in_region(k, w, left, top, right, bottom) && c < 3 {
            assert(pixel_byte(s, w, x, y, c) == px[c] as int);
            assert(pixel_byte(s, w, x, y, 3) == px[3] as int);
            assert(s[k] as int == px[c] as int);
            assert(s[k - c + 3] as int == px[3] as int);
            lemma_windows_inside(x, left, right, strength, radius);
            lemma_windows_inside(y, top, bottom, strength, radius);
            let tx = left + (x - left) / strength * strength;
            let ty = top + (y - top) / strength * strength;
            let ex = if tx + strength < right { tx + strength } else { right };
            let ey = if ty + strength < bottom { ty + strength } else { bottom };
            lemma_uniform_rect_sum(s, w, left, top, right, bottom, px, tx, ex, ty, ey, c);
            lemma_uniform_rect_sum(s, w, left, top, right, bottom, px, tx, ex, ty, ey, 3);
            let n = (ex - tx) * (ey - ty);
            assert(n > 0) by (nonlinear_arith) requires ex - tx > 0, ey - ty > 0, n == (ex - tx) * (ey - ty);
            lemma_mean_of_equal_values(n, px[c] as int, px[3] as int);
            assert(n * (px[3] as int) > 0) by (nonlinear_arith) requires n > 0, px[3] > 0;
            let x0 = if x - radius > left { x - radius } else { left };
            let y0 = if y - radius > top { y - radius } else { top };
            let x1 = if x + radius + 1 < right { x + radius + 1 } else { right };
            let y1 = if y + radius + 1 < bottom { y + radius + 1 } else { bottom };
            lemma_uniform_rect_sum(s, w, left, top, right, bottom, px, x0, x1, y0, y1, c);
            lemma_uniform_rect_sum(s, w, left, top, right, bottom, px, x0, x1, y0, y1, 3);
            let m = (x1 - x0) * (y1 - y0);
            assert(m > 0) by (nonlinear_arith) requires x1 - x0 > 0, y1 - y0 > 0, m == (x1 - x0) * (y1 - y0);
            lemma_mean_of_equal_values(m, px[c] as int, px[3] as int);
            assert(m * (px[3] as int) > 0) by (nonlinear_arith) requires m > 0, px[3] > 0;
        }
    }
    assert(ms =~= s);
    assert(bs =~= s);
}

} // verus!
