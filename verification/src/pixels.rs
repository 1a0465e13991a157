//! Pure pixel processing on RGBA8 buffers: output-transform rotation and
//! wl_shm format conversion.

use vstd::prelude::*;
use vstd::arithmetic::div_mod::lemma_fundamental_div_mod_converse;

verus! {

/// Output orientation, platform-neutral.
#[derive(Clone, Copy, PartialEq, Eq, Debug)]
pub enum Transform {
    Normal,
    Rot90,
    Rot180,
    Rot270,
    Flipped,
    Flipped90,
    Flipped180,
    Flipped270,
}

/// Whether a transform swaps width and height (quarter turns, including
/// the flipped quarter turns).
pub open spec fn swaps_axes(t: Transform) -> bool {
    !(t is Normal || t is Rot180 || t is Flipped || t is Flipped180)
}

/// Size after the transform: quarter turns swap width and height.
pub open spec fn rotated_dims(w: int, h: int, t: Transform) -> (int, int) {
    if swaps_axes(t) { (h, w) } else { (w, h) }
}

/// Where source pixel `(x, y)` of a `w`×`h` buffer lands after the
/// transform. The flipped quarter turns are treated as `Rot90`, and
/// `Flipped` as `Normal`.
pub open spec fn dest_of(t: Transform, w: int, h: int, x: int, y: int) -> (int, int) {
    match t {
        Transform::Normal | Transform::Flipped => (x, y),
        Transform::Rot90 => (h - 1 - y, x),
        Transform::Rot180 | Transform::Flipped180 => (w - 1 - x, h - 1 - y),
        Transform::Rot270 => (y, w - 1 - x),
        _ => (h - 1 - y, x),
    }
}

/// The inverse of [`dest_of`]: which source pixel fills destination
/// pixel `(dx, dy)`.
pub open spec fn source_of(t: Transform, w: int, h: int, dx: int, dy: int) -> (int, int) {
    match t {
        Transform::Normal | Transform::Flipped => (dx, dy),
        Transform::Rot90 => (dy, h - 1 - dx),
        Transform::Rot180 | Transform::Flipped180 => (w - 1 - dx, h - 1 - dy),
        Transform::Rot270 => (w - 1 - dy, dx),
        _ => (dy, h - 1 - dx),
    }
}

/// Byte `k` of the rotated buffer: inside the `4·w·h` pixel area it is
/// channel `k % 4` of the source pixel that lands on destination pixel
/// `k / 4` (row-major in the rotated size); past the area it is zero.
pub open spec fn rotated_byte(rgba: Seq<u8>, w: int, h: int, t: Transform, k: int) -> u8 {
    if 0 <= k < 4 * w * h {
        let rw = rotated_dims(w, h, t).0;
        let p = k / 4;
        let s = source_of(t, w, h, p % rw, p / rw);
        rgba[4 * (s.1 * w + s.0) + k % 4]
    } else {
        0
    }
}

/// The whole rotated buffer; same length as the input.
pub open spec fn rotate_spec(rgba: Seq<u8>, w: int, h: int, t: Transform) -> Seq<u8> {
    Seq::new(rgba.len(), |k: int| rotated_byte(rgba, w, h, t, k))
}

/// Size after transform (90/270 swap width and height; 180 and the
/// flipped family keep them).
pub fn rotated_size(w: u32, h: u32, t: Transform) -> (r: (u32, u32))
    ensures
        (r.0 as int, r.1 as int) == rotated_dims(w as int, h as int, t),
{
    match t {
        Transform::Normal | Transform::Rot180 | Transform::Flipped | Transform::Flipped180 => (w, h),
        _ => (h, w),
    }
}

proof fn lemma_pixel_index_bound(x: int, y: int, w: int, h: int)
    requires
        0 <= x < w,
        0 <= y < h,
    ensures
        0 <= y * w + x < w * h,
        4 * (y * w + x) + 3 < 4 * w * h,
{
    assert(y * w + x <= (h - 1) * w + (w - 1)) by (nonlinear_arith)
        requires 0 <= x < w, 0 <= y < h;
    assert((h - 1) * w + (w - 1) == w * h - 1) by (nonlinear_arith);
    assert(0 <= y * w) by (nonlinear_arith) requires 0 <= y, 0 <= w;
    assert(4 * w * h == 4 * (w * h)) by (nonlinear_arith);
}

/// Rotate pixels per the output transform so the orientation matches what
/// the screen shows. The physical buffer is in the untransformed
/// orientation; niri's `Rot90` fills the panel by rotating the buffer
/// clockwise.
pub fn rotate_rgba(rgba: Vec<u8>, w: u32, h: u32, t: Transform) -> (out: Vec<u8>)
    requires
        rgba.len() >= 4 * w * h,
        w * h <= 0x4000_0000,
    ensures
        out@ == rotate_spec(rgba@, w as int, h as int, t),
{
    let (rw, rh) = rotated_size(w, h, t);
    let ghost gw = w as int;
    let ghost gh = h as int;
    let ghost grw = rw as int;
    let ghost spec = rotate_spec(rgba@, gw, gh, t);
    assert(grw * (rh as int) == gw * gh) by (nonlinear_arith)
        requires (grw, rh as int) == rotated_dims(gw, gh, t);
    let mut out: Vec<u8> = Vec::with_capacity(rgba.len());
    let mut dy: u32 = 0;
    while dy < rh
        invariant
            (rw as int, rh as int) == rotated_dims(gw, gh, t),
            grw == rw as int,
            grw * (rh as int) == gw * gh,
            gw == w as int, gh == h as int,
            rgba.len() >= 4 * w * h,
            w * h <= 0x4000_0000,
            spec == rotate_spec(rgba@, gw, gh, t),
            spec.len() == rgba.len(),
            dy <= rh,
            out.len() == 4 * (dy as int * grw),
            forall|k: int| 0 <= k < out.len() ==> out@[k] == spec[k],
        decreases rh - dy,
    {
        let mut dx: u32 = 0;
        while dx < rw
            invariant
                (rw as int, rh as int) == rotated_dims(gw, gh, t),
                grw == rw as int,
                grw * (rh as int) == gw * gh,
                gw == w as int, gh == h as int,
                rgba.len() >= 4 * w * h,
                w * h <= 0x4000_0000,
                spec == rotate_spec(rgba@, gw, gh, t),
            spec.len() == rgba.len(),
                dy < rh,
                dx <= rw,
                out.len() == 4 * (dy as int * grw + dx as int),
                forall|k: int| 0 <= k < out.len() ==> out@[k] == spec[k],
            decreases rw - dx,
        {
            let (sx, sy): (u32, u32) = match t {
                Transform::Normal | Transform::Flipped => (dx, dy),
                Transform::Rot90 => (dy, h - 1 - dx),
                Transform::Rot180 | Transform::Flipped180 => (w - 1 - dx, h - 1 - dy),
                Transform::Rot270 => (w - 1 - dy, dx),
                _ => (dy, h - 1 - dx),
            };
            let ghost p = dy as int * grw + dx as int;
            proof {
                lemma_pixel_index_bound(dx as int, dy as int, grw, rh as int);
                lemma_fundamental_div_mod_converse(p, grw, dy as int, dx as int);
                lemma_pixel_index_bound(sx as int, sy as int, gw, gh);
                assert(source_of(t, gw, gh, dx as int, dy as int) == (sx as int, sy as int));
            }
            let src: usize = 4 * (sy as usize * w as usize + sx as usize);
            let mut c: usize = 0;
            while c < 4
                invariant
                    c <= 4,
                    out.len() == 4 * p + c,
                    0 <= p < gw * gh,
                    p % grw == dx as int, p / grw == dy as int,
                    grw == rw as int,
                    src as int == 4 * (sy as int * gw + sx as int),
                    src + 3 < rgba.len(),
                    source_of(t, gw, gh, dx as int, dy as int) == (sx as int, sy as int),
                    spec == rotate_spec(rgba@, gw, gh, t),
            spec.len() == rgba.len(),
                    gw == w as int, gh == h as int,
                    rgba.len() >= 4 * w * h,
                    spec.len() == rgba.len(),
                    (rw as int, rh as int) == rotated_dims(gw, gh, t),
                    forall|k: int| 0 <= k < out.len() ==> out@[k] == spec[k],
                decreases 4 - c,
            {
                proof {
                    let k = 4 * p + c;
                    lemma_fundamental_div_mod_converse(k, 4, p, c as int);
                    assert(4 * gw * gh == 4 * (gw * gh)) by (nonlinear_arith);
                    assert(k < 4 * gw * gh);
                    assert(spec[k] == rotated_byte(rgba@, gw, gh, t, k));
                    assert(spec[k] == rgba@[src + c]);
                }
                out.push(rgba[src + c]);
                c = c + 1;
            }
            dx = dx + 1;
            proof {
                assert(4 * (dy as int * grw + dx as int) == 4 * p + 4);
            }
        }
        dy = dy + 1;
        proof {
            assert(dy as int * grw == (dy as int - 1) * grw + grw) by (nonlinear_arith);
        }
    }
    proof {
        assert(out.len() == 4 * gw * gh) by (nonlinear_arith)
            requires out.len() == 4 * (rh as int * grw), grw * (rh as int) == gw * gh;
    }
    while out.len() < rgba.len()
        invariant
            out.len() >= 4 * gw * gh,
            out.len() <= rgba.len(),
            spec == rotate_spec(rgba@, gw, gh, t),
            spec.len() == rgba.len(),
            forall|k: int| 0 <= k < out.len() ==> out@[k] == spec[k],
        decreases rgba.len() - out.len(),
    {
        out.push(0);
    }
    assert(out@ =~= spec);
    out
}


/// wl_shm format ordinals (the core protocol's numbering, not DRM
/// fourcc): `0` is Argb8888 and `1` is Xrgb8888. Both store each pixel in
/// little-endian memory as B,G,R,(A); every other format is read as
/// R,G,B,(X).
pub open spec fn is_bgr_memory_order(format: u32) -> bool {
    format == 0 || format == 1
}

/// The input a wl_shm frame conversion can read without running off the
/// buffer: every source row `y` spans `y·stride .. y·stride + 4·w`.
pub open spec fn frame_fits(len: int, w: int, h: int, stride: int) -> bool {
    &&& w >= 0
    &&& h >= 0
    &&& stride >= 0 || h <= 1
    &&& 4 * w * h <= i32::MAX
    &&& h > 0 ==> (h - 1) * stride + 4 * w <= len
}

/// Byte `k` of the converted RGBA8 frame: destination pixel `k / 4` sits at
/// row `(k/4) / w`, column `(k/4) % w`; its source row is the same row, or
/// the mirrored one when the frame is y-inverted. Alpha is always opaque.
pub open spec fn converted_byte(
    bytes: Seq<u8>,
    format: u32,
    w: int,
    h: int,
    stride: int,
    y_invert: bool,
    k: int,
) -> u8 {
    let p = k / 4;
    let c = k % 4;
    let row = p / w;
    let x = p % w;
    let src_row = if y_invert { h - 1 - row } else { row };
    let base = src_row * stride + 4 * x;
    if c == 3 {
        255
    } else if is_bgr_memory_order(format) {
        bytes[base + 2 - c]
    } else {
        bytes[base + c]
    }
}

/// The whole converted frame, `4·w·h` bytes.
pub open spec fn convert_spec(
    bytes: Seq<u8>,
    format: u32,
    w: int,
    h: int,
    stride: int,
    y_invert: bool,
) -> Seq<u8> {
    Seq::new((4 * w * h) as nat, |k: int| converted_byte(bytes, format, w, h, stride, y_invert, k))
}

proof fn lemma_row_start_bound(row: int, h: int, stride: int)
    requires
        0 <= row < h,
        stride >= 0 || h <= 1,
    ensures
        0 <= row * stride <= (h - 1) * stride,
{
    if h <= 1 {
        assert(row == 0);
    } else {
        assert(0 <= row * stride <= (h - 1) * stride) by (nonlinear_arith)
            requires 0 <= row < h, stride >= 0;
    }
}

/// Convert a wl_shm frame (`w`×`h`, rows `stride` bytes apart) to tightly
/// packed RGBA8, flipping rows when the compositor flags the frame as
/// y-inverted.
pub fn convert_to_rgba(
    bytes: &[u8],
    format: u32,
    w: i32,
    h: i32,
    stride: i32,
    y_invert: bool,
) -> (out: Vec<u8>)
    requires
        frame_fits(bytes.len() as int, w as int, h as int, stride as int),
    ensures
        out@ == convert_spec(bytes@, format, w as int, h as int, stride as int, y_invert),
{
    let ghost spec = convert_spec(bytes@, format, w as int, h as int, stride as int, y_invert);
    let ghost gw = w as int;
    let ghost gh = h as int;
    let bgr = format == 0 || format == 1;
    let wu = w as usize;
    let hu = h as usize;
    let mut out: Vec<u8> = Vec::new();
    let mut row: usize = 0;
    proof {
        assert(0 <= gw * gh) by (nonlinear_arith) requires gw >= 0, gh >= 0;
        assert(4 * gw * gh == 4 * (gw * gh)) by (nonlinear_arith);
    }
    while row < hu
        invariant
            gw == w as int, gh == h as int, wu as int == gw, hu as int == gh,
            frame_fits(bytes.len() as int, gw, gh, stride as int),
            bgr == is_bgr_memory_order(format),
            spec == convert_spec(bytes@, format, gw, gh, stride as int, y_invert),
            row <= hu,
            out.len() == 4 * (row as int * gw),
            forall|k: int| 0 <= k < out.len() ==> out@[k] == spec[k],
        decreases hu - row,
    {
        let src_row: usize = if y_invert { hu - 1 - row } else { row };
        proof {
            lemma_row_start_bound(src_row as int, gh, stride as int);
            assert(gw * (gh - 1) + gw == gw * gh) by (nonlinear_arith);
            assert(row as int * gw <= (gh - 1) * gw) by (nonlinear_arith)
                requires 0 <= row < gh, gw >= 0;
        }
        let base: usize = if src_row == 0 { 0 } else { src_row * (stride as usize) };
        let mut x: usize = 0;
        while x < wu
            invariant
                gw == w as int, gh == h as int, wu as int == gw, hu as int == gh,
                frame_fits(bytes.len() as int, gw, gh, stride as int),
                bgr == is_bgr_memory_order(format),
                spec == convert_spec(bytes@, format, gw, gh, stride as int, y_invert),
                row < hu,
                src_row as int == (if y_invert { gh - 1 - row } else { row as int }),
                base as int == src_row as int * stride as int,
                base as int + 4 * gw <= bytes.len(),
                x <= wu,
                out.len() == 4 * (row as int * gw + x as int),
                row as int * gw + gw <= gw * gh,
                forall|k: int| 0 <= k < out.len() ==> out@[k] == spec[k],
            decreases wu - x,
        {
            let at = base + 4 * x;
            let ghost p = row as int * gw + x as int;
            proof {
                lemma_fundamental_div_mod_converse(p, gw, row as int, x as int);
            }
            let mut c: usize = 0;
            while c < 4
                invariant
                    c <= 4,
                    p == row as int * gw + x as int,
                    0 <= x < gw,
                    p / gw == row as int, p % gw == x as int,
                    p < gw * gh,
                    out.len() == 4 * p + c,
                    at as int == base as int + 4 * x as int,
                    at + 3 < bytes.len(),
                    base as int == src_row as int * stride as int,
                    src_row as int == (if y_invert { gh - 1 - row } else { row as int }),
                    bgr == is_bgr_memory_order(format),
                    spec == convert_spec(bytes@, format, gw, gh, stride as int, y_invert),
                    gw == w as int, gh == h as int,
                    forall|k: int| 0 <= k < out.len() ==> out@[k] == spec[k],
                decreases 4 - c,
            {
                let v: u8 = if c == 3 {
                    255
                } else if bgr {
                    bytes[at + 2 - c]
                } else {
                    bytes[at + c]
                };
                proof {
                    let k = 4 * p + c;
                    lemma_fundamental_div_mod_converse(k, 4, p, c as int);
                    assert(4 * gw * gh == 4 * (gw * gh)) by (nonlinear_arith);
                    assert(spec[k] == converted_byte(bytes@, format, gw, gh, stride as int, y_invert, k));
                }
                out.push(v);
                c = c + 1;
            }
            x = x + 1;
        }
        row = row + 1;
        proof {
            assert(row as int * gw == (row as int - 1) * gw + gw) by (nonlinear_arith);
        }
    }
    proof {
        assert(out.len() == 4 * gw * gh) by (nonlinear_arith)
            requires out.len() == 4 * (gh * gw);
    }
    assert(out@ =~= spec);
    out
}


/// Byte `k` of a crop of the `cap_w`-wide capture starting at `(x0, y0)`
/// and `cw` pixels wide: channel `k % 4` of the capture pixel under crop
/// pixel `k / 4`.
pub open spec fn cropped_byte(rgba: Seq<u8>, cap_w: int, x0: int, y0: int, cw: int, k: int) -> u8 {
    let p = k / 4;
    rgba[4 * ((y0 + p / cw) * cap_w + x0 + p % cw) + k % 4]
}

/// The crop of capture pixels `x0..x1` × `y0..y1`, row-major RGBA8.
pub open spec fn crop_spec(rgba: Seq<u8>, cap_w: int, x0: int, y0: int, x1: int, y1: int) -> Seq<u8> {
    Seq::new((4 * (x1 - x0) * (y1 - y0)) as nat, |k: int| cropped_byte(rgba, cap_w, x0, y0, x1 - x0, k))
}

/// Crop the physical pixel rectangle `x0..x1` × `y0..y1` out of a
/// `cap_w`×`cap_h` RGBA8 capture. An empty rectangle yields `None`.
pub fn crop_rect(
    rgba: &[u8],
    cap_w: u32,
    cap_h: u32,
    x0: u32,
    y0: u32,
    x1: u32,
    y1: u32,
) -> (r: Option<(u32, u32, Vec<u8>)>)
    requires
        x0 <= cap_w, x1 <= cap_w, y0 <= cap_h, y1 <= cap_h,
        rgba.len() >= 4 * cap_w * cap_h,
        x0 < x1 && y0 < y1 ==> 4 * (x1 - x0) * (y1 - y0) <= u32::MAX,
    ensures
        r is None <==> (x1 <= x0 || y1 <= y0),
        r matches Some((w, h, out)) ==> {
            &&& w == x1 - x0
            &&& h == y1 - y0
            &&& out@ == crop_spec(rgba@, cap_w as int, x0 as int, y0 as int, x1 as int, y1 as int)
        },
{
    if x1 <= x0 || y1 <= y0 {
        return None;
    }
    let w = x1 - x0;
    let h = y1 - y0;
    let ghost gw = w as int;
    let ghost gh = h as int;
    let ghost cw = cap_w as int;
    let ghost spec = crop_spec(rgba@, cw, x0 as int, y0 as int, x1 as int, y1 as int);
    proof {
        assert(4 * gw * gh == 4 * (gw * gh)) by (nonlinear_arith);
        assert(0 <= gw * gh) by (nonlinear_arith) requires gw >= 0, gh >= 0;
    }
    let mut out: Vec<u8> = Vec::new();
    let mut row: u32 = 0;
    while row < h
        invariant
            gw == w as int, gh == h as int, cw == cap_w as int,
            w == x1 - x0, h == y1 - y0, 0 < w, 0 < h,
            x0 <= cap_w, x1 <= cap_w, y0 <= cap_h, y1 <= cap_h,
            rgba.len() >= 4 * cap_w * cap_h,
            spec == crop_spec(rgba@, cw, x0 as int, y0 as int, x1 as int, y1 as int),
            row <= h,
            out.len() == 4 * (row as int * gw),
            forall|k: int| 0 <= k < out.len() ==> out@[k] == spec[k],
        decreases h - row,
    {
        let ghost y = y0 as int + row as int;
        proof {
            assert(y * cw + x1 as int <= cw * (cap_h as int)) by (nonlinear_arith)
                requires y < cap_h as int, x1 as int <= cw, 0 <= y;
            assert(row as int * gw + gw <= gw * gh) by (nonlinear_arith)
                requires row < h, gw >= 0, gh == h as int;
            assert(4 * cw * (cap_h as int) == 4 * (cw * (cap_h as int))) by (nonlinear_arith);
        }
        let base: usize = (y0 as usize + row as usize) * cap_w as usize + x0 as usize;
        let mut x: u32 = 0;
        while x < w
            invariant
                gw == w as int, gh == h as int, cw == cap_w as int,
                w == x1 - x0, h == y1 - y0, 0 < w,
                x1 <= cap_w,
                row < h,
                y == y0 as int + row as int,
                base as int == y * cw + x0 as int,
                4 * (base as int + gw) <= rgba.len(),
                row as int * gw + gw <= gw * gh,
                spec == crop_spec(rgba@, cw, x0 as int, y0 as int, x1 as int, y1 as int),
                x <= w,
                out.len() == 4 * (row as int * gw + x as int),
                forall|k: int| 0 <= k < out.len() ==> out@[k] == spec[k],
            decreases w - x,
        {
            let ghost p = row as int * gw + x as int;
            proof {
                lemma_fundamental_div_mod_converse(p, gw, row as int, x as int);
            }
            let at: usize = 4 * (base + x as usize);
            let mut c: usize = 0;
            while c < 4
                invariant
                    c <= 4,
                    p == row as int * gw + x as int,
                    p / gw == row as int, p % gw == x as int,
                    p < gw * gh,
                    at as int == 4 * (y * cw + x0 as int + x as int),
                    at + 3 < rgba.len(),
                    y == y0 as int + row as int,
                    out.len() == 4 * p + c,
                    gw == w as int, gh == h as int, cw == cap_w as int,
                    w == x1 - x0, h == y1 - y0,
                    spec == crop_spec(rgba@, cw, x0 as int, y0 as int, x1 as int, y1 as int),
                    forall|k: int| 0 <= k < out.len() ==> out@[k] == spec[k],
                decreases 4 - c,
            {
                proof {
                    let k = 4 * p + c;
                    lemma_fundamental_div_mod_converse(k, 4, p, c as int);
                    assert(4 * gw * gh == 4 * (gw * gh)) by (nonlinear_arith);
                }
                out.push(rgba[at + c]);
                c = c + 1;
            }
            x = x + 1;
        }
        row = row + 1;
        proof {
            assert(row as int * gw == (row as int - 1) * gw + gw) by (nonlinear_arith);
        }
    }
    proof {
        assert(out.len() == 4 * gw * gh) by (nonlinear_arith)
            requires out.len() == 4 * (gh * gw);
    }
    assert(out@ =~= spec);
    Some((w, h, out))
}

/// Drop the alpha channel: every RGBA8 pixel contributes its first three
/// bytes. A trailing three-byte chunk counts as a pixel.
pub open spec fn rgb_spec(rgba: Seq<u8>) -> Seq<u8> {
    Seq::new((3 * ((rgba.len() + 1) / 4)) as nat, |k: int| rgba[4 * (k / 3) + k % 3])
}

/// RGBA8 → RGB8 (what the OCR engine consumes). The input is whole pixels,
/// or whole pixels plus a final chunk of three bytes.
pub fn rgba_to_rgb(rgba: &[u8]) -> (out: Vec<u8>)
    requires
        rgba.len() % 4 == 0 || rgba.len() % 4 == 3,
    ensures
        out@ == rgb_spec(rgba@),
{
    let ghost spec = rgb_spec(rgba@);
    let n: usize = rgba.len() / 4 + if rgba.len() % 4 == 3 { 1 } else { 0 };
    assert(n == (rgba.len() + 1) / 4);
    let mut out: Vec<u8> = Vec::new();
    let mut j: usize = 0;
    while j < n
        invariant
            spec == rgb_spec(rgba@),
            n == (rgba.len() + 1) / 4,
            rgba.len() % 4 == 0 || rgba.len() % 4 == 3,
            j <= n,
            out.len() == 3 * j,
            forall|k: int| 0 <= k < out.len() ==> out@[k] == spec[k],
        decreases n - j,
    {
        let mut c: usize = 0;
        while c < 3
            invariant
                spec == rgb_spec(rgba@),
                n == (rgba.len() + 1) / 4,
                rgba.len() % 4 == 0 || rgba.len() % 4 == 3,
                j < n,
                c <= 3,
                out.len() == 3 * j + c,
                forall|k: int| 0 <= k < out.len() ==> out@[k] == spec[k],
            decreases 3 - c,
        {
            proof {
                let k = 3 * j + c;
                lemma_fundamental_div_mod_converse(k, 3, j as int, c as int);
            }
            out.push(rgba[4 * j + c]);
            c = c + 1;
        }
        j = j + 1;
    }
    assert(out@ =~= spec);
    out
}


/// Swizzle one little-endian B,G,R,X pixel into R,G,B,A with opaque alpha.
pub fn dst_row_left_right(px: &[u8], chunk: &mut [u8])
    requires
        px.len() >= 3,
        old(chunk).len() >= 4,
    ensures
        final(chunk)@ == old(chunk)@.update(0, px@[2]).update(1, px@[1]).update(2, px@[0]).update(3, 255u8),
{
    chunk[0] = px[2];
    chunk[1] = px[1];
    chunk[2] = px[0];
    chunk[3] = 255;
}

/// Every transform is a bijection on pixel positions: each source pixel of
/// a `w`×`h` buffer lands inside the rotated size, and [`source_of`] undoes
/// [`dest_of`]; conversely each destination pixel is filled by exactly the
/// source pixel that [`source_of`] names.
pub proof fn lemma_transform_is_bijection(t: Transform, w: int, h: int, x: int, y: int)
    requires
        0 <= w, 0 <= h,
    ensures
        0 <= x < w && 0 <= y < h ==> {
            let d = dest_of(t, w, h, x, y);
            &&& 0 <= d.0 < rotated_dims(w, h, t).0
            &&& 0 <= d.1 < rotated_dims(w, h, t).1
            &&& source_of(t, w, h, d.0, d.1) == (x, y)
        },
        0 <= x < rotated_dims(w, h, t).0 && 0 <= y < rotated_dims(w, h, t).1 ==> {
            let s = source_of(t, w, h, x, y);
            &&& 0 <= s.0 < w
            &&& 0 <= s.1 < h
            &&& dest_of(t, w, h, s.0, s.1) == (x, y)
        },
{
}

/// Applying a transform's size change twice gives back the original size.
pub proof fn lemma_rotated_size_involution(w: int, h: int, t: Transform)
    ensures
        rotated_dims(rotated_dims(w, h, t).0, rotated_dims(w, h, t).1, t) == (w, h),
{
}

proof fn lemma_pixel_split(k: int, row_len: int)
    requires
        0 <= k,
        row_len > 0,
    ensures
        k == 4 * ((k / 4) / row_len * row_len + (k / 4) % row_len) + k % 4,
        0 <= k % 4 < 4,
        0 <= (k / 4) % row_len < row_len,
        0 <= (k / 4) / row_len,
{
    vstd::arithmetic::div_mod::lemma_fundamental_div_mod(k, 4);
    vstd::arithmetic::div_mod::lemma_fundamental_div_mod(k / 4, row_len);
    vstd::arithmetic::div_mod::lemma_mod_pos_bound(k, 4);
    vstd::arithmetic::div_mod::lemma_mod_pos_bound(k / 4, row_len);
    assert((k / 4) / row_len * row_len == row_len * ((k / 4) / row_len)) by (nonlinear_arith);
    vstd::arithmetic::div_mod::lemma_div_pos_is_pos(k, 4);
    vstd::arithmetic::div_mod::lemma_div_pos_is_pos(k / 4, row_len);
}

/// Rotating a buffer by `Rot90` and then rotating the result (now
/// `h`×`w`) by `Rot270` gives back the original pixels.
pub proof fn lemma_rot90_then_rot270_restores(rgba: Seq<u8>, w: int, h: int)
    requires
        0 < w, 0 < h,
        rgba.len() == 4 * w * h,
    ensures
        rotate_spec(rotate_spec(rgba, w, h, Transform::Rot90), h, w, Transform::Rot270) =~= rgba,
{
    let once = rotate_spec(rgba, w, h, Transform::Rot90);
    let twice = rotate_spec(once, h, w, Transform::Rot270);
    assert(4 * h * w == 4 * w * h) by (nonlinear_arith);
    assert forall|k: int| 0 <= k < rgba.len() implies twice[k] == rgba[k] by {
        lemma_pixel_split(k, w);
        let c = k % 4;
        let dx = (k / 4) % w;
        let dy = (k / 4) / w;
        assert(dy < h) by (nonlinear_arith)
            requires k < 4 * w * h, k == 4 * (dy * w + dx) + c, 0 <= dx, 0 <= c < 4, 0 <= dy, w > 0;
        // outer step: Rot270 of an h×w buffer reads pixel (h-1-dy, dx) of `once`
        let k2 = 4 * (dx * h + (h - 1 - dy)) + c;
        lemma_pixel_index_bound(h - 1 - dy, dx, h, w);
        assert(twice[k] == once[k2]);
        lemma_fundamental_div_mod_converse(k2, 4, dx * h + (h - 1 - dy), c);
        lemma_fundamental_div_mod_converse(dx * h + (h - 1 - dy), h, dx, h - 1 - dy);
        assert(4 * w * h == 4 * h * w) by (nonlinear_arith);
        assert(once[k2] == rgba[4 * (dy * w + dx) + c]);
    }
}

/// Rotating by 180° twice gives back the original pixels.
pub proof fn lemma_rot180_twice_restores(rgba: Seq<u8>, w: int, h: int)
    requires
        0 < w, 0 < h,
        rgba.len() == 4 * w * h,
    ensures
        rotate_spec(rotate_spec(rgba, w, h, Transform::Rot180), w, h, Transform::Rot180) =~= rgba,
{
    let once = rotate_spec(rgba, w, h, Transform::Rot180);
    let twice = rotate_spec(once, w, h, Transform::Rot180);
    assert forall|k: int| 0 <= k < rgba.len() implies twice[k] == rgba[k] by {
        lemma_pixel_split(k, w);
        let c = k % 4;
        let dx = (k / 4) % w;
        let dy = (k / 4) / w;
        assert(dy < h) by (nonlinear_arith)
            requires k < 4 * w * h, k == 4 * (dy * w + dx) + c, 0 <= dx, 0 <= c < 4, 0 <= dy, w > 0;
        let k2 = 4 * ((h - 1 - dy) * w + (w - 1 - dx)) + c;
        lemma_pixel_index_bound(w - 1 - dx, h - 1 - dy, w, h);
        assert(twice[k] == once[k2]);
        lemma_fundamental_div_mod_converse(k2, 4, (h - 1 - dy) * w + (w - 1 - dx), c);
        lemma_fundamental_div_mod_converse((h - 1 - dy) * w + (w - 1 - dx), w, h - 1 - dy, w - 1 - dx);
        assert(once[k2] == rgba[4 * (dy * w + dx) + c]);
    }
}

} // verus!
