//! Stitching a selection that spans several outputs: each output's crop
//! is scaled to the common density and pasted into a transparent canvas
//! at its place, so gaps between outputs stay transparent. The placement
//! geometry (logical rectangles and scale factors) is floating-point and
//! the caller's; this module does the pixel work.

use vstd::prelude::*;
use crate::filter::{
    col_of, in_region, lemma_byte_coords, lemma_byte_split, lemma_pixel_in_frame, lemma_scan_step, row_of,
    scanned_before,
};

verus! {

/// Byte `k` of a `bw`×`bh` RGBA8 image after pasting the `tw`×`th` image
/// `top` with its top-left corner at `(x, y)`: pixels under the pasted
/// image (clipped to the canvas) take its bytes, the rest keep theirs.
pub open spec fn replaced_byte(
    bottom: Seq<u8>,
    bw: int,
    bh: int,
    top: Seq<u8>,
    tw: int,
    th: int,
    x: int,
    y: int,
    k: int,
) -> u8 {
    let px = col_of(k, bw);
    let py = row_of(k, bw);
    if in_region(k, bw, x, y, if x + tw < bw { x + tw } else { bw }, if y + th < bh { y + th } else { bh }) {
        top[4 * ((py - y) * tw + (px - x)) + k % 4]
    } else {
        bottom[k]
    }
}

/// The canvas after the paste.
pub open spec fn replace_spec(
    bottom: Seq<u8>,
    bw: int,
    bh: int,
    top: Seq<u8>,
    tw: int,
    th: int,
    x: int,
    y: int,
) -> Seq<u8> {
    Seq::new(bottom.len(), |k: int| replaced_byte(bottom, bw, bh, top, tw, th, x, y, k))
}

/// Paste the `tw`×`th` image `top` into the `bw`×`bh` canvas at `(x, y)`,
/// clipped to the canvas (`image::imageops::replace` with a non-negative
/// offset).
pub fn replace_pixels(bottom: &mut [u8], bw: u32, bh: u32, top: &[u8], tw: u32, th: u32, x: u32, y: u32)
    requires
        old(bottom).len() == 4 * bw * bh,
        top.len() == 4 * tw * th,
    ensures
        final(bottom)@ == replace_spec(old(bottom)@, bw as int, bh as int, top@, tw as int, th as int, x as int, y as int),
{
    let ghost s = bottom@;
    let ghost spec = replace_spec(s, bw as int, bh as int, top@, tw as int, th as int, x as int, y as int);
    let right: u32 = if x < bw { if bw - x > tw { x + tw } else { bw } } else { bw };
    let lower: u32 = if y < bh { if bh - y > th { y + th } else { bh } } else { bh };
    let left: u32 = if x < bw { x } else { bw };
    let upper: u32 = if y < bh { y } else { bh };
    let ghost gw = bw as int;
    let ghost (gl, gt, gr, gb) = (left as int, upper as int, right as int, lower as int);
    proof {
        assert(4 * bw * bh == 4 * (bw * bh)) by (nonlinear_arith);
        assert(4 * tw * th == 4 * (tw * th)) by (nonlinear_arith);
        assert(4 * (bh * bw) == 4 * (bw * bh)) by (nonlinear_arith);
        // The clipped region is the one the specification names.
        assert forall|k: int| 0 <= k < s.len() implies
            in_region(k, gw, gl, gt, gr, gb) == in_region(k, gw, x as int, y as int,
                if x + tw < bw { x + tw } else { bw as int }, if y + th < bh { y + th } else { bh as int }) by {}
    }
    if left >= right || upper >= lower {
        proof {
            assert forall|k: int| 0 <= k < s.len() implies bottom@[k] == spec[k] by {}
        }
        assert(bottom@ =~= spec);
        return;
    }
    let total: usize = bottom.len();
    let mut py: u32 = upper;
    while py < lower
        invariant
            bottom@.len() == s.len(),
            s.len() == total,
            s.len() == 4 * (bh * bw),
            4 * bw * bh == 4 * (bw * bh),
            top.len() == 4 * (tw * th),
            gw == bw as int,
            gl == left as int, gt == upper as int, gr == right as int, gb == lower as int,
            x <= left < right <= bw, y <= upper, upper <= py <= lower <= bh,
            right <= x + tw, lower <= y + th,
            left == x, upper == y,
            spec == replace_spec(s, bw as int, bh as int, top@, tw as int, th as int, x as int, y as int),
            forall|k: int| 0 <= k < s.len() ==> in_region(k, gw, gl, gt, gr, gb) == in_region(k, gw, x as int, y as int,
                if x + tw < bw { x + tw } else { bw as int }, if y + th < bh { y + th } else { bh as int }),
            forall|k: int| 0 <= k < s.len() ==> bottom@[k] == (
                if in_region(k, gw, gl, gt, gr, gb) && scanned_before(k, gw, gl, py as int) { spec[k] } else { s[k] }),
        decreases lower - py,
    {
        let mut px: u32 = left;
        while px < right
            invariant
                bottom@.len() == s.len(),
                s.len() == total,
                s.len() == 4 * (bh * bw),
                top.len() == 4 * (tw * th),
                gw == bw as int,
                gl == left as int, gt == upper as int, gr == right as int, gb == lower as int,
                x <= left < right <= bw, upper <= py < lower <= bh,
                right <= x + tw, lower <= y + th,
                left == x, upper == y,
                left <= px <= right,
                spec == replace_spec(s, bw as int, bh as int, top@, tw as int, th as int, x as int, y as int),
                forall|k: int| 0 <= k < s.len() ==> in_region(k, gw, gl, gt, gr, gb) == in_region(k, gw, x as int, y as int,
                    if x + tw < bw { x + tw } else { bw as int }, if y + th < bh { y + th } else { bh as int }),
                forall|k: int| 0 <= k < s.len() ==> bottom@[k] == (
                    if in_region(k, gw, gl, gt, gr, gb) && scanned_before(k, gw, px as int, py as int) { spec[k] } else { s[k] }),
            decreases right - px,
        {
            let ghost before = bottom@;
            proof {
                lemma_pixel_in_frame(px as int, py as int, gw, bh as int);
                lemma_pixel_in_frame((px - x) as int, (py - y) as int, tw as int, th as int);
                assert(th * tw == tw * th) by (nonlinear_arith);
                assert(bh * bw == bw * bh) by (nonlinear_arith);
            }
            let at = 4 * (py as usize * bw as usize + px as usize);
            let from = 4 * ((py - y) as usize * tw as usize + (px - x) as usize);
            bottom[at] = top[from];
            bottom[at + 1] = top[from + 1];
            bottom[at + 2] = top[from + 2];
            bottom[at + 3] = top[from + 3];
            proof {
                assert forall|k: int| at <= k < at + 4 implies bottom@[k] == spec[k] by {
                    lemma_byte_coords(k, gw, px as int, py as int, k - at);
                }
                lemma_scan_step(before, bottom@, s, spec, gw, gl, gt, gr, gb, px as int, py as int);
            }
            px = px + 1;
        }
        py = py + 1;
    }
    proof {
        assert forall|k: int| 0 <= k < s.len() implies bottom@[k] == spec[k] by {
            lemma_byte_split(k, gw);
        }
    }
    assert(bottom@ =~= spec);
}

/// The pixels `image::imageops::resize` with the `Triangle` filter makes
/// of the `w`×`h` RGBA8 image in `rgba` at `nw`×`nh`.
pub uninterp spec fn resized(w: u32, h: u32, rgba: Seq<u8>, nw: u32, nh: u32) -> Seq<u8>;

/// Calls `image::RgbaImage::from_raw` and `image::imageops::resize` with
/// `FilterType::Triangle`. Trusted: `from_raw` yields an image exactly
/// when the buffer holds at least `4·w·h` bytes, and `resize` returns an
/// image of exactly the requested size, whose pixels are named
/// [`resized`]. `resize` allocates a `w`×`nh` image of four `f32`
/// channels and then the `nw`×`nh` result; the `requires` keeps both
/// allocations within what a `Vec` can hold.
#[verifier::external_body]
fn triangle_resize(w: u32, h: u32, rgba: &[u8], nw: u32, nh: u32) -> (r: Option<Vec<u8>>)
    requires
        16 * w * nh <= isize::MAX,
        4 * nw * nh <= isize::MAX,
    ensures
        r is None <==> 4 * w * h > rgba@.len(),
        r matches Some(v) ==> v@ == resized(w, h, rgba@, nw, nh) && v@.len() == 4 * nw * nh,
{
    let img = image::RgbaImage::from_raw(w, h, rgba.to_vec())?;
    Some(image::imageops::resize(&img, nw, nh, image::imageops::FilterType::Triangle).into_raw())
}

/// One output's crop and where it goes: its `cw`×`ch` pixels are scaled
/// into the canvas rectangle `x..right` × `y..bottom`.
pub struct PlacedCrop {
    pub x: u32,
    pub y: u32,
    pub right: u32,
    pub bottom: u32,
    pub cw: u32,
    pub ch: u32,
    pub rgba: Vec<u8>,
}

/// The canvas after pasting the first `n` crops in order onto a fully
/// transparent `w`×`h` canvas; `None` when a crop's pixels do not hold its
/// stated size.
pub open spec fn stitch_spec(w: u32, h: u32, crops: Seq<PlacedCrop>, n: int) -> Option<Seq<u8>>
    decreases n,
{
    if n <= 0 {
        Some(Seq::new((4 * w * h) as nat, |i: int| 0u8))
    } else {
        match stitch_spec(w, h, crops, n - 1) {
            None => None,
            Some(canvas) => {
                let c = crops[n - 1];
                let nw = (c.right - c.x) as u32;
                let nh = (c.bottom - c.y) as u32;
                if 4 * c.cw * c.ch > c.rgba@.len() {
                    None
                } else {
                    Some(replace_spec(canvas, w as int, h as int, resized(c.cw, c.ch, c.rgba@, nw, nh),
                        nw as int, nh as int, c.x as int, c.y as int))
                }
            },
        }
    }
}

/// Every crop's target rectangle is well formed, and scaling the crop to
/// it allocates no more than a `Vec` can hold: a `cw`-wide intermediate
/// image of four `f32` channels at the target height, then the target.
pub open spec fn placements_fit(crops: Seq<PlacedCrop>) -> bool {
    forall|i: int| 0 <= i < crops.len() ==> {
        let c = #[trigger] crops[i];
        &&& c.x <= c.right
        &&& c.y <= c.bottom
        &&& 16 * c.cw * (c.bottom - c.y) <= isize::MAX
        &&& 4 * (c.right - c.x) * (c.bottom - c.y) <= isize::MAX
    }
}

/// Paste every crop, scaled to its rectangle, onto a transparent `w`×`h`
/// canvas (gaps between outputs stay transparent).
pub fn stitch_crops(w: u32, h: u32, crops: &Vec<PlacedCrop>) -> (r: Option<Vec<u8>>)
    requires
        4 * w * h <= usize::MAX,
        placements_fit(crops@),
    ensures
        match r {
            Some(v) => stitch_spec(w, h, crops@, crops@.len() as int) == Some(v@),
            None => stitch_spec(w, h, crops@, crops@.len() as int) is None,
        },
{
    proof {
        assert(4 * w * h == 4 * (w * h)) by (nonlinear_arith);
    }
    let n: usize = 4 * (w as usize * h as usize);
    let mut canvas: Vec<u8> = Vec::new();
    while canvas.len() < n
        invariant
            n == 4 * w * h,
            canvas.len() <= n,
            forall|i: int| 0 <= i < canvas.len() ==> canvas@[i] == 0u8,
        decreases n - canvas.len(),
    {
        canvas.push(0);
    }
    assert(canvas@ =~= Seq::new((4 * w * h) as nat, |i: int| 0u8));
    let mut i: usize = 0;
    while i < crops.len()
        invariant
            i <= crops.len(),
            4 * w * h <= usize::MAX,
            placements_fit(crops@),
            canvas@.len() == 4 * w * h,
            stitch_spec(w, h, crops@, i as int) == Some(canvas@),
        decreases crops.len() - i,
    {
        let c = &crops[i];
        assert(crops@[i as int] == *c);
        let nw = c.right - c.x;
        let nh = c.bottom - c.y;
        match triangle_resize(c.cw, c.ch, c.rgba.as_slice(), nw, nh) {
            None => {
                proof {
                    lemma_stitch_none_sticks(w, h, crops@, i as int + 1, crops@.len() as int);
                }
                return None;
            },
            Some(scaled) => {
                proof {
                    assert(4 * nw * nh == 4 * (nw * nh)) by (nonlinear_arith);
                }
                replace_pixels(canvas.as_mut_slice(), w, h, scaled.as_slice(), nw, nh, c.x, c.y);
            },
        }
        i = i + 1;
    }
    Some(canvas)
}

/// Once a crop fails, the stitched result stays `None`.
proof fn lemma_stitch_none_sticks(w: u32, h: u32, crops: Seq<PlacedCrop>, m: int, n: int)
    requires
        m <= n,
        stitch_spec(w, h, crops, m) is None,
    ensures
        stitch_spec(w, h, crops, n) is None,
    decreases n - m,
{
    if m < n {
        lemma_stitch_none_sticks(w, h, crops, m, n - 1);
    }
}

proof fn lemma_stitch_len(w: u32, h: u32, crops: Seq<PlacedCrop>, n: int)
    ensures
        stitch_spec(w, h, crops, n) matches Some(v) ==> v.len() == 4 * w * h,
    decreases n,
{
    if n > 0 {
        lemma_stitch_len(w, h, crops, n - 1);
    }
}

/// Gaps stay transparent: a canvas byte that no crop's rectangle covers is
/// zero in the stitched image.
pub proof fn lemma_gaps_stay_transparent(w: u32, h: u32, crops: Seq<PlacedCrop>, n: int, k: int)
    requires
        w > 0,
        0 <= k < 4 * w * h,
        0 <= n <= crops.len(),
        placements_fit(crops),
        forall|i: int| 0 <= i < n ==> !in_region(k, w as int, crops[i].x as int, crops[i].y as int,
            #[trigger] crops[i].right as int, crops[i].bottom as int),
    ensures
        stitch_spec(w, h, crops, n) matches Some(v) ==> v[k] == 0u8,
    decreases n,
{
    lemma_byte_split(k, w as int);
    if n > 0 {
        lemma_gaps_stay_transparent(w, h, crops, n - 1, k);
        lemma_stitch_len(w, h, crops, n - 1);
        let c = crops[n - 1];
        assert(!in_region(k, w as int, c.x as int, c.y as int, c.right as int, c.bottom as int));
        let nw = (c.right - c.x) as u32;
        let nh = (c.bottom - c.y) as u32;
        assert(c.x <= c.right && c.y <= c.bottom);
        assert(c.x + nw == c.right && c.y + nh == c.bottom);
        match stitch_spec(w, h, crops, n - 1) {
            Some(canvas) => {
                if 4 * c.cw * c.ch <= c.rgba@.len() {
                    let top = resized(c.cw, c.ch, c.rgba@, nw, nh);
                    assert(!in_region(k, w as int, c.x as int, c.y as int,
                        if c.x + nw < w { c.x + nw } else { w as int },
                        if c.y + nh < h { c.y + nh } else { h as int }));
                    assert(replace_spec(canvas, w as int, h as int, top, nw as int, nh as int, c.x as int, c.y as int)[k]
                        == canvas[k]);
                }
            },
            None => {},
        }
    }
}

} // verus!
