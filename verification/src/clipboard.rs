//! Clipboard hand-off logic. On Wayland the data source must stay alive
//! for the clipboard to hold anything, so a copy hands the bytes to a
//! resident daemon (the program re-executed with [`DAEMON_ARG`] and a MIME
//! type) that serves paste requests until another client takes the
//! selection. This module decides what the daemon is asked to offer and
//! how it answers the compositor; the process and protocol plumbing is the
//! program's.

use vstd::prelude::*;
use vstd::string::StrSliceExecFns;
use vstd::utf8::encode_utf8;
use vstd::arithmetic::div_mod::lemma_fundamental_div_mod_converse;
use crate::text::{has_prefix, starts_with};

verus! {

/// The argv marker for daemon mode.
pub const DAEMON_ARG: &'static str = "--clipboard-daemon";

/// Image MIME (accepted by GTK/Qt/browsers alike).
pub const IMAGE_MIME: &'static str = "image/png";

/// Text MIME, with the charset suffix GTK and Qt expect.
pub const TEXT_MIME: &'static str = "text/plain;charset=utf-8";

/// The error for an empty payload, on either side of the hand-off.
pub open spec fn empty_copy_message() -> Seq<char> {
    "refusing to copy empty data"@
}

/// What the daemon is started with: the MIME to offer first, and the bytes
/// to serve.
pub struct DaemonOffer {
    pub mime: String,
    pub data: Vec<u8>,
}

/// Prepare PNG bytes for the clipboard daemon, which offers them as
/// `image/png`. Empty data is refused.
pub fn copy_image(png: Vec<u8>) -> (r: Result<DaemonOffer, String>)
    ensures
        png@.len() == 0 <==> r is Err,
        r matches Err(e) ==> e@ == empty_copy_message(),
        r matches Ok(o) ==> o.mime@ == IMAGE_MIME@ && o.data@ == png@,
{
    if png.len() == 0 {
        return Err(String::from_str("refusing to copy empty data"));
    }
    Ok(DaemonOffer { mime: String::from_str(IMAGE_MIME), data: png })
}

/// Prepare text (the OCR output) for the clipboard daemon, which offers its
/// UTF-8 bytes as `text/plain;charset=utf-8`. Empty text is refused.
pub fn copy_text(text: String) -> (r: Result<DaemonOffer, String>)
    ensures
        text@.len() == 0 <==> r is Err,
        r matches Err(e) ==> e@ == empty_copy_message(),
        r matches Ok(o) ==> o.mime@ == TEXT_MIME@ && o.data@ == encode_utf8(text@),
{
    let data = text.as_str().as_bytes_vec();
    proof {
        crate::theme::lemma_utf8_len_at_least_chars(text@);
    }
    if data.len() == 0 {
        return Err(String::from_str("refusing to copy empty data"));
    }
    Ok(DaemonOffer { mime: String::from_str(TEXT_MIME), data })
}

/// Every MIME the daemon offers for its primary MIME: that one first; a
/// text MIME adds bare `text/plain` (for clients that ignore the charset
/// suffix) and the X11 names old XWayland clients ask for.
pub open spec fn offered_mimes_spec(mime: Seq<char>) -> Seq<Seq<char>> {
    if has_prefix(mime, "text/"@) {
        seq![mime, "text/plain"@, "UTF8_STRING"@, "STRING"@]
    } else {
        seq![mime]
    }
}

/// The views of a list of strings.
pub open spec fn string_views(v: Seq<String>) -> Seq<Seq<char>> {
    v.map_values(|s: String| s@)
}

/// The MIME list the daemon offers (see [`offered_mimes_spec`]).
pub fn offered_mimes(mime: &str) -> (r: Vec<String>)
    ensures
        string_views(r@) == offered_mimes_spec(mime@),
{
    let mut mimes: Vec<String> = Vec::new();
    mimes.push(String::from_str(mime));
    if starts_with(mime, "text/") {
        mimes.push(String::from_str("text/plain"));
        mimes.push(String::from_str("UTF8_STRING"));
        mimes.push(String::from_str("STRING"));
    }
    assert(string_views(mimes@) =~= offered_mimes_spec(mime@));
    mimes
}

/// The daemon's primary MIME: its third command-line word
/// (`<program> --clipboard-daemon <MIME>`), `image/png` when absent.
pub fn daemon_mime(argv: &Vec<String>) -> (r: String)
    ensures
        r@ == (if argv@.len() > 2 { argv@[2]@ } else { IMAGE_MIME@ }),
{
    if argv.len() > 2 {
        argv[2].clone()
    } else {
        String::from_str(IMAGE_MIME)
    }
}

/// The daemon refuses to serve an empty payload.
pub fn check_payload(payload: &[u8]) -> (r: Result<(), String>)
    ensures
        r is Ok <==> payload@.len() > 0,
        r matches Err(e) ==> e@ == "daemon received empty data, refusing to serve"@,
{
    if payload.len() == 0 {
        Err(String::from_str("daemon received empty data, refusing to serve"))
    } else {
        Ok(())
    }
}

/// What the compositor tells the daemon's data source.
pub enum SourceEvent {
    /// A client pastes and asks for the data in `mime_type`.
    Send { mime_type: String },
    /// Another client took the clipboard.
    Cancelled,
    /// Anything else.
    Other,
}

/// How the daemon answers a source event.
#[derive(Clone, Copy, Debug, PartialEq, Eq, Structural)]
pub enum SourceReply {
    /// Write the payload into the descriptor the paster handed over.
    WritePayload,
    /// Close the descriptor unserved (the MIME is not one we offer).
    CloseUnserved,
    /// Stop serving and exit.
    Retire,
    /// Nothing to do.
    Ignore,
}

/// The answer to a source event: a paste in an offered MIME gets the
/// payload, any other paste is closed unserved; a cancel retires the
/// daemon.
pub open spec fn source_reply_spec(mimes: Seq<Seq<char>>, event: SourceEvent) -> SourceReply {
    match event {
        SourceEvent::Send { mime_type } => if mimes.contains(mime_type@) {
            SourceReply::WritePayload
        } else {
            SourceReply::CloseUnserved
        },
        SourceEvent::Cancelled => SourceReply::Retire,
        SourceEvent::Other => SourceReply::Ignore,
    }
}

/// Every MIME the daemon offers is served on paste: the primary one and,
/// for text, each fallback name.
pub proof fn lemma_offered_mimes_are_served(mime: Seq<char>, event: SourceEvent)
    requires
        event matches SourceEvent::Send { mime_type } && offered_mimes_spec(mime).contains(mime_type@),
    ensures
        source_reply_spec(offered_mimes_spec(mime), event) == SourceReply::WritePayload,
{
}

/// Decide the answer to a source event, given the offered MIME list.
#[verifier::loop_isolation(false)]
pub fn on_source_event(mimes: &Vec<String>, event: &SourceEvent) -> (r: SourceReply)
    ensures
        r == source_reply_spec(string_views(mimes@), *event),
{
    match event {
        SourceEvent::Send { mime_type } => {
            let mut i: usize = 0;
            while i < mimes.len()
                invariant
                    i <= mimes.len(),
                    forall|j: int| 0 <= j < i ==> mimes@[j]@ != mime_type@,
                decreases mimes.len() - i,
            {
                if mimes[i] == *mime_type {
                    assert(mimes@[i as int]@ == mime_type@);
                    assert(string_views(mimes@).len() == mimes@.len());
                    assert(string_views(mimes@)[i as int] == mime_type@);
                    assert(string_views(mimes@).contains(mime_type@));
                    return SourceReply::WritePayload;
                }
                i = i + 1;
            }
            assert(!string_views(mimes@).contains(mime_type@));
            SourceReply::CloseUnserved
        },
        SourceEvent::Cancelled => SourceReply::Retire,
        SourceEvent::Other => SourceReply::Ignore,
    }
}

// ── System-owned clipboards (Windows): the formats handed over ─────────

/// The four little-endian bytes of `v`.
pub open spec fn le32(v: u32) -> Seq<u8> {
    seq![(v % 256) as u8, ((v / 256) % 256) as u8, ((v / 65536) % 256) as u8, (v / 16777216) as u8]
}

/// The 40-byte `BITMAPINFOHEADER` of a `w`×`h` 32-bit bottom-up DIB:
/// size 40, width, height (positive: bottom-up), one plane, 32 bits per
/// pixel, `BI_RGB`, the image size, and zero resolution and palette
/// fields.
pub open spec fn dib_header(w: u32, h: u32) -> Seq<u8> {
    le32(40) + le32(w) + le32(h) + seq![1u8, 0u8, 32u8, 0u8] + le32(0) + le32((4 * w * h) as u32)
        + Seq::new(16, |i: int| 0u8)
}

/// Byte `j` of the DIB's pixel rows: rows run bottom-up, each pixel
/// B,G,R then an opaque alpha.
pub open spec fn dib_pixel_byte(rgba: Seq<u8>, w: int, h: int, j: int) -> u8 {
    let p = j / 4;
    let c = j % 4;
    let y = h - 1 - p / w;
    let x = p % w;
    if c == 3 { 255 } else { rgba[4 * (y * w + x) + 2 - c] }
}

/// The whole `CF_DIB` payload for a `w`×`h` RGBA8 image.
pub open spec fn dib_spec(rgba: Seq<u8>, w: u32, h: u32) -> Seq<u8> {
    dib_header(w, h) + Seq::new((4 * w * h) as nat, |j: int| dib_pixel_byte(rgba, w as int, h as int, j))
}

fn push_le32(out: &mut Vec<u8>, v: u32)
    ensures
        final(out)@ == old(out)@ + le32(v),
{
    let b0 = (v & 0xff) as u8;
    let b1 = ((v >> 8) & 0xff) as u8;
    let b2 = ((v >> 16) & 0xff) as u8;
    let b3 = (v >> 24) as u8;
    assert(v & 0xff == v % 256) by (bit_vector);
    assert((v >> 8) & 0xff == (v / 256) % 256) by (bit_vector);
    assert((v >> 16) & 0xff == (v / 65536) % 256) by (bit_vector);
    assert(v >> 24 == v / 16777216) by (bit_vector);
    out.push(b0);
    out.push(b1);
    out.push(b2);
    out.push(b3);
    assert(out@ =~= old(out)@ + le32(v));
}

fn dib_header_bytes(w: u32, h: u32) -> (r: Vec<u8>)
    requires
        4 * w * h <= u32::MAX,
    ensures
        r@ == dib_header(w, h),
{
    let mut out: Vec<u8> = Vec::new();
    push_le32(&mut out, 40);
    push_le32(&mut out, w);
    push_le32(&mut out, h);
    out.push(1);
    out.push(0);
    out.push(32);
    out.push(0);
    push_le32(&mut out, 0);
    proof {
        assert(w * h * 4 == 4 * w * h) by (nonlinear_arith);
        assert(w * h <= u32::MAX) by (nonlinear_arith) requires 4 * w * h <= u32::MAX;
    }
    push_le32(&mut out, w * h * 4);
    let ghost head = out@;
    let mut z: usize = 0;
    while z < 16
        invariant
            z <= 16,
            out@ == head + Seq::new(z as nat, |i: int| 0u8),
        decreases 16 - z,
    {
        out.push(0);
        z = z + 1;
        assert(out@ =~= head + Seq::new(z as nat, |i: int| 0u8));
    }
    assert(out@ =~= dib_header(w, h));
    out
}

fn push_bgra(out: &mut Vec<u8>, rgba: &[u8], at: usize)
    requires
        at + 3 < rgba.len(),
    ensures
        final(out)@ == old(out)@ + seq![rgba@[at + 2], rgba@[at + 1], rgba@[at as int], 255u8],
{
    out.push(rgba[at + 2]);
    out.push(rgba[at + 1]);
    out.push(rgba[at]);
    out.push(255);
    assert(final(out)@ =~= old(out)@ + seq![rgba@[at + 2], rgba@[at + 1], rgba@[at as int], 255u8]);
}

/// Build the `CF_DIB` payload (header, then bottom-up B,G,R,255 rows) for
/// a `w`×`h` RGBA8 image.
#[verifier::rlimit(30)]
pub fn dib_from_rgba(w: u32, h: u32, rgba: &[u8]) -> (dib: Vec<u8>)
    requires
        rgba.len() == 4 * w * h,
        4 * w * h <= u32::MAX,
    ensures
        dib@ == dib_spec(rgba@, w, h),
{
    let ghost gw = w as int;
    let ghost gh = h as int;
    let ghost header = dib_header(w, h);
    let mut out = dib_header_bytes(w, h);
    let ghost pixels = Seq::new((4 * w * h) as nat, |j: int| dib_pixel_byte(rgba@, gw, gh, j));
    proof {
        assert(0 <= gw * gh) by (nonlinear_arith) requires gw >= 0, gh >= 0;
        assert(4 * gw * gh == 4 * (gw * gh)) by (nonlinear_arith);
        assert(pixels.subrange(0, 0) =~= Seq::<u8>::empty());
        assert(out@ =~= header + pixels.subrange(0, 0));
    }
    let mut row: u32 = 0;
    while row < h
        invariant
            gw == w as int, gh == h as int,
            rgba.len() == 4 * w * h,
            4 * gw * gh == 4 * (gw * gh),
            pixels == Seq::new((4 * w * h) as nat, |j: int| dib_pixel_byte(rgba@, gw, gh, j)),
            row <= h,
            out@ == header + pixels.subrange(0, 4 * (row as int * gw)),
        decreases h - row,
    {
        let y = h - 1 - row;
        proof {
            assert(row as int * gw + gw <= gw * gh) by (nonlinear_arith)
                requires row < h, gw >= 0, gh == h as int;
            assert(y as int * gw + gw <= gw * gh) by (nonlinear_arith)
                requires y < h, gw >= 0, gh == h as int;
            assert(0 <= y as int * gw) by (nonlinear_arith) requires gw >= 0, y >= 0;
        }
        let base: usize = y as usize * w as usize;
        let mut x: u32 = 0;
        while x < w
            invariant
                gw == w as int, gh == h as int,
                rgba.len() == 4 * w * h,
                4 * gw * gh == 4 * (gw * gh),
                pixels == Seq::new((4 * w * h) as nat, |j: int| dib_pixel_byte(rgba@, gw, gh, j)),
                row < h,
                y == h - 1 - row,
                base as int == y as int * gw,
                4 * (base as int + gw) <= rgba.len(),
                row as int * gw + gw <= gw * gh,
                x <= w,
                out@ == header + pixels.subrange(0, 4 * (row as int * gw + x as int)),
            decreases w - x,
        {
            let at: usize = 4 * (base + x as usize);
            let ghost p = row as int * gw + x as int;
            proof {
                lemma_fundamental_div_mod_converse(p, gw, row as int, x as int);
                lemma_fundamental_div_mod_converse(4 * p, 4, p, 0);
                lemma_fundamental_div_mod_converse(4 * p + 1, 4, p, 1);
                lemma_fundamental_div_mod_converse(4 * p + 2, 4, p, 2);
                lemma_fundamental_div_mod_converse(4 * p + 3, 4, p, 3);
                assert(pixels.subrange(0, 4 * p + 4) =~= pixels.subrange(0, 4 * p)
                    + seq![rgba@[at + 2], rgba@[at + 1], rgba@[at as int], 255u8]);
            }
            push_bgra(&mut out, rgba, at);
            x = x + 1;
        }
        row = row + 1;
        proof {
            assert(row as int * gw == (row as int - 1) * gw + gw) by (nonlinear_arith);
        }
    }
    proof {
        assert(4 * (gh * gw) == 4 * w * h) by (nonlinear_arith) requires gw == w as int, gh == h as int;
        assert(pixels.subrange(0, 4 * (gh * gw)) =~= pixels);
    }
    out
}

/// The UTF-16 code units of a character: itself below `U+10000`, a
/// surrogate pair above.
pub open spec fn utf16_units(c: char) -> Seq<u16> {
    let v = c as u32;
    if v < 0x10000 {
        seq![v as u16]
    } else {
        seq![(0xD800 + (v - 0x10000) / 1024) as u16, (0xDC00 + (v - 0x10000) % 1024) as u16]
    }
}

/// The little-endian bytes of one code unit.
pub open spec fn unit_bytes(u: u16) -> Seq<u8> {
    seq![(u % 256) as u8, (u / 256) as u8]
}

/// The UTF-16LE bytes of a character.
pub open spec fn char_utf16le(c: char) -> Seq<u8> {
    let units = utf16_units(c);
    if units.len() == 1 { unit_bytes(units[0]) } else { unit_bytes(units[0]) + unit_bytes(units[1]) }
}

/// UTF-16LE bytes of the first `n` characters.
pub open spec fn utf16le_prefix(text: Seq<char>, n: int) -> Seq<u8>
    decreases n,
{
    if n <= 0 { seq![] } else { utf16le_prefix(text, n - 1) + char_utf16le(text[n - 1]) }
}

/// The `CF_UNICODETEXT` payload: UTF-16LE and a terminating NUL unit.
pub open spec fn unicode_text_spec(text: Seq<char>) -> Seq<u8> {
    utf16le_prefix(text, text.len() as int) + seq![0u8, 0u8]
}

fn push_le16(out: &mut Vec<u8>, u: u16)
    ensures
        final(out)@ == old(out)@ + unit_bytes(u),
{
    out.push((u % 256) as u8);
    out.push((u / 256) as u8);
    assert(final(out)@ =~= old(out)@ + unit_bytes(u));
}

/// Encode text for a system-owned clipboard: UTF-16LE with a terminating
/// NUL. Empty text is refused.
pub fn unicode_text(text: &str) -> (r: Result<Vec<u8>, String>)
    ensures
        r is Err <==> text@.len() == 0,
        r matches Err(e) ==> e@ == empty_copy_message(),
        r matches Ok(bytes) ==> bytes@ == unicode_text_spec(text@),
{
    let n = text.unicode_len();
    if n == 0 {
        return Err(String::from_str("refusing to copy empty data"));
    }
    let mut out: Vec<u8> = Vec::new();
    let mut i: usize = 0;
    while i < n
        invariant
            n == text@.len(),
            i <= n,
            out@ == utf16le_prefix(text@, i as int),
        decreases n - i,
    {
        let c = text.get_char(i);
        let v = c as u32;
        let ghost before = out@;
        if v < 0x10000 {
            push_le16(&mut out, v as u16);
        } else {
            let hi = (0xD800 + (v - 0x10000) / 1024) as u16;
            let lo = (0xDC00 + (v - 0x10000) % 1024) as u16;
            push_le16(&mut out, hi);
            push_le16(&mut out, lo);
        }
        assert(out@ =~= before + char_utf16le(text@[i as int]));
        i = i + 1;
    }
    out.push(0);
    out.push(0);
    assert(out@ =~= unicode_text_spec(text@));
    Ok(out)
}

} // verus!
