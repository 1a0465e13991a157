//! Export: PNG encoding of RGBA8 pixels and the names files are saved
//! under. Cropping lives in [`crate::pixels::crop_rect`]; the directory
//! walk and the write are the program's.

use vstd::prelude::*;
use crate::theme::{upper_hex_char, upper_hex_digit};

verus! {

/// The bytes `png::Encoder` produces for a `w`×`h` RGBA8 image at 8 bits
/// per channel with its default compression and filtering.
pub uninterp spec fn png_bytes(w: u32, h: u32, rgba: Seq<u8>) -> Seq<u8>;

/// Calls `png::Encoder` (color RGBA, depth 8) into a `Vec`, then
/// `write_header`, `write_image_data` and `finish`. Trusted: the png
/// source refuses a zero width or height in `write_header` and image data
/// whose length is not exactly `4·w·h` in `write_image_data`; otherwise,
/// with RGBA at depth 8 (a valid combination), no animation or extra
/// chunks, IDAT chunks split below `i32::MAX` and every write going into
/// an in-memory `Vec`, it fails nowhere and yields the bytes named
/// [`png_bytes`]. The error is passed on as its message.
#[verifier::external_body]
fn png_encode(w: u32, h: u32, rgba: &[u8]) -> (r: Result<Vec<u8>, String>)
    requires
        4 * w * h <= usize::MAX,
    ensures
        r is Ok <==> (w > 0 && h > 0 && rgba@.len() == 4 * w * h),
        r matches Ok(bytes) ==> bytes@ == png_bytes(w, h, rgba@),
{
    let mut out = Vec::new();
    let mut enc = png::Encoder::new(&mut out, w, h);
    enc.set_color(png::ColorType::Rgba);
    enc.set_depth(png::BitDepth::Eight);
    let mut writer = enc.write_header().map_err(|e| format!("PNG header: {e}"))?;
    writer.write_image_data(rgba).map_err(|e| format!("PNG data: {e}"))?;
    writer.finish().map_err(|e| format!("PNG IEND: {e}"))?;
    Ok(out)
}

/// Encode RGBA8 pixels as PNG in memory (shared by the clipboard and the
/// file save). Succeeds exactly when the image is not empty and the
/// buffer holds exactly `w`×`h` pixels.
pub fn encode_png(w: u32, h: u32, rgba: &[u8]) -> (r: Result<Vec<u8>, String>)
    requires
        4 * w * h <= usize::MAX,
    ensures
        r is Ok <==> (w > 0 && h > 0 && rgba@.len() == 4 * w * h),
        r matches Ok(bytes) ==> bytes@ == png_bytes(w, h, rgba@),
{
    png_encode(w, h, rgba)
}

/// The decimal digits of `n`, most significant first.
pub open spec fn decimal(n: nat) -> Seq<char>
    decreases n,
{
    if n < 10 {
        seq![upper_hex_char(n)]
    } else {
        decimal(n / 10).push(upper_hex_char(n % 10))
    }
}

/// `n` in decimal.
pub fn decimal_string(n: u64) -> (r: String)
    ensures
        r@ == decimal(n as nat),
    decreases n,
{
    if n < 10 {
        String::from_str(upper_hex_digit(n as u32))
    } else {
        let mut s = decimal_string(n / 10);
        s.append(upper_hex_digit((n % 10) as u32));
        s
    }
}

/// Save-name candidate `n` for a stem: `stem.png` first, then
/// `stem_2.png`, `stem_3.png`, ….
pub open spec fn candidate_spec(stem: Seq<char>, n: nat) -> Seq<char> {
    if n <= 1 {
        stem + ".png"@
    } else {
        stem + "_"@ + decimal(n) + ".png"@
    }
}

/// The `n`-th file name tried when saving under `stem` (1 is the plain
/// name); the caller takes the first one not already present.
pub fn candidate_name(stem: &str, n: u64) -> (r: String)
    ensures
        r@ == candidate_spec(stem@, n as nat),
{
    let mut s = String::from_str(stem);
    if n > 1 {
        s.append("_");
        let digits = decimal_string(n);
        s.append(digits.as_str());
    }
    s.append(".png");
    s
}

/// Distinct candidates name distinct files: a collision on one name
/// always moves on to a new one.
pub proof fn lemma_candidates_distinct(stem: Seq<char>, m: nat, n: nat)
    requires
        1 <= m < n,
    ensures
        candidate_spec(stem, m) != candidate_spec(stem, n),
{
    reveal_strlit("_");
    reveal_strlit(".png");
    lemma_decimal_len(m);
    lemma_decimal_len(n);
    let a = candidate_spec(stem, m);
    let b = candidate_spec(stem, n);
    if a == b {
        if m <= 1 {
            assert(a.len() < b.len());
        } else {
            let k = stem.len() + 1;
            assert(a.len() == b.len());
            assert(decimal(m).len() == decimal(n).len());
            assert(a.subrange(k as int, (k + decimal(m).len()) as int) =~= decimal(m));
            assert(b.subrange(k as int, (k + decimal(n).len()) as int) =~= decimal(n));
            lemma_decimal_injective(m, n);
        }
    }
}

proof fn lemma_decimal_len(n: nat)
    ensures
        decimal(n).len() >= 1,
        n >= 10 ==> decimal(n).len() >= 2,
    decreases n,
{
    if n >= 10 {
        lemma_decimal_len(n / 10);
    }
}

proof fn lemma_digit_char_injective(a: nat, b: nat)
    requires
        a < 10,
        b < 10,
        upper_hex_char(a) == upper_hex_char(b),
    ensures
        a == b,
{
    assert((('0' as nat) + a) as char == (('0' as nat) + b) as char);
    assert(('0' as nat) + a == (((('0' as nat) + a) as char) as nat));
    assert(('0' as nat) + b == (((('0' as nat) + b) as char) as nat));
}

/// Different numbers have different decimal spellings.
proof fn lemma_decimal_injective(m: nat, n: nat)
    requires
        decimal(m) == decimal(n),
    ensures
        m == n,
    decreases m,
{
    lemma_decimal_len(m);
    lemma_decimal_len(n);
    if m < 10 && n < 10 {
        assert(decimal(m)[0] == upper_hex_char(m));
        assert(decimal(n)[0] == upper_hex_char(n));
        lemma_digit_char_injective(m, n);
    } else if m >= 10 && n >= 10 {
        lemma_decimal_len(m / 10);
        let dm = decimal(m);
        let dn = decimal(n);
        assert(dm.last() == upper_hex_char(m % 10));
        assert(dn.last() == upper_hex_char(n % 10));
        lemma_digit_char_injective(m % 10, n % 10);
        assert(dm.drop_last() =~= decimal(m / 10));
        assert(dn.drop_last() =~= decimal(n / 10));
        lemma_decimal_injective(m / 10, n / 10);
    } else {
        lemma_decimal_len(m / 10);
        lemma_decimal_len(n / 10);
        assert(false);
    }
}

/// The suggested name for a save-dialog or directory save:
/// `Shotori_<stamp>.png`.
pub open spec fn suggested_spec(stamp: Seq<char>) -> Seq<char> {
    "Shotori_"@ + stamp + ".png"@
}

/// Wrap a timestamp into the suggested file name.
pub fn suggested_name_for(stamp: &str) -> (r: String)
    ensures
        r@ == suggested_spec(stamp@),
{
    let mut s = String::from_str("Shotori_");
    s.append(stamp);
    s.append(".png");
    s
}

/// The `chrono` format of a save-name time stamp: local date and time to
/// the millisecond.
pub open spec fn stamp_format() -> Seq<char> {
    "%Y-%m-%d_%H-%M-%S_%3f"@
}

/// Is `c` an ASCII decimal digit?
pub open spec fn is_digit(c: char) -> bool {
    '0' <= c && c <= '9'
}

/// A year as chrono's `%Y` prints it: four digits, or (outside
/// `0..=9999`) a sign followed by at least four digits.
pub open spec fn is_stamp_year(y: Seq<char>) -> bool {
    ||| y.len() == 4 && forall|i: int| 0 <= i < 4 ==> is_digit(#[trigger] y[i])
    ||| y.len() >= 5 && (y[0] == '+' || y[0] == '-')
        && forall|i: int| 1 <= i < y.len() ==> is_digit(#[trigger] y[i])
}

/// What follows the year: `-MM-DD_HH-MM-SS_mmm`, each field zero-padded.
pub open spec fn is_stamp_tail(t: Seq<char>) -> bool {
    &&& t.len() == 19
    &&& t[0] == '-' && t[3] == '-' && t[6] == '_' && t[9] == '-' && t[12] == '-' && t[15] == '_'
    &&& forall|i: int| 0 <= i < 19 && i != 0 && i != 3 && i != 6 && i != 9 && i != 12 && i != 15
        ==> is_digit(#[trigger] t[i])
}

/// A time stamp in [`stamp_format`]: `YYYY-MM-DD_HH-MM-SS_mmm`.
pub open spec fn is_stamp(s: Seq<char>) -> bool {
    &&& s.len() >= 23
    &&& is_stamp_year(s.subrange(0, s.len() - 19))
    &&& is_stamp_tail(s.subrange(s.len() - 19, s.len() as int))
}

/// Calls `chrono::Local::now()` and `format(fmt)` with the time-stamp
/// format. Trusted: chrono's formatter prints `%Y` as four digits (a sign
/// and at least four digits outside `0..=9999`), `%m %d %H %M %S` as two
/// digits each and `%3f` as three, and every item of this format has the
/// date and time it needs, so the text has the [`is_stamp`] shape. Which
/// date and time it shows depends on the clock and the local time zone
/// and is not stated. chrono panics when the system clock reads before
/// 1970 or no local time type can be chosen; that depends on the machine
/// alone, not on any argument, so no `requires` can exclude it.
#[verifier::external_body]
fn local_time_text(fmt: &str) -> (r: String)
    requires
        fmt@ == stamp_format(),
    ensures
        is_stamp(r@),
{
    chrono::Local::now().format(fmt).to_string()
}

/// Suggested file name, e.g. `Shotori_2026-09-26_18-40-12_789.png`
/// (milliseconds distinguish rapid consecutive saves): the current local
/// time stamp wrapped by [`suggested_spec`].
pub fn suggested_name() -> (r: String)
    ensures
        exists|stamp: Seq<char>| is_stamp(stamp) && r@ == suggested_spec(stamp),
{
    let stamp = local_time_text("%Y-%m-%d_%H-%M-%S_%3f");
    let r = suggested_name_for(stamp.as_str());
    assert(is_stamp(stamp@) && r@ == suggested_spec(stamp@));
    r
}

} // verus!
