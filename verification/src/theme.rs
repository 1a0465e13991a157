//! Theme values and the JSON override rules: built-in themes, `#RRGGBB`
//! colors and the per-field override pass.
//!
//! Colors are `u32` in the `0xRRGGBBAA` layout. The dim strength is an
//! `f32` in the theme file; here it is carried as its IEEE-754 bit pattern
//! so that its range check can be stated exactly.

use vstd::prelude::*;
use vstd::utf8::encode_utf8;
use vstd::string::StrSliceExecFns;
use crate::export::{decimal, decimal_string};

verus! {

/// Is `c` an ASCII hexadecimal digit?
pub open spec fn is_hex_digit(c: char) -> bool {
    ('0' <= c && c <= '9') || ('a' <= c && c <= 'f') || ('A' <= c && c <= 'F')
}

/// The value of an ASCII hexadecimal digit.
pub open spec fn hex_digit_value(c: char) -> nat {
    if '0' <= c && c <= '9' {
        (c as nat - '0' as nat) as nat
    } else if 'a' <= c && c <= 'f' {
        (c as nat - 'a' as nat + 10) as nat
    } else {
        (c as nat - 'A' as nat + 10) as nat
    }
}

/// The value of a string of hexadecimal digits, most significant first.
pub open spec fn hex_value(ds: Seq<char>) -> nat
    decreases ds.len(),
{
    if ds.len() == 0 {
        0
    } else {
        hex_value(ds.drop_last()) * 16 + hex_digit_value(ds.last())
    }
}

/// Whether `t` is a color's digits: at least one character, every one of
/// them a hexadecimal digit.
pub open spec fn parses_as_hex(t: Seq<char>) -> bool {
    t.len() > 0 && forall|i: int| 0 <= i < t.len() ==> is_hex_digit(#[trigger] t[i])
}

/// The color text with one leading `#` removed, if it has one.
pub open spec fn strip_hash(s: Seq<char>) -> Seq<char> {
    if s.len() > 0 && s[0] == '#' { s.drop_first() } else { s }
}

/// The length in UTF-8 bytes (what `str::len` reports).
pub open spec fn byte_len(t: Seq<char>) -> int {
    encode_utf8(t).len() as int
}

/// `#RRGGBB` or `#RRGGBBAA` (the `#` optional) → `0xRRGGBBAA`, or the
/// error text. The length rule counts UTF-8 bytes.
pub open spec fn hex_spec(s: Seq<char>) -> Result<u32, Seq<char>> {
    let t = strip_hash(s);
    let n = byte_len(t);
    if n != 6 && n != 8 {
        Err("\""@ + t + "\": expected #RRGGBB or #RRGGBBAA"@)
    } else if !parses_as_hex(t) {
        Err("\""@ + t + "\": not a hex color"@)
    } else if n == 8 {
        Ok(hex_value(t) as u32)
    } else {
        Ok((hex_value(t) * 256 + 255) as u32)
    }
}

pub(crate) proof fn lemma_utf8_len_at_least_chars(t: Seq<char>)
    ensures
        encode_utf8(t).len() >= t.len(),
    decreases t.len(),
{
    if t.len() > 0 {
        lemma_utf8_len_at_least_chars(t.drop_first());
    }
}

/// `16^k`.
pub open spec fn pow16(k: nat) -> nat
    decreases k,
{
    if k == 0 { 1 } else { 16 * pow16((k - 1) as nat) }
}

proof fn lemma_pow16_mono(a: nat, b: nat)
    requires
        a <= b,
    ensures
        pow16(a) <= pow16(b),
    decreases b - a,
{
    if a < b {
        lemma_pow16_mono(a, (b - 1) as nat);
    }
}

proof fn lemma_hex_value_bound(ds: Seq<char>)
    requires
        forall|i: int| 0 <= i < ds.len() ==> is_hex_digit(#[trigger] ds[i]),
    ensures
        hex_value(ds) < pow16(ds.len()),
    decreases ds.len(),
{
    if ds.len() > 0 {
        let init = ds.drop_last();
        assert forall|i: int| 0 <= i < init.len() implies is_hex_digit(#[trigger] init[i]) by {
            assert(init[i] == ds[i]);
        }
        lemma_hex_value_bound(init);
        assert(is_hex_digit(ds[ds.len() - 1]));
        let p = pow16(init.len());
        assert(hex_value(init) * 16 + hex_digit_value(ds.last()) < p * 16) by (nonlinear_arith)
            requires hex_value(init) < p, hex_digit_value(ds.last()) < 16;
    }
}

fn hex_digit(c: char) -> (r: Option<u32>)
    ensures
        r is Some <==> is_hex_digit(c),
        r matches Some(v) ==> v == hex_digit_value(c) && v < 16,
{
    if '0' <= c && c <= '9' {
        Some(c as u32 - '0' as u32)
    } else if 'a' <= c && c <= 'f' {
        Some(c as u32 - 'a' as u32 + 10)
    } else if 'A' <= c && c <= 'F' {
        Some(c as u32 - 'A' as u32 + 10)
    } else {
        None
    }
}

fn quoted_error(t: &str, tail: &str) -> (r: String)
    ensures
        r@ == "\""@ + t@ + tail@,
{
    let mut msg = String::from_str("\"");
    msg.append(t);
    msg.append(tail);
    msg
}

/// `#RRGGBB` or `#RRGGBBAA` (the `#` is optional) → `0xRRGGBBAA`.
pub fn hex(s: &str) -> (r: Result<u32, String>)
    ensures
        match (r, hex_spec(s@)) {
            (Ok(v), Ok(w)) => v == w,
            (Err(e), Err(m)) => e@ == m,
            _ => false,
        },
{
    let n = s.unicode_len();
    let t: &str = if n > 0 && s.get_char(0) == '#' { s.substring_char(1, n) } else { s };
    assert(t@ == strip_hash(s@));
    let bytes = t.as_bytes().len();
    assert(bytes as int == byte_len(t@));
    if bytes != 6 && bytes != 8 {
        return Err(quoted_error(t, "\": expected #RRGGBB or #RRGGBBAA"));
    }
    let m = t.unicode_len();
    proof {
        lemma_utf8_len_at_least_chars(t@);
        assert(encode_utf8(t@).len() == bytes);
    }
    let ghost ds = t@;
    if m == 0 {
        return Err(quoted_error(t, "\": not a hex color"));
    }
    let mut v: u32 = 0;
    let mut i: usize = 0;
    while i < m
        invariant
            i <= m,
            m == t@.len(),
            m <= 8,
            ds == t@,
            t@ == strip_hash(s@),
            bytes as int == byte_len(t@),
            bytes == 6 || bytes == 8,
            forall|j: int| 0 <= j < i ==> is_hex_digit(#[trigger] ds[j]),
            v == hex_value(ds.subrange(0, i as int)),
            v < pow16(i as nat),
        decreases m - i,
    {
        let c = t.get_char(i);
        match hex_digit(c) {
            Some(d) => {
                let ghost pre = ds.subrange(0, i as int);
                let ghost next = ds.subrange(0, i + 1 as int);
                assert(next.drop_last() =~= pre);
                assert(next.last() == c);
                proof {
                    lemma_pow16_mono(i as nat, 7);
                    reveal_with_fuel(pow16, 8);
                    assert(pow16((i + 1) as nat) == 16 * pow16(i as nat));
                    assert(v * 16 + d < pow16(i as nat) * 16) by (nonlinear_arith)
                        requires v < pow16(i as nat), d < 16;
                }
                v = v * 16 + d;
            }
            None => {
                assert(ds[i as int] == c);
                assert(!is_hex_digit(ds[i as int]));
                assert(!parses_as_hex(t@));
                return Err(quoted_error(t, "\": not a hex color"));
            }
        }
        i = i + 1;
    }
    assert(ds.subrange(0, m as int) =~= ds);
    if bytes == 8 {
        Ok(v)
    } else {
        proof {
            lemma_pow16_mono(m as nat, 6);
            reveal_with_fuel(pow16, 7);
        }
        Ok(v * 256 + 255)
    }
}


/// The uppercase hexadecimal digit for `d < 16`.
pub open spec fn upper_hex_char(d: nat) -> char {
    if d < 10 { (('0' as nat) + d) as char } else { (('A' as nat) + d - 10) as char }
}

/// The eight uppercase hexadecimal digits of `v`, most significant first.
pub open spec fn upper_hex8(v: u32) -> Seq<char> {
    Seq::new(8, |i: int| upper_hex_char(((v as nat) / pow16((7 - i) as nat)) % 16))
}

/// `0xRRGGBBAA` → `#RRGGBBAA`.
pub open spec fn to_hex_spec(v: u32) -> Seq<char> {
    seq!['#'] + upper_hex8(v)
}

pub(crate) fn upper_hex_digit(d: u32) -> (r: &'static str)
    requires
        d < 16,
    ensures
        r@ == seq![upper_hex_char(d as nat)],
{
    proof {
        reveal_strlit("0"); reveal_strlit("1"); reveal_strlit("2"); reveal_strlit("3");
        reveal_strlit("4"); reveal_strlit("5"); reveal_strlit("6"); reveal_strlit("7");
        reveal_strlit("8"); reveal_strlit("9"); reveal_strlit("A"); reveal_strlit("B");
        reveal_strlit("C"); reveal_strlit("D"); reveal_strlit("E"); reveal_strlit("F");
    }
    let r = match d {
        0 => "0", 1 => "1", 2 => "2", 3 => "3", 4 => "4", 5 => "5", 6 => "6", 7 => "7",
        8 => "8", 9 => "9", 10 => "A", 11 => "B", 12 => "C", 13 => "D", 14 => "E", _ => "F",
    };
    assert(r@ =~= seq![upper_hex_char(d as nat)]);
    r
}

/// `0xRRGGBBAA` → `#RRGGBBAA` (uppercase, always eight digits).
pub fn to_hex(v: u32) -> (r: String)
    ensures
        r@ == to_hex_spec(v),
{
    proof {
        reveal_strlit("#");
    }
    let mut out = String::from_str("#");
    let mut i: u32 = 0;
    let mut shift: u32 = 28;
    while i < 8
        invariant
            i <= 8,
            shift == 28 - 4 * i || (i == 8),
            out@ == seq!['#'] + upper_hex8(v).subrange(0, i as int),
        decreases 8 - i,
    {
        let d = (v >> shift) & 0xF;
        proof {
            reveal_with_fuel(pow16, 8);
            assert(shift == 28 - 4 * i);
            assert(d as nat == ((v as nat) / pow16((7 - i) as nat)) % 16) by {
                lemma_shift_digit(v, i);
            }
        }
        out.append(upper_hex_digit(d));
        assert(upper_hex8(v).subrange(0, i + 1) =~= upper_hex8(v).subrange(0, i as int).push(upper_hex8(v)[i as int]));
        i = i + 1;
        if i < 8 {
            shift = shift - 4;
        }
    }
    assert(upper_hex8(v).subrange(0, 8) =~= upper_hex8(v));
    out
}

proof fn lemma_shift_digit(v: u32, i: u32)
    requires
        i < 8,
    ensures
        (((v >> (28 - 4 * i) as u32) & 0xF) as nat) == ((v as nat) / pow16((7 - i) as nat)) % 16,
{
    reveal_with_fuel(pow16, 8);
    let s = (28 - 4 * i) as u32;
    assert((v >> s) & 0xF == (v >> s) % 16) by (bit_vector);
    if i == 0 {
        assert(v >> 28u32 == v / 0x1000_0000) by (bit_vector);
        assert(pow16(7) == 0x1000_0000);
        assert(((v >> 28u32) as nat) == (v as nat) / pow16((7 - i) as nat));
    } else if i == 1 {
        assert(v >> 24u32 == v / 0x100_0000) by (bit_vector);
        assert(pow16(6) == 0x100_0000);
        assert(((v >> 24u32) as nat) == (v as nat) / pow16((7 - i) as nat));
    } else if i == 2 {
        assert(v >> 20u32 == v / 0x10_0000) by (bit_vector);
        assert(pow16(5) == 0x10_0000);
        assert(((v >> 20u32) as nat) == (v as nat) / pow16((7 - i) as nat));
    } else if i == 3 {
        assert(v >> 16u32 == v / 0x1_0000) by (bit_vector);
        assert(pow16(4) == 0x1_0000);
        assert(((v >> 16u32) as nat) == (v as nat) / pow16((7 - i) as nat));
    } else if i == 4 {
        assert(v >> 12u32 == v / 0x1000) by (bit_vector);
        assert(pow16(3) == 0x1000);
        assert(((v >> 12u32) as nat) == (v as nat) / pow16((7 - i) as nat));
    } else if i == 5 {
        assert(v >> 8u32 == v / 0x100) by (bit_vector);
        assert(pow16(2) == 0x100);
        assert(((v >> 8u32) as nat) == (v as nat) / pow16((7 - i) as nat));
    } else if i == 6 {
        assert(v >> 4u32 == v / 0x10) by (bit_vector);
        assert(pow16(1) == 0x10);
        assert(((v >> 4u32) as nat) == (v as nat) / pow16((7 - i) as nat));
    } else {
        assert(v >> 0u32 == v) by (bit_vector);
        assert(pow16(0) == 1);
        assert((v as nat) / 1 == v as nat);
        assert(((v >> 0u32) as nat) == (v as nat) / pow16((7 - i) as nat));
    }
}

proof fn lemma_hex_prefix_value(v: u32, k: nat)
    requires
        k <= 8,
    ensures
        hex_value(upper_hex8(v).subrange(0, k as int)) == (v as nat) / pow16((8 - k) as nat),
    decreases k,
{
    reveal_with_fuel(pow16, 9);
    let ds = upper_hex8(v);
    if k == 0 {
        assert(ds.subrange(0, 0) =~= Seq::<char>::empty());
        assert((v as nat) / pow16(8) == 0) by {
            assert(pow16(8) == 0x1_0000_0000);
            vstd::arithmetic::div_mod::lemma_basic_div(v as int, 0x1_0000_0000);
        }
    } else {
        let pre = ds.subrange(0, k - 1);
        let cur = ds.subrange(0, k as int);
        assert(cur.drop_last() =~= pre);
        lemma_hex_prefix_value(v, (k - 1) as nat);
        let a = pow16((8 - k) as nat);
        assert(pow16((8 - (k - 1)) as nat) == 16 * a);
        assert(a > 0) by { lemma_pow16_mono(0, (8 - k) as nat); }
        let q = (v as nat) / a;
        let dig = q % 16;
        assert(dig < 16) by { vstd::arithmetic::div_mod::lemma_mod_pos_bound(q as int, 16); }
        assert(cur.last() == upper_hex_char(dig));
        assert(hex_digit_value(upper_hex_char(dig)) == dig);
        vstd::arithmetic::div_mod::lemma_div_denominator(v as int, a as int, 16);
        assert((v as nat) / (16 * a) == q / 16) by {
            assert(a * 16 == 16 * a) by (nonlinear_arith);
        }
        vstd::arithmetic::div_mod::lemma_fundamental_div_mod(q as int, 16);
    }
}

/// A color printed with [`to_hex`] parses back with [`hex`] to the same
/// value.
pub proof fn lemma_hex_round_trip(v: u32)
    ensures
        hex_spec(to_hex_spec(v)) == Ok::<u32, Seq<char>>(v),
{
    reveal_with_fuel(pow16, 9);
    let s = to_hex_spec(v);
    let t = strip_hash(s);
    assert(t =~= upper_hex8(v));
    assert forall|i: int| 0 <= i < t.len() implies is_hex_digit(#[trigger] t[i]) && t[i] != '+' && '\0' <= t[i] <= '\u{7f}' by {
        let dig = ((v as nat) / pow16((7 - i) as nat)) % 16;
        assert(dig < 16) by { vstd::arithmetic::div_mod::lemma_mod_pos_bound(((v as nat) / pow16((7 - i) as nat)) as int, 16); }
    }
    assert(vstd::utf8::is_ascii_chars(t));
    vstd::utf8::is_ascii_chars_encode_utf8(t);
    assert(encode_utf8(t).len() == 8);
    assert(parses_as_hex(t));
    lemma_hex_prefix_value(v, 8);
    assert(upper_hex8(v).subrange(0, 8) =~= upper_hex8(v));
    assert(pow16(0) == 1);
    assert((v as nat) / 1 == v as nat);
    assert(hex_value(t) == v as nat);
    assert(byte_len(t) == 8);
}


/// How many swatches the annotation palette carries.
pub const PALETTE: usize = 7;

/// The complete visual vocabulary of the overlay; one struct so a theme is
/// a value: build it, override it, ship it.
#[derive(Clone, Copy, Debug, PartialEq, Eq)]
pub struct Theme {
    /// Dim layer outside the selection, at full opacity.
    pub dim_color: u32,
    /// Dim strength, 0.0 (clear) .. 1.0 (solid), as the bit pattern of an
    /// `f32` (`f32::to_bits`). Default dark: 0.55.
    pub dim_opacity_bits: u32,
    /// Selection border, focused controls, OCR chip border.
    pub accent: u32,
    pub pin_border: u32,
    pub chip_bg: u32,
    pub hint_text: u32,
    pub btn_text: u32,
    pub btn_hover_bg: u32,
    pub toolbar_bg: u32,
    pub toolbar_text: u32,
    pub toolbar_border: u32,
    pub toolbar_hover: u32,
    pub toolbar_selected: u32,
    pub swatch_border: u32,
    pub mosaic_dark: u32,
    pub mosaic_light: u32,
    /// Annotation swatch palette (opaque: exported PNGs must be solid).
    pub annotation_colors: [u32; 7],
}

/// The dark palette (the default look).
pub open spec fn dark_palette() -> Seq<u32> {
    seq![0xFF4545FFu32, 0xFF8A32FF, 0xFFD43BFF, 0x40C878FF, 0x409CFFFF, 0x222222FF, 0xFFFFFFFF]
}

/// Fields shared by every built-in theme (the dim layer, accent, mosaic
/// icon grays and palette come from `dark`).
pub open spec fn has_dark_base(t: Theme) -> bool {
    &&& t.dim_color == 0x000000FF
    &&& t.dim_opacity_bits == 0x3F0C_CCCD
    &&& t.accent == 0xFF6A00FF
    &&& t.mosaic_dark == 0x858A93FF
    &&& t.mosaic_light == 0xCDD0D6FF
    &&& t.annotation_colors@ == dark_palette()
}

/// The dark theme: dark chips over a 55% dim.
pub open spec fn is_dark(t: Theme) -> bool {
    &&& has_dark_base(t)
    &&& t.pin_border == 0xFF6A0099
    &&& t.chip_bg == 0x16161DE6
    &&& t.hint_text == 0xAAAAAAFF
    &&& t.btn_text == 0xEEEEEEFF
    &&& t.btn_hover_bg == 0xFFFFFF26
    &&& t.toolbar_bg == 0x202028FF
    &&& t.toolbar_text == 0xE8E8EEFF
    &&& t.toolbar_border == 0x3E3E4CFF
    &&& t.toolbar_hover == 0x2C2C3AFF
    &&& t.toolbar_selected == 0x453528FF
    &&& t.swatch_border == 0xFFFFFF38
}

/// The light theme: same accent, softer surfaces.
pub open spec fn is_light(t: Theme) -> bool {
    &&& has_dark_base(t)
    &&& t.chip_bg == 0xFAFAFCE6
    &&& t.hint_text == 0x30343BFF
    &&& t.btn_text == 0x30343BFF
    &&& t.btn_hover_bg == 0x00000014
    &&& t.pin_border == 0x30343B99
    &&& t.toolbar_bg == 0xFAFAFCFF
    &&& t.toolbar_text == 0x30343BFF
    &&& t.toolbar_border == 0xC3C7CEFF
    &&& t.toolbar_hover == 0xEAEDF2FF
    &&& t.toolbar_selected == 0xFFE5D3FF
    &&& t.swatch_border == 0x00000026
}

/// The high-contrast theme: pure black chips, white text, hard borders.
pub open spec fn is_high_contrast(t: Theme) -> bool {
    &&& has_dark_base(t)
    &&& t.pin_border == 0xFF6A0099
    &&& t.btn_hover_bg == 0xFFFFFF26
    &&& t.chip_bg == 0x000000FA
    &&& t.hint_text == 0xFFFFFFFF
    &&& t.btn_text == 0xFFFFFFFF
    &&& t.toolbar_bg == 0xFFFFFFFF
    &&& t.toolbar_text == 0x000000FF
    &&& t.toolbar_border == 0x000000FF
    &&& t.toolbar_hover == 0x00000026
    &&& t.toolbar_selected == 0x30303AFF
    &&& t.swatch_border == 0x00000059
}

impl Theme {
    /// The default look: dark chips over a 55% dim.
    pub fn dark() -> (t: Theme)
        ensures
            is_dark(t),
    {
        let t = Theme {
            dim_color: 0x000000FF,
            dim_opacity_bits: 0x3F0C_CCCD,
            accent: 0xFF6A00FF,
            pin_border: 0xFF6A0099,
            chip_bg: 0x16161DE6,
            hint_text: 0xAAAAAAFF,
            btn_text: 0xEEEEEEFF,
            btn_hover_bg: 0xFFFFFF26,
            toolbar_bg: 0x202028FF,
            toolbar_text: 0xE8E8EEFF,
            toolbar_border: 0x3E3E4CFF,
            toolbar_hover: 0x2C2C3AFF,
            toolbar_selected: 0x453528FF,
            swatch_border: 0xFFFFFF38,
            mosaic_dark: 0x858A93FF,
            mosaic_light: 0xCDD0D6FF,
            annotation_colors: [0xFF4545FF, 0xFF8A32FF, 0xFFD43BFF, 0x40C878FF, 0x409CFFFF, 0x222222FF, 0xFFFFFFFF],
        };
        assert(t.annotation_colors@ =~= dark_palette());
        t
    }

    /// Light chips for bright wallpapers: same accent, softer surfaces.
    pub fn light() -> (t: Theme)
        ensures
            is_light(t),
    {
        let base = Theme::dark();
        Theme {
            chip_bg: 0xFAFAFCE6,
            hint_text: 0x30343BFF,
            btn_text: 0x30343BFF,
            btn_hover_bg: 0x00000014,
            pin_border: 0x30343B99,
            toolbar_bg: 0xFAFAFCFF,
            toolbar_text: 0x30343BFF,
            toolbar_border: 0xC3C7CEFF,
            toolbar_hover: 0xEAEDF2FF,
            toolbar_selected: 0xFFE5D3FF,
            swatch_border: 0x00000026,
            ..base
        }
    }

    /// Maximum-contrast UI copy: pure black chips, white text, hard borders.
    pub fn high_contrast() -> (t: Theme)
        ensures
            is_high_contrast(t),
    {
        let base = Theme::dark();
        Theme {
            chip_bg: 0x000000FA,
            hint_text: 0xFFFFFFFF,
            btn_text: 0xFFFFFFFF,
            toolbar_bg: 0xFFFFFFFF,
            toolbar_text: 0x000000FF,
            toolbar_border: 0x000000FF,
            toolbar_hover: 0x00000026,
            toolbar_selected: 0x30303AFF,
            swatch_border: 0x00000059,
            ..base
        }
    }
}

/// Every built-in theme keeps the annotation palette full and opaque:
/// the colors go into exported PNGs.
pub proof fn lemma_builtin_palette_opaque(t: Theme)
    requires
        is_dark(t) || is_light(t) || is_high_contrast(t),
    ensures
        t.annotation_colors@.len() == PALETTE,
        forall|i: int| 0 <= i < PALETTE ==> #[trigger] t.annotation_colors@[i] & 0xFF == 0xFF,
{
    assert forall|i: int| 0 <= i < PALETTE implies #[trigger] t.annotation_colors@[i] & 0xFF == 0xFF by {
        let c = t.annotation_colors@[i];
        assert(c == dark_palette()[i]);
        if i == 0 { assert(0xFF4545FFu32 & 0xFF == 0xFF) by (bit_vector); }
        else if i == 1 { assert(0xFF8A32FFu32 & 0xFF == 0xFF) by (bit_vector); }
        else if i == 2 { assert(0xFFD43BFFu32 & 0xFF == 0xFF) by (bit_vector); }
        else if i == 3 { assert(0x40C878FFu32 & 0xFF == 0xFF) by (bit_vector); }
        else if i == 4 { assert(0x409CFFFFu32 & 0xFF == 0xFF) by (bit_vector); }
        else if i == 5 { assert(0x222222FFu32 & 0xFF == 0xFF) by (bit_vector); }
        else { assert(0xFFFFFFFFu32 & 0xFF == 0xFF) by (bit_vector); }
    }
}

/// The message for a name that is not a built-in theme.
pub open spec fn unknown_theme_message(name: Seq<char>) -> Seq<char> {
    "unknown theme \""@ + name + "\" (want dark | light | high_contrast)"@
}

/// Built-in name → theme.
pub fn built_in(name: &str) -> (r: Result<Theme, String>)
    ensures
        name@ == "dark"@ ==> (r matches Ok(t) && is_dark(t)),
        name@ == "light"@ ==> (r matches Ok(t) && is_light(t)),
        name@ == "high_contrast"@ ==> (r matches Ok(t) && is_high_contrast(t)),
        name@ != "dark"@ && name@ != "light"@ && name@ != "high_contrast"@
            ==> (r matches Err(e) && e@ == unknown_theme_message(name@)),
{
    proof {
        reveal_strlit("dark");
        reveal_strlit("light");
        reveal_strlit("high_contrast");
        assert("light"@.len() == 5);
        assert("dark"@.len() == 4);
        assert("high_contrast"@.len() == 13);
        assert("light"@ != "dark"@);
        assert("high_contrast"@ != "dark"@);
        assert("high_contrast"@ != "light"@);
    }
    let n = String::from_str(name);
    if n == String::from_str("dark") {
        Ok(Theme::dark())
    } else if n == String::from_str("light") {
        Ok(Theme::light())
    } else if n == String::from_str("high_contrast") {
        Ok(Theme::high_contrast())
    } else {
        let mut msg = String::from_str("unknown theme \"");
        msg.append(name);
        msg.append("\" (want dark | light | high_contrast)");
        Err(msg)
    }
}

/// Where the active theme came from (for logs and `--print-theme`).
#[derive(Debug, PartialEq, Eq)]
pub enum Source {
    Default,
    BuiltIn(String),
    File(String),
}


/// The theme fields a file can override, in the order they are checked.
#[derive(Clone, Copy, Debug, PartialEq, Eq)]
pub enum ColorField {
    DimColor,
    Accent,
    PinBorder,
    ChipBg,
    HintText,
    BtnText,
    BtnHoverBg,
    ToolbarBg,
    ToolbarText,
    ToolbarBorder,
    ToolbarHover,
    ToolbarSelected,
    SwatchBorder,
    MosaicDark,
    MosaicLight,
    AnnotationColors,
}

/// One rejected override. The offending value falls back to the base.
#[derive(Debug, PartialEq, Eq)]
pub enum ThemeError {
    /// A color value that [`hex`] rejects, with its message.
    Color { field: ColorField, message: String },
    /// A dim strength outside `0.0 ..= 1.0` (or NaN), as `f32` bits.
    DimOpacity { bits: u32 },
    /// More palette entries than [`PALETTE`].
    TooManyColors { count: usize },
}

/// The mathematical content of a [`ThemeError`].
pub enum ThemeErrorView {
    Color(ColorField, Seq<char>),
    DimOpacity(u32),
    TooManyColors(nat),
}

impl View for ThemeError {
    type V = ThemeErrorView;

    open spec fn view(&self) -> ThemeErrorView {
        match self {
            ThemeError::Color { field, message } => ThemeErrorView::Color(*field, message@),
            ThemeError::DimOpacity { bits } => ThemeErrorView::DimOpacity(*bits),
            ThemeError::TooManyColors { count } => ThemeErrorView::TooManyColors(*count as nat),
        }
    }
}

/// A field's key in the theme file.
pub open spec fn field_name_spec(f: ColorField) -> Seq<char> {
    match f {
        ColorField::DimColor => "dim_color"@,
        ColorField::Accent => "accent"@,
        ColorField::PinBorder => "pin_border"@,
        ColorField::ChipBg => "chip_bg"@,
        ColorField::HintText => "hint_text"@,
        ColorField::BtnText => "btn_text"@,
        ColorField::BtnHoverBg => "btn_hover_bg"@,
        ColorField::ToolbarBg => "toolbar_bg"@,
        ColorField::ToolbarText => "toolbar_text"@,
        ColorField::ToolbarBorder => "toolbar_border"@,
        ColorField::ToolbarHover => "toolbar_hover"@,
        ColorField::ToolbarSelected => "toolbar_selected"@,
        ColorField::SwatchBorder => "swatch_border"@,
        ColorField::MosaicDark => "mosaic_dark"@,
        ColorField::MosaicLight => "mosaic_light"@,
        ColorField::AnnotationColors => "annotation_colors"@,
    }
}

/// A field's key in the theme file.
pub fn field_name(f: ColorField) -> (r: &'static str)
    ensures
        r@ == field_name_spec(f),
{
    match f {
        ColorField::DimColor => "dim_color",
        ColorField::Accent => "accent",
        ColorField::PinBorder => "pin_border",
        ColorField::ChipBg => "chip_bg",
        ColorField::HintText => "hint_text",
        ColorField::BtnText => "btn_text",
        ColorField::BtnHoverBg => "btn_hover_bg",
        ColorField::ToolbarBg => "toolbar_bg",
        ColorField::ToolbarText => "toolbar_text",
        ColorField::ToolbarBorder => "toolbar_border",
        ColorField::ToolbarHover => "toolbar_hover",
        ColorField::ToolbarSelected => "toolbar_selected",
        ColorField::SwatchBorder => "swatch_border",
        ColorField::MosaicDark => "mosaic_dark",
        ColorField::MosaicLight => "mosaic_light",
        ColorField::AnnotationColors => "annotation_colors",
    }
}

/// The report line of a rejected override; `None` for a dim strength,
/// whose value is an `f32` that the program formats.
pub open spec fn error_message_spec(e: ThemeErrorView) -> Option<Seq<char>> {
    match e {
        ThemeErrorView::Color(field, message) => Some(field_name_spec(field) + ": "@ + message),
        ThemeErrorView::DimOpacity(_) => None,
        ThemeErrorView::TooManyColors(count) => Some(
            "annotation_colors: "@ + decimal(count) + " entries, max 7"@,
        ),
    }
}

/// The report line of a rejected override (see [`error_message_spec`]).
pub fn error_message(e: &ThemeError) -> (r: Option<String>)
    ensures
        match (r, error_message_spec(e@)) {
            (Some(line), Some(m)) => line@ == m,
            (None, None) => true,
            _ => false,
        },
{
    match e {
        ThemeError::Color { field, message } => {
            let mut line = String::from_str(field_name(*field));
            line.append(": ");
            line.append(message.as_str());
            Some(line)
        },
        ThemeError::DimOpacity { .. } => None,
        ThemeError::TooManyColors { count } => {
            let mut line = String::from_str("annotation_colors: ");
            line.append(decimal_string(*count as u64).as_str());
            line.append(" entries, max 7");
            Some(line)
        },
    }
}

/// The override file: every field optional. `dim_opacity_bits` is the
/// `f32` strength as `f32::to_bits`.
#[derive(Debug, Default, PartialEq)]
pub struct ThemeFile {
    /// A single `"//"` key is accepted as a comment.
    pub comment: Option<String>,
    /// Built-in base to start from before applying overrides.
    pub base: Option<String>,
    pub dim_color: Option<String>,
    pub dim_opacity_bits: Option<u32>,
    pub accent: Option<String>,
    pub pin_border: Option<String>,
    pub chip_bg: Option<String>,
    pub hint_text: Option<String>,
    pub btn_text: Option<String>,
    pub btn_hover_bg: Option<String>,
    pub toolbar_bg: Option<String>,
    pub toolbar_text: Option<String>,
    pub toolbar_border: Option<String>,
    pub toolbar_hover: Option<String>,
    pub toolbar_selected: Option<String>,
    pub swatch_border: Option<String>,
    pub mosaic_dark: Option<String>,
    pub mosaic_light: Option<String>,
    /// Up to [`PALETTE`] colors; a missing tail keeps the base values.
    pub annotation_colors: Option<Vec<String>>,
}

/// An optional text value as characters.
pub open spec fn opt_text(o: Option<String>) -> Option<Seq<char>> {
    match o {
        Some(s) => Some(s@),
        None => None,
    }
}

/// A color slot after an optional override: the parsed value, or the old
/// value when absent or invalid.
pub open spec fn color_after(cur: u32, v: Option<Seq<char>>) -> u32 {
    match v {
        Some(s) => match hex_spec(s) {
            Ok(c) => c,
            Err(_) => cur,
        },
        None => cur,
    }
}

/// The error an optional color override contributes (none or one).
pub open spec fn color_errors(field: ColorField, v: Option<Seq<char>>) -> Seq<ThemeErrorView> {
    match v {
        Some(s) => match hex_spec(s) {
            Ok(_) => Seq::empty(),
            Err(m) => seq![ThemeErrorView::Color(field, m)],
        },
        None => Seq::empty(),
    }
}

/// `(0.0..=1.0).contains(&v)` for the `f32` with bits `bits`: the positive
/// floats up to 1.0 (their bit patterns are ordered like their values)
/// and negative zero. NaN and everything else is out of range.
pub open spec fn opacity_in_range(bits: u32) -> bool {
    bits <= 0x3F80_0000 || bits == 0x8000_0000
}

/// The dim strength after an optional override.
pub open spec fn opacity_after(cur: u32, v: Option<u32>) -> u32 {
    match v {
        Some(b) => if opacity_in_range(b) { b } else { cur },
        None => cur,
    }
}

/// The error an optional dim strength contributes.
pub open spec fn opacity_errors(v: Option<u32>) -> Seq<ThemeErrorView> {
    match v {
        Some(b) => if opacity_in_range(b) { Seq::empty() } else { seq![ThemeErrorView::DimOpacity(b)] },
        None => Seq::empty(),
    }
}

/// The palette entry list as characters.
pub open spec fn opt_list(o: Option<Vec<String>>) -> Option<Seq<Seq<char>>> {
    match o {
        Some(v) => Some(v@.map_values(|s: String| s@)),
        None => None,
    }
}

/// The palette after an optional override: a list longer than the palette
/// changes nothing; otherwise entry `i` overrides slot `i`.
pub open spec fn palette_after(cur: Seq<u32>, v: Option<Seq<Seq<char>>>) -> Seq<u32> {
    match v {
        Some(l) => if l.len() > PALETTE {
            cur
        } else {
            Seq::new(cur.len(), |i: int| if i < l.len() { color_after(cur[i], Some(l[i])) } else { cur[i] })
        },
        None => cur,
    }
}

/// The errors of the first `n` palette entries, in order.
pub open spec fn palette_entry_errors(l: Seq<Seq<char>>, n: int) -> Seq<ThemeErrorView>
    decreases n,
{
    if n <= 0 {
        Seq::empty()
    } else {
        palette_entry_errors(l, n - 1) + color_errors(ColorField::AnnotationColors, Some(l[n - 1]))
    }
}

/// The errors a palette override contributes.
pub open spec fn palette_errors(v: Option<Seq<Seq<char>>>) -> Seq<ThemeErrorView> {
    match v {
        Some(l) => if l.len() > PALETTE {
            seq![ThemeErrorView::TooManyColors(l.len())]
        } else {
            palette_entry_errors(l, l.len() as int)
        },
        None => Seq::empty(),
    }
}

/// Every error an override file produces, in checking order.
pub open spec fn apply_errors(f: ThemeFile) -> Seq<ThemeErrorView> {
    color_errors(ColorField::DimColor, opt_text(f.dim_color))
        + opacity_errors(f.dim_opacity_bits)
        + color_errors(ColorField::Accent, opt_text(f.accent))
        + color_errors(ColorField::PinBorder, opt_text(f.pin_border))
        + color_errors(ColorField::ChipBg, opt_text(f.chip_bg))
        + color_errors(ColorField::HintText, opt_text(f.hint_text))
        + color_errors(ColorField::BtnText, opt_text(f.btn_text))
        + color_errors(ColorField::BtnHoverBg, opt_text(f.btn_hover_bg))
        + color_errors(ColorField::ToolbarBg, opt_text(f.toolbar_bg))
        + color_errors(ColorField::ToolbarText, opt_text(f.toolbar_text))
        + color_errors(ColorField::ToolbarBorder, opt_text(f.toolbar_border))
        + color_errors(ColorField::ToolbarHover, opt_text(f.toolbar_hover))
        + color_errors(ColorField::ToolbarSelected, opt_text(f.toolbar_selected))
        + color_errors(ColorField::SwatchBorder, opt_text(f.swatch_border))
        + color_errors(ColorField::MosaicDark, opt_text(f.mosaic_dark))
        + color_errors(ColorField::MosaicLight, opt_text(f.mosaic_light))
        + palette_errors(opt_list(f.annotation_colors))
}

/// The theme `new` is `old` with every override of `f` applied.
pub open spec fn applied(old: Theme, new: Theme, f: ThemeFile) -> bool {
    &&& new.dim_color == color_after(old.dim_color, opt_text(f.dim_color))
    &&& new.dim_opacity_bits == opacity_after(old.dim_opacity_bits, f.dim_opacity_bits)
    &&& new.accent == color_after(old.accent, opt_text(f.accent))
    &&& new.pin_border == color_after(old.pin_border, opt_text(f.pin_border))
    &&& new.chip_bg == color_after(old.chip_bg, opt_text(f.chip_bg))
    &&& new.hint_text == color_after(old.hint_text, opt_text(f.hint_text))
    &&& new.btn_text == color_after(old.btn_text, opt_text(f.btn_text))
    &&& new.btn_hover_bg == color_after(old.btn_hover_bg, opt_text(f.btn_hover_bg))
    &&& new.toolbar_bg == color_after(old.toolbar_bg, opt_text(f.toolbar_bg))
    &&& new.toolbar_text == color_after(old.toolbar_text, opt_text(f.toolbar_text))
    &&& new.toolbar_border == color_after(old.toolbar_border, opt_text(f.toolbar_border))
    &&& new.toolbar_hover == color_after(old.toolbar_hover, opt_text(f.toolbar_hover))
    &&& new.toolbar_selected == color_after(old.toolbar_selected, opt_text(f.toolbar_selected))
    &&& new.swatch_border == color_after(old.swatch_border, opt_text(f.swatch_border))
    &&& new.mosaic_dark == color_after(old.mosaic_dark, opt_text(f.mosaic_dark))
    &&& new.mosaic_light == color_after(old.mosaic_light, opt_text(f.mosaic_light))
    &&& new.annotation_colors@ == palette_after(old.annotation_colors@, opt_list(f.annotation_colors))
}

/// The errors as views.
pub open spec fn error_views(es: Seq<ThemeError>) -> Seq<ThemeErrorView> {
    es.map_values(|e: ThemeError| e@)
}

fn apply_color(slot: &mut u32, v: &Option<String>, field: ColorField, errs: &mut Vec<ThemeError>)
    ensures
        *final(slot) == color_after(*old(slot), opt_text(*v)),
        error_views(final(errs)@) == error_views(old(errs)@) + color_errors(field, opt_text(*v)),
{
    let ghost before = error_views(errs@);
    match v {
        Some(text) => match hex(text.as_str()) {
            Ok(c) => {
                *slot = c;
                assert(error_views(errs@) =~= before + color_errors(field, opt_text(*v)));
            },
            Err(message) => {
                errs.push(ThemeError::Color { field, message });
                assert(error_views(errs@) =~= before + color_errors(field, opt_text(*v)));
            },
        },
        None => {
            assert(error_views(errs@) =~= before + color_errors(field, opt_text(*v)));
        },
    }
}

/// Apply every present override onto `theme`. Bad values are collected
/// as errors and leave their slot at the base value; good ones apply
/// regardless (a later bad field does not undo earlier good ones).
pub fn apply(theme: &mut Theme, file: &ThemeFile) -> (r: Result<(), Vec<ThemeError>>)
    ensures
        applied(*old(theme), *final(theme), *file),
        match r {
            Ok(()) => apply_errors(*file).len() == 0,
            Err(es) => es@.len() > 0 && error_views(es@) == apply_errors(*file),
        },
{
    let ghost f = *file;
    let ghost start = *theme;
    let mut errs: Vec<ThemeError> = Vec::new();
    assert(error_views(errs@) =~= Seq::<ThemeErrorView>::empty());
    apply_color(&mut theme.dim_color, &file.dim_color, ColorField::DimColor, &mut errs);
    match file.dim_opacity_bits {
        Some(b) => {
            if b <= 0x3F80_0000 || b == 0x8000_0000 {
                theme.dim_opacity_bits = b;
            } else {
                let ghost before = error_views(errs@);
                errs.push(ThemeError::DimOpacity { bits: b });
                assert(error_views(errs@) =~= before + opacity_errors(f.dim_opacity_bits));
            }
        },
        None => {},
    }
    let ghost e2 = color_errors(ColorField::DimColor, opt_text(f.dim_color)) + opacity_errors(f.dim_opacity_bits);
    assert(error_views(errs@) =~= e2);
    apply_color(&mut theme.accent, &file.accent, ColorField::Accent, &mut errs);
    apply_color(&mut theme.pin_border, &file.pin_border, ColorField::PinBorder, &mut errs);
    apply_color(&mut theme.chip_bg, &file.chip_bg, ColorField::ChipBg, &mut errs);
    apply_color(&mut theme.hint_text, &file.hint_text, ColorField::HintText, &mut errs);
    apply_color(&mut theme.btn_text, &file.btn_text, ColorField::BtnText, &mut errs);
    apply_color(&mut theme.btn_hover_bg, &file.btn_hover_bg, ColorField::BtnHoverBg, &mut errs);
    apply_color(&mut theme.toolbar_bg, &file.toolbar_bg, ColorField::ToolbarBg, &mut errs);
    apply_color(&mut theme.toolbar_text, &file.toolbar_text, ColorField::ToolbarText, &mut errs);
    apply_color(&mut theme.toolbar_border, &file.toolbar_border, ColorField::ToolbarBorder, &mut errs);
    apply_color(&mut theme.toolbar_hover, &file.toolbar_hover, ColorField::ToolbarHover, &mut errs);
    apply_color(&mut theme.toolbar_selected, &file.toolbar_selected, ColorField::ToolbarSelected, &mut errs);
    apply_color(&mut theme.swatch_border, &file.swatch_border, ColorField::SwatchBorder, &mut errs);
    apply_color(&mut theme.mosaic_dark, &file.mosaic_dark, ColorField::MosaicDark, &mut errs);
    apply_color(&mut theme.mosaic_light, &file.mosaic_light, ColorField::MosaicLight, &mut errs);
    let ghost before_palette = error_views(errs@);
    let ghost pal0 = theme.annotation_colors@;
    let ghost mid = *theme;
    match &file.annotation_colors {
        Some(list) => {
            let ghost l = list@.map_values(|s: String| s@);
            if list.len() > PALETTE {
                errs.push(ThemeError::TooManyColors { count: list.len() });
                assert(error_views(errs@) =~= before_palette + palette_errors(opt_list(f.annotation_colors)));
            } else {
                let mut i: usize = 0;
                while i < list.len()
                    invariant
                        list.len() <= PALETTE,
                        l == list@.map_values(|s: String| s@),
                        i <= list.len(),
                        theme.annotation_colors@.len() == PALETTE,
                        *theme == (Theme { annotation_colors: theme.annotation_colors, ..mid }),
                        pal0.len() == PALETTE,
                        forall|j: int| 0 <= j < PALETTE ==> #[trigger] theme.annotation_colors@[j] == (
                            if j < i { color_after(pal0[j], Some(l[j])) } else { pal0[j] }),
                        error_views(errs@) == before_palette + palette_entry_errors(l, i as int),
                    decreases list.len() - i,
                {
                    let ghost pre = error_views(errs@);
                    let mut slot: u32 = theme.annotation_colors[i];
                    assert(list@[i as int]@ == l[i as int]);
                    apply_color(&mut slot, &Some(list[i].clone()), ColorField::AnnotationColors, &mut errs);
                    theme.annotation_colors[i] = slot;
                    assert(error_views(errs@) =~= before_palette + palette_entry_errors(l, i + 1));
                    i = i + 1;
                }
                assert(theme.annotation_colors@ =~= palette_after(pal0, opt_list(f.annotation_colors)));
            }
        },
        None => {},
    }
    assert(theme.annotation_colors@ =~= palette_after(pal0, opt_list(f.annotation_colors)));
    assert(error_views(errs@) =~= apply_errors(f));
    if errs.len() == 0 {
        Ok(())
    } else {
        Err(errs)
    }
}

/// The base a theme file may name: none (dark) or a built-in.
pub open spec fn known_base(name: Option<Seq<char>>) -> bool {
    match name {
        Some(n) => n == "dark"@ || n == "light"@ || n == "high_contrast"@,
        None => true,
    }
}

/// `t` is the built-in a theme file's base names (dark when none).
pub open spec fn is_base(name: Option<Seq<char>>, t: Theme) -> bool {
    match name {
        Some(n) => if n == "light"@ { is_light(t) } else if n == "high_contrast"@ { is_high_contrast(t) } else { is_dark(t) },
        None => is_dark(t),
    }
}

/// A theme file's result: its base (dark when it names none) with its
/// overrides applied, or the base name's error.
pub fn theme_from_file(file: &ThemeFile) -> (r: Result<(Theme, Vec<ThemeError>), String>)
    ensures
        r is Ok <==> known_base(opt_text(file.base)),
        r matches Err(e) ==> (opt_text(file.base) matches Some(name) && e@ == unknown_theme_message(name)),
        r matches Ok((t, es)) ==> exists|base: Theme| #[trigger] is_base(opt_text(file.base), base)
            && applied(base, t, *file) && error_views(es@) == apply_errors(*file),
{
    proof {
        reveal_strlit("dark");
        reveal_strlit("light");
        reveal_strlit("high_contrast");
    }
    let mut theme = match &file.base {
        None => Theme::dark(),
        Some(name) => match built_in(name.as_str()) {
            Ok(t) => t,
            Err(e) => return Err(e),
        },
    };
    let ghost base = theme;
    assert(is_base(opt_text(file.base), base));
    let errs = match apply(&mut theme, file) {
        Ok(()) => {
            let e: Vec<ThemeError> = Vec::new();
            assert(error_views(e@) =~= apply_errors(*file));
            e
        },
        Err(es) => es,
    };
    assert(applied(base, theme, *file));
    Ok((theme, errs))
}

/// How `--theme` and `--no-config` pick the theme.
#[derive(Debug, PartialEq, Eq)]
pub enum ThemeRequest {
    /// A built-in by name.
    BuiltIn(String),
    /// A JSON file by path.
    File(String),
    /// The auto-pickup config file, when it exists; dark otherwise.
    ConfigFile,
    /// Dark.
    Default,
}

/// A `--theme` value containing a path separator or a dot names a file;
/// anything else names a built-in.
pub open spec fn names_file(v: Seq<char>) -> bool {
    v.contains('/') || v.contains('.')
}

fn has_char(s: &str, c: char) -> (r: bool)
    ensures
        r == s@.contains(c),
{
    let n = s.unicode_len();
    let mut i: usize = 0;
    while i < n
        invariant
            n == s@.len(),
            i <= n,
            forall|j: int| 0 <= j < i ==> s@[j] != c,
        decreases n - i,
    {
        if s.get_char(i) == c {
            return true;
        }
        i = i + 1;
    }
    false
}

/// Decide where the theme comes from.
pub fn theme_request(value: &Option<String>, no_config: bool) -> (r: ThemeRequest)
    ensures
        match value {
            Some(v) => if names_file(v@) { r matches ThemeRequest::File(p) && p@ == v@ }
                else { r matches ThemeRequest::BuiltIn(n) && n@ == v@ },
            None => if no_config { r is Default } else { r is ConfigFile },
        },
{
    match value {
        Some(v) => {
            if has_char(v.as_str(), '/') || has_char(v.as_str(), '.') {
                ThemeRequest::File(v.clone())
            } else {
                ThemeRequest::BuiltIn(v.clone())
            }
        },
        None => if no_config { ThemeRequest::Default } else { ThemeRequest::ConfigFile },
    }
}

/// A built-in request resolved: the theme and its source, or dark with the
/// error when the name is unknown.
pub fn resolve_built_in(name: &str) -> (r: (Theme, Source, Vec<String>))
    ensures
        name@ == "dark"@ ==> is_dark(r.0),
        name@ == "light"@ ==> is_light(r.0),
        name@ == "high_contrast"@ ==> is_high_contrast(r.0),
        name@ == "dark"@ || name@ == "light"@ || name@ == "high_contrast"@ ==> {
            &&& (r.1 matches Source::BuiltIn(n) && n@ == name@)
            &&& r.2@.len() == 0
        },
        name@ != "dark"@ && name@ != "light"@ && name@ != "high_contrast"@ ==> {
            &&& is_dark(r.0)
            &&& r.1 is Default
            &&& r.2@.len() == 1
            &&& r.2@[0]@ == unknown_theme_message(name@)
        },
{
    match built_in(name) {
        Ok(t) => (t, Source::BuiltIn(String::from_str(name)), Vec::new()),
        Err(e) => {
            let mut errs = Vec::new();
            errs.push(e);
            (Theme::dark(), Source::Default, errs)
        },
    }
}

/// The first line of `--print-theme`: where the theme came from.
pub open spec fn source_line_spec(source: Source) -> Seq<char> {
    "shotori theme — source: "@ + match source {
        Source::Default => "default (dark)"@,
        Source::BuiltIn(n) => "built-in "@ + n@,
        Source::File(p) => p@,
    }
}

/// The first line of `--print-theme`.
pub fn source_line(source: &Source) -> (r: String)
    ensures
        r@ == source_line_spec(*source),
{
    let mut line = String::from_str("shotori theme — source: ");
    match source {
        Source::Default => line.append("default (dark)"),
        Source::BuiltIn(n) => {
            line.append("built-in ");
            line.append(n.as_str());
        },
        Source::File(p) => line.append(p.as_str()),
    }
    line
}

/// Colors printed with [`to_hex`], separated by single spaces.
pub open spec fn joined_hex(cs: Seq<u32>) -> Seq<char>
    decreases cs.len(),
{
    if cs.len() == 0 {
        seq![]
    } else if cs.len() == 1 {
        to_hex_spec(cs[0])
    } else {
        joined_hex(cs.drop_last()) + seq![' '] + to_hex_spec(cs.last())
    }
}

/// The color lines of `--print-theme`, after the dim line: one labelled
/// row per color, then the palette.
pub open spec fn color_lines_spec(t: Theme) -> Seq<Seq<char>> {
    seq![
        "accent         "@ + to_hex_spec(t.accent),
        "pin_border     "@ + to_hex_spec(t.pin_border),
        "chip_bg        "@ + to_hex_spec(t.chip_bg),
        "hint_text      "@ + to_hex_spec(t.hint_text),
        "btn_text       "@ + to_hex_spec(t.btn_text),
        "btn_hover_bg   "@ + to_hex_spec(t.btn_hover_bg),
        "toolbar_bg     "@ + to_hex_spec(t.toolbar_bg),
        "toolbar_text   "@ + to_hex_spec(t.toolbar_text),
        "toolbar_border "@ + to_hex_spec(t.toolbar_border),
        "toolbar_hover  "@ + to_hex_spec(t.toolbar_hover),
        "toolbar_selected "@ + to_hex_spec(t.toolbar_selected),
        "swatch_border   "@ + to_hex_spec(t.swatch_border),
        "mosaic_dark    "@ + to_hex_spec(t.mosaic_dark),
        "mosaic_light   "@ + to_hex_spec(t.mosaic_light),
        "annotation_colors "@ + joined_hex(t.annotation_colors@)
    ]
}

fn color_row(label: &str, v: u32) -> (r: String)
    ensures
        r@ == label@ + to_hex_spec(v),
{
    let mut row = String::from_str(label);
    row.append(to_hex(v).as_str());
    row
}

/// The color lines of `--print-theme` (see [`color_lines_spec`]).
pub fn color_lines(theme: &Theme) -> (r: Vec<String>)
    ensures
        r@.map_values(|l: String| l@) == color_lines_spec(*theme),
{
    let mut rows: Vec<String> = Vec::new();
    rows.push(color_row("accent         ", theme.accent));
    rows.push(color_row("pin_border     ", theme.pin_border));
    rows.push(color_row("chip_bg        ", theme.chip_bg));
    rows.push(color_row("hint_text      ", theme.hint_text));
    rows.push(color_row("btn_text       ", theme.btn_text));
    rows.push(color_row("btn_hover_bg   ", theme.btn_hover_bg));
    rows.push(color_row("toolbar_bg     ", theme.toolbar_bg));
    rows.push(color_row("toolbar_text   ", theme.toolbar_text));
    rows.push(color_row("toolbar_border ", theme.toolbar_border));
    rows.push(color_row("toolbar_hover  ", theme.toolbar_hover));
    rows.push(color_row("toolbar_selected ", theme.toolbar_selected));
    rows.push(color_row("swatch_border   ", theme.swatch_border));
    rows.push(color_row("mosaic_dark    ", theme.mosaic_dark));
    rows.push(color_row("mosaic_light   ", theme.mosaic_light));
    let mut palette = String::from_str("annotation_colors ");
    let ghost head = palette@;
    let mut i: usize = 0;
    while i < 7
        invariant
            i <= 7,
            palette@ == head + joined_hex(theme.annotation_colors@.subrange(0, i as int)),
        decreases 7 - i,
    {
        proof {
            reveal_strlit(" ");
            let pre = theme.annotation_colors@.subrange(0, i as int + 1);
            assert(pre.drop_last() =~= theme.annotation_colors@.subrange(0, i as int));
            if i == 0 {
                assert(theme.annotation_colors@.subrange(0, 0) =~= Seq::<u32>::empty());
            }
        }
        if i > 0 {
            palette.append(" ");
        }
        palette.append(to_hex(theme.annotation_colors[i]).as_str());
        proof {
            let pre = theme.annotation_colors@.subrange(0, i as int + 1);
            assert(palette@ =~= head + joined_hex(pre));
        }
        i = i + 1;
    }
    assert(theme.annotation_colors@.subrange(0, 7) =~= theme.annotation_colors@);
    rows.push(palette);
    assert(rows@.map_values(|l: String| l@) =~= color_lines_spec(*theme));
    rows
}

/// The value of a single-color theme field (`AnnotationColors` is a
/// list and has none; it reads as 0).
pub open spec fn field_value(t: Theme, f: ColorField) -> u32 {
    match f {
        ColorField::DimColor => t.dim_color,
        ColorField::Accent => t.accent,
        ColorField::PinBorder => t.pin_border,
        ColorField::ChipBg => t.chip_bg,
        ColorField::HintText => t.hint_text,
        ColorField::BtnText => t.btn_text,
        ColorField::BtnHoverBg => t.btn_hover_bg,
        ColorField::ToolbarBg => t.toolbar_bg,
        ColorField::ToolbarText => t.toolbar_text,
        ColorField::ToolbarBorder => t.toolbar_border,
        ColorField::ToolbarHover => t.toolbar_hover,
        ColorField::ToolbarSelected => t.toolbar_selected,
        ColorField::SwatchBorder => t.swatch_border,
        ColorField::MosaicDark => t.mosaic_dark,
        ColorField::MosaicLight => t.mosaic_light,
        ColorField::AnnotationColors => 0,
    }
}

/// Where `--print-theme`'s color lines show a field (the dim line comes
/// before them, the palette after).
pub open spec fn print_row(f: ColorField) -> int {
    match f {
        ColorField::Accent => 0,
        ColorField::PinBorder => 1,
        ColorField::ChipBg => 2,
        ColorField::HintText => 3,
        ColorField::BtnText => 4,
        ColorField::BtnHoverBg => 5,
        ColorField::ToolbarBg => 6,
        ColorField::ToolbarText => 7,
        ColorField::ToolbarBorder => 8,
        ColorField::ToolbarHover => 9,
        ColorField::ToolbarSelected => 10,
        ColorField::SwatchBorder => 11,
        ColorField::MosaicDark => 12,
        ColorField::MosaicLight => 13,
        _ => 14,
    }
}

/// A line shows the color `v` under the field name `name`: the name,
/// then spaces, then the color in a form [`hex`] reads back as `v`.
pub open spec fn row_shows(line: Seq<char>, name: Seq<char>, v: u32) -> bool {
    &&& line.len() >= name.len() + 9
    &&& line.subrange(0, name.len() as int) == name
    &&& forall|j: int| name.len() <= j < line.len() - 9 ==> #[trigger] line[j] == ' '
    &&& hex_spec(line.subrange(line.len() - 9, line.len() as int)) == Ok::<u32, Seq<char>>(v)
}

proof fn lemma_row_shows(label: Seq<char>, name: Seq<char>, v: u32)
    requires
        label.len() >= name.len(),
        label.subrange(0, name.len() as int) == name,
        forall|j: int| name.len() <= j < label.len() ==> #[trigger] label[j] == ' ',
    ensures
        row_shows(label + to_hex_spec(v), name, v),
{
    let line = label + to_hex_spec(v);
    assert(to_hex_spec(v).len() == 9);
    assert(line.subrange(0, name.len() as int) =~= label.subrange(0, name.len() as int));
    assert(line.subrange(line.len() - 9, line.len() as int) =~= to_hex_spec(v));
    assert forall|j: int| name.len() <= j < line.len() - 9 implies #[trigger] line[j] == ' ' by {
        assert(line[j] == label[j]);
    }
    lemma_hex_round_trip(v);
}

/// The palette line lists the palette in order: after its label, the
/// `i`-th color sits at characters `18 + 10·i ..` and reads back with
/// [`hex`] as that palette entry.
pub open spec fn palette_line_shows(line: Seq<char>, cs: Seq<u32>) -> bool {
    &&& line.len() == 18 + 10 * cs.len() - 1
    &&& line.subrange(0, 18) == "annotation_colors "@
    &&& forall|i: int| 0 <= i < cs.len() ==>
        hex_spec(#[trigger] line.subrange(18 + 10 * i, 18 + 10 * i + 9)) == Ok::<u32, Seq<char>>(cs[i])
}

proof fn lemma_joined_hex_segments(cs: Seq<u32>)
    requires
        cs.len() >= 1,
    ensures
        joined_hex(cs).len() == 10 * cs.len() - 1,
        forall|i: int| 0 <= i < cs.len() ==>
            #[trigger] joined_hex(cs).subrange(10 * i, 10 * i + 9) == to_hex_spec(cs[i]),
    decreases cs.len(),
{
    if cs.len() == 1 {
        assert(joined_hex(cs).subrange(0, 9) =~= to_hex_spec(cs[0]));
    } else {
        let init = cs.drop_last();
        lemma_joined_hex_segments(init);
        let j = joined_hex(cs);
        assert(j == joined_hex(init) + seq![' '] + to_hex_spec(cs.last()));
        assert forall|i: int| 0 <= i < cs.len() implies
            #[trigger] joined_hex(cs).subrange(10 * i, 10 * i + 9) == to_hex_spec(cs[i]) by {
            if i < cs.len() - 1 {
                assert(joined_hex(init).subrange(10 * i, 10 * i + 9) == to_hex_spec(init[i]));
                assert(j.subrange(10 * i, 10 * i + 9) =~= joined_hex(init).subrange(10 * i, 10 * i + 9));
            } else {
                assert(j.subrange(10 * i, 10 * i + 9) =~= to_hex_spec(cs.last()));
            }
        }
    }
}

/// Each labelled line of `--print-theme` shows its own field: the line at
/// a field's row starts with the field's name in the theme file, then
/// spaces, then that field's color of `t`, which [`hex`] reads back; the
/// last line lists the palette in order.
pub proof fn lemma_print_theme_shows_each_field(t: Theme)
    ensures
        forall|f: ColorField| f != ColorField::DimColor && f != ColorField::AnnotationColors ==>
            row_shows(#[trigger] color_lines_spec(t)[print_row(f)], field_name_spec(f), field_value(t, f)),
        palette_line_shows(color_lines_spec(t)[14], t.annotation_colors@),
        color_lines_spec(t).len() == 15,
{
    assert forall|f: ColorField| f != ColorField::DimColor && f != ColorField::AnnotationColors implies
        row_shows(#[trigger] color_lines_spec(t)[print_row(f)], field_name_spec(f), field_value(t, f)) by {
        match f {
            ColorField::Accent => {
                reveal_strlit("accent         ");
                reveal_strlit("accent");
                assert("accent         "@.subrange(0, 6) =~= "accent"@);
                lemma_row_shows("accent         "@, "accent"@, t.accent);
            },
            ColorField::PinBorder => {
                reveal_strlit("pin_border     ");
                reveal_strlit("pin_border");
                assert("pin_border     "@.subrange(0, 10) =~= "pin_border"@);
                lemma_row_shows("pin_border     "@, "pin_border"@, t.pin_border);
            },
            ColorField::ChipBg => {
                reveal_strlit("chip_bg        ");
                reveal_strlit("chip_bg");
                assert("chip_bg        "@.subrange(0, 7) =~= "chip_bg"@);
                lemma_row_shows("chip_bg        "@, "chip_bg"@, t.chip_bg);
            },
            ColorField::HintText => {
                reveal_strlit("hint_text      ");
                reveal_strlit("hint_text");
                assert("hint_text      "@.subrange(0, 9) =~= "hint_text"@);
                lemma_row_shows("hint_text      "@, "hint_text"@, t.hint_text);
            },
            ColorField::BtnText => {
                reveal_strlit("btn_text       ");
                reveal_strlit("btn_text");
                assert("btn_text       "@.subrange(0, 8) =~= "btn_text"@);
                lemma_row_shows("btn_text       "@, "btn_text"@, t.btn_text);
            },
            ColorField::BtnHoverBg => {
                reveal_strlit("btn_hover_bg   ");
                reveal_strlit("btn_hover_bg");
                assert("btn_hover_bg   "@.subrange(0, 12) =~= "btn_hover_bg"@);
                lemma_row_shows("btn_hover_bg   "@, "btn_hover_bg"@, t.btn_hover_bg);
            },
            ColorField::ToolbarBg => {
                reveal_strlit("toolbar_bg     ");
                reveal_strlit("toolbar_bg");
                assert("toolbar_bg     "@.subrange(0, 10) =~= "toolbar_bg"@);
                lemma_row_shows("toolbar_bg     "@, "toolbar_bg"@, t.toolbar_bg);
            },
            ColorField::ToolbarText => {
                reveal_strlit("toolbar_text   ");
                reveal_strlit("toolbar_text");
                assert("toolbar_text   "@.subrange(0, 12) =~= "toolbar_text"@);
                lemma_row_shows("toolbar_text   "@, "toolbar_text"@, t.toolbar_text);
            },
            ColorField::ToolbarBorder => {
                reveal_strlit("toolbar_border ");
                reveal_strlit("toolbar_border");
                assert("toolbar_border "@.subrange(0, 14) =~= "toolbar_border"@);
                lemma_row_shows("toolbar_border "@, "toolbar_border"@, t.toolbar_border);
            },
            ColorField::ToolbarHover => {
                reveal_strlit("toolbar_hover  ");
                reveal_strlit("toolbar_hover");
                assert("toolbar_hover  "@.subrange(0, 13) =~= "toolbar_hover"@);
                lemma_row_shows("toolbar_hover  "@, "toolbar_hover"@, t.toolbar_hover);
            },
            ColorField::ToolbarSelected => {
                reveal_strlit("toolbar_selected ");
                reveal_strlit("toolbar_selected");
                assert("toolbar_selected "@.subrange(0, 16) =~= "toolbar_selected"@);
                lemma_row_shows("toolbar_selected "@, "toolbar_selected"@, t.toolbar_selected);
            },
            ColorField::SwatchBorder => {
                reveal_strlit("swatch_border   ");
                reveal_strlit("swatch_border");
                assert("swatch_border   "@.subrange(0, 13) =~= "swatch_border"@);
                lemma_row_shows("swatch_border   "@, "swatch_border"@, t.swatch_border);
            },
            ColorField::MosaicDark => {
                reveal_strlit("mosaic_dark    ");
                reveal_strlit("mosaic_dark");
                assert("mosaic_dark    "@.subrange(0, 11) =~= "mosaic_dark"@);
                lemma_row_shows("mosaic_dark    "@, "mosaic_dark"@, t.mosaic_dark);
            },
            ColorField::MosaicLight => {
                reveal_strlit("mosaic_light   ");
                reveal_strlit("mosaic_light");
                assert("mosaic_light   "@.subrange(0, 12) =~= "mosaic_light"@);
                lemma_row_shows("mosaic_light   "@, "mosaic_light"@, t.mosaic_light);
            },
            _ => {},
        }
    }
    let cs = t.annotation_colors@;
    reveal_strlit("annotation_colors ");
    lemma_joined_hex_segments(cs);
    let line = "annotation_colors "@ + joined_hex(cs);
    assert(line.subrange(0, 18) =~= "annotation_colors "@);
    assert forall|i: int| 0 <= i < cs.len() implies
        hex_spec(#[trigger] line.subrange(18 + 10 * i, 18 + 10 * i + 9)) == Ok::<u32, Seq<char>>(cs[i]) by {
        assert(line.subrange(18 + 10 * i, 18 + 10 * i + 9) =~= joined_hex(cs).subrange(10 * i, 10 * i + 9));
        lemma_hex_round_trip(cs[i]);
    }
}

/// Applying the same override file twice gives the same theme as applying
/// it once: every override sets its slot to the same value again, and a
/// rejected one leaves it as it was both times.
pub proof fn lemma_apply_idempotent(t0: Theme, t1: Theme, t2: Theme, f: ThemeFile)
    requires
        applied(t0, t1, f),
        applied(t1, t2, f),
    ensures
        t2 == t1,
{
    assert(t2.annotation_colors@ =~= t1.annotation_colors@);
    assert(t2.annotation_colors == t1.annotation_colors);
}

/// An override file without overrides leaves the theme as it is and
/// reports nothing.
pub proof fn lemma_empty_file_keeps_theme(t0: Theme, t1: Theme, f: ThemeFile)
    requires
        applied(t0, t1, f),
        f.dim_color is None, f.dim_opacity_bits is None, f.accent is None, f.pin_border is None,
        f.chip_bg is None, f.hint_text is None, f.btn_text is None, f.btn_hover_bg is None,
        f.toolbar_bg is None, f.toolbar_text is None, f.toolbar_border is None,
        f.toolbar_hover is None, f.toolbar_selected is None, f.swatch_border is None,
        f.mosaic_dark is None, f.mosaic_light is None, f.annotation_colors is None,
    ensures
        t1 == t0,
        apply_errors(f).len() == 0,
{
    assert(t1.annotation_colors@ =~= t0.annotation_colors@);
    assert(t1.annotation_colors == t0.annotation_colors);
}

} // verus!
