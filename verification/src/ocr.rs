//! OCR plumbing around the recognition engine: when to pre-warm it, how
//! recognised lines become clipboard text, and the first-run model
//! download dialog's state machine. The engine itself, the download and
//! the dialog's rendering are the program's.

use vstd::prelude::*;
use vstd::string::StrSliceExecFns;
use crate::export::{decimal, decimal_string};

verus! {

/// Pre-warm the engine only when the model cache is complete: `missing` is
/// the number of model files absent from the cache directory, `None` when
/// the directory cannot be located. A first-ever run must not start a
/// large download during a plain screenshot.
pub fn warmup(missing: Option<usize>) -> (start: bool)
    ensures
        start <==> missing == Some(0usize),
{
    match missing {
        Some(n) => n == 0,
        None => false,
    }
}

/// Unicode `White_Space`, the set `str::trim` strips.
pub open spec fn is_white_space(c: char) -> bool {
    let v = c as u32;
    (0x9 <= v && v <= 0xd) || v == 0x20 || v == 0x85 || v == 0xa0 || v == 0x1680
        || (0x2000 <= v && v <= 0x200a) || v == 0x2028 || v == 0x2029 || v == 0x202f
        || v == 0x205f || v == 0x3000
}

fn white_space(c: char) -> (r: bool)
    ensures
        r == is_white_space(c),
{
    let v = c as u32;
    (0x9 <= v && v <= 0xd) || v == 0x20 || v == 0x85 || v == 0xa0 || v == 0x1680
        || (0x2000 <= v && v <= 0x200a) || v == 0x2028 || v == 0x2029 || v == 0x202f
        || v == 0x205f || v == 0x3000
}

/// `s` without leading and trailing white space: the span from the first
/// to the last character that is not white space (empty when there is
/// none).
pub open spec fn trimmed(s: Seq<char>, start: int, end: int) -> bool {
    &&& 0 <= start <= end <= s.len()
    &&& forall|i: int| 0 <= i < start ==> is_white_space(#[trigger] s[i])
    &&& forall|i: int| end <= i < s.len() ==> is_white_space(#[trigger] s[i])
    &&& start < end ==> !is_white_space(s[start]) && !is_white_space(s[end - 1])
}

/// The trimmed text: some span satisfying [`trimmed`].
pub open spec fn trim_spec(s: Seq<char>) -> Seq<char> {
    let (start, end) = choose|start: int, end: int| trimmed(s, start, end);
    s.subrange(start, end)
}

/// The spans satisfying [`trimmed`] all give the same text.
proof fn lemma_trim_unique(s: Seq<char>, a: int, b: int, c: int, d: int)
    requires
        trimmed(s, a, b),
        trimmed(s, c, d),
    ensures
        s.subrange(a, b) == s.subrange(c, d),
{
    if a < b && c < d {
        assert(a == c) by {
            if a < c { assert(is_white_space(s[a])); }
            if c < a { assert(is_white_space(s[c])); }
        }
        assert(b == d) by {
            if b < d { assert(is_white_space(s[d - 1])); }
            if d < b { assert(is_white_space(s[b - 1])); }
        }
    } else if a < b {
        assert(is_white_space(s[a]));
    } else if c < d {
        assert(is_white_space(s[c]));
    }
    assert(s.subrange(a, b) =~= s.subrange(c, d));
}

/// `str::trim`: strip leading and trailing white space.
pub fn trim(s: &str) -> (r: String)
    ensures
        r@ == trim_spec(s@),
{
    let n = s.unicode_len();
    let mut start: usize = 0;
    while start < n && white_space(s.get_char(start))
        invariant
            n == s@.len(),
            start <= n,
            forall|i: int| 0 <= i < start ==> is_white_space(#[trigger] s@[i]),
        decreases n - start,
    {
        start = start + 1;
    }
    let mut end: usize = n;
    while end > start && white_space(s.get_char(end - 1))
        invariant
            n == s@.len(),
            start <= end <= n,
            forall|i: int| 0 <= i < start ==> is_white_space(#[trigger] s@[i]),
            forall|i: int| end <= i < n ==> is_white_space(#[trigger] s@[i]),
            start < n ==> !is_white_space(s@[start as int]),
        decreases end - start,
    {
        end = end - 1;
    }
    proof {
        assert(trimmed(s@, start as int, end as int));
        let (a, b) = choose|a: int, b: int| trimmed(s@, a, b);
        lemma_trim_unique(s@, a, b, start as int, end as int);
    }
    String::from_str(s.substring_char(start, end))
}

/// Lines joined with `\n` between them.
pub open spec fn join_lines(lines: Seq<Seq<char>>) -> Seq<char>
    decreases lines.len(),
{
    if lines.len() == 0 {
        seq![]
    } else if lines.len() == 1 {
        lines[0]
    } else {
        join_lines(lines.drop_last()) + seq!['\n'] + lines.last()
    }
}

/// The views of a list of strings.
pub open spec fn string_views(v: Seq<String>) -> Seq<Seq<char>> {
    v.map_values(|s: String| s@)
}

/// Recognised lines → clipboard text: joined with newlines, then trimmed.
pub fn ocr_text(lines: &Vec<String>) -> (r: String)
    ensures
        r@ == trim_spec(join_lines(string_views(lines@))),
{
    let ghost views = string_views(lines@);
    let mut joined = String::new();
    let mut i: usize = 0;
    while i < lines.len()
        invariant
            views == string_views(lines@),
            i <= lines.len(),
            joined@ == join_lines(views.subrange(0, i as int)),
        decreases lines.len() - i,
    {
        proof {
            reveal_strlit("\n");
            assert(views.subrange(0, i as int + 1).drop_last() =~= views.subrange(0, i as int));
        }
        if i > 0 {
            joined.append("\n");
        }
        joined.append(lines[i].as_str());
        proof {
            if i == 0 {
                assert(joined@ =~= join_lines(views.subrange(0, 1)));
            }
        }
        i = i + 1;
    }
    assert(views.subrange(0, lines.len() as int) =~= views);
    trim(joined.as_str())
}

/// At most `max` characters of `s`; a cut text ends in `…`.
pub open spec fn truncate_spec(s: Seq<char>, max: int) -> Seq<char> {
    if s.len() <= max { s } else { s.subrange(0, max) + seq!['…'] }
}

/// Shorten a message for the setup dialog.
pub fn truncate(s: &str, max: usize) -> (r: String)
    ensures
        r@ == truncate_spec(s@, max as int),
{
    proof {
        reveal_strlit("…");
    }
    if s.unicode_len() <= max {
        String::from_str(s)
    } else {
        let mut cut = String::from_str(s.substring_char(0, max));
        cut.append("…");
        cut
    }
}

/// Trimming is idempotent: trimmed text has nothing left to strip.
pub proof fn lemma_trim_idempotent(s: Seq<char>)
    ensures
        trim_spec(trim_spec(s)) == trim_spec(s),
{
    // a span satisfying `trimmed` exists: strip leading, then trailing
    let start = first_non_white(s, 0);
    lemma_first_non_white(s, 0);
    let end = last_non_white_end(s, start, s.len() as int);
    lemma_last_non_white_end(s, start, s.len() as int);
    assert(trimmed(s, start, end));
    let (a, b) = choose|a: int, b: int| trimmed(s, a, b);
    lemma_trim_unique(s, a, b, start, end);
    let t = s.subrange(start, end);
    assert(trim_spec(s) == t);
    assert(trimmed(t, 0, t.len() as int));
    let (c, d) = choose|c: int, d: int| trimmed(t, c, d);
    lemma_trim_unique(t, c, d, 0, t.len() as int);
    assert(t.subrange(0, t.len() as int) =~= t);
}

proof fn lemma_first_non_white(s: Seq<char>, i: int)
    requires
        0 <= i <= s.len(),
        forall|j: int| 0 <= j < i ==> is_white_space(#[trigger] s[j]),
    ensures
        i <= first_non_white(s, i) <= s.len(),
        forall|j: int| 0 <= j < first_non_white(s, i) ==> is_white_space(#[trigger] s[j]),
        first_non_white(s, i) < s.len() ==> !is_white_space(s[first_non_white(s, i)]),
    decreases s.len() - i,
{
    if i < s.len() && is_white_space(s[i]) {
        lemma_first_non_white(s, i + 1);
    }
}

proof fn lemma_last_non_white_end(s: Seq<char>, lo: int, j: int)
    requires
        0 <= lo <= j <= s.len(),
        forall|k: int| j <= k < s.len() ==> is_white_space(#[trigger] s[k]),
    ensures
        lo <= last_non_white_end(s, lo, j) <= j,
        forall|k: int| last_non_white_end(s, lo, j) <= k < s.len() ==> is_white_space(#[trigger] s[k]),
        last_non_white_end(s, lo, j) > lo ==> !is_white_space(s[last_non_white_end(s, lo, j) - 1]),
    decreases j - lo,
{
    if j > lo && is_white_space(s[j - 1]) {
        lemma_last_non_white_end(s, lo, j - 1);
    }
}

/// The index of the first character at or after `i` that is not white
/// space (the length when there is none).
spec fn first_non_white(s: Seq<char>, i: int) -> int
    decreases s.len() - i,
{
    if i >= s.len() || i < 0 { if i < 0 { 0 } else { s.len() as int } }
    else if !is_white_space(s[i]) { i } else { first_non_white(s, i + 1) }
}

/// One past the last character before `j` (and at or after `lo`) that is
/// not white space (`lo` when there is none).
spec fn last_non_white_end(s: Seq<char>, lo: int, j: int) -> int
    decreases j - lo,
{
    if j <= lo { lo } else if !is_white_space(s[j - 1]) { j } else { last_non_white_end(s, lo, j - 1) }
}

/// `char::is_control`: the general category Cc.
pub open spec fn is_control(c: char) -> bool {
    (c as u32) <= 0x1f || (0x7f <= (c as u32) && (c as u32) <= 0x9f)
}

/// The number of lines `str::lines` yields: one per `\n`, plus the
/// unterminated last one.
pub open spec fn line_count(t: Seq<char>) -> nat
    decreases t.len(),
{
    if t.len() == 0 {
        0
    } else if t.len() == 1 {
        1
    } else {
        line_count(t.drop_last()) + if t[t.len() - 2] == '\n' { 1nat } else { 0nat }
    }
}

/// The text as one line for a preview: newlines become spaces, other
/// control characters are dropped.
pub open spec fn one_line(t: Seq<char>) -> Seq<char>
    decreases t.len(),
{
    if t.len() == 0 {
        seq![]
    } else {
        let c = if t.last() == '\n' { ' ' } else { t.last() };
        if is_control(c) { one_line(t.drop_last()) } else { one_line(t.drop_last()).push(c) }
    }
}

/// The first `n` characters of `t` (all of it when shorter).
pub open spec fn prefix(t: Seq<char>, n: nat) -> Seq<char> {
    if t.len() <= n { t } else { t.subrange(0, n as int) }
}

/// How many characters of recognised text a notification previews.
pub const PREVIEW_CHARS: usize = 60;

/// How many characters of an OCR error a notification shows.
pub const ERROR_CHARS: usize = 200;

/// The error when the engine recognised nothing.
pub open spec fn no_text_message() -> Seq<char> {
    "OCR found no text"@
}

/// The notification body after recognised text went to the clipboard.
pub open spec fn done_body(t: Seq<char>) -> Seq<char> {
    decimal(line_count(t)) + " lines → clipboard\n"@ + prefix(one_line(t), PREVIEW_CHARS as nat)
}

fn is_control_exec(c: char) -> (r: bool)
    ensures
        r == is_control(c),
{
    let v = c as u32;
    v <= 0x1f || (0x7f <= v && v <= 0x9f)
}

/// The first `n` characters of `s`.
pub fn take_chars(s: &str, n: usize) -> (r: String)
    ensures
        r@ == prefix(s@, n as nat),
{
    if s.unicode_len() <= n {
        String::from_str(s)
    } else {
        String::from_str(s.substring_char(0, n))
    }
}

/// Recognised text → `(lines, preview)`: the line count and the first
/// [`PREVIEW_CHARS`] characters of the text as one line.
pub fn ocr_preview(text: &str) -> (r: (usize, String))
    ensures
        r.0 == line_count(text@),
        r.1@ == prefix(one_line(text@), PREVIEW_CHARS as nat),
{
    let n = text.unicode_len();
    let mut lines: usize = 0;
    let mut flat = String::new();
    let mut i: usize = 0;
    while i < n
        invariant
            n == text@.len(),
            i <= n,
            lines == line_count(text@.subrange(0, i as int)),
            lines <= i,
            flat@ == one_line(text@.subrange(0, i as int)),
        decreases n - i,
    {
        let c = text.get_char(i);
        proof {
            let pre = text@.subrange(0, i as int + 1);
            assert(pre.drop_last() =~= text@.subrange(0, i as int));
            assert(pre.last() == c);
            if i > 0 {
                assert(pre[pre.len() - 2] == text@[i - 1]);
            }
        }
        if i == 0 || text.get_char(i - 1) == '\n' {
            lines = lines + 1;
        }
        proof {
            reveal_strlit(" ");
        }
        if c == '\n' {
            flat.append(" ");
        } else if !is_control_exec(c) {
            let one = text.substring_char(i, i + 1);
            assert(one@ =~= seq![c]);
            flat.append(one);
        }
        i = i + 1;
    }
    assert(text@.subrange(0, n as int) =~= text@);
    (lines, take_chars(flat.as_str(), PREVIEW_CHARS))
}

/// What an OCR run reports: the notification body when text was found,
/// the error when it was empty.
pub fn ocr_done_notice(text: &str) -> (r: Result<String, String>)
    ensures
        r is Err <==> text@.len() == 0,
        r matches Err(e) ==> e@ == no_text_message(),
        r matches Ok(body) ==> body@ == done_body(text@),
{
    proof {
        reveal_strlit("OCR found no text");
        reveal_strlit(" lines → clipboard\n");
    }
    if text.unicode_len() == 0 {
        return Err(String::from_str("OCR found no text"));
    }
    let (lines, preview) = ocr_preview(text);
    let mut body = decimal_string(lines as u64);
    body.append(" lines → clipboard\n");
    body.append(preview.as_str());
    Ok(body)
}

/// The body of the failure notification: the error's first
/// [`ERROR_CHARS`] characters.
pub fn ocr_failure_notice(message: &str) -> (r: String)
    ensures
        r@ == prefix(message@, ERROR_CHARS as nat),
{
    take_chars(message, ERROR_CHARS)
}

/// What the program does with an OCR run's result.
pub enum OcrAction {
    /// Put `text` on the clipboard; once it is there, notify
    /// [`DONE_SUMMARY`] with `body` and quit.
    CopyThenNotify { text: String, body: String },
    /// Notify [`FAILED_SUMMARY`] with `body`; the overlay stays open.
    NotifyFailure { body: String },
}

/// The summary of the notification after recognised text was copied.
pub const DONE_SUMMARY: &'static str = "Shotori OCR";

/// The summary of the notification after a failed OCR run.
pub const FAILED_SUMMARY: &'static str = "Shotori OCR failed";

/// The engine's result (the recognised text, or its error message) →
/// what to do: non-empty text is copied and announced with
/// [`done_body`]; empty text counts as the error [`no_text_message`]; an
/// error is announced with its first [`ERROR_CHARS`] characters.
pub fn ocr_action(result: Result<String, String>) -> (r: OcrAction)
    ensures
        match result {
            Ok(t) => if t@.len() > 0 {
                r matches OcrAction::CopyThenNotify { text, body } && text@ == t@ && body@ == done_body(t@)
            } else {
                r matches OcrAction::NotifyFailure { body } && body@ == prefix(no_text_message(), ERROR_CHARS as nat)
            },
            Err(e) => r matches OcrAction::NotifyFailure { body } && body@ == prefix(e@, ERROR_CHARS as nat),
        },
{
    match result {
        Ok(text) => match ocr_done_notice(text.as_str()) {
            Ok(body) => OcrAction::CopyThenNotify { text, body },
            Err(e) => OcrAction::NotifyFailure { body: ocr_failure_notice(e.as_str()) },
        },
        Err(e) => OcrAction::NotifyFailure { body: ocr_failure_notice(e.as_str()) },
    }
}

/// The preview is one line: at most [`PREVIEW_CHARS`] characters, none of
/// them a newline or another control character.
pub proof fn lemma_preview_is_one_line(t: Seq<char>)
    ensures
        prefix(one_line(t), PREVIEW_CHARS as nat).len() <= PREVIEW_CHARS,
        forall|i: int| 0 <= i < prefix(one_line(t), PREVIEW_CHARS as nat).len()
            ==> !is_control(#[trigger] prefix(one_line(t), PREVIEW_CHARS as nat)[i]),
{
    lemma_one_line_has_no_control(t);
}

proof fn lemma_one_line_has_no_control(t: Seq<char>)
    ensures
        forall|i: int| 0 <= i < one_line(t).len() ==> !is_control(#[trigger] one_line(t)[i]),
    decreases t.len(),
{
    if t.len() > 0 {
        let rest = one_line(t.drop_last());
        lemma_one_line_has_no_control(t.drop_last());
        let c = if t.last() == '\n' { ' ' } else { t.last() };
        assert forall|i: int| 0 <= i < one_line(t).len() implies !is_control(#[trigger] one_line(t)[i]) by {
            if !is_control(c) && i == rest.len() {
                assert(one_line(t)[i] == c);
            } else {
                assert(one_line(t)[i] == rest[i]);
            }
        }
    }
}

} // verus!
