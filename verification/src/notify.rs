//! Desktop notifications are fire-and-forget: the program re-executes
//! itself as `<program> --notify <summary> <body> [image]`, a detached
//! child that outlives the parent's quick exit. This module builds and
//! reads that command line, prepares the preview thumbnail, and decides
//! which cached previews are stale; spawning, D-Bus and the file system
//! are the program's.

use vstd::prelude::*;
use crate::text::{has_prefix, starts_with};

verus! {

/// The argv marker for the notify child.
pub const NOTIFY_ARG: &'static str = "--notify";

/// Largest preview edge in pixels.
pub const PREVIEW_MAX: u32 = 256;

/// Previews older than this many seconds are removed on the next send.
pub const PREVIEW_TTL_SECS: u64 = 86400;

/// The child's arguments: the marker, the summary, the body, then the
/// preview image path when there is one.
pub open spec fn notify_args_spec(summary: Seq<char>, body: Seq<char>, image: Option<Seq<char>>) -> Seq<Seq<char>> {
    match image {
        Some(p) => seq![NOTIFY_ARG@, summary, body, p],
        None => seq![NOTIFY_ARG@, summary, body],
    }
}

/// The views of a list of strings.
pub open spec fn string_views(v: Seq<String>) -> Seq<Seq<char>> {
    v.map_values(|s: String| s@)
}

/// Build the notify child's arguments (after the program path).
pub fn notify_args(summary: &str, body: &str, image: Option<&str>) -> (r: Vec<String>)
    ensures
        string_views(r@) == notify_args_spec(summary@, body@, match image { Some(p) => Some(p@), None => None }),
{
    let mut args: Vec<String> = Vec::new();
    args.push(String::from_str(NOTIFY_ARG));
    args.push(String::from_str(summary));
    args.push(String::from_str(body));
    match image {
        Some(p) => {
            args.push(String::from_str(p));
        },
        None => {},
    }
    assert(string_views(args@) =~= notify_args_spec(
        summary@, body@, match image { Some(p) => Some(p@), None => None }));
    args
}

/// A plain notification: the child's arguments for `summary` and `body`.
pub fn send(summary: &str, body: &str) -> (r: Vec<String>)
    ensures
        string_views(r@) == notify_args_spec(summary@, body@, None),
{
    notify_args(summary, body, None)
}

/// A notification with a preview: the child's arguments carry the path of
/// the written thumbnail, or none when it could not be written (the
/// notification is never dropped for want of a preview).
pub fn send_with_preview(summary: &str, body: &str, preview: Option<&str>) -> (r: Vec<String>)
    ensures
        string_views(r@) == notify_args_spec(summary@, body@, match preview { Some(p) => Some(p@), None => None }),
{
    notify_args(summary, body, preview)
}

/// What the notify child was asked to show.
pub struct NotifyRequest {
    pub summary: String,
    pub body: String,
    pub image: Option<String>,
}

/// Read the child's command line (`<program> --notify <summary> <body>
/// [image]`): `None` when the summary or body is missing.
pub fn notify_request(argv: &Vec<String>) -> (r: Option<NotifyRequest>)
    ensures
        r is None <==> argv@.len() < 4,
        r matches Some(q) ==> {
            &&& q.summary@ == argv@[2]@
            &&& q.body@ == argv@[3]@
            &&& match q.image {
                Some(p) => argv@.len() > 4 && p@ == argv@[4]@,
                None => argv@.len() <= 4,
            }
        },
{
    if argv.len() < 4 {
        return None;
    }
    let image = if argv.len() > 4 { Some(argv[4].clone()) } else { None };
    Some(NotifyRequest { summary: argv[2].clone(), body: argv[3].clone(), image })
}

/// A cached file is removed when it is a preview (its name starts with
/// `preview-`) and its age, when known, exceeds the time to live.
pub open spec fn is_stale_preview_spec(file_name: Seq<char>, age: Option<(u64, u32)>) -> bool {
    has_prefix(file_name, "preview-"@) && match age {
        Some((secs, nanos)) => secs > PREVIEW_TTL_SECS || (secs == PREVIEW_TTL_SECS && nanos > 0),
        None => false,
    }
}

/// Whether a cache entry is a stale preview; `age` is the time since it
/// was last modified (seconds and nanoseconds), `None` when unknown.
pub fn is_stale_preview(file_name: &str, age: Option<(u64, u32)>) -> (r: bool)
    ensures
        r == is_stale_preview_spec(file_name@, age),
{
    let stale = match age {
        Some((secs, nanos)) => secs > PREVIEW_TTL_SECS || (secs == PREVIEW_TTL_SECS && nanos > 0),
        None => false,
    };
    stale && starts_with(file_name, "preview-")
}

/// The pixels of `image::imageops::thumbnail` scaling the `w`×`h` RGBA8
/// image held in `rgba` to `PREVIEW_MAX`×`PREVIEW_MAX`.
pub uninterp spec fn thumbnail_of(w: u32, h: u32, rgba: Seq<u8>) -> Seq<u8>;

/// Calls `image::RgbaImage::from_raw` and `image::imageops::thumbnail`.
/// Trusted: `from_raw` yields an image exactly when the buffer holds at
/// least `4·w·h` bytes, and `thumbnail` returns a buffer of exactly the
/// requested size, whose pixels are named [`thumbnail_of`].
#[verifier::external_body]
fn scaled_thumbnail(w: u32, h: u32, rgba: &[u8]) -> (r: Option<Vec<u8>>)
    ensures
        r is None <==> 4 * w * h > rgba@.len(),
        r matches Some(t) ==> t@ == thumbnail_of(w, h, rgba@) && t@.len() == 4 * PREVIEW_MAX * PREVIEW_MAX,
{
    let img = image::RgbaImage::from_raw(w, h, rgba.to_vec())?;
    Some(image::imageops::thumbnail(&img, PREVIEW_MAX, PREVIEW_MAX).into_raw())
}

/// The preview thumbnail of a `w`×`h` screenshot: `PREVIEW_MAX` pixels
/// square, or `None` when `rgba` is too short to hold the image.
pub fn preview_thumbnail(w: u32, h: u32, rgba: &[u8]) -> (r: Option<(u32, u32, Vec<u8>)>)
    ensures
        r is None <==> 4 * w * h > rgba@.len(),
        r matches Some((tw, th, t)) ==> tw == PREVIEW_MAX && th == PREVIEW_MAX && t@ == thumbnail_of(w, h, rgba@),
{
    match scaled_thumbnail(w, h, rgba) {
        Some(t) => Some((PREVIEW_MAX, PREVIEW_MAX, t)),
        None => None,
    }
}

/// What the parent writes is what the child reads: behind the program
/// path, the marker is followed by the summary and the body, and a fifth
/// word is present exactly when there is a preview, and is its path.
pub proof fn lemma_child_reads_what_parent_wrote(
    program: Seq<char>,
    summary: Seq<char>,
    body: Seq<char>,
    image: Option<Seq<char>>,
)
    ensures
        ({
            let argv = seq![program] + notify_args_spec(summary, body, image);
            &&& argv.len() >= 4
            &&& argv[1] == NOTIFY_ARG@
            &&& argv[2] == summary
            &&& argv[3] == body
            &&& (argv.len() > 4 <==> image is Some)
            &&& (image matches Some(p) ==> argv[4] == p)
        }),
{
}

} // verus!
