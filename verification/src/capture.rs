//! Screencopy bookkeeping: one frame per output moves through the
//! compositor's events (buffer announced, flags, ready or failed), and a
//! finished frame's mapped bytes become displayed-orientation RGBA8. The
//! protocol objects, shared memory and event loop are the program's.

use vstd::prelude::*;
use crate::pixels::{
    Transform, convert_spec, convert_to_rgba, frame_fits, rotate_rgba, rotate_spec, rotated_dims,
    rotated_size,
};

verus! {

/// Map a `wl_output` transform (protocol numbering: normal, 90, 180, 270,
/// flipped, flipped-90, flipped-180, flipped-270) onto [`Transform`];
/// unknown values read as `Normal`.
pub open spec fn transform_from_wire_spec(v: u32) -> Transform {
    if v == 1 { Transform::Rot90 }
    else if v == 2 { Transform::Rot180 }
    else if v == 3 { Transform::Rot270 }
    else if v == 4 { Transform::Flipped }
    else if v == 5 { Transform::Flipped90 }
    else if v == 6 { Transform::Flipped180 }
    else if v == 7 { Transform::Flipped270 }
    else { Transform::Normal }
}

/// The output transform for a protocol value.
pub fn transform_from_wire(v: u32) -> (t: Transform)
    ensures
        t == transform_from_wire_spec(v),
{
    match v {
        1 => Transform::Rot90,
        2 => Transform::Rot180,
        3 => Transform::Rot270,
        4 => Transform::Flipped,
        5 => Transform::Flipped90,
        6 => Transform::Flipped180,
        7 => Transform::Flipped270,
        _ => Transform::Normal,
    }
}

/// Whether an output is rotated or flipped at all (for logs).
pub fn rotated(t: Transform) -> (r: bool)
    ensures
        r == !(t is Normal),
{
    match t {
        Transform::Normal => false,
        _ => true,
    }
}

/// The wl_shm format announced for a frame, with `Xrgb8888` (1) standing
/// in for a value the protocol library does not know.
pub fn frame_format(known: Option<u32>) -> (f: u32)
    ensures
        f == (match known { Some(v) => v, None => 1u32 }),
{
    match known {
        Some(v) => v,
        None => 1,
    }
}

/// What a frame's bookkeeping holds: the buffer description announced by
/// the compositor (format, width, height, stride), the y-invert flag, and
/// whether it failed or is ready.
pub struct FrameView {
    pub info: Option<(u32, i32, i32, i32)>,
    pub y_invert: bool,
    pub failed: bool,
    pub ready: bool,
}

/// One output's screencopy frame.
pub struct FrameState {
    info: Option<(u32, i32, i32, i32)>,
    y_invert: bool,
    failed: bool,
    ready: bool,
}

impl View for FrameState {
    type V = FrameView;

    closed spec fn view(&self) -> FrameView {
        FrameView { info: self.info, y_invert: self.y_invert, failed: self.failed, ready: self.ready }
    }
}

impl FrameState {
    /// A frame just requested: nothing announced, not done.
    pub fn new() -> (r: FrameState)
        ensures
            r@ == (FrameView { info: None, y_invert: false, failed: false, ready: false }),
    {
        FrameState { info: None, y_invert: false, failed: false, ready: false }
    }

    /// The compositor announced the buffer to copy into.
    pub fn on_buffer(&mut self, format: u32, w: i32, h: i32, stride: i32)
        ensures
            final(self)@ == (FrameView { info: Some((format, w, h, stride)), ..old(self)@ }),
    {
        self.info = Some((format, w, h, stride));
    }

    /// The compositor sent the frame's flags.
    pub fn on_flags(&mut self, y_invert: bool)
        ensures
            final(self)@ == (FrameView { y_invert, ..old(self)@ }),
    {
        self.y_invert = y_invert;
    }

    /// The copy finished.
    pub fn on_ready(&mut self)
        ensures
            final(self)@ == (FrameView { ready: true, ..old(self)@ }),
    {
        self.ready = true;
    }

    /// The copy failed.
    pub fn on_failed(&mut self)
        ensures
            final(self)@ == (FrameView { failed: true, ..old(self)@ }),
    {
        self.failed = true;
    }

    /// Whether the copy failed.
    pub fn failed(&self) -> (r: bool)
        ensures
            r == self@.failed,
    {
        self.failed
    }

    /// Done means succeeded or failed.
    pub fn is_done(&self) -> (r: bool)
        ensures
            r == (self@.ready || self@.failed),
    {
        self.ready || self.failed
    }

    /// Hand out the buffer description with the y-invert flag, once.
    pub fn take_frame_info(&mut self) -> (r: Option<(u32, i32, i32, i32, bool)>)
        ensures
            r == (match old(self)@.info {
                Some((f, w, h, s)) => Some((f, w, h, s, old(self)@.y_invert)),
                None => None,
            }),
            final(self)@ == (FrameView { info: None, ..old(self)@ }),
    {
        match self.info.take() {
            Some((f, w, h, s)) => Some((f, w, h, s, self.y_invert)),
            None => None,
        }
    }
}

/// Every output has a frame, and every frame is done.
pub open spec fn all_done_spec(frames: Seq<Option<FrameState>>) -> bool {
    forall|i: int| 0 <= i < frames.len() ==> (#[trigger] frames[i] matches Some(f) && (f@.ready || f@.failed))
}

/// Are all frames done (succeeded or failed)? The event loop runs until
/// they are.
pub fn all_frames_done(frames: &Vec<Option<FrameState>>) -> (r: bool)
    ensures
        r == all_done_spec(frames@),
{
    let mut i: usize = 0;
    while i < frames.len()
        invariant
            i <= frames.len(),
            forall|j: int| 0 <= j < i ==> (#[trigger] frames@[j] matches Some(f) && (f@.ready || f@.failed)),
        decreases frames.len() - i,
    {
        let done = match &frames[i] {
            Some(f) => f.is_done(),
            None => false,
        };
        if !done {
            return false;
        }
        i = i + 1;
    }
    true
}

/// A finished frame's bytes → displayed-orientation RGBA8: converted from
/// the wl_shm layout (rows `stride` bytes apart, y-flip applied), then
/// rotated per the output transform. Returns the displayed size and the
/// pixels.
pub fn frame_pixels(
    bytes: &[u8],
    format: u32,
    w: i32,
    h: i32,
    stride: i32,
    y_invert: bool,
    t: Transform,
) -> (r: (u32, u32, Vec<u8>))
    requires
        frame_fits(bytes.len() as int, w as int, h as int, stride as int),
        w * h <= 0x4000_0000,
    ensures
        (r.0 as int, r.1 as int) == rotated_dims(w as int, h as int, t),
        r.2@ == rotate_spec(
            convert_spec(bytes@, format, w as int, h as int, stride as int, y_invert),
            w as int,
            h as int,
            t,
        ),
{
    let rgba = convert_to_rgba(bytes, format, w, h, stride, y_invert);
    let wu = w as u32;
    let hu = h as u32;
    proof {
        assert(4 * w * h == 4 * (w * h)) by (nonlinear_arith);
    }
    let out = rotate_rgba(rgba, wu, hu, t);
    let (rw, rh) = rotated_size(wu, hu, t);
    (rw, rh, out)
}

} // verus!
