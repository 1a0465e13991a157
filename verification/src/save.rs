//! The save hand-off: the overlay stashes a cropped selection and quits;
//! after the run loop returns, the main thread takes it exactly once and
//! opens the save dialog.
//!
//! The slot itself is a plain value here; the program keeps one behind a
//! process-wide lock and passes it in.

use vstd::prelude::*;

verus! {

/// A cropped selection waiting for the user to pick a save location.
pub struct PendingSave {
    w: u32,
    h: u32,
    rgba: Vec<u8>,
}

/// What a pending save holds: width, height and RGBA8 bytes.
pub struct PendingSaveView {
    pub w: u32,
    pub h: u32,
    pub rgba: Seq<u8>,
}

impl View for PendingSave {
    type V = PendingSaveView;

    closed spec fn view(&self) -> PendingSaveView {
        PendingSaveView { w: self.w, h: self.h, rgba: self.rgba@ }
    }
}

impl PendingSave {
    /// Width of the stashed selection in pixels.
    pub fn w(&self) -> (r: u32)
        ensures
            r == self@.w,
    {
        self.w
    }

    /// Height of the stashed selection in pixels.
    pub fn h(&self) -> (r: u32)
        ensures
            r == self@.h,
    {
        self.h
    }

    /// The stashed RGBA8 pixels.
    pub fn rgba(&self) -> (r: &Vec<u8>)
        ensures
            r@ == self@.rgba,
    {
        &self.rgba
    }

    /// Width, height and pixels, by value.
    pub fn into_parts(self) -> (r: (u32, u32, Vec<u8>))
        ensures
            r.0 == self@.w,
            r.1 == self@.h,
            r.2@ == self@.rgba,
    {
        (self.w, self.h, self.rgba)
    }
}

/// The overlay → main-thread hand-off slot.
pub struct PendingSlot {
    pending: Option<PendingSave>,
}

/// What the slot holds, if anything.
pub open spec fn slot_view(slot: &PendingSlot) -> Option<PendingSaveView> {
    match slot.pending_spec() {
        Some(p) => Some(p@),
        None => None,
    }
}

impl PendingSlot {
    /// The slot's content.
    pub closed spec fn pending_spec(&self) -> Option<PendingSave> {
        self.pending
    }

    /// An empty slot.
    pub fn new() -> (r: PendingSlot)
        ensures
            slot_view(&r) is None,
    {
        PendingSlot { pending: None }
    }
}

/// The slot after a stash: the new selection, whatever was there before.
pub open spec fn stashed(w: u32, h: u32, rgba: Seq<u8>) -> Option<PendingSaveView> {
    Some(PendingSaveView { w, h, rgba })
}

/// A take hands out the slot's content and leaves it empty.
pub open spec fn taken(slot: Option<PendingSaveView>) -> (Option<PendingSaveView>, Option<PendingSaveView>) {
    (slot, None)
}

/// Stash a cropped selection, replacing whatever was stashed before; the
/// caller then quits the overlay.
pub fn stash(slot: &mut PendingSlot, w: u32, h: u32, rgba: Vec<u8>)
    ensures
        slot_view(final(slot)) == stashed(w, h, rgba@),
{
    slot.pending = Some(PendingSave { w, h, rgba });
}

/// Take the stashed selection, leaving the slot empty.
pub fn take_pending(slot: &mut PendingSlot) -> (r: Option<PendingSave>)
    ensures
        (match r { Some(p) => Some(p@), None => None }, slot_view(final(slot))) == taken(slot_view(old(slot))),
{
    slot.pending.take()
}

/// What is taken is what was last stashed, and it is handed out only once:
/// a take right after a stash yields exactly that selection and empties the
/// slot, so a second take yields nothing.
pub proof fn lemma_stash_then_take(w: u32, h: u32, rgba: Seq<u8>)
    ensures
        taken(stashed(w, h, rgba)).0 == Some(PendingSaveView { w, h, rgba }),
        taken(taken(stashed(w, h, rgba)).1).0 is None,
{
}

} // verus!
