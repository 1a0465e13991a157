//! The first-run OCR setup dialog: confirm → downloading → failed/retry.
//!
//! Every download attempt carries an identity drawn from an [`Attempts`]
//! counter, each larger than every earlier one, so never reused; only the
//! dialog's current, uncancelled attempt may update it or consume its
//! frozen snapshot, so a cancelled or superseded download can never touch
//! a reopened dialog.

use vstd::prelude::*;

verus! {

/// Hands out download-attempt identities: each one larger than every
/// identity handed out before it by the same counter.
pub struct Attempts {
    next: u64,
}

impl View for Attempts {
    type V = nat;

    /// The least identity not handed out yet: every earlier one is smaller.
    closed spec fn view(&self) -> nat {
        self.next as nat
    }
}

impl Attempts {
    /// A counter that has handed out nothing.
    pub fn new() -> (r: Attempts)
        ensures
            r@ == 0,
    {
        Attempts { next: 0 }
    }

    /// The next identity: the counter's current bound, which then moves one
    /// past it, so every identity handed out later is larger. `None` only
    /// once all `u64` values are used up.
    pub fn next(&mut self) -> (id: Option<u64>)
        ensures
            match id {
                Some(i) => i == old(self)@ && final(self)@ == i + 1,
                None => old(self)@ == u64::MAX && final(self)@ == old(self)@,
            },
    {
        if self.next == u64::MAX {
            None
        } else {
            let id = self.next;
            self.next = self.next + 1;
            Some(id)
        }
    }
}

/// Identities are fresh: one drawn from a counter is smaller than any drawn
/// from it afterwards (the counter only grows between draws).
pub proof fn lemma_later_attempts_are_larger(first: u64, after_first: nat, before_second: nat, second: u64)
    requires
        after_first == first + 1,
        after_first <= before_second,
        second == before_second,
    ensures
        first < second,
{
}

/// Cropped pixels frozen when OCR was requested: the selection may change
/// while the dialog is open, so the exact crop is kept and recognised once
/// the models are in place.
pub struct Snapshot {
    pub w: u32,
    pub h: u32,
    pub rgba: Vec<u8>,
}

/// Where the dialog stands.
pub enum Stage {
    /// Awaiting the user's decision.
    Confirm,
    /// Downloading; the program polls the attempt's progress.
    Downloading,
    /// The download or the recognition after it failed; message shown.
    Failed(String),
}

/// The dialog's state: its stage, the frozen snapshot and the identity of
/// its current download attempt.
pub struct OcrSetup {
    pub stage: Stage,
    pub snapshot: Snapshot,
    pub attempt: u64,
}

impl OcrSetup {
    /// A fresh dialog awaiting confirmation, with an attempt identity drawn
    /// from `attempts`; `None` only when the counter is used up.
    pub fn new(snapshot: Snapshot, attempts: &mut Attempts) -> (r: Option<OcrSetup>)
        ensures
            match r {
                Some(d) => {
                    &&& d.stage is Confirm
                    &&& d.snapshot == snapshot
                    &&& d.attempt == old(attempts)@
                    &&& final(attempts)@ == d.attempt + 1
                },
                None => old(attempts)@ == u64::MAX && final(attempts)@ == old(attempts)@,
            },
    {
        match attempts.next() {
            Some(attempt) => Some(OcrSetup { stage: Stage::Confirm, snapshot, attempt }),
            None => None,
        }
    }

    /// Only the active download may update this dialog or consume its
    /// snapshot: the attempt must be the dialog's current one, not
    /// cancelled, and the dialog must be downloading.
    pub fn owns_download(&self, attempt: u64, cancelled: bool) -> (r: bool)
        ensures
            r == (self.attempt == attempt && !cancelled && self.stage is Downloading),
    {
        self.attempt == attempt && !cancelled && match self.stage {
            Stage::Downloading => true,
            _ => false,
        }
    }

    /// The user confirms (or retries after a failure): start a new attempt,
    /// drawn from `attempts`, and answer `true`; the caller then starts the
    /// download. A dialog already downloading ignores the request (as it
    /// does once the counter is used up).
    pub fn confirm(&mut self, attempts: &mut Attempts) -> (start: bool)
        ensures
            start == ((old(self).stage is Confirm || old(self).stage is Failed) && old(attempts)@ < u64::MAX),
            start ==> {
                &&& final(self).stage is Downloading
                &&& final(self).attempt == old(attempts)@
                &&& final(attempts)@ == final(self).attempt + 1
            },
            !start ==> {
                &&& final(self).stage == old(self).stage
                &&& final(self).attempt == old(self).attempt
                &&& final(attempts)@ == old(attempts)@
            },
            final(self).snapshot == old(self).snapshot,
    {
        match self.stage {
            Stage::Downloading => false,
            _ => match attempts.next() {
                Some(fresh) => {
                    self.stage = Stage::Downloading;
                    self.attempt = fresh;
                    true
                },
                None => false,
            },
        }
    }
}

/// The download of `attempt` ended (`ok`, or failed with `error`). If the
/// attempt still owns the dialog, a success closes the dialog and hands
/// back its snapshot for recognition, and a failure shows the error.
/// Otherwise nothing changes.
pub fn finish_download(
    setup: &mut Option<OcrSetup>,
    attempt: u64,
    cancelled: bool,
    ok: bool,
    error: String,
) -> (snapshot: Option<Snapshot>)
    ensures
        match *old(setup) {
            Some(s) if s.attempt == attempt && !cancelled && s.stage is Downloading => if ok {
                &&& *final(setup) is None
                &&& snapshot == Some(s.snapshot)
            } else {
                &&& snapshot is None
                &&& *final(setup) matches Some(t) && t.attempt == s.attempt && t.snapshot == s.snapshot
                    && t.stage == Stage::Failed(error)
            },
            _ => snapshot is None && *final(setup) == *old(setup),
        },
{
    let owns = match setup {
        Some(s) => s.owns_download(attempt, cancelled),
        None => false,
    };
    if !owns {
        return None;
    }
    if ok {
        match setup.take() {
            Some(s) => Some(s.snapshot),
            None => None,
        }
    } else {
        match setup {
            Some(s) => {
                s.stage = Stage::Failed(error);
            },
            None => {},
        }
        None
    }
}

} // verus!
