//! Whether the floating window is really seen.
//!
//! A window can be visible, in place and on top, and its page paint nothing. So
//! the page is asked to answer from within a frame; where no answer comes it is
//! woken, and in the end loaded again.

use vstd::prelude::*;

verus! {

/// How long an answer is waited for, in milliseconds.
pub const PRESENCE_TIMEOUT_MS: u64 = 900;

/// How often the page is woken before it is loaded again.
pub const PRESENCE_ATTEMPTS: u8 = 2;

/// How long the page stays hidden when it is woken, in milliseconds.
pub const WAKE_PAUSE_MS: u64 = 60;

/// How often the window is put on top again, in milliseconds.
pub const TOPMOST_INTERVAL_MS: u64 = 3_000;

/// After how many of those it is asked again whether the page paints.
pub const PAINT_CHECK_A_CADA: u32 = 5;

/// The number of the last question, and the highest number that was answered. A
/// late answer to an old question is none to the current one.
#[derive(Debug, Clone, Copy, PartialEq, Eq, Structural)]
pub struct Presence {
    pub requested: u64,
    pub confirmed: u64,
}

/// What is done about a question that was asked some time ago.
#[derive(Debug, Clone, Copy, PartialEq, Eq, Structural)]
pub enum PaintCheck {
    /// Nothing: it was answered, the window is gone or hidden, or a newer question
    /// will tell.
    Settled,
    /// The page is hidden and shown again, and asked once more, with this many
    /// attempts left.
    Wake(u8),
    /// The page is loaded again.
    Reload,
}

impl Presence {
    /// Was this question answered?
    pub open spec fn answered(self, request: u64) -> bool {
        self.confirmed >= request
    }

    /// What is done about a question whose time is up.
    pub open spec fn paint_check(self, request: u64, visible: bool, attempts_left: u8) -> PaintCheck {
        if self.answered(request) || !visible || self.requested != request {
            PaintCheck::Settled
        } else if attempts_left == 0 {
            PaintCheck::Reload
        } else {
            PaintCheck::Wake((attempts_left - 1) as u8)
        }
    }

    pub fn new() -> (presence: Presence)
        ensures
            presence == (Presence { requested: 0, confirmed: 0 }),
    {
        Presence { requested: 0, confirmed: 0 }
    }

    /// The page answered a question.
    pub fn confirm(&mut self, request: u64)
        ensures
            final(self).requested == old(self).requested,
            final(self).confirmed == if request > old(self).confirmed {
                request
            } else {
                old(self).confirmed
            },
    {
        if request > self.confirmed {
            self.confirmed = request;
        }
    }

    /// Asks a new question.
    pub fn ask(&mut self) -> (request: u64)
        requires
            old(self).requested < u64::MAX,
        ensures
            request == old(self).requested + 1,
            *final(self) == (Presence { requested: request, ..*old(self) }),
    {
        self.requested = self.requested + 1;
        self.requested
    }

    /// What is done about a question whose time is up. `visible` tells whether the
    /// window is there and shown.
    pub fn confirm_paint(&self, request: u64, visible: bool, attempts_left: u8) -> (check:
        PaintCheck)
        ensures
            check == self.paint_check(request, visible, attempts_left),
            check is Settled <==> self.confirmed >= request || !visible || self.requested
                != request,
            check is Reload <==> !(check is Settled) && attempts_left == 0,
            check matches PaintCheck::Wake(left) ==> left + 1 == attempts_left,
    {
        if self.confirmed >= request || !visible || self.requested != request {
            return PaintCheck::Settled;
        }
        if attempts_left == 0 {
            return PaintCheck::Reload;
        }
        PaintCheck::Wake(attempts_left - 1)
    }
}

/// What the watch over the window does at a beat.
#[derive(Debug, Clone, Copy, PartialEq, Eq, Structural)]
pub struct Beat {
    /// The window is put on top again.
    pub topmost: bool,
    /// The page is asked whether it paints.
    pub check_paint: bool,
}

/// The beats counted since the last question.
#[derive(Debug, Clone, Copy, PartialEq, Eq, Structural)]
pub struct Watch {
    pub contagem: u32,
}

impl Watch {
    pub open spec fn wf(self) -> bool {
        self.contagem < PAINT_CHECK_A_CADA
    }

    pub fn new() -> (watch: Watch)
        ensures
            watch.contagem == 0,
            watch.wf(),
    {
        Watch { contagem: 0 }
    }

    /// One beat. With the window hidden there is nothing to do.
    pub fn watch_hud(&mut self, visible: bool) -> (beat: Beat)
        requires
            old(self).wf(),
        ensures
            final(self).wf(),
            beat.topmost == visible,
            beat.check_paint == (visible && old(self).contagem + 1 == PAINT_CHECK_A_CADA),
            beat.check_paint <==> visible && old(self).contagem == 4,
            final(self).contagem == if !visible {
                old(self).contagem
            } else if beat.check_paint {
                0
            } else {
                (old(self).contagem + 1) as u32
            },
    {
        if !visible {
            return Beat { topmost: false, check_paint: false };
        }
        self.contagem = self.contagem + 1;
        if self.contagem >= PAINT_CHECK_A_CADA {
            self.contagem = 0;
            return Beat { topmost: true, check_paint: true };
        }
        Beat { topmost: true, check_paint: false }
    }
}

/// How often a page that never answers is woken before it is loaded again, where
/// the question with the number `request` has just been asked.
pub open spec fn wakings(presence: Presence, request: u64, attempts: u8) -> nat
    decreases attempts,
{
    match presence.paint_check(request, true, attempts) {
        PaintCheck::Wake(left) => if left < attempts {
            1 + wakings(presence, request, left)
        } else {
            0
        },
        _ => 0,
    }
}

/// A page that never answers is woken as often as there were attempts, and then
/// loaded again; one that has answered is left alone.
pub proof fn law_waking_ends(presence: Presence, request: u64, attempts: u8)
    requires
        presence.requested == request,
    ensures
        presence.confirmed < request ==> wakings(presence, request, attempts) == attempts,
        presence.confirmed < request ==> presence.paint_check(request, true, 0)
            == PaintCheck::Reload,
        presence.answered(request) ==> wakings(presence, request, attempts) == 0,
    decreases attempts,
{
    if attempts > 0 {
        law_waking_ends(presence, request, (attempts - 1) as u8);
    }
}

/// Once answered, a question stays answered, whatever answers still come.
pub proof fn law_answers_stay(presence: Presence, request: u64, later: u64)
    requires
        presence.answered(request),
    ensures
        (Presence {
            confirmed: if later > presence.confirmed {
                later
            } else {
                presence.confirmed
            },
            ..presence
        }).answered(request),
{
}


/// The beats counted after a while, given whether the window was seen at each.
pub open spec fn counted(seen: Seq<bool>) -> nat
    decreases seen.len(),
{
    if seen.len() == 0 {
        0
    } else if seen.last() {
        counted(seen.drop_last()) + 1
    } else {
        counted(seen.drop_last())
    }
}

/// The page is asked at every fifth beat at which the window is seen, and at no
/// other: what was counted is what is left over of five.
pub proof fn law_every_fifth_beat(watch: Watch, seen: Seq<bool>, after: Watch, asked: bool)
    requires
        seen.len() > 0,
        watch.contagem == counted(seen.drop_last()) % 5,
        asked == (seen.last() && watch.contagem + 1 == PAINT_CHECK_A_CADA),
        after.contagem == if !seen.last() {
            watch.contagem as int
        } else if asked {
            0
        } else {
            watch.contagem + 1
        },
    ensures
        after.contagem == counted(seen) % 5,
        asked <==> seen.last() && counted(seen) % 5 == 0,
{
}

} // verus!
