//! Maneuver/Combat Track (MCT).
//!
//! The MCT is a ladder with five steps.  Each step sets the SP modifier and
//! the MP of a Wagner unit:
//!
//!   3-0  means SP modifier +3, MP = 0
//!   2-1  means SP modifier +2, MP = 1
//!   1-2  means SP modifier +1, MP = 2   (start here)
//!   0-3  means SP modifier +0, MP = 3
//!   0-4  means SP modifier +0, MP = 4
//!
//! During the Administration Phase each marker may shift one step up or down.

use vstd::prelude::*;
use vstd::string::*;

use crate::text::{i64_to_string, spec_int_str};

verus! {

/// One row of the MCT.
#[derive(Debug, Clone, Copy, PartialEq, Eq, Structural)]
pub struct MctStep {
    /// SP modifier added to the unit's base SP
    pub sp_mod: i32,
    /// Movement points available
    pub mp: i32,
}

/// Starting position on the track.
pub const MCT_START: usize = 2;

/// Top of the track (strongest combat, no movement).
pub const MCT_MIN: usize = 0;

/// Bottom of the track (most mobile).
pub const MCT_MAX: usize = 4;

/// Row `i` of the track (index 0 = top/strongest, index 4 = bottom/most mobile).
pub open spec fn spec_mct_step(i: int) -> MctStep {
    if i == 0 {
        MctStep { sp_mod: 3, mp: 0 }
    } else if i == 1 {
        MctStep { sp_mod: 2, mp: 1 }
    } else if i == 2 {
        MctStep { sp_mod: 1, mp: 2 }
    } else if i == 3 {
        MctStep { sp_mod: 0, mp: 3 }
    } else {
        MctStep { sp_mod: 0, mp: 4 }
    }
}

/// Row `i` of the track.
pub fn mct_step(i: usize) -> (r: MctStep)
    requires
        i <= MCT_MAX,
    ensures
        r == spec_mct_step(i as int),
{
    if i == 0 {
        MctStep { sp_mod: 3, mp: 0 }
    } else if i == 1 {
        MctStep { sp_mod: 2, mp: 1 }
    } else if i == 2 {
        MctStep { sp_mod: 1, mp: 2 }
    } else if i == 3 {
        MctStep { sp_mod: 0, mp: 3 }
    } else {
        MctStep { sp_mod: 0, mp: 4 }
    }
}

/// The full track, top to bottom.
pub fn mct_track() -> (r: [MctStep; 5])
    ensures
        forall|i: int| 0 <= i < 5 ==> #[trigger] r@[i] == spec_mct_step(i),
{
    [mct_step(0), mct_step(1), mct_step(2), mct_step(3), mct_step(4)]
}

/// Tracks the MCT position for one Wagner unit.
#[derive(Debug, Clone, Copy, PartialEq, Eq, Structural)]
pub struct MctMarker {
    pub step: usize,
}

/// Text of a marker label, as `label` renders it.
pub open spec fn spec_mct_label(step: int) -> Seq<char> {
    "SP+"@ + spec_int_str(spec_mct_step(step).sp_mod as int) + " / MP "@ + spec_int_str(
        spec_mct_step(step).mp as int,
    )
}

/// Marker position after a shift toward more SP / less MP.
pub open spec fn spec_shift_up(step: usize) -> usize {
    if step > MCT_MIN {
        (step - 1) as usize
    } else {
        step
    }
}

/// Marker position after a shift toward less SP / more MP.
pub open spec fn spec_shift_down(step: usize) -> usize {
    if step < MCT_MAX {
        (step + 1) as usize
    } else {
        step
    }
}

impl MctMarker {
    pub fn new() -> (r: MctMarker)
        ensures
            r.step == MCT_START,
    {
        MctMarker { step: MCT_START }
    }

    pub fn current(&self) -> (r: MctStep)
        requires
            self.step <= MCT_MAX,
        ensures
            r == spec_mct_step(self.step as int),
    {
        mct_step(self.step)
    }

    pub fn sp_mod(&self) -> (r: i32)
        requires
            self.step <= MCT_MAX,
        ensures
            r == spec_mct_step(self.step as int).sp_mod,
    {
        self.current().sp_mod
    }

    pub fn mp(&self) -> (r: i32)
        requires
            self.step <= MCT_MAX,
        ensures
            r == spec_mct_step(self.step as int).mp,
    {
        self.current().mp
    }

    /// Shift toward more SP / less MP. Returns true if shifted.
    pub fn shift_up(&mut self) -> (r: bool)
        ensures
            r == (old(self).step > MCT_MIN),
            final(self).step == spec_shift_up(old(self).step),
    {
        if self.step > MCT_MIN {
            self.step = self.step - 1;
            true
        } else {
            false
        }
    }

    /// Shift toward less SP / more MP. Returns true if shifted.
    pub fn shift_down(&mut self) -> (r: bool)
        ensures
            r == (old(self).step < MCT_MAX),
            final(self).step == spec_shift_down(old(self).step),
    {
        if self.step < MCT_MAX {
            self.step = self.step + 1;
            true
        } else {
            false
        }
    }

    /// Label for display: "SP+X / MP Y".
    pub fn label(&self) -> (r: String)
        requires
            self.step <= MCT_MAX,
        ensures
            r@ == spec_mct_label(self.step as int),
    {
        let s = self.current();
        let a = i64_to_string(s.sp_mod as i64);
        let b = i64_to_string(s.mp as i64);
        let mut r = String::from_str("SP+");
        r.append(a.as_str());
        r.append(" / MP ");
        r.append(b.as_str());
        r
    }
}

/// A marker never leaves the track: every shift keeps it between the top
/// and the bottom step.
pub proof fn law_marker_stays_on_track(step: usize)
    requires
        step <= MCT_MAX,
    ensures
        spec_shift_up(step) <= MCT_MAX,
        spec_shift_down(step) <= MCT_MAX,
{
}

/// A successful shift up is undone by a shift down, and a successful
/// shift down by a shift up.
pub proof fn law_shift_round_trip(step: usize)
    requires
        step <= MCT_MAX,
    ensures
        step > MCT_MIN ==> spec_shift_down(spec_shift_up(step)) == step,
        step < MCT_MAX ==> spec_shift_up(spec_shift_down(step)) == step,
{
}

/// Going down the track never lowers the MP and never raises the SP
/// modifier.
pub proof fn law_track_trades_sp_for_mp(i: int, j: int)
    requires
        0 <= i <= j <= 4,
    ensures
        spec_mct_step(i).mp <= spec_mct_step(j).mp,
        spec_mct_step(i).sp_mod >= spec_mct_step(j).sp_mod,
{
}

} // verus!
