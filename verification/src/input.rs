//! Readings of a game controller.

use vstd::prelude::*;

verus! {

/// Readings of a stick whose distance from rest is below this count as rest.
pub const DEADZONE: i16 = 8000;

/// The reading `raw` of a stick axis, or zero where the stick is at rest.
pub open spec fn settled(raw: i16) -> i16 {
    if -DEADZONE < raw < DEADZONE {
        0
    } else {
        raw
    }
}

/// The reading `raw` of a stick axis with the dead zone around rest
/// removed.
pub fn apply_deadzone(raw: i16) -> (reading: i16)
    ensures
        reading == settled(raw),
{
    if -DEADZONE < raw && raw < DEADZONE {
        0
    } else {
        raw
    }
}

} // verus!
