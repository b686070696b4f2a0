//! Ordinals of the time-of-day playlist filter setting.
use vstd::prelude::*;

verus! {

/// Every clip, whatever Apple tagged it (the default).
pub const ALL: i32 = 0;

/// Daylight clips: Apple's `day`, plus `sunrise`.
pub const DAY: i32 = 1;

/// After-dark clips: Apple's `night`, plus `sunset`.
pub const NIGHT: i32 = 2;

/// Whatever matches the viewer's own clock right now.
pub const AUTO: i32 = 3;

} // verus!
