//! User preferences.

use vstd::prelude::*;

verus! {

/// User preferences: desktop notifications, start on login, and how often
/// project status is polled.
#[derive(Debug, Clone, Copy)]
pub struct Prefs {
    pub notifications: bool,
    pub autostart: bool,
    pub refresh_interval_secs: u32,
}

impl Default for Prefs {
    /// Notifications on, no autostart, polling every 4 seconds.
    fn default() -> (r: Self)
        ensures
            r.notifications,
            !r.autostart,
            r.refresh_interval_secs == 4,
    {
        Prefs { notifications: true, autostart: false, refresh_interval_secs: 4 }
    }
}

/// The polling interval, held to the range from 2 to 60 seconds.
pub open spec fn clamped_interval(secs: u32) -> int {
    if secs < 2 {
        2
    } else if secs > 60 {
        60
    } else {
        secs as int
    }
}

impl Prefs {
    /// The polling interval in seconds, clamped to a sane range.
    pub fn interval_secs(&self) -> (r: u64)
        ensures
            r == clamped_interval(self.refresh_interval_secs),
    {
        let s = self.refresh_interval_secs;
        if s < 2 {
            2
        } else if s > 60 {
            60
        } else {
            s as u64
        }
    }
}

/// The polling interval always lies between 2 and 60 seconds, and a
/// configured interval in that range is used as it is.
pub proof fn lemma_interval_in_range(secs: u32)
    ensures
        2 <= clamped_interval(secs) <= 60,
        2 <= secs <= 60 ==> clamped_interval(secs) == secs,
{
}

} // verus!
