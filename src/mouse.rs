//! Mouse wheel notches: the hook counts them, each poll consumes one.
use vstd::prelude::*;
use crate::pre::MouseState;

verus! {

/// Consumes one pending notch, if any: `true` when there was one.
pub fn poll_mouse_wheel_up(pending: &mut u64) -> (r: bool)
    ensures
        r == (*old(pending) > 0),
        *final(pending) == if r {
            (*old(pending) - 1) as u64
        } else {
            *old(pending)
        },
{
    if *pending > 0 {
        *pending = *pending - 1;
        true
    } else {
        false
    }
}

/// Consumes one pending notch, if any: `true` when there was one.
pub fn poll_mouse_wheel_down(pending: &mut u64) -> (r: bool)
    ensures
        r == (*old(pending) > 0),
        *final(pending) == if r {
            (*old(pending) - 1) as u64
        } else {
            *old(pending)
        },
{
    if *pending > 0 {
        *pending = *pending - 1;
        true
    } else {
        false
    }
}

/// The wheel notches seen by the hook and not yet polled.
pub struct MouseChecker {
    pub up: u64,
    pub down: u64,
}

impl MouseChecker {
    pub fn new() -> (r: MouseChecker)
        ensures
            r.up == 0 && r.down == 0,
    {
        MouseChecker { up: 0, down: 0 }
    }

    /// Counts a wheel turn of `delta` notches: up when positive, down when
    /// negative. A count that would overflow stays at its largest value.
    pub fn record(&mut self, delta: i32)
        ensures
            delta > 0 ==> final(self).up == crate::mouse::saturated(old(self).up as int + delta),
            delta > 0 ==> final(self).down == old(self).down,
            delta < 0 ==> final(self).down == crate::mouse::saturated(old(self).down as int - delta),
            delta < 0 ==> final(self).up == old(self).up,
            delta == 0 ==> final(self).up == old(self).up && final(self).down == old(self).down,
    {
        if delta > 0 {
            self.up = self.up.saturating_add(delta as u64);
        } else if delta < 0 {
            self.down = self.down.saturating_add((-(delta as i64)) as u64);
        }
    }

    /// Consumes one notch in each direction, if pending.
    pub fn check(&mut self) -> (r: MouseState)
        ensures
            r.scrolled_up == (old(self).up > 0),
            r.scrolled_down == (old(self).down > 0),
            final(self).up == if r.scrolled_up {
                (old(self).up - 1) as u64
            } else {
                old(self).up
            },
            final(self).down == if r.scrolled_down {
                (old(self).down - 1) as u64
            } else {
                old(self).down
            },
    {
        let scrolled_up = poll_mouse_wheel_up(&mut self.up);
        let scrolled_down = poll_mouse_wheel_down(&mut self.down);
        MouseState { scrolled_up, scrolled_down }
    }
}

pub open spec fn saturated(n: int) -> u64 {
    if n > u64::MAX {
        u64::MAX
    } else {
        n as u64
    }
}

} // verus!
