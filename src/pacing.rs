//! When the windowed driver samples input, ticks the processor, counts the
//! timers down and refreshes the display: each on its own deadline.

use vstd::prelude::*;

verus! {

/// Time between two input samples, in microseconds, unless a key is seen sooner.
pub const INPUT_PERIOD: u64 = 200_000;

/// Time between two processor ticks, in microseconds.
pub const INSTRUCTION_PERIOD: u64 = 2_000;

/// Time between two timer decrements, in microseconds (about 60 Hz).
pub const TIMER_PERIOD: u64 = 17_000;

/// Time between two display refreshes, in microseconds.
pub const DISPLAY_PERIOD: u64 = 10_000;

/// The actions due in one pass of the loop.
#[derive(Debug, Clone, Copy, PartialEq, Eq, Structural)]
pub struct Due {
    pub input: bool,
    pub instruction: bool,
    pub timer: bool,
    pub display: bool,
}

/// When each action last ran, in microseconds on the driver's clock.
#[derive(Debug, Clone, Copy, PartialEq, Eq, Structural)]
pub struct Pacer {
    pub input: u64,
    pub instruction: u64,
    pub timer: u64,
    pub display: u64,
}

/// The time from `then` to `now`, zero if `now` is earlier.
pub open spec fn elapsed(then: u64, now: u64) -> int {
    if now >= then {
        now - then
    } else {
        0
    }
}

fn since(then: u64, now: u64) -> (r: u64)
    ensures
        r == elapsed(then, now),
{
    if now >= then {
        now - then
    } else {
        0
    }
}

impl Pacer {
    /// Every action counted as having just run at `now`.
    pub fn new(now: u64) -> (r: Self)
        ensures
            r == (Pacer { input: now, instruction: now, timer: now, display: now }),
    {
        Pacer { input: now, instruction: now, timer: now, display: now }
    }

    /// Decides which actions are due at `now` (input also as soon as a key is
    /// seen), and records that those run at `now`.
    pub fn poll(&mut self, now: u64, key_seen: bool) -> (r: Due)
        ensures
            r.input == (key_seen || elapsed(old(self).input, now) > INPUT_PERIOD),
            r.instruction == (elapsed(old(self).instruction, now) > INSTRUCTION_PERIOD),
            r.timer == (elapsed(old(self).timer, now) > TIMER_PERIOD),
            r.display == (elapsed(old(self).display, now) > DISPLAY_PERIOD),
            final(self).input == (if r.input {
                now
            } else {
                old(self).input
            }),
            final(self).instruction == (if r.instruction {
                now
            } else {
                old(self).instruction
            }),
            final(self).timer == (if r.timer {
                now
            } else {
                old(self).timer
            }),
            final(self).display == (if r.display {
                now
            } else {
                old(self).display
            }),
    {
        let due = Due {
            input: key_seen || since(self.input, now) > INPUT_PERIOD,
            instruction: since(self.instruction, now) > INSTRUCTION_PERIOD,
            timer: since(self.timer, now) > TIMER_PERIOD,
            display: since(self.display, now) > DISPLAY_PERIOD,
        };
        if due.input {
            self.input = now;
        }
        if due.instruction {
            self.instruction = now;
        }
        if due.timer {
            self.timer = now;
        }
        if due.display {
            self.display = now;
        }
        due
    }
}

} // verus!
