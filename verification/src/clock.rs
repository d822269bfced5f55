use vstd::prelude::*;

verus! {

/// Nanoseconds in a second.
pub const NANOS_PER_SECOND: u64 = 1_000_000_000;

/// A periodic trigger. Times are nanoseconds on any clock that does not run
/// backwards; the caller reads the clock and hands the reading in.
#[derive(Debug, Clone, Copy, PartialEq, Eq)]
pub struct Clock {
    period: u64,
    offset: u64,
}

/// The time that has passed since `offset`; none if `now` lies before it.
pub open spec fn elapsed(offset: u64, now: u64) -> int {
    if now >= offset {
        now - offset
    } else {
        0
    }
}

impl Clock {
    /// The time between two ticks.
    pub closed spec fn period(&self) -> u64 {
        self.period
    }

    /// The time up to which ticks were given out.
    pub closed spec fn offset(&self) -> u64 {
        self.offset
    }

    /// A clock of `freq` ticks per second that starts counting at `now`.
    pub fn new(freq: u64, now: u64) -> (clock: Self)
        requires
            freq > 0,
        ensures
            clock.period() == NANOS_PER_SECOND / freq,
            clock.offset() == now,
    {
        Self { period: NANOS_PER_SECOND / freq, offset: now }
    }

    /// Says whether a tick is due at time `now`: a full period has passed
    /// since the last tick given out. A tick that is given out moves the
    /// clock on by one period, so that late calls catch up tick by tick.
    pub fn tick(&mut self, now: u64) -> (due: bool)
        ensures
            due == (elapsed(old(self).offset(), now) >= old(self).period()),
            final(self).period() == old(self).period(),
            final(self).offset() == if due {
                old(self).offset() + old(self).period()
            } else {
                old(self).offset() as int
            },
    {
        let passed: u64 = if now >= self.offset {
            now - self.offset
        } else {
            0
        };
        if passed >= self.period {
            self.offset += self.period;
            true
        } else {
            false
        }
    }
}

} // verus!
