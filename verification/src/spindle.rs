//! Spindle position tracking from a wrapping hardware pulse counter.
use vstd::prelude::*;

verus! {

/// The PCNT unit is configured with limits of +-`PCNT_LIMIT`; on reaching a
/// limit the hardware resets the counter to 0.
pub const PCNT_LIMIT: i32 = 30_000;

/// Counts moved from counter value `last` to `raw`, taking the shorter way
/// round a counter that wraps at +-`PCNT_LIMIT`.
pub open spec fn wrapped_delta(last: int, raw: int) -> int {
    let d = raw - last;
    if d > PCNT_LIMIT / 2 {
        d - PCNT_LIMIT
    } else if d < -PCNT_LIMIT / 2 {
        d + PCNT_LIMIT
    } else {
        d
    }
}

/// Counts are read the short way round the wrapping counter: a small change
/// is taken as it is, and any change differs from the raw difference by a
/// whole counter range (reset at ±30 000) and is at most half a range.
pub proof fn lemma_wrapped_delta(last: int, raw: int)
    requires
        -45_000 <= raw - last <= 45_000,
    ensures
        -15_000 <= raw - last <= 15_000 ==> wrapped_delta(last, raw) == raw - last,
        -15_000 <= wrapped_delta(last, raw) <= 15_000,
        raw - last - wrapped_delta(last, raw) == 0 || raw - last - wrapped_delta(last, raw) == 30_000
            || raw - last - wrapped_delta(last, raw) == -30_000,
{
}

#[derive(Debug)]
pub struct Spindle {
    last_raw: i32,
    /// Raw accumulated position in counts.
    pub pos: i64,
    /// Position with encoder backlash removed: only follows `pos` backwards
    /// once it moved more than `backlash` counts in reverse. This is what the
    /// gearbox follows, so encoder jitter doesn't wiggle the carriage.
    pub avg: i64,
    backlash: i64,
}

/// Model of a [`Spindle`].
pub ghost struct SpindleView {
    /// Counter value seen by the previous `feed`.
    pub last_raw: int,
    pub pos: int,
    pub avg: int,
    /// Reversal that `avg` ignores, in counts.
    pub backlash: int,
}

impl View for Spindle {
    type V = SpindleView;

    closed spec fn view(&self) -> SpindleView {
        SpindleView {
            last_raw: self.last_raw as int,
            pos: self.pos as int,
            avg: self.avg as int,
            backlash: self.backlash as int,
        }
    }
}

impl Spindle {
    /// The counter is an `i16`.
    pub open spec fn wf(&self) -> bool {
        i16::MIN <= self@.last_raw <= i16::MAX
    }

    /// Backlash-filtered position after moving to `pos`.
    pub open spec fn next_avg(avg: int, pos: int, backlash: int) -> int {
        if pos > avg {
            pos
        } else if pos < avg - backlash {
            pos + backlash
        } else {
            avg
        }
    }

    pub fn new(backlash: i64) -> (r: Self)
        ensures
            r.wf(),
            r@ == (SpindleView { last_raw: 0, pos: 0, avg: 0, backlash: backlash as int }),
    {
        Spindle { last_raw: 0, pos: 0, avg: 0, backlash }
    }

    /// Raw accumulated position in counts.
    pub fn pos(&self) -> (r: i64)
        ensures
            r == self@.pos,
    {
        self.pos
    }

    /// Position with encoder backlash removed.
    pub fn avg(&self) -> (r: i64)
        ensures
            r == self@.avg,
    {
        self.avg
    }

    /// Feed the current raw counter value; returns the counts moved since the
    /// previous call. Must be called at least once per `PCNT_LIMIT / 2` counts.
    pub fn feed(&mut self, raw: i16) -> (delta: i64)
        requires
            old(self).wf(),
            i64::MIN <= old(self)@.pos + wrapped_delta(old(self)@.last_raw, raw as int) <= i64::MAX,
            i64::MIN <= old(self)@.avg - old(self)@.backlash <= i64::MAX,
            i64::MIN <= old(self)@.pos + wrapped_delta(old(self)@.last_raw, raw as int)
                + old(self)@.backlash <= i64::MAX,
        ensures
            final(self).wf(),
            delta == wrapped_delta(old(self)@.last_raw, raw as int),
            final(self)@ == (SpindleView {
                last_raw: raw as int,
                pos: old(self)@.pos + delta,
                avg: Self::next_avg(old(self)@.avg, old(self)@.pos + delta, old(self)@.backlash),
                backlash: old(self)@.backlash,
            }),
    {
        let raw = raw as i32;
        let mut delta = raw - self.last_raw;
        if delta > PCNT_LIMIT / 2 {
            delta -= PCNT_LIMIT;
        } else if delta < -PCNT_LIMIT / 2 {
            delta += PCNT_LIMIT;
        }
        self.last_raw = raw;
        let delta = delta as i64;
        self.pos += delta;
        if self.pos > self.avg {
            self.avg = self.pos;
        } else if self.pos < self.avg - self.backlash {
            self.avg = self.pos + self.backlash;
        }
        delta
    }
}

/// The backlash-filtered position never lags the raw position by more than
/// the backlash: after any move, `pos <= avg <= pos + backlash`.
pub proof fn lemma_avg_within_backlash(avg: int, pos: int, backlash: int)
    requires
        backlash >= 0,
    ensures
        pos <= Spindle::next_avg(avg, pos, backlash) <= pos + backlash,
{
}

} // verus!
