//! Frame pacing: a rolling window of instantaneous frame rates, the
//! smoothed average the display layer shows, and the clamped sleep that
//! holds a target frame rate. Time is carried as integer nanoseconds;
//! rates as integer milli-fps (fps times 1000).

use vstd::prelude::*;

verus! {

/// The instantaneous rate of a frame in milli-fps: a frame that took
/// `elapsed_nanos` ran at `1e9 / elapsed_nanos` fps.
pub open spec fn rate_milli_fps(elapsed_nanos: int) -> int
    recommends
        elapsed_nanos >= 1,
{
    1_000_000_000_000int / elapsed_nanos
}

/// The sum of the window entries from position `i` on.
pub open spec fn sum_from(s: Seq<u64>, i: int) -> int
    decreases s.len() - i + 1,
{
    if i < 0 || i >= s.len() {
        0
    } else {
        s[i] + sum_from(s, i + 1)
    }
}

/// The ideal duration of one frame at the target rate, in nanoseconds.
pub open spec fn frame_budget_nanos(target_fps: int) -> int
    recommends
        target_fps >= 1,
{
    1_000_000_000int / target_fps
}

/// The pacer: a fixed 120-sample ring of per-frame rates, overwritten
/// cyclically.
pub struct Pacer {
    rates: Vec<u64>,
    cursor: usize,
}

impl Pacer {
    /// The ring holds exactly 120 samples, each a rate of a frame that
    /// took at least one nanosecond.
    pub closed spec fn wf(&self) -> bool {
        &&& self.rates@.len() == 120
        &&& self.cursor < 120
        &&& forall|i: int| 0 <= i < 120 ==> self.rates@[i] <= 1_000_000_000_000
    }

    /// The rolling window of rates, in ring order.
    pub closed spec fn rates_seq(&self) -> Seq<u64> {
        self.rates@
    }

    /// The ring position the next sample lands in.
    pub closed spec fn spec_cursor(&self) -> int {
        self.cursor as int
    }

    /// A fresh pacer: the window is seeded with 60 fps so the average
    /// starts at a plausible rate.
    pub fn new() -> (p: Pacer)
        ensures
            p.wf(),
            p.rates_seq().len() == 120,
            p.spec_cursor() == 0,
            forall|i: int| 0 <= i < 120 ==> p.rates_seq()[i] == 60_000,
    {
        let mut rates: Vec<u64> = Vec::new();
        let mut i: usize = 0;
        while i < 120
            invariant
                i <= 120,
                rates@.len() == i,
                forall|j: int| 0 <= j < i ==> rates@[j] == 60_000,
            decreases 120 - i,
        {
            rates.push(60_000);
            i += 1;
        }
        Pacer { rates, cursor: 0 }
    }

    /// Records one frame: stores the frame's instantaneous rate at the
    /// cursor and advances the cursor cyclically.
    pub fn tick(&mut self, elapsed_nanos: u64)
        requires
            old(self).wf(),
            elapsed_nanos >= 1,
        ensures
            final(self).wf(),
            final(self).rates_seq() == old(self).rates_seq().update(
                old(self).spec_cursor(),
                (rate_milli_fps(elapsed_nanos as int) as u64),
            ),
            final(self).spec_cursor() == (old(self).spec_cursor() + 1) % 120,
    {
        let rate: u64 = 1_000_000_000_000 / elapsed_nanos;
        self.rates[self.cursor] = rate;
        self.cursor = (self.cursor + 1) % 120;
    }

    /// The smoothed frame rate in milli-fps: the arithmetic mean of the
    /// rolling window, a trailing average over the last 120 frames.
    pub fn smoothed_milli_fps(&self) -> (r: u64)
        requires
            self.wf(),
        ensures
            r == sum_from(self.rates_seq(), 0) / 120,
    {
        let mut acc: u64 = 0;
        let mut i: usize = 0;
        while i < 120
            invariant
                self.wf(),
                i <= 120,
                acc <= i * 1_000_000_000_000,
                sum_from(self.rates_seq(), 0) == acc + sum_from(self.rates_seq(), i as int),
            decreases 120 - i,
        {
            acc = acc + self.rates[i];
            i += 1;
        }
        acc / 120
    }

    /// The smoothed frame rate in whole fps, as shown on screen.
    pub fn smoothed_fps(&self) -> (r: u64)
        requires
            self.wf(),
        ensures
            r == sum_from(self.rates_seq(), 0) / 120 / 1000,
    {
        self.smoothed_milli_fps() / 1000
    }
}

/// The nanoseconds left of the frame budget: the ideal frame duration at
/// the target rate minus the elapsed time, clamped at zero. A frame that
/// already overran its budget sleeps for zero, never a negative
/// duration.
pub fn decay(elapsed_nanos: u64, target_fps: u64) -> (sleep: u64)
    requires
        target_fps >= 1,
    ensures
        sleep == if elapsed_nanos >= frame_budget_nanos(target_fps as int) {
            0int
        } else {
            frame_budget_nanos(target_fps as int) - elapsed_nanos
        },
        elapsed_nanos >= frame_budget_nanos(target_fps as int) ==> sleep == 0,
{
    let budget: u64 = 1_000_000_000 / target_fps;
    if elapsed_nanos >= budget {
        0
    } else {
        budget - elapsed_nanos
    }
}

/// The decimal digits of a non-negative number, as ASCII bytes.
pub open spec fn dec_u64(n: int) -> Seq<u8>
    decreases n,
{
    if n < 10 {
        seq![(48 + n) as u8]
    } else {
        dec_u64(n / 10) + seq![(48 + n % 10) as u8]
    }
}

fn push_dec_u64(out: &mut Vec<u8>, n: u64)
    ensures
        final(out)@ == old(out)@ + dec_u64(n as int),
    decreases n,
{
    if n >= 10 {
        push_dec_u64(out, n / 10);
        out.push((n % 10) as u8 + 48);
        proof {
            assert(final(out)@ =~= old(out)@ + dec_u64(n as int));
        }
    } else {
        out.push(n as u8 + 48);
        proof {
            assert(final(out)@ =~= old(out)@ + dec_u64(n as int));
        }
    }
}

/// The on-screen frame-rate label: the rate in decimal followed by
/// `" FPS"` (bytes 32, 70, 80, 83).
pub fn fps_text(fps: u64) -> (v: Vec<u8>)
    ensures
        v@ == dec_u64(fps as int) + seq![32u8, 70u8, 80u8, 83u8],
{
    let mut v: Vec<u8> = Vec::new();
    push_dec_u64(&mut v, fps);
    v.push(32);
    v.push(70);
    v.push(80);
    v.push(83);
    proof {
        assert(v@ =~= dec_u64(fps as int) + seq![32u8, 70u8, 80u8, 83u8]);
    }
    v
}

} // verus!
