use vstd::prelude::*;

use crate::ring_buffer::{RingBuffer, keep_last};

verus! {

/// Peak levels at which the four meter lights come on (roughly -30, -24,
/// -18 and -12 dB).
pub const METER_LEVELS: [i16; 4] = [1024, 2048, 4096, 8192];

/// The largest of `start` and the samples of `s`.
pub open spec fn max_of(start: i16, s: Seq<i16>) -> i16
    decreases s.len(),
{
    if s.len() == 0 {
        start
    } else {
        let m = max_of(start, s.drop_last());
        if s.last() > m {
            s.last()
        } else {
            m
        }
    }
}

/// A level meter: passes its input through and keeps the highest sample
/// seen since it was last reset.
pub struct LedMeter {
    peak: i16,
}

impl LedMeter {
    pub closed spec fn peak_spec(&self) -> i16 {
        self.peak
    }

    pub fn new() -> (r: LedMeter)
        ensures
            r.peak_spec() == 0,
    {
        LedMeter { peak: 0 }
    }

    pub fn peak(&self) -> (r: i16)
        ensures
            r == self.peak_spec(),
    {
        self.peak
    }

    /// One tick: every input sample is read, as many as the output holds
    /// are passed through, and the peak (restarted at 0 when `reset`)
    /// takes in the samples passed.
    pub fn meter(&mut self, reset: bool, input: &mut RingBuffer, output: &mut RingBuffer)
        requires
            old(input).wf(),
            old(output).wf(),
        ensures
            final(input).wf(),
            final(input).same_store(old(input)),
            final(input).contents().len() == 0,
            final(output).wf(),
            final(output).max_length == old(output).max_length,
            final(output).active == old(output).active,
            ({
                let s = old(input).contents();
                let m = if s.len() < old(output).max_length { s.len() as int } else { old(output).max_length as int };
                &&& final(output).contents() == keep_last(old(output).contents() + s.take(m), old(output).max_length as int)
                &&& final(self).peak_spec() == max_of(if reset { 0 } else { old(self).peak_spec() }, s.take(m))
            }),
    {
        if reset {
            self.peak = 0;
        }
        let ghost start = self.peak;
        let ghost s = old(input).contents();
        let avail = input.len();
        let slice = input.read_slice(avail);
        let m = if avail < output.max_length { avail } else { output.max_length };
        let mut i: usize = 0;
        while i < m
            invariant
                slice.fits(input),
                slice.length == avail,
                avail == s.len(),
                m <= avail,
                i <= m,
                slice.view_in(input) == s.take(avail as int),
                self.peak == max_of(start, s.take(i as int)),
            decreases m - i,
        {
            let x = slice.get(input, i);
            proof {
                assert(s.take(i + 1).drop_last() =~= s.take(i as int));
            }
            if x > self.peak {
                self.peak = x;
            }
            i += 1;
        }
        let n = output.write_from_read_slice(m, input, &slice);
        proof {
            assert(slice.view_in(input).take(n as int) =~= s.take(m as int));
        }
    }
}

/// Which of the four meter lights a peak turns on.
pub fn leds_lit(peak: i16) -> (r: [bool; 4])
    ensures
        forall|k: int| 0 <= k < 4 ==> r@[k] == (peak >= METER_LEVELS@[k]),
{
    let r = [peak >= 1024, peak >= 2048, peak >= 4096, peak >= 8192];
    assert(METER_LEVELS@ =~= seq![1024i16, 2048, 4096, 8192]);
    r
}

} // verus!
