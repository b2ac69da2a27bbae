use vstd::prelude::*;

use std::sync::Arc;
use std::sync::atomic::{AtomicBool, Ordering};

use crate::callback::CallbackInner;
use crate::ring_buffer::{RingBuffer, keep_last};
use crate::volume::{scale_all, scale_into};

verus! {

/// Stereo frames without a peak after which a `Duck` goes quiet (one
/// second at 48 kHz).
pub const DUCK_HOLD_FRAMES: usize = 48000;

/// A shared flag: set while a `Duck` hears its source, read by `Ducked`
/// nodes every tick.
#[derive(Clone)]
pub struct DuckState(Arc<AtomicBool>);

impl DuckState {
    pub fn new() -> DuckState {
        DuckState(Arc::new(AtomicBool::new(false)))
    }

    pub fn get(&self) -> bool {
        self.0.load(Ordering::SeqCst)
    }

    pub fn set(&self, value: bool) {
        self.0.store(value, Ordering::SeqCst);
    }
}

/// A sample's magnitude exceeds `peak`.
pub open spec fn is_peak(x: i16, peak: i16) -> bool {
    x > peak || x < -peak
}

/// Some sample of `s` has a magnitude above `peak`.
pub open spec fn has_peak(s: Seq<i16>, peak: i16) -> bool {
    exists|i: int| 0 <= i < s.len() && is_peak(#[trigger] s[i], peak)
}

/// `n` zeros.
pub open spec fn silence(n: int) -> Seq<i16> {
    Seq::new(n as nat, |i: int| 0i16)
}

/// Frame count of a `Duck` after a tick that read `s`, from `frames`.
pub open spec fn frames_after(frames: int, s: Seq<i16>, peak: i16) -> int {
    if has_peak(s, peak) {
        0
    } else if frames + s.len() / 2 > usize::MAX {
        usize::MAX as int
    } else {
        frames + s.len() / 2
    }
}

/// A `Duck` that was `active` passes the tick's samples through (rather
/// than muting them) after reading `s`.
pub open spec fn passes(active: bool, s: Seq<i16>, peak: i16) -> bool {
    active || has_peak(s, peak)
}

/// Whether a `Duck` that was `active` with count `frames` is active after
/// a tick that read `s`.
pub open spec fn active_after(active: bool, frames: int, s: Seq<i16>, peak: i16) -> bool {
    passes(active, s, peak) && frames_after(frames, s, peak) <= DUCK_HOLD_FRAMES
}

/// Duck law: a tick holding a sample whose magnitude exceeds the peak passes its samples
/// through and leaves the machine active (its flag raised); an active
/// machine that reads no peak while its count passes the hold goes quiet
/// (its flag lowered); and a quiet machine that reads no peak mutes.
pub proof fn lemma_duck_transitions(active: bool, frames: int, s: Seq<i16>, peak: i16)
    requires
        0 <= frames <= usize::MAX,
    ensures
        has_peak(s, peak) ==> passes(active, s, peak) && active_after(active, frames, s, peak),
        !has_peak(s, peak) && frames + s.len() / 2 > DUCK_HOLD_FRAMES ==> !active_after(active, frames, s, peak),
        !active && !has_peak(s, peak) ==> !passes(active, s, peak),
{
}

/// A two-state machine over its input. Quiet, it mutes what it passes on;
/// a sample whose magnitude exceeds `peak` makes it active (and raises its shared flag), and
/// active it passes samples through unchanged until more than
/// `DUCK_HOLD_FRAMES` frames have gone by without a peak, when it goes
/// quiet again (and lowers the flag).
pub struct Duck {
    peak: i16,
    active: bool,
    samples: usize,
    state: DuckState,
    zeros: Vec<i16>,
}

impl Duck {
    pub closed spec fn peak_spec(&self) -> i16 {
        self.peak
    }

    /// Whether the machine is active (the value it last gave its flag).
    pub closed spec fn is_active(&self) -> bool {
        self.active
    }

    /// Frames counted since the last peak.
    pub closed spec fn frames_since_peak(&self) -> int {
        self.samples as int
    }

    pub fn new(peak: i16, state: DuckState) -> (r: Duck)
        ensures
            r.inv(),
            r.peak_spec() == peak,
            !r.is_active(),
            r.frames_since_peak() == 0,
    {
        Duck { peak, active: false, samples: 0, state, zeros: Vec::new() }
    }

    pub fn active(&self) -> (r: bool)
        ensures
            r == self.is_active(),
    {
        self.active
    }

    /// What one `listen` does.
    pub open spec fn listened(&self, input: RingBuffer, output: RingBuffer, next: Self, input_after: RingBuffer, output_after: RingBuffer) -> bool {
        &&& next.inv()
        &&& next.peak_spec() == self.peak_spec()
        &&& input_after.wf()
        &&& input_after.same_store(&input)
        &&& input_after.contents().len() == 0
        &&& output_after.wf()
        &&& output_after.max_length == output.max_length
        &&& output_after.active == output.active
        &&& ({
            let s = input.contents();
            let peak = self.peak_spec();
            let m = if s.len() < output.max_length { s.len() as int } else { output.max_length as int };
            &&& next.frames_since_peak() == frames_after(self.frames_since_peak(), s, peak)
            &&& next.is_active() == active_after(self.is_active(), self.frames_since_peak(), s, peak)
            &&& output_after.contents() == keep_last(
                output.contents() + if passes(self.is_active(), s, peak) { s.take(m) } else { silence(m) },
                output.max_length as int,
            )
        })
    }

    /// One tick. All input is read; the frame count grows by half the
    /// samples read (saturating) and restarts at 0 on a peak. Output gets
    /// the samples unchanged if the machine was or became active, zeros
    /// otherwise; an active machine whose count then exceeds the hold goes
    /// quiet.
    pub fn listen(&mut self, input: &mut RingBuffer, output: &mut RingBuffer)
        requires
            old(input).wf(),
            old(output).wf(),
        ensures
            old(self).listened(*old(input), *old(output), *final(self), *final(input), *final(output)),
    {
        let avail = input.len();
        let slice = input.read_slice(avail);
        let half = slice.len() / 2;
        self.samples = self.samples.saturating_add(half);
        let ghost s = old(input).contents();
        let mut i: usize = 0;
        while i < slice.len()
            invariant
                slice.fits(input),
                slice.length == s.len(),
                slice.view_in(input) == s.take(s.len() as int),
                i <= slice.length,
                self.peak == old(self).peak,
                self.active == (old(self).active || has_peak(s.take(i as int), self.peak)),
                has_peak(s.take(i as int), self.peak) ==> self.samples == 0,
                !has_peak(s.take(i as int), self.peak) ==> self.samples == if old(self).samples + s.len() / 2 > usize::MAX {
                    usize::MAX as int
                } else {
                    old(self).samples + s.len() / 2
                },
            decreases slice.length - i,
        {
            let x = slice.get(input, i);
            proof {
                assert(x == s[i as int]);
                assert forall|j: int| 0 <= j < i implies #[trigger] s.take(i + 1)[j] == s.take(i as int)[j] by {}
                if has_peak(s.take(i as int), self.peak) {
                    let j = choose|j: int| 0 <= j < i && is_peak(#[trigger] s.take(i as int)[j], self.peak);
                    assert(is_peak(s.take(i + 1)[j], self.peak));
                }
                if has_peak(s.take(i + 1), self.peak) && !is_peak(x, self.peak) {
                    let j = choose|j: int| 0 <= j < i + 1 && is_peak(#[trigger] s.take(i + 1)[j], self.peak);
                    assert(is_peak(s.take(i as int)[j], self.peak));
                }
                if is_peak(x, self.peak) {
                    assert(is_peak(s.take(i + 1)[i as int], self.peak));
                }
            }
            if x > self.peak || (x as i32) < -(self.peak as i32) {
                self.active = true;
                self.state.set(true);
                self.samples = 0;
            }
            i += 1;
        }
        assert(s.take(s.len() as int) =~= s);
        let ghost samples_now = self.samples;
        if !self.active {
            let len = if avail < output.max_length { avail } else { output.max_length };
            while self.zeros.len() < len
                invariant
                    self.peak == old(self).peak,
                    self.samples == samples_now,
                    !self.active,
                decreases len - self.zeros@.len(),
            {
                self.zeros.push(0);
            }
            let mut j: usize = 0;
            while j < len
                invariant
                    self.peak == old(self).peak,
                    self.samples == samples_now,
                    !self.active,
                    j <= len <= self.zeros@.len(),
                    forall|k: int| 0 <= k < j ==> self.zeros@[k] == 0,
                decreases len - j,
            {
                self.zeros[j] = 0;
                j += 1;
            }
            output.write_from(len, &self.zeros);
            assert(self.zeros@.take(len as int) =~= silence(len as int));
        } else {
            output.write_from_read_slice(avail, input, &slice);
            if self.samples > DUCK_HOLD_FRAMES {
                self.active = false;
                self.state.set(false);
            }
        }
    }
}

impl CallbackInner for Duck {
    open spec fn inv(&self) -> bool {
        true
    }

    open spec fn step(
        &self,
        input: RingBuffer,
        output: RingBuffer,
        next: Self,
        input_after: RingBuffer,
        output_after: RingBuffer,
    ) -> bool {
        self.listened(input, output, next, input_after, output_after)
    }

    fn process(&mut self, input: &mut RingBuffer, output: &mut RingBuffer) {
        self.listen(input, output);
    }
}

/// Attenuates its input by a fixed ratio while any of a set of duck flags
/// is raised; passes it unchanged otherwise.
pub struct Ducked {
    states: Vec<DuckState>,
    num: i32,
    denom: i32,
    read: Vec<i16>,
    scaled: Vec<i16>,
}

impl Ducked {
    pub closed spec fn ratio(&self) -> (i32, i32) {
        (self.num, self.denom)
    }

    pub fn new(states: Vec<DuckState>, volume: (i32, i32)) -> (r: Ducked)
        requires
            volume.1 != 0,
        ensures
            r.inv(),
            r.ratio() == volume,
    {
        Ducked { states, num: volume.0, denom: volume.1, read: Vec::new(), scaled: Vec::new() }
    }

    /// What one `attenuate` does with the flags read as `ducking`.
    pub open spec fn attenuated(&self, input: RingBuffer, output: RingBuffer, next: Self, input_after: RingBuffer, output_after: RingBuffer, ducking: bool) -> bool {
        &&& next.inv()
        &&& next.ratio() == self.ratio()
        &&& input_after.wf()
        &&& output_after.wf()
        &&& !input.active ==> input_after == input && output_after == output
        &&& input.active ==> {
            let s = input.contents();
            let m = if s.len() < output.max_length { s.len() as int } else { output.max_length as int };
            &&& input_after.same_store(&input)
            &&& input_after.contents().len() == 0
            &&& output_after.max_length == output.max_length
            &&& output_after.active == output.active
            &&& output_after.contents() == keep_last(
                output.contents() + if ducking {
                    scale_all(s.take(m), self.ratio().0, self.ratio().1)
                } else {
                    s.take(m)
                },
                output.max_length as int,
            )
        }
    }

    /// One tick with the flags read as `ducking`: an inactive input is
    /// left for later; otherwise all of it moves to the output, scaled by
    /// the ratio when `ducking`.
    pub fn attenuate(&mut self, ducking: bool, input: &mut RingBuffer, output: &mut RingBuffer)
        requires
            old(self).inv(),
            old(input).wf(),
            old(output).wf(),
        ensures
            old(self).attenuated(*old(input), *old(output), *final(self), *final(input), *final(output), ducking),
    {
        if !input.active {
            return;
        }
        let avail = input.len();
        if ducking {
            let n = input.read_into(avail, &mut self.read);
            let len = if n < output.max_length { n } else { output.max_length };
            scale_into(&self.read, len, self.num, self.denom, &mut self.scaled);
            let w = output.write_from(len, &self.scaled);
            assert(w == len);
            assert(self.scaled@.take(len as int) == scale_all(self.read@.take(len as int), self.num, self.denom));
            proof {
                assert(self.read@.take(len as int) =~= old(input).contents().take(len as int));
            }
        } else {
            let slice = input.read_slice(avail);
            let n = output.write_from_read_slice(avail, input, &slice);
            proof {
                assert(slice.view_in(input).take(n as int) =~= old(input).contents().take(n as int));
            }
        }
    }
}

impl CallbackInner for Ducked {
    closed spec fn inv(&self) -> bool {
        self.denom != 0
    }

    /// `attenuate`, ducking when any flag is raised.
    open spec fn step(
        &self,
        input: RingBuffer,
        output: RingBuffer,
        next: Self,
        input_after: RingBuffer,
        output_after: RingBuffer,
    ) -> bool {
        exists|ducking: bool| #[trigger] self.attenuated(input, output, next, input_after, output_after, ducking)
    }

    fn process(&mut self, input: &mut RingBuffer, output: &mut RingBuffer) {
        let mut ducking = false;
        let mut k: usize = 0;
        while k < self.states.len()
            invariant
                self.denom != 0,
            decreases self.states@.len() - k,
        {
            if self.states[k].get() {
                ducking = true;
            }
            k += 1;
        }
        self.attenuate(ducking, input, output);
    }
}

} // verus!
