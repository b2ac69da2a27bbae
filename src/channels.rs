use vstd::prelude::*;

use crate::callback::CallbackInner;
use crate::ring_buffer::{RingBuffer, keep_last};

verus! {

/// The first `n` samples of `s` with every sample doubled: mono to
/// interleaved stereo.
pub open spec fn doubled(s: Seq<i16>, n: int) -> Seq<i16> {
    Seq::new(n as nat, |j: int| s[j / 2])
}

/// Turns mono into interleaved stereo by giving each sample to both channels.
pub struct MonoToStereo {
    read: Vec<i16>,
    wide: Vec<i16>,
}

impl MonoToStereo {
    pub fn new() -> (r: MonoToStereo)
        ensures
            r.inv(),
    {
        MonoToStereo { read: Vec::new(), wide: Vec::new() }
    }

    /// What one `widen` does.
    pub open spec fn widened(&self, input: RingBuffer, output: RingBuffer, next: Self, input_after: RingBuffer, output_after: RingBuffer) -> bool {
        &&& input_after.wf()
        &&& input_after.same_store(&input)
        &&& input_after.contents().len() == 0
        &&& output_after.wf()
        &&& output_after.max_length == output.max_length
        &&& output_after.active == output.active
        &&& ({
            let s = input.contents();
            let n = if 2 * s.len() < output.max_length { 2 * s.len() as int } else { output.max_length as int };
            output_after.contents() == keep_last(output.contents() + doubled(s, n), output.max_length as int)
        })
    }

    /// Reads all input and writes each sample twice (as much of that as
    /// the output can hold).
    pub fn widen(&mut self, input: &mut RingBuffer, output: &mut RingBuffer)
        requires
            old(input).wf(),
            old(output).wf(),
        ensures
            old(self).widened(*old(input), *old(output), *final(self), *final(input), *final(output)),
    {
        let avail = input.len();
        if avail == 0 {
            assert(doubled(old(input).contents(), 0) =~= Seq::<i16>::empty());
            assert(old(output).contents() + Seq::<i16>::empty() =~= old(output).contents());
            return;
        }
        let n = input.read_into(avail, &mut self.read);
        let len = if n <= output.max_length / 2 { n * 2 } else { output.max_length };
        let ghost read_now = self.read@;
        while self.wide.len() < len
            invariant
                self.read@ == read_now,
            decreases len - self.wide@.len(),
        {
            self.wide.push(0);
        }
        let mut j: usize = 0;
        while j < len
            invariant
                j <= len <= self.wide@.len(),
                len <= 2 * n,
                n <= self.read@.len(),
                self.read@.take(n as int) == old(input).contents().take(n as int),
                n == old(input).count(),
                forall|k: int| 0 <= k < j ==> self.wide@[k] == old(input).contents()[k / 2],
            decreases len - j,
        {
            self.wide[j] = self.read[j / 2];
            proof {
                assert(self.read@.take(n as int)[(j / 2) as int] == self.read@[(j / 2) as int]);
            }
            j += 1;
        }
        output.write_from(len, &self.wide);
        proof {
            assert(self.wide@.take(len as int) =~= doubled(old(input).contents(), len as int));
        }
    }
}

impl CallbackInner for MonoToStereo {
    open spec fn inv(&self) -> bool {
        true
    }

    open spec fn step(
        &self,
        input: RingBuffer,
        output: RingBuffer,
        next: Self,
        input_after: RingBuffer,
        output_after: RingBuffer,
    ) -> bool {
        self.widened(input, output, next, input_after, output_after)
    }

    fn process(&mut self, input: &mut RingBuffer, output: &mut RingBuffer) {
        self.widen(input, output);
    }
}

} // verus!
