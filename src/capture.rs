use vstd::prelude::*;

use crate::copy_out::{copy_out_ring, fan_out};
use crate::node::Node;
use crate::ring_buffer::RingBuffer;

verus! {

/// A source of samples: each tick it writes what it has to `output`.
pub trait CaptureInner: Sized {
    /// What the source's private state must keep between ticks; nothing
    /// unless the implementation says otherwise.
    open spec fn inv(&self) -> bool {
        true
    }

    /// What one call of `capture` may do; nothing unless the implementation
    /// says otherwise.
    open spec fn step(&self, output: RingBuffer, next: Self, output_after: RingBuffer) -> bool {
        true
    }

    fn capture(&mut self, output: &mut RingBuffer)
        requires
            old(self).inv(),
            old(output).wf(),
        ensures
            final(self).inv(),
            final(output).wf(),
            final(output).max_length == old(output).max_length,
            old(self).step(*old(output), *final(self), *final(output)),
    ;
}

/// Turns a source into a node with no input: what the source writes to a
/// private buffer is copied to every output, each taking that buffer's
/// activity flag.
pub struct Capture<T: CaptureInner> {
    ring: RingBuffer,
    buffer: Vec<i16>,
    inner: T,
}

impl<T: CaptureInner> Capture<T> {
    /// The source.
    pub closed spec fn source(&self) -> T {
        self.inner
    }

    /// The private buffer the source writes to.
    pub closed spec fn scratch(&self) -> RingBuffer {
        self.ring
    }

    /// What one tick does: the source writes to the private buffer, and
    /// every output gets all of it and its flag, as `copy_out_ring` gives
    /// them; inputs are left alone.
    pub open spec fn ticked(
        &self,
        ins: Seq<RingBuffer>,
        outs: Seq<RingBuffer>,
        next: Self,
        ins2: Seq<RingBuffer>,
        outs2: Seq<RingBuffer>,
    ) -> bool {
        &&& ins2 == ins
        &&& exists|mid: RingBuffer|
            self.source().step(self.scratch(), next.source(), mid) && #[trigger] fan_out(
                mid.count(),
                mid,
                next.scratch(),
                outs,
                outs2,
            )
    }

    pub fn new(inner: T) -> (r: Capture<T>)
        requires
            inner.inv(),
        ensures
            r.inv(),
            r.source() == inner,
    {
        Capture { ring: RingBuffer::new(), buffer: Vec::new(), inner }
    }

    pub fn inner(&self) -> (r: &T)
        ensures
            *r == self.source(),
    {
        &self.inner
    }
}

impl<T: CaptureInner> Node for Capture<T> {
    closed spec fn inv(&self) -> bool {
        self.ring.wf() && self.inner.inv()
    }

    open spec fn step(
        &self,
        inputs: Seq<RingBuffer>,
        outputs: Seq<RingBuffer>,
        next: Self,
        inputs_after: Seq<RingBuffer>,
        outputs_after: Seq<RingBuffer>,
    ) -> bool {
        self.ticked(inputs, outputs, next, inputs_after, outputs_after)
    }

    /// Inputs are left alone.
    fn update(&mut self, inputs: &mut Vec<RingBuffer>, outputs: &mut Vec<RingBuffer>)
        ensures
            final(inputs)@ == old(inputs)@,
            forall|k: int, j: int| 0 <= k < final(outputs)@.len() && 0 <= j < final(outputs)@.len()
                ==> (#[trigger] final(outputs)@[k]).active == (#[trigger] final(outputs)@[j]).active,
    {
        self.inner.capture(&mut self.ring);
        let ghost mid = self.ring;
        let avail = self.ring.len();
        let ghost flag = self.ring.active;
        copy_out_ring(avail, &mut self.buffer, &mut self.ring, outputs);
        assert(fan_out(mid.count(), mid, self.scratch(), old(outputs)@, outputs@));
        assert forall|k: int, j: int| 0 <= k < outputs@.len() && 0 <= j < outputs@.len() implies
            (#[trigger] outputs@[k]).active == (#[trigger] outputs@[j]).active by {
            let bk = old(outputs)@[k];
            let bj = old(outputs)@[j];
        }
    }
}

} // verus!
