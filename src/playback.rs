use vstd::prelude::*;

use crate::base_mix::{BaseMix, active_count, any_active, drained, mix_len, mix_ring_step};
use crate::node::Node;
use crate::ring_buffer::{DEFAULT_MAX_LENGTH, RingBuffer};

verus! {

/// A sink of samples: each tick it takes what it can from `input`.
pub trait PlaybackInner: Sized {
    /// What the sink's private state must keep between ticks; nothing
    /// unless the implementation says otherwise.
    open spec fn inv(&self) -> bool {
        true
    }

    /// What one call of `playback` may do; nothing unless the
    /// implementation says otherwise.
    open spec fn step(&self, input: RingBuffer, next: Self, input_after: RingBuffer) -> bool {
        true
    }

    fn playback(&mut self, input: &mut RingBuffer)
        requires
            old(self).inv(),
            old(input).wf(),
        ensures
            final(self).inv(),
            final(input).wf(),
            final(input).max_length == old(input).max_length,
            old(self).step(*old(input), *final(self), *final(input)),
    ;
}

/// Turns a sink into a node with no output: the inputs are mixed into a
/// private buffer (as `BaseMix::mix_inputs_ring` does), which the sink then
/// reads from.
pub struct Playback<T: PlaybackInner> {
    base_mix: BaseMix,
    ring: RingBuffer,
    inner: T,
}

impl<T: PlaybackInner> Playback<T> {
    /// The sink.
    pub closed spec fn sink(&self) -> T {
        self.inner
    }

    /// The private buffer the inputs are mixed into.
    pub closed spec fn scratch(&self) -> RingBuffer {
        self.ring
    }

    /// What one tick does: the inputs are mixed into the private buffer as
    /// `BaseMix::mix_inputs_ring` mixes them, and the sink is handed that
    /// buffer; outputs are left alone.
    pub open spec fn ticked(
        &self,
        ins: Seq<RingBuffer>,
        outs: Seq<RingBuffer>,
        next: Self,
        ins2: Seq<RingBuffer>,
        outs2: Seq<RingBuffer>,
    ) -> bool {
        &&& outs2 == outs
        &&& exists|ring: RingBuffer|
            #[trigger] mix_ring_step(ins, ins2, self.scratch(), ring) && self.sink().step(
                ring,
                next.sink(),
                next.scratch(),
            )
    }

    pub fn new(inner: T) -> (r: Playback<T>)
        requires
            inner.inv(),
        ensures
            r.inv(),
            r.sink() == inner,
    {
        Playback { base_mix: BaseMix::new(), ring: RingBuffer::new(), inner }
    }

    pub fn inner(&self) -> (r: &T)
        ensures
            *r == self.sink(),
    {
        &self.inner
    }
}

impl<T: PlaybackInner> Node for Playback<T> {
    closed spec fn inv(&self) -> bool {
        self.ring.wf() && self.ring.max_length == DEFAULT_MAX_LENGTH && self.inner.inv()
    }

    open spec fn step(
        &self,
        inputs: Seq<RingBuffer>,
        outputs: Seq<RingBuffer>,
        next: Self,
        inputs_after: Seq<RingBuffer>,
        outputs_after: Seq<RingBuffer>,
    ) -> bool {
        self.ticked(inputs, outputs, next, inputs_after, outputs_after)
    }

    /// Outputs are left alone; the inputs are drained as a mix drains them.
    fn update(&mut self, inputs: &mut Vec<RingBuffer>, outputs: &mut Vec<RingBuffer>)
        ensures
            final(outputs)@ == old(outputs)@,
            !any_active(old(inputs)@) ==> final(inputs)@ == old(inputs)@,
            active_count(old(inputs)@) >= 2 ==> drained(old(inputs)@, final(inputs)@, mix_len(old(inputs)@)),
            active_count(old(inputs)@) == 1 ==> drained(
                old(inputs)@,
                final(inputs)@,
                if mix_len(old(inputs)@) < DEFAULT_MAX_LENGTH { mix_len(old(inputs)@) } else { DEFAULT_MAX_LENGTH as int },
            ),
    {
        proof { crate::base_mix::lemma_active_count(old(inputs)@); }
        self.base_mix.mix_inputs_ring(inputs, &mut self.ring);
        let ghost ring = self.ring;
        self.inner.playback(&mut self.ring);
        assert(mix_ring_step(old(inputs)@, inputs@, old(self).scratch(), ring));
    }
}

} // verus!
