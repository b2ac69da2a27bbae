use vstd::prelude::*;

use crate::base_mix::{BaseMix, active_count, drained, mix_len};
use crate::base_mix::mix_ring_step;
use crate::copy_out::{copy_out_ring, fan_out};
use crate::node::Node;
use crate::ring_buffer::{DEFAULT_MAX_LENGTH, RingBuffer};

verus! {

/// A per-tick transform from one logical input to one logical output.
pub trait CallbackInner: Sized {
    /// What the transform's private state must keep between ticks; nothing
    /// unless the implementation says otherwise.
    open spec fn inv(&self) -> bool {
        true
    }

    /// What one call of `process` may do, relating the transform, its input
    /// and its output before the call to the same after it; nothing unless
    /// the implementation says otherwise.
    open spec fn step(
        &self,
        input: RingBuffer,
        output: RingBuffer,
        next: Self,
        input_after: RingBuffer,
        output_after: RingBuffer,
    ) -> bool {
        true
    }

    fn process(&mut self, input: &mut RingBuffer, output: &mut RingBuffer)
        requires
            old(self).inv(),
            old(input).wf(),
            old(output).wf(),
        ensures
            final(self).inv(),
            final(input).wf(),
            final(output).wf(),
            final(input).max_length == old(input).max_length,
            final(output).max_length == old(output).max_length,
            old(self).step(*old(input), *old(output), *final(self), *final(input), *final(output)),
    ;
}

/// Turns a one-input, one-output transform into a node of any arity.
///
/// Several inputs are first mixed into a private buffer; several outputs
/// get copies of what the transform wrote to a private buffer, each taking
/// that buffer's activity flag. The private buffers persist across ticks.
pub struct Callback<T: CallbackInner> {
    base_mix: BaseMix,
    in_buffer: RingBuffer,
    out_buffer: RingBuffer,
    sub_buffer: Vec<i16>,
    inner: T,
}

impl<T: CallbackInner> Callback<T> {
    /// The transform.
    pub closed spec fn transform(&self) -> T {
        self.inner
    }

    /// The private buffer several inputs are mixed into.
    pub closed spec fn scratch_in(&self) -> RingBuffer {
        self.in_buffer
    }

    /// The private buffer fanned out to several outputs.
    pub closed spec fn scratch_out(&self) -> RingBuffer {
        self.out_buffer
    }

    /// What one tick does, by arity. With no input and one output the
    /// transform runs once, generating into the output (whose flag is first
    /// set to that of the private input buffer); with one input and one
    /// output it runs on the pair, the output first taking the input's flag.
    /// One input and several outputs: it runs into the private output buffer
    /// (taking the input's flag), whose samples and flag every output then
    /// gets as `copy_out_ring` gives them. Several inputs are first mixed into
    /// the private input buffer as `BaseMix::mix_inputs_ring` mixes them.
    pub open spec fn ticked(
        &self,
        ins: Seq<RingBuffer>,
        outs: Seq<RingBuffer>,
        next: Self,
        ins2: Seq<RingBuffer>,
        outs2: Seq<RingBuffer>,
    ) -> bool {
        let t = self.transform();
        let t2 = next.transform();
        let a = self.scratch_in();
        let b = self.scratch_out();
        &&& ins2.len() == ins.len()
        &&& outs2.len() == outs.len()
        &&& if ins.len() == 0 && outs.len() == 0 {
            ins2 == ins && outs2 == outs
        } else if ins.len() == 0 && outs.len() == 1 {
            t.step(a, outs[0].with_flag(a.active), t2, next.scratch_in(), outs2[0])
        } else if ins.len() == 1 && outs.len() == 0 {
            t.step(ins[0], b.with_flag(ins[0].active), t2, ins2[0], next.scratch_out())
        } else if ins.len() == 1 && outs.len() == 1 {
            t.step(ins[0], outs[0].with_flag(ins[0].active), t2, ins2[0], outs2[0])
        } else if ins.len() == 1 {
            exists|mid: RingBuffer|
                t.step(ins[0], b.with_flag(ins[0].active), t2, ins2[0], mid)
                    && #[trigger] fan_out(mid.count(), mid, next.scratch_out(), outs, outs2)
        } else if outs.len() == 1 {
            exists|ring: RingBuffer|
                #[trigger] mix_ring_step(ins, ins2, a, ring) && t.step(
                    ring,
                    outs[0].with_flag(ring.active),
                    t2,
                    next.scratch_in(),
                    outs2[0],
                )
        } else {
            exists|ring: RingBuffer, mid: RingBuffer|
                #[trigger] mix_ring_step(ins, ins2, a, ring) && t.step(
                    ring,
                    b.with_flag(ring.active),
                    t2,
                    next.scratch_in(),
                    mid,
                ) && #[trigger] fan_out(mid.count(), mid, next.scratch_out(), outs, outs2)
        }
    }

    pub fn new(inner: T) -> (r: Callback<T>)
        requires
            inner.inv(),
        ensures
            r.inv(),
            r.transform() == inner,
    {
        Callback {
            base_mix: BaseMix::new(),
            in_buffer: RingBuffer::new(),
            out_buffer: RingBuffer::new(),
            sub_buffer: Vec::new(),
            inner,
        }
    }

    pub fn inner(&self) -> (r: &T)
        ensures
            *r == self.transform(),
    {
        &self.inner
    }
}

impl<T: CallbackInner> Node for Callback<T> {
    closed spec fn inv(&self) -> bool {
        &&& self.in_buffer.wf()
        &&& self.in_buffer.max_length == DEFAULT_MAX_LENGTH
        &&& self.out_buffer.wf()
        &&& self.inner.inv()
    }

    open spec fn step(
        &self,
        inputs: Seq<RingBuffer>,
        outputs: Seq<RingBuffer>,
        next: Self,
        inputs_after: Seq<RingBuffer>,
        outputs_after: Seq<RingBuffer>,
    ) -> bool {
        self.ticked(inputs, outputs, next, inputs_after, outputs_after)
    }

    /// With no input and one output the transform generates into the
    /// output; with one input and one output it runs on the pair directly.
    /// Several inputs are mixed first (as `BaseMix::mix_inputs_ring` does),
    /// several outputs are fanned out from one private buffer.
    fn update(&mut self, inputs: &mut Vec<RingBuffer>, outputs: &mut Vec<RingBuffer>)
        ensures
            old(inputs)@.len() == 0 && old(outputs)@.len() == 0 ==> final(inputs)@ == old(inputs)@
                && final(outputs)@ == old(outputs)@,
            old(inputs)@.len() >= 2 && active_count(old(inputs)@) >= 2 ==> drained(
                old(inputs)@,
                final(inputs)@,
                mix_len(old(inputs)@),
            ),
            old(inputs)@.len() >= 2 && active_count(old(inputs)@) == 1 ==> drained(
                old(inputs)@,
                final(inputs)@,
                if mix_len(old(inputs)@) < DEFAULT_MAX_LENGTH { mix_len(old(inputs)@) } else { DEFAULT_MAX_LENGTH as int },
            ),
            old(inputs)@.len() >= 2 && active_count(old(inputs)@) == 0 ==> final(inputs)@ == old(inputs)@,
    {
        let ni = inputs.len();
        let no = outputs.len();
        if ni == 0 && no == 0 {
            assert(old(self).ticked(old(inputs)@, old(outputs)@, *self, inputs@, outputs@));
        } else if ni == 0 && no == 1 {
            outputs[0].active = self.in_buffer.active;
            self.inner.process(&mut self.in_buffer, &mut outputs[0]);
            assert(old(self).ticked(old(inputs)@, old(outputs)@, *self, inputs@, outputs@));
        } else if ni == 1 && no == 0 {
            self.out_buffer.active = inputs[0].active;
            self.inner.process(&mut inputs[0], &mut self.out_buffer);
            assert(old(self).ticked(old(inputs)@, old(outputs)@, *self, inputs@, outputs@));
        } else if ni == 1 && no == 1 {
            outputs[0].active = inputs[0].active;
            self.inner.process(&mut inputs[0], &mut outputs[0]);
            assert(old(self).ticked(old(inputs)@, old(outputs)@, *self, inputs@, outputs@));
        } else if ni == 1 {
            self.out_buffer.active = inputs[0].active;
            let ghost b1 = self.out_buffer;
            assert(b1 == old(self).out_buffer.with_flag(old(inputs)@[0].active));
            self.inner.process(&mut inputs[0], &mut self.out_buffer);
            let ghost mid = self.out_buffer;
            assert(old(self).inner.step(old(inputs)@[0], b1, self.inner, inputs@[0], mid));
            let avail = self.out_buffer.len();
            copy_out_ring(avail, &mut self.sub_buffer, &mut self.out_buffer, outputs);
            assert(fan_out(mid.count(), mid, self.scratch_out(), old(outputs)@, outputs@));
            assert(old(self).ticked(old(inputs)@, old(outputs)@, *self, inputs@, outputs@));
        } else if no == 1 {
            self.base_mix.mix_inputs_ring(inputs, &mut self.in_buffer);
            let ghost ring = self.in_buffer;
            outputs[0].active = self.in_buffer.active;
            assert(outputs@[0] == old(outputs)@[0].with_flag(ring.active));
            self.inner.process(&mut self.in_buffer, &mut outputs[0]);
            assert(mix_ring_step(old(inputs)@, inputs@, old(self).scratch_in(), ring));
            assert(old(self).ticked(old(inputs)@, old(outputs)@, *self, inputs@, outputs@));
        } else {
            self.base_mix.mix_inputs_ring(inputs, &mut self.in_buffer);
            let ghost ring = self.in_buffer;
            self.out_buffer.active = self.in_buffer.active;
            let ghost b1 = self.out_buffer;
            assert(b1 == old(self).out_buffer.with_flag(ring.active));
            self.inner.process(&mut self.in_buffer, &mut self.out_buffer);
            let ghost mid = self.out_buffer;
            assert(old(self).inner.step(ring, b1, self.inner, self.scratch_in(), mid));
            let avail = self.out_buffer.len();
            copy_out_ring(avail, &mut self.sub_buffer, &mut self.out_buffer, outputs);
            assert(mix_ring_step(old(inputs)@, inputs@, old(self).scratch_in(), ring));
            assert(fan_out(mid.count(), mid, self.scratch_out(), old(outputs)@, outputs@));
            assert(old(self).ticked(old(inputs)@, old(outputs)@, *self, inputs@, outputs@));
        }
    }
}

} // verus!
