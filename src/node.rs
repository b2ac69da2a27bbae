use vstd::prelude::*;

use crate::copy_out::all_wf;
use crate::ring_buffer::RingBuffer;

verus! {

/// A stage of the processing graph.
///
/// Each tick a node gets exactly the buffers wired to it: it consumes from
/// `inputs` what it can emit to `outputs` (leaving the rest for the next
/// tick), and sets each output's `active` flag to say whether it produced
/// live audio. It keeps no reference to the buffers after the call.
pub trait Node: Sized {
    /// What the node's private state must keep between ticks; nothing
    /// unless the implementation says otherwise.
    open spec fn inv(&self) -> bool {
        true
    }

    /// What one call of `update` may do, relating the node and the buffers
    /// it is handed before the call to the same after it; nothing unless the
    /// implementation says otherwise.
    open spec fn step(
        &self,
        inputs: Seq<RingBuffer>,
        outputs: Seq<RingBuffer>,
        next: Self,
        inputs_after: Seq<RingBuffer>,
        outputs_after: Seq<RingBuffer>,
    ) -> bool {
        true
    }

    fn update(&mut self, inputs: &mut Vec<RingBuffer>, outputs: &mut Vec<RingBuffer>)
        requires
            old(self).inv(),
            all_wf(old(inputs)@),
            all_wf(old(outputs)@),
        ensures
            final(self).inv(),
            all_wf(final(inputs)@),
            all_wf(final(outputs)@),
            final(inputs)@.len() == old(inputs)@.len(),
            final(outputs)@.len() == old(outputs)@.len(),
            old(self).step(old(inputs)@, old(outputs)@, *final(self), final(inputs)@, final(outputs)@),
    ;
}

} // verus!
