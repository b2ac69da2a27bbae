use vstd::prelude::*;

use std::sync::Arc;
use std::sync::atomic::{AtomicBool, AtomicUsize, Ordering};

use crate::callback::CallbackInner;
use crate::ring_buffer::{RingBuffer, keep_last};

verus! {

/// What one tick of a gate does with `input` and `output`, `open` being
/// what the shared switch read this tick.
pub open spec fn gate_step(open: bool, input: RingBuffer, output: RingBuffer, input_after: RingBuffer, output_after: RingBuffer) -> bool {
    &&& input_after.wf()
    &&& output_after.wf()
    &&& if !input.active {
        input_after == input && output_after == output
    } else if !open {
        &&& input_after.same_store(&input)
        &&& input_after.contents().len() == 0
        &&& output_after == (RingBuffer { active: false, ..output })
    } else {
        let m = if input.count() < output.max_length { input.count() } else { output.max_length as int };
        &&& input_after.same_store(&input)
        &&& input_after.contents() == input.contents().skip(m)
        &&& output_after.max_length == output.max_length
        &&& output_after.active == output.active
        &&& output_after.contents() == keep_last(output.contents() + input.contents().take(m), output.max_length as int)
    }
}

/// One tick of a gate: an inactive input is left for later; a closed gate
/// marks the output inactive and discards the input; an open gate moves
/// the input across.
pub fn pass_or_mute(open: bool, input: &mut RingBuffer, output: &mut RingBuffer)
    requires
        old(input).wf(),
        old(output).wf(),
    ensures
        gate_step(open, *old(input), *old(output), *final(input), *final(output)),
{
    if !input.active {
        return;
    }
    if !open {
        output.active = false;
        input.clear();
    } else {
        let avail = input.len();
        output.write_from_ring(avail, input);
    }
}

/// A shared on/off switch, read by `Gated` nodes every tick and set from
/// elsewhere (last writer wins).
#[derive(Clone)]
pub struct GateState(Arc<AtomicBool>);

impl GateState {
    /// A closed gate.
    pub fn new() -> GateState {
        GateState(Arc::new(AtomicBool::new(false)))
    }

    pub fn get(&self) -> bool {
        self.0.load(Ordering::SeqCst)
    }

    /// Replaces the value with `mapfn` of the value read.
    pub fn map<T: Fn(&bool) -> bool>(&self, mapfn: T)
        requires
            forall|b: bool| mapfn.requires((&b,)),
    {
        let current = self.get();
        let next = mapfn(&current);
        self.0.store(next, Ordering::SeqCst);
    }

    pub fn set(&self, state: bool) {
        self.0.store(state, Ordering::SeqCst);
    }

    pub fn toggle(&self) {
        self.0.fetch_xor(true, Ordering::SeqCst);
    }
}

/// Passes its input through while its gate is on; otherwise mutes it.
pub struct Gated {
    state: GateState,
}

impl Gated {
    pub fn new(state: GateState) -> (r: Gated)
        ensures
            r.inv(),
    {
        Gated { state }
    }
}

impl CallbackInner for Gated {
    open spec fn inv(&self) -> bool {
        true
    }

    /// `pass_or_mute`, open when the shared switch is on.
    open spec fn step(
        &self,
        input: RingBuffer,
        output: RingBuffer,
        next: Self,
        input_after: RingBuffer,
        output_after: RingBuffer,
    ) -> bool {
        next == self && exists|open: bool| #[trigger] gate_step(open, input, output, input_after, output_after)
    }

    fn process(&mut self, input: &mut RingBuffer, output: &mut RingBuffer)
        ensures
            exists|open: bool| gate_step(open, *old(input), *old(output), *final(input), *final(output)),
    {
        let open = self.state.get();
        pass_or_mute(open, input, output);
    }
}

/// A shared selector, read by `Switched` nodes every tick and set from
/// elsewhere (last writer wins).
#[derive(Clone)]
pub struct SwitchState(Arc<AtomicUsize>);

impl SwitchState {
    /// A selector that starts at 1.
    pub fn new() -> SwitchState {
        SwitchState(Arc::new(AtomicUsize::new(1)))
    }

    pub fn get(&self) -> usize {
        self.0.load(Ordering::SeqCst)
    }

    pub fn set(&self, state: usize) {
        self.0.store(state, Ordering::SeqCst);
    }

    /// Replaces the value with `mapfn` of the value read.
    pub fn map<T: Fn(&usize) -> usize>(&self, mapfn: T)
        requires
            forall|v: usize| mapfn.requires((&v,)),
    {
        let current = self.get();
        let next = mapfn(&current);
        self.0.store(next, Ordering::SeqCst);
    }
}

/// Passes its input through only while the shared selector equals its own
/// value; otherwise mutes it. Several of them on one selector route exactly
/// one source.
pub struct Switched {
    state: SwitchState,
    my_state: usize,
}

impl Switched {
    pub fn new(state: SwitchState, my_state: usize) -> (r: Switched)
        ensures
            r.inv(),
            r.value() == my_state,
    {
        Switched { state, my_state }
    }

    /// The selector value on which this node passes its input.
    pub closed spec fn value(&self) -> usize {
        self.my_state
    }
}

impl CallbackInner for Switched {
    open spec fn inv(&self) -> bool {
        true
    }

    /// `pass_or_mute`, open when the selector equals this node's value.
    open spec fn step(
        &self,
        input: RingBuffer,
        output: RingBuffer,
        next: Self,
        input_after: RingBuffer,
        output_after: RingBuffer,
    ) -> bool {
        next == self && exists|open: bool| #[trigger] gate_step(open, input, output, input_after, output_after)
    }

    fn process(&mut self, input: &mut RingBuffer, output: &mut RingBuffer)
        ensures
            exists|open: bool| gate_step(open, *old(input), *old(output), *final(input), *final(output)),
    {
        let selected = self.state.get();
        pass_or_mute(selected == self.my_state, input, output);
    }
}

} // verus!
