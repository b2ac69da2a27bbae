use vstd::prelude::*;

use crate::ring_buffer::{RingBuffer, keep_last, min3};

verus! {

/// Every buffer of `outputs` is well formed.
pub open spec fn all_wf(outputs: Seq<RingBuffer>) -> bool {
    forall|k: int| 0 <= k < outputs.len() ==> (#[trigger] outputs[k]).wf()
}

/// Writes the first `amount` samples of `buffer` to every output, as
/// `RingBuffer::write_from` does.
pub fn copy_out(amount: usize, buffer: &Vec<i16>, outputs: &mut Vec<RingBuffer>)
    requires
        all_wf(old(outputs)@),
    ensures
        all_wf(final(outputs)@),
        final(outputs)@.len() == old(outputs)@.len(),
        forall|k: int| 0 <= k < old(outputs)@.len() ==> {
            let before = #[trigger] old(outputs)@[k];
            let after = final(outputs)@[k];
            &&& after.max_length == before.max_length
            &&& after.active == before.active
            &&& after.contents() == keep_last(
                before.contents() + buffer@.take(min3(amount as int, buffer@.len() as int, before.max_length as int)),
                before.max_length as int,
            )
        },
{
    let mut k: usize = 0;
    while k < outputs.len()
        invariant
            k <= outputs@.len(),
            outputs@.len() == old(outputs)@.len(),
            all_wf(outputs@),
            forall|j: int| k <= j < outputs@.len() ==> outputs@[j] == old(outputs)@[j],
            forall|j: int| 0 <= j < k ==> {
                let before = #[trigger] old(outputs)@[j];
                let after = outputs@[j];
                &&& after.max_length == before.max_length
                &&& after.active == before.active
                &&& after.contents() == keep_last(
                    before.contents() + buffer@.take(min3(amount as int, buffer@.len() as int, before.max_length as int)),
                    before.max_length as int,
                )
            },
        decreases outputs@.len() - k,
    {
        outputs[k].write_from(amount, buffer);
        k += 1;
    }
}

/// What `copy_out_ring` does: `ring` loses its first `min(amount, len)`
/// samples, and every output gains them (as `RingBuffer::write_from`
/// writes) and takes the flag of `ring`.
pub open spec fn fan_out(
    amount: int,
    ring: RingBuffer,
    ring_after: RingBuffer,
    outputs: Seq<RingBuffer>,
    outputs_after: Seq<RingBuffer>,
) -> bool {
    let moved = if amount < ring.count() { amount } else { ring.count() };
    &&& ring_after.wf()
    &&& ring_after.same_store(&ring)
    &&& ring_after.contents() == ring.contents().skip(moved)
    &&& all_wf(outputs_after)
    &&& outputs_after.len() == outputs.len()
    &&& forall|k: int| 0 <= k < outputs.len() ==> {
        let before = #[trigger] outputs[k];
        let after = outputs_after[k];
        &&& after.max_length == before.max_length
        &&& after.active == ring.active
        &&& after.contents() == keep_last(
            before.contents() + ring.contents().take(
                if moved < before.max_length { moved } else { before.max_length as int },
            ),
            before.max_length as int,
        )
    }
}

/// Reads `min(amount, ring.len())` samples from `ring` and writes them to
/// every output, each output taking the activity flag of `ring`. `buffer`
/// is scratch space the caller keeps between calls.
pub fn copy_out_ring(amount: usize, buffer: &mut Vec<i16>, ring: &mut RingBuffer, outputs: &mut Vec<RingBuffer>)
    requires
        old(ring).wf(),
        all_wf(old(outputs)@),
    ensures
        fan_out(amount as int, *old(ring), *final(ring), old(outputs)@, final(outputs)@),
{
    let active = ring.active;
    let slice = ring.read_slice(amount);
    let ghost moved = slice.length as int;
    let mut k: usize = 0;
    while k < outputs.len()
        invariant
            k <= outputs@.len(),
            outputs@.len() == old(outputs)@.len(),
            all_wf(outputs@),
            active == old(ring).active,
            slice.fits(ring),
            moved == slice.length,
            moved == if amount < old(ring).count() { amount as int } else { old(ring).count() },
            slice.view_in(ring) == old(ring).contents().take(moved),
            forall|j: int| k <= j < outputs@.len() ==> outputs@[j] == old(outputs)@[j],
            forall|j: int| 0 <= j < k ==> {
                let before = #[trigger] old(outputs)@[j];
                let after = outputs@[j];
                &&& after.max_length == before.max_length
                &&& after.active == old(ring).active
                &&& after.contents() == keep_last(
                    before.contents() + old(ring).contents().take(
                        if moved < before.max_length { moved } else { before.max_length as int },
                    ),
                    before.max_length as int,
                )
            },
        decreases outputs@.len() - k,
    {
        outputs[k].active = active;
        let ghost before = outputs@[k as int];
        let n = outputs[k].write_from_read_slice(amount, ring, &slice);
        proof {
            let m = if moved < before.max_length { moved } else { before.max_length as int };
            assert(n == m);
            assert(slice.view_in(ring).take(m) =~= old(ring).contents().take(m));
        }
        k += 1;
    }
}

} // verus!
