use vstd::prelude::*;

use crate::copy_out::{all_wf, copy_out};
use crate::node::Node;
use crate::ring_buffer::{RingBuffer, keep_last, min3};

verus! {

/// Sum of two samples, wrapping around on 16-bit overflow.
pub open spec fn add16(a: i16, b: i16) -> i16 {
    if a + b > i16::MAX {
        (a + b - 0x1_0000) as i16
    } else if a + b < i16::MIN {
        (a + b + 0x1_0000) as i16
    } else {
        (a + b) as i16
    }
}

/// Smallest unread length among the active buffers of `inputs`, if any is active.
pub open spec fn min_active_len(inputs: Seq<RingBuffer>) -> Option<int>
    decreases inputs.len(),
{
    if inputs.len() == 0 {
        None
    } else {
        let rest = min_active_len(inputs.drop_last());
        let last = inputs.last();
        if !last.active {
            rest
        } else {
            match rest {
                None => Some(last.count()),
                Some(m) => Some(if m < last.count() { m } else { last.count() }),
            }
        }
    }
}

/// Samples one mix takes from each active input: the shortest active
/// input's length, or 0 when none is active.
pub open spec fn mix_len(inputs: Seq<RingBuffer>) -> int {
    match min_active_len(inputs) {
        Some(m) => m,
        None => 0,
    }
}

pub open spec fn any_active(inputs: Seq<RingBuffer>) -> bool {
    exists|k: int| 0 <= k < inputs.len() && (#[trigger] inputs[k]).active
}

/// Sample `i` of the mix: the wrapping sum of sample `i` of every active input.
pub open spec fn mix_sum(inputs: Seq<RingBuffer>, i: int) -> i16
    decreases inputs.len(),
{
    if inputs.len() == 0 {
        0
    } else {
        let last = inputs.last();
        add16(mix_sum(inputs.drop_last(), i), if last.active { last.contents()[i] } else { 0 })
    }
}

/// Number of active buffers in `inputs`.
pub open spec fn active_count(inputs: Seq<RingBuffer>) -> nat
    decreases inputs.len(),
{
    if inputs.len() == 0 {
        0
    } else {
        active_count(inputs.drop_last()) + if inputs.last().active { 1nat } else { 0nat }
    }
}

/// The first `n` samples of the mix of `inputs`.
pub open spec fn mix_seq(inputs: Seq<RingBuffer>, n: int) -> Seq<i16> {
    Seq::new(n as nat, |i: int| mix_sum(inputs, i))
}

pub proof fn lemma_active_count(inputs: Seq<RingBuffer>)
    ensures
        active_count(inputs) == 0 <==> !any_active(inputs),
        active_count(inputs) == 1 ==> forall|j: int, k: int|
            0 <= j < inputs.len() && 0 <= k < inputs.len() && (#[trigger] inputs[j]).active
                && (#[trigger] inputs[k]).active ==> j == k,
        active_count(inputs) == 1 ==> forall|i: int, k: int|
            0 <= k < inputs.len() && inputs[k].active ==> #[trigger] mix_sum(inputs, i)
                == (#[trigger] inputs[k]).contents()[i],
    decreases inputs.len(),
{
    if inputs.len() > 0 {
        let rest = inputs.drop_last();
        lemma_active_count(rest);
        assert forall|k: int| 0 <= k < rest.len() implies #[trigger] rest[k] == inputs[k] by {}
        if any_active(rest) {
            let k = choose|k: int| 0 <= k < rest.len() && (#[trigger] rest[k]).active;
            assert(inputs[k].active);
        }
        if any_active(inputs) && !inputs.last().active {
            let k = choose|k: int| 0 <= k < inputs.len() && (#[trigger] inputs[k]).active;
            assert(rest[k].active);
        }
        if active_count(inputs) == 1 {
            let n = inputs.len() - 1;
            assert(inputs.last() == inputs[n]);
            if inputs.last().active {
                assert forall|j: int| 0 <= j < rest.len() implies !(#[trigger] rest[j]).active by {
                    if rest[j].active {
                        assert(any_active(rest));
                    }
                }
                assert forall|j: int, k: int|
                    0 <= j < inputs.len() && 0 <= k < inputs.len() && (#[trigger] inputs[j]).active
                        && (#[trigger] inputs[k]).active implies j == k by {
                    if j < n {
                        assert(rest[j].active);
                    }
                    if k < n {
                        assert(rest[k].active);
                    }
                }
                assert forall|i: int, k: int|
                    0 <= k < inputs.len() && inputs[k].active implies #[trigger] mix_sum(inputs, i)
                        == (#[trigger] inputs[k]).contents()[i] by {
                    if k < n {
                        assert(rest[k].active);
                    }
                    lemma_mix_sum_inactive(rest, i);
                }
            } else {
                assert forall|j: int, k: int|
                    0 <= j < inputs.len() && 0 <= k < inputs.len() && (#[trigger] inputs[j]).active
                        && (#[trigger] inputs[k]).active implies j == k by {
                    assert(rest[j].active);
                    assert(rest[k].active);
                }
                assert forall|i: int, k: int|
                    0 <= k < inputs.len() && inputs[k].active implies #[trigger] mix_sum(inputs, i)
                        == (#[trigger] inputs[k]).contents()[i] by {
                    assert(rest[k].active);
                    assert(mix_sum(rest, i) == rest[k].contents()[i]);
                }
            }
        }
    }
}

proof fn lemma_mix_sum_inactive(inputs: Seq<RingBuffer>, i: int)
    requires
        !any_active(inputs),
    ensures
        mix_sum(inputs, i) == 0,
    decreases inputs.len(),
{
    if inputs.len() > 0 {
        let rest = inputs.drop_last();
        if any_active(rest) {
            let k = choose|k: int| 0 <= k < rest.len() && (#[trigger] rest[k]).active;
            assert(inputs[k].active);
        }
        assert(!inputs[inputs.len() - 1].active);
        lemma_mix_sum_inactive(rest, i);
    }
}

/// Mix law: an inactive input, whatever it holds, changes neither how
/// many samples a mix takes nor any mixed sample, nor whether the mix is
/// active.
pub proof fn lemma_inactive_input_ignored(inputs: Seq<RingBuffer>, extra: RingBuffer)
    requires
        !extra.active,
    ensures
        mix_len(inputs.push(extra)) == mix_len(inputs),
        forall|i: int| #[trigger] mix_sum(inputs.push(extra), i) == mix_sum(inputs, i),
        any_active(inputs.push(extra)) == any_active(inputs),
{
    let all = inputs.push(extra);
    assert(all.drop_last() =~= inputs);
    assert forall|i: int| #[trigger] mix_sum(all, i) == mix_sum(inputs, i) by {
        assert(all.last() == extra);
    }
    if any_active(all) {
        let k = choose|k: int| 0 <= k < all.len() && (#[trigger] all[k]).active;
        assert(inputs[k].active);
    }
    if any_active(inputs) {
        let k = choose|k: int| 0 <= k < inputs.len() && (#[trigger] inputs[k]).active;
        assert(all[k].active);
    }
}

/// What one mix of `before` leaves in `after`: the active inputs lose their
/// first `n` samples, the others are untouched.
pub open spec fn drained(before: Seq<RingBuffer>, after: Seq<RingBuffer>, n: int) -> bool {
    &&& after.len() == before.len()
    &&& all_wf(after)
    &&& forall|k: int| 0 <= k < before.len() ==> {
        let b = #[trigger] before[k];
        let a = after[k];
        if b.active {
            &&& a.same_store(&b)
            &&& a.contents() == b.contents().skip(n)
        } else {
            a == b
        }
    }
}

proof fn lemma_min_active_len(inputs: Seq<RingBuffer>)
    requires
        all_wf(inputs),
    ensures
        min_active_len(inputs) is Some <==> any_active(inputs),
        forall|k: int| 0 <= k < inputs.len() && (#[trigger] inputs[k]).active ==> mix_len(inputs) <= inputs[k].count(),
        0 <= mix_len(inputs),
        min_active_len(inputs) is Some ==> exists|k: int| 0 <= k < inputs.len() && (#[trigger] inputs[k]).active
            && mix_len(inputs) == inputs[k].count(),
    decreases inputs.len(),
{
    if inputs.len() > 0 {
        let rest = inputs.drop_last();
        assert(all_wf(rest)) by {
            assert forall|k: int| 0 <= k < rest.len() implies (#[trigger] rest[k]).wf() by {
                assert(rest[k] == inputs[k]);
            }
        }
        lemma_min_active_len(rest);
        inputs.last().lemma_count_bounds();
        assert forall|k: int| 0 <= k < rest.len() implies #[trigger] rest[k] == inputs[k] by {}
        if any_active(inputs) && !inputs.last().active {
            let k = choose|k: int| 0 <= k < inputs.len() && (#[trigger] inputs[k]).active;
            assert(rest[k].active);
        }
        if any_active(rest) {
            let k = choose|k: int| 0 <= k < rest.len() && (#[trigger] rest[k]).active;
            assert(inputs[k].active);
        }
        assert forall|k: int| 0 <= k < inputs.len() && (#[trigger] inputs[k]).active implies mix_len(inputs)
            <= inputs[k].count() by {
            if k < rest.len() {
                assert(rest[k].active);
                assert(min_active_len(rest) is Some);
            }
        }
        if min_active_len(inputs) is Some {
            if inputs.last().active && (min_active_len(rest) is None || inputs.last().count() <= mix_len(rest)) {
                assert(inputs[inputs.len() - 1].active);
            } else {
                let k = choose|k: int| 0 <= k < rest.len() && (#[trigger] rest[k]).active
                    && mix_len(rest) == rest[k].count();
                assert(inputs[k].active);
            }
        }
    }
}

/// What `BaseMix::mix_inputs_ring` does to `inputs` and `ring`.
pub open spec fn mix_ring_step(
    inputs: Seq<RingBuffer>,
    inputs_after: Seq<RingBuffer>,
    ring: RingBuffer,
    ring_after: RingBuffer,
) -> bool {
    let m = if mix_len(inputs) < ring.max_length { mix_len(inputs) } else { ring.max_length as int };
    &&& ring_after.wf()
    &&& ring_after.max_length == ring.max_length
    &&& ring_after.active == any_active(inputs)
    &&& all_wf(inputs_after)
    &&& inputs_after.len() == inputs.len()
    &&& active_count(inputs) == 0 ==> inputs_after == inputs && ring_after.contents() == ring.contents()
    &&& active_count(inputs) == 1 ==> drained(inputs, inputs_after, m)
    &&& active_count(inputs) >= 2 ==> drained(inputs, inputs_after, mix_len(inputs))
    &&& active_count(inputs) >= 1 ==> ring_after.contents() == keep_last(
        ring.contents() + mix_seq(inputs, m),
        ring.max_length as int,
    )
}

/// Sums the active subset of several ring buffers.
pub struct BaseMix {
    /// The last mix: its first `n` samples, where `n` is what `mix_inputs`
    /// returned.
    pub accum: Vec<i16>,
}

impl Default for BaseMix {
    fn default() -> (r: BaseMix)
        ensures
            r.accum@.len() == 0,
    {
        BaseMix { accum: Vec::new() }
    }
}

impl BaseMix {
    pub fn new() -> (r: BaseMix)
        ensures
            r.accum@.len() == 0,
    {
        BaseMix { accum: Vec::new() }
    }

    /// Mixes the active inputs into `accum` and returns the number of samples
    /// mixed: the shortest active input's length (0 when none is active).
    /// Each active input loses exactly that many samples; a faster input
    /// keeps its backlog. Samples are summed with 16-bit wraparound.
    pub fn mix_inputs(&mut self, inputs: &mut Vec<RingBuffer>) -> (r: usize)
        requires
            all_wf(old(inputs)@),
        ensures
            r == mix_len(old(inputs)@),
            drained(old(inputs)@, final(inputs)@, r as int),
            final(self).accum@.len() == if old(self).accum@.len() < r { r as int } else { old(self).accum@.len() as int },
            forall|i: int| 0 <= i < r ==> final(self).accum@[i] == mix_sum(old(inputs)@, i),
            forall|i: int| r <= i < old(self).accum@.len() ==> final(self).accum@[i] == old(self).accum@[i],
    {
        proof { lemma_min_active_len(old(inputs)@); }
        let mut found = false;
        let mut avail: usize = 0;
        let mut k: usize = 0;
        while k < inputs.len()
            invariant
                inputs@ == old(inputs)@,
                all_wf(inputs@),
                k <= inputs@.len(),
                found == (min_active_len(inputs@.take(k as int)) is Some),
                found ==> avail == mix_len(inputs@.take(k as int)),
            decreases inputs@.len() - k,
        {
            assert(inputs@.take(k + 1).drop_last() =~= inputs@.take(k as int));
            if inputs[k].active {
                let len = inputs[k].len();
                if !found || len < avail {
                    avail = len;
                }
                found = true;
            }
            k += 1;
        }
        assert(inputs@.take(k as int) =~= inputs@);
        if !found {
            avail = 0;
        }
        while self.accum.len() < avail
            invariant
                old(self).accum@.len() <= self.accum@.len() <= if old(self).accum@.len() < avail { avail as int } else { old(self).accum@.len() as int },
                forall|i: int| 0 <= i < old(self).accum@.len() ==> self.accum@[i] == old(self).accum@[i],
            decreases avail - self.accum@.len(),
        {
            self.accum.push(0);
        }
        let mut i: usize = 0;
        while i < avail
            invariant
                i <= avail <= self.accum@.len(),
                self.accum@.len() == if old(self).accum@.len() < avail { avail as int } else { old(self).accum@.len() as int },
                forall|j: int| 0 <= j < i ==> self.accum@[j] == 0,
                forall|j: int| avail <= j < old(self).accum@.len() ==> self.accum@[j] == old(self).accum@[j],
            decreases avail - i,
        {
            self.accum[i] = 0;
            i += 1;
        }
        let ghost orig = old(inputs)@;
        let mut k: usize = 0;
        while k < inputs.len()
            invariant
                inputs@.len() == orig.len(),
                k <= orig.len(),
                avail == mix_len(orig),
                all_wf(orig),
                forall|j: int| 0 <= j < orig.len() && (#[trigger] orig[j]).active ==> avail <= orig[j].count(),
                drained(orig.take(k as int), inputs@.take(k as int), avail as int),
                forall|j: int| k <= j < orig.len() ==> inputs@[j] == orig[j],
                all_wf(inputs@),
                avail <= self.accum@.len(),
                self.accum@.len() == if old(self).accum@.len() < avail { avail as int } else { old(self).accum@.len() as int },
                forall|j: int| 0 <= j < avail ==> self.accum@[j] == mix_sum(orig.take(k as int), j),
                forall|j: int| avail <= j < old(self).accum@.len() ==> self.accum@[j] == old(self).accum@[j],
            decreases orig.len() - k,
        {
            let ghost prev = self.accum@;
            proof {
                assert(orig.take(k + 1).drop_last() =~= orig.take(k as int));
                assert(orig.take(k + 1).last() == orig[k as int]);
            }
            if inputs[k].active && inputs[k].len() > 0 {
                let slice = inputs[k].read_slice(avail);
                let mut i: usize = 0;
                while i < avail
                    invariant
                        k < orig.len(),
                        inputs@.len() == orig.len(),
                        avail <= orig[k as int].contents().len(),
                        i <= avail <= self.accum@.len(),
                        self.accum@.len() == prev.len(),
                        slice.fits(&inputs@[k as int]),
                        slice.length == avail,
                        slice.view_in(&inputs@[k as int]) == orig[k as int].contents().take(avail as int),
                        forall|j: int| 0 <= j < i ==> self.accum@[j] == add16(prev[j], orig[k as int].contents()[j]),
                        forall|j: int| i <= j < prev.len() ==> self.accum@[j] == prev[j],
                    decreases avail - i,
                {
                    let x = slice.get(&inputs[k], i);
                    assert(x == orig[k as int].contents()[i as int]);
                    self.accum[i] = self.accum[i].wrapping_add(x);
                    i += 1;
                }
            } else {
                proof {
                    if orig[k as int].active {
                        assert(avail == 0);
                        assert(orig[k as int].contents().skip(0) =~= orig[k as int].contents());
                    }
                }
            }
            k += 1;
            proof {
                let b = orig.take(k as int);
                let a = inputs@.take(k as int);
                assert forall|j: int| 0 <= j < b.len() implies {
                    let bb = #[trigger] b[j];
                    let aa = a[j];
                    if bb.active {
                        &&& aa.same_store(&bb)
                        &&& aa.contents() == bb.contents().skip(avail as int)
                    } else {
                        aa == bb
                    }
                } by {
                    if j < k - 1 {
                        assert(b[j] == orig.take(k - 1)[j]);
                        assert(a[j] == inputs@.take(k - 1)[j]);
                    }
                }
            }
        }
        assert(orig.take(k as int) =~= orig);
        assert(inputs@.take(k as int) =~= inputs@);
        avail
    }

    /// Mixes the active inputs into `ring`, whose flag becomes whether any
    /// input is active. With no active input nothing moves; with exactly
    /// one, its samples move across as `write_from_ring` moves them; with
    /// more, `mix_inputs` runs and the mix is written to `ring`.
    pub fn mix_inputs_ring(&mut self, inputs: &mut Vec<RingBuffer>, ring: &mut RingBuffer)
        requires
            all_wf(old(inputs)@),
            old(ring).wf(),
        ensures
            mix_ring_step(old(inputs)@, final(inputs)@, *old(ring), *final(ring)),
    {
        proof {
            lemma_active_count(old(inputs)@);
            lemma_min_active_len(old(inputs)@);
        }
        let mut num_inputs: usize = 0;
        let mut first: usize = 0;
        let mut k: usize = 0;
        while k < inputs.len()
            invariant
                inputs@ == old(inputs)@,
                k <= inputs@.len(),
                num_inputs == active_count(inputs@.take(k as int)),
                num_inputs <= k,
                num_inputs > 0 ==> first < k && inputs@[first as int].active,
            decreases inputs@.len() - k,
        {
            assert(inputs@.take(k + 1).drop_last() =~= inputs@.take(k as int));
            if inputs[k].active {
                if num_inputs == 0 {
                    first = k;
                }
                num_inputs += 1;
            }
            k += 1;
        }
        assert(inputs@.take(k as int) =~= inputs@);
        if num_inputs == 0 {
            ring.active = false;
            assert(ring.contents() =~= old(ring).contents());
        } else if num_inputs == 1 {
            let ghost orig = old(inputs)@;
            let avail = inputs[first].len();
            ring.active = true;
            assert(ring.contents() =~= old(ring).contents());
            proof {
                assert(mix_len(orig) <= orig[first as int].count());
                let j = choose|j: int| 0 <= j < orig.len() && (#[trigger] orig[j]).active && mix_len(orig) == orig[j].count();
                assert(j == first);
            }
            let moved = ring.write_from_ring(avail, &mut inputs[first]);
            proof {
                let m = moved as int;
                assert forall|j: int| 0 <= j < orig.len() && j != first implies #[trigger] inputs@[j] == orig[j] by {}
                assert(all_wf(inputs@)) by {
                    assert forall|j: int| 0 <= j < inputs@.len() implies (#[trigger] inputs@[j]).wf() by {
                        if j != first {
                            assert(inputs@[j] == orig[j]);
                        }
                    }
                }
                assert(mix_seq(orig, m) =~= orig[first as int].contents().take(m));
                assert forall|j: int| 0 <= j < orig.len() implies {
                    let b = #[trigger] orig[j];
                    let a = inputs@[j];
                    if b.active {
                        &&& a.same_store(&b)
                        &&& a.contents() == b.contents().skip(m)
                    } else {
                        a == b
                    }
                } by {
                    if j != first {
                        assert(inputs@[j] == orig[j]);
                    }
                }
            }
        } else {
            let ghost orig = old(inputs)@;
            let avail = self.mix_inputs(inputs);
            ring.active = true;
            assert(ring.contents() =~= old(ring).contents());
            let n = ring.write_from(avail, &self.accum);
            proof {
                assert(self.accum@.take(n as int) =~= mix_seq(orig, n as int));
            }
        }
    }
}

impl BaseMix {
    /// What one tick of a `BaseMix` node does: the inputs are mixed as
    /// `mix_inputs` mixes them, and every output gains the mix and is active
    /// exactly when some input is.
    pub open spec fn mixed(
        &self,
        inputs: Seq<RingBuffer>,
        outputs: Seq<RingBuffer>,
        next: Self,
        inputs_after: Seq<RingBuffer>,
        outputs_after: Seq<RingBuffer>,
    ) -> bool {
        let n = mix_len(inputs);
        &&& drained(inputs, inputs_after, n)
        &&& next.accum@.len() == if self.accum@.len() < n { n } else { self.accum@.len() as int }
        &&& forall|i: int| 0 <= i < n ==> next.accum@[i] == mix_sum(inputs, i)
        &&& forall|i: int| n <= i < self.accum@.len() ==> next.accum@[i] == self.accum@[i]
        &&& outputs_after.len() == outputs.len()
        &&& forall|k: int| 0 <= k < outputs.len() ==> {
            let before = #[trigger] outputs[k];
            let after = outputs_after[k];
            let m = if n < before.max_length { n } else { before.max_length as int };
            &&& after.max_length == before.max_length
            &&& after.active == any_active(inputs)
            &&& after.contents() == keep_last(before.contents() + mix_seq(inputs, m), before.max_length as int)
        }
    }
}

impl Node for BaseMix {
    open spec fn inv(&self) -> bool {
        true
    }

    open spec fn step(
        &self,
        inputs: Seq<RingBuffer>,
        outputs: Seq<RingBuffer>,
        next: Self,
        inputs_after: Seq<RingBuffer>,
        outputs_after: Seq<RingBuffer>,
    ) -> bool {
        self.mixed(inputs, outputs, next, inputs_after, outputs_after)
    }

    /// Mixes the inputs and writes the mix to every output; each output is
    /// active exactly when some input is.
    fn update(&mut self, inputs: &mut Vec<RingBuffer>, outputs: &mut Vec<RingBuffer>)
        ensures
            final(inputs)@.len() == old(inputs)@.len(),
            drained(old(inputs)@, final(inputs)@, mix_len(old(inputs)@)),
            final(self).accum@.len() == if old(self).accum@.len() < mix_len(old(inputs)@) {
                mix_len(old(inputs)@)
            } else {
                old(self).accum@.len() as int
            },
            forall|i: int| 0 <= i < mix_len(old(inputs)@) ==> final(self).accum@[i] == mix_sum(old(inputs)@, i),
            forall|i: int| mix_len(old(inputs)@) <= i < old(self).accum@.len() ==> final(self).accum@[i] == old(
                self,
            ).accum@[i],
            forall|k: int| 0 <= k < old(outputs)@.len() ==> {
                let before = #[trigger] old(outputs)@[k];
                let after = final(outputs)@[k];
                let m = if mix_len(old(inputs)@) < before.max_length {
                    mix_len(old(inputs)@)
                } else {
                    before.max_length as int
                };
                &&& after.max_length == before.max_length
                &&& after.active == any_active(old(inputs)@)
                &&& after.contents() == keep_last(before.contents() + mix_seq(old(inputs)@, m), before.max_length as int)
            },
    {
        let ghost orig = old(inputs)@;
        let n = self.mix_inputs(inputs);
        let ghost accum = self.accum@;
        copy_out(n, &self.accum, outputs);
        let mut active = false;
        let mut k: usize = 0;
        while k < inputs.len()
            invariant
                k <= inputs@.len(),
                inputs@.len() == orig.len(),
                drained(orig, inputs@, n as int),
                active == exists|j: int| 0 <= j < k && (#[trigger] orig[j]).active,
            decreases inputs@.len() - k,
        {
            if inputs[k].active {
                active = true;
            }
            assert(inputs@[k as int].active == orig[k as int].active);
            k += 1;
        }
        let ghost copied = outputs@;
        let mut k: usize = 0;
        while k < outputs.len()
            invariant
                k <= outputs@.len(),
                outputs@.len() == copied.len(),
                all_wf(copied),
                active == any_active(orig),
                forall|j: int| 0 <= j < k ==> (#[trigger] outputs@[j]) == (RingBuffer { active, ..copied[j] }),
                forall|j: int| k <= j < outputs@.len() ==> (#[trigger] outputs@[j]) == copied[j],
            decreases outputs@.len() - k,
        {
            outputs[k].active = active;
            k += 1;
        }
        proof {
            assert forall|k: int| 0 <= k < outputs@.len() implies (#[trigger] outputs@[k]).wf() by {
                assert(copied[k].wf());
            }
            assert forall|k: int| 0 <= k < old(outputs)@.len() implies {
                let before = #[trigger] old(outputs)@[k];
                let m = if mix_len(orig) < before.max_length { mix_len(orig) } else { before.max_length as int };
                outputs@[k].contents() == keep_last(before.contents() + mix_seq(orig, m), before.max_length as int)
            } by {
                let before = old(outputs)@[k];
                let m = min3(n as int, accum.len() as int, before.max_length as int);
                assert(accum.take(m) =~= mix_seq(orig, m));
                assert(outputs@[k].contents() =~= copied[k].contents());
            }
        }
    }
}

} // verus!
