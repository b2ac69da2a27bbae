use vstd::prelude::*;

use crate::callback::CallbackInner;
use crate::ring_buffer::{RingBuffer, keep_last};

verus! {

/// Nearest-sample resampling of interleaved stereo: output sample `i` is
/// taken from frame `(i / 2) * num / denom` of `src` (rounded down), on the
/// same channel as `i`.
pub open spec fn resample(src: Seq<i16>, num: int, denom: int, len: int) -> Seq<i16> {
    Seq::new(len as nat, |i: int| src[(i / 2) * num / denom * 2 + i % 2])
}

/// Thousandths of a sample that `t` millisecond steps of interleaved stereo
/// at `rate` samples per second per channel carry.
pub open spec fn steps_of(rate: int, t: int) -> int {
    2 * t * rate
}

/// Largest number of samples one millisecond step of interleaved stereo at
/// `rate` carries: the whole samples, plus one frame when a remainder can
/// carry over.
pub open spec fn step_max(rate: int) -> int {
    rate * 2 / 1000 + if rate * 2 % 1000 != 0 { 2int } else { 0int }
}

/// Converts between two fixed sample rates of interleaved stereo.
///
/// Per millisecond a stream at rate `r` carries `2 * r / 1000` samples; the
/// remainder `2 * r % 1000` is carried over in thousandths of a sample, and
/// each 2000 of it adds one stereo frame. Each tick the input and output
/// counts grow in lockstep, one millisecond at a time, for as long as the
/// input can supply the next step.
pub struct Rate {
    input_rate: usize,
    output_rate: usize,
    input_upper: usize,
    input_lower: usize,
    input_upper_max: usize,
    input_carry: usize,
    output_upper: usize,
    output_lower: usize,
    output_upper_max: usize,
    output_carry: usize,
    scratch: Vec<i16>,
}

impl Rate {
    pub closed spec fn input_rate_spec(&self) -> int {
        self.input_rate as int
    }

    pub closed spec fn output_rate_spec(&self) -> int {
        self.output_rate as int
    }

    /// Thousandths of an input sample carried over to the next tick.
    pub closed spec fn input_carry_spec(&self) -> int {
        self.input_carry as int
    }

    /// Thousandths of an output sample carried over to the next tick.
    pub closed spec fn output_carry_spec(&self) -> int {
        self.output_carry as int
    }

    /// Largest number of input samples one millisecond step takes.
    pub closed spec fn input_step_max(&self) -> int {
        self.input_upper_max as int
    }

    /// Largest number of output samples one millisecond step gives.
    pub closed spec fn output_step_max(&self) -> int {
        self.output_upper_max as int
    }

    /// A converter from `input_rate` to `output_rate` samples per second
    /// per channel. The whole samples of one millisecond of input must be
    /// whole stereo frames (`2 * input_rate / 1000` even), so that
    /// interleaving is kept.
    pub fn new(input_rate: usize, output_rate: usize) -> (r: Rate)
        requires
            0 < input_rate <= usize::MAX / 4,
            output_rate <= usize::MAX / 4,
            (input_rate * 2 / 1000) % 2 == 0,
        ensures
            r.inv(),
            r.input_rate_spec() == input_rate,
            r.output_rate_spec() == output_rate,
            r.input_carry_spec() == 0,
            r.output_carry_spec() == 0,
            r.input_step_max() == step_max(input_rate as int),
            r.output_step_max() == step_max(output_rate as int),
    {
        let input_upper = input_rate * 2 / 1000;
        let input_lower = input_rate * 2 % 1000;
        let input_upper_max = input_upper + if input_lower != 0 { 2 } else { 0 };
        let output_upper = output_rate * 2 / 1000;
        let output_lower = output_rate * 2 % 1000;
        let output_upper_max = output_upper + if output_lower != 0 { 2 } else { 0 };
        Rate {
            input_rate,
            output_rate,
            input_upper,
            input_lower,
            input_upper_max,
            input_carry: 0,
            output_upper,
            output_lower,
            output_upper_max,
            output_carry: 0,
            scratch: Vec::new(),
        }
    }

    /// What one `convert` does, returning `r`.
    pub open spec fn converted(&self, input: RingBuffer, output: RingBuffer, next: Self, input_after: RingBuffer, output_after: RingBuffer, r: (usize, usize)) -> bool {
        &&& next.inv()
        &&& next.input_rate_spec() == self.input_rate_spec()
        &&& next.output_rate_spec() == self.output_rate_spec()
        &&& next.input_step_max() == self.input_step_max()
        &&& next.output_step_max() == self.output_step_max()
        &&& 0 <= next.input_carry_spec() < 2000
        &&& 0 <= next.output_carry_spec() < 2000
        &&& exists|t: nat| {
            &&& 1000 * r.0 + next.input_carry_spec() == #[trigger] steps_of(
                self.input_rate_spec(),
                t as int,
            ) + self.input_carry_spec()
            &&& 1000 * r.1 + next.output_carry_spec() == steps_of(self.output_rate_spec(), t as int)
                + self.output_carry_spec()
        }
        &&& r.0 <= input.count()
        &&& r.0 + self.input_step_max() > input.count() || r.1 > usize::MAX - self.output_step_max()
        &&& r.0 % 2 == 0
        &&& self.output_step_max() % 2 == 0 ==> r.1 % 2 == 0
        &&& input_after.wf()
        &&& input_after.same_store(&input)
        &&& input_after.contents() == input.contents().skip(r.0 as int)
        &&& output_after.wf()
        &&& output_after.max_length == output.max_length
        &&& output_after.active == output.active
        &&& output_after.contents() == keep_last(
            output.contents() + resample(
                input.contents(),
                r.0 as int,
                r.1 as int,
                if r.0 == 0 {
                    0
                } else if r.1 < output.max_length {
                    r.1 as int
                } else {
                    output.max_length as int
                },
            ),
            output.max_length as int,
        )
    }

    /// Converts one tick's worth of input. Returns how many input samples
    /// were consumed and how many output samples were produced before the
    /// output's capacity is applied. Both counts come from the same number
    /// `t` of millisecond steps, and the steps stop when the input cannot
    /// supply one more (or the output count would no longer fit a `usize`).
    pub fn convert(&mut self, input: &mut RingBuffer, output: &mut RingBuffer) -> (r: (usize, usize))
        requires
            old(self).inv(),
            old(input).wf(),
            old(output).wf(),
        ensures
            old(self).converted(*old(input), *old(output), *final(self), *final(input), *final(output), r),
    {
        let avail = input.len();
        let mut num: usize = 0;
        let mut denom: usize = 0;
        let ghost mut t: nat = 0;
        let ghost in_carry0 = self.input_carry as int;
        let ghost out_carry0 = self.output_carry as int;
        assert(2 * t * self.input_rate == 0 && 2 * t * self.output_rate == 0) by (nonlinear_arith)
            requires
                t == 0,
        ;
        while self.input_upper_max <= avail - num && denom <= usize::MAX - self.output_upper_max
            invariant
                self.inv(),
                self.input_rate == old(self).input_rate,
                self.output_rate == old(self).output_rate,
                self.input_upper_max == old(self).input_upper_max,
                self.output_upper_max == old(self).output_upper_max,
                num <= avail,
                num % 2 == 0,
                self.output_upper % 2 == 0 ==> denom % 2 == 0,
                1000 * num + self.input_carry == 2 * t * self.input_rate + in_carry0,
                1000 * denom + self.output_carry == 2 * t * self.output_rate + out_carry0,
            decreases 1000 * avail + 2000 - (1000 * num + self.input_carry),
        {
            num = num + self.input_upper;
            self.input_carry = self.input_carry + self.input_lower;
            if self.input_carry >= 2000 {
                self.input_carry = self.input_carry - 2000;
                num = num + 2;
            }
            denom = denom + self.output_upper;
            self.output_carry = self.output_carry + self.output_lower;
            if self.output_carry >= 2000 {
                self.output_carry = self.output_carry - 2000;
                denom = denom + 2;
            }
            proof {
                t = t + 1;
                assert(2 * t * self.input_rate == 2 * (t - 1) * self.input_rate + 2 * self.input_rate)
                    by (nonlinear_arith);
                assert(2 * t * self.output_rate == 2 * (t - 1) * self.output_rate + 2 * self.output_rate)
                    by (nonlinear_arith);
            }
        }
        let ghost src = input.contents();
        let slice = input.read_slice(num);
        let len = if num == 0 {
            0
        } else if denom < output.max_length {
            denom
        } else {
            output.max_length
        };
        while self.scratch.len() < len
            invariant
                self.inv(),
                self.input_rate == old(self).input_rate,
                self.output_rate == old(self).output_rate,
                self.input_upper_max == old(self).input_upper_max,
                self.output_upper_max == old(self).output_upper_max,
                1000 * num + self.input_carry == 2 * t * self.input_rate + in_carry0,
                1000 * denom + self.output_carry == 2 * t * self.output_rate + out_carry0,
            decreases len - self.scratch@.len(),
        {
            self.scratch.push(0);
        }
        let mut i: usize = 0;
        while i < len
            invariant
                self.inv(),
                self.input_rate == old(self).input_rate,
                self.output_rate == old(self).output_rate,
                self.input_upper_max == old(self).input_upper_max,
                self.output_upper_max == old(self).output_upper_max,
                1000 * num + self.input_carry == 2 * t * self.input_rate + in_carry0,
                1000 * denom + self.output_carry == 2 * t * self.output_rate + out_carry0,
                i <= len <= denom,
                num == 0 ==> len == 0,
                len <= self.scratch@.len(),
                num % 2 == 0,
                num <= src.len(),
                slice.fits(input),
                slice.length == num,
                slice.view_in(input) == src.take(num as int),
                forall|j: int| 0 <= j < i ==> self.scratch@[j] == resample(src, num as int, denom as int, len as int)[j],
            decreases len - i,
        {
            let half = i / 2;
            proof {
                lemma_resample_index(i as int, num as int, denom as int);
                assert((half as u128) * (num as u128) <= u128::MAX) by (nonlinear_arith)
                    requires
                        half <= usize::MAX,
                        num <= usize::MAX,
                ;
            }
            let q = ((half as u128) * (num as u128) / (denom as u128)) as usize;
            let k = q * 2 + i % 2;
            let x = slice.get(input, k);
            self.scratch[i] = x;
            i += 1;
        }
        proof {
            assert(self.scratch@.take(len as int) =~= resample(src, num as int, denom as int, len as int));
            assert(steps_of(old(self).input_rate as int, t as int) == 2 * t * self.input_rate);
            assert(steps_of(old(self).output_rate as int, t as int) == 2 * t * self.output_rate);
            assert(1000 * num + self.input_carry == steps_of(old(self).input_rate as int, t as int) + in_carry0);
            assert(1000 * denom + self.output_carry == steps_of(old(self).output_rate as int, t as int) + out_carry0);
        }
        output.write_from(len, &self.scratch);
        proof {
            assert(1000 * num + self.input_carry_spec() == steps_of(old(self).input_rate_spec(), t as int)
                + old(self).input_carry_spec());
            assert(1000 * denom + self.output_carry_spec() == steps_of(old(self).output_rate_spec(), t as int)
                + old(self).output_carry_spec());
        }
        (num, denom)
    }
}

/// The source sample of output sample `i` lies inside the consumed input.
proof fn lemma_resample_index(i: int, num: int, denom: int)
    requires
        0 <= i < denom,
        0 < num,
        num % 2 == 0,
    ensures
        0 <= (i / 2) * num / denom * 2 + i % 2 < num,
{
    let k = i / 2;
    let h = num / 2;
    assert(2 * k < denom);
    assert(num == 2 * h);
    if num > 0 {
        let q = k * num / denom;
        assert(k * num < denom * h) by (nonlinear_arith)
            requires
                2 * k < denom,
                num == 2 * h,
                h > 0,
                k >= 0,
        ;
        assert(q * denom <= k * num) by (nonlinear_arith)
            requires
                q == k * num / denom,
                denom > 0,
                k * num >= 0,
        ;
        assert(q < h) by (nonlinear_arith)
            requires
                q * denom <= k * num,
                k * num < denom * h,
                denom > 0,
        ;
        assert(q >= 0) by (nonlinear_arith)
            requires
                q == k * num / denom,
                denom > 0,
                k * num >= 0,
        ;
        assert(i % 2 <= 1);
        assert(q * 2 + i % 2 < num);
    }
}

/// Ratio law: when one call of `convert` consumes `consumed` input samples
/// and produces `produced` output samples, the two counts are in the ratio of
/// the rates up to the carried remainders; so `produced` is within two
/// samples' worth of both rates of `consumed * output_rate / input_rate`:
/// `|input_rate * produced - output_rate * consumed| < 2 * (input_rate + output_rate)`.
pub proof fn lemma_rate_ratio(before: Rate, after: Rate, consumed: int, produced: int, t: nat)
    requires
        before.inv(),
        after.inv(),
        after.input_rate_spec() == before.input_rate_spec(),
        after.output_rate_spec() == before.output_rate_spec(),
        1000 * consumed + after.input_carry_spec() == steps_of(before.input_rate_spec(), t as int)
            + before.input_carry_spec(),
        1000 * produced + after.output_carry_spec() == steps_of(before.output_rate_spec(), t as int)
            + before.output_carry_spec(),
    ensures
        before.output_rate_spec() * (1000 * consumed + after.input_carry_spec() - before.input_carry_spec())
            == before.input_rate_spec() * (1000 * produced + after.output_carry_spec()
            - before.output_carry_spec()),
        before.input_rate_spec() * produced - before.output_rate_spec() * consumed < 2 * (
        before.input_rate_spec() + before.output_rate_spec()),
        before.output_rate_spec() * consumed - before.input_rate_spec() * produced < 2 * (
        before.input_rate_spec() + before.output_rate_spec()),
{
    let i = before.input_rate as int;
    let o = before.output_rate as int;
    let ci = before.input_carry as int;
    let co = before.output_carry as int;
    let di = after.input_carry as int;
    let dc = after.output_carry as int;
    assert(o * (1000 * consumed + di - ci) == i * (1000 * produced + dc - co)) by (nonlinear_arith)
        requires
            1000 * consumed + di == 2 * t * i + ci,
            1000 * produced + dc == 2 * t * o + co,
    ;
    assert(1000 * (i * produced - o * consumed) == o * (di - ci) - i * (dc - co)) by (nonlinear_arith)
        requires
            o * (1000 * consumed + di - ci) == i * (1000 * produced + dc - co),
    ;
    assert(o * (di - ci) - i * (dc - co) < 2000 * (i + o)) by (nonlinear_arith)
        requires
            0 <= ci < 2000,
            0 <= di < 2000,
            0 <= co < 2000,
            0 <= dc < 2000,
            i >= 1,
            o >= 0,
    ;
    assert(i * (dc - co) - o * (di - ci) < 2000 * (i + o)) by (nonlinear_arith)
        requires
            0 <= ci < 2000,
            0 <= di < 2000,
            0 <= co < 2000,
            0 <= dc < 2000,
            i >= 1,
            o >= 0,
    ;
}

impl CallbackInner for Rate {
    closed spec fn inv(&self) -> bool {
        &&& 0 < self.input_rate <= usize::MAX / 4
        &&& self.output_rate <= usize::MAX / 4
        &&& self.input_upper == self.input_rate * 2 / 1000
        &&& self.input_lower == self.input_rate * 2 % 1000
        &&& self.input_upper % 2 == 0
        &&& self.input_upper_max == self.input_upper + if self.input_lower != 0 { 2int } else { 0int }
        &&& self.output_upper == self.output_rate * 2 / 1000
        &&& self.output_lower == self.output_rate * 2 % 1000
        &&& self.output_upper_max == self.output_upper + if self.output_lower != 0 { 2int } else { 0int }
        &&& self.input_carry < 2000
        &&& self.output_carry < 2000
    }

    open spec fn step(
        &self,
        input: RingBuffer,
        output: RingBuffer,
        next: Self,
        input_after: RingBuffer,
        output_after: RingBuffer,
    ) -> bool {
        exists|r: (usize, usize)| #[trigger] self.converted(input, output, next, input_after, output_after, r)
    }

    fn process(&mut self, input: &mut RingBuffer, output: &mut RingBuffer) {
        self.convert(input, output);
    }
}

} // verus!
