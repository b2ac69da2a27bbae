use vstd::prelude::*;

use crate::callback::CallbackInner;
use crate::ring_buffer::{RingBuffer, keep_last};

verus! {

/// Integer division rounding toward zero, as Rust divides.
pub open spec fn div_toward_zero(a: int, b: int) -> int {
    let q = (if a < 0 { -a } else { a }) / (if b < 0 { -b } else { b });
    if (a < 0) != (b < 0) {
        -q
    } else {
        q
    }
}

/// `x` scaled by `num / den`, rounded toward zero and kept to 16 bits.
pub open spec fn scale(x: i16, num: i32, den: i32) -> i16 {
    div_toward_zero(x * num, den as int) as i16
}

/// The samples of `s`, each scaled by `num / den`.
pub open spec fn scale_all(s: Seq<i16>, num: i32, den: i32) -> Seq<i16> {
    Seq::new(s.len(), |i: int| scale(s[i], num, den))
}

pub fn scale_sample(x: i16, num: i32, den: i32) -> (r: i16)
    requires
        den != 0,
    ensures
        r == scale(x, num, den),
{
    assert(-0x8000_0000_0000 <= x * num <= 0x8000_0000_0000) by (nonlinear_arith)
        requires
            -0x8000 <= x <= 0x7fff,
            -0x8000_0000 <= num <= 0x7fff_ffff,
    ;
    let p: i64 = x as i64 * num as i64;
    let d: i64 = den as i64;
    let pa: u64 = if p < 0 { (-p) as u64 } else { p as u64 };
    let da: u64 = if d < 0 { (-d) as u64 } else { d as u64 };
    let q: u64 = pa / da;
    assert(q <= pa);
    let signed: i64 = if (p < 0) != (d < 0) { -(q as i64) } else { q as i64 };
    #[verifier::truncate]
    (signed as i16)
}

/// Scales the first `len` samples of `src` into `dst`, growing `dst` with
/// zeros where it is shorter.
pub fn scale_into(src: &Vec<i16>, len: usize, num: i32, den: i32, dst: &mut Vec<i16>)
    requires
        den != 0,
        len <= src@.len(),
    ensures
        final(dst)@.len() >= len,
        final(dst)@.take(len as int) == scale_all(src@.take(len as int), num, den),
{
    while dst.len() < len
        invariant
            len <= src@.len(),
        decreases len - dst@.len(),
    {
        dst.push(0);
    }
    let mut i: usize = 0;
    while i < len
        invariant
            den != 0,
            i <= len <= dst@.len(),
            len <= src@.len(),
            forall|j: int| 0 <= j < i ==> dst@[j] == scale(src@[j], num, den),
        decreases len - i,
    {
        dst[i] = scale_sample(src[i], num, den);
        i += 1;
    }
    assert(dst@.take(len as int) =~= scale_all(src@.take(len as int), num, den));
}

/// Scales every sample by a fixed ratio.
pub struct Volume {
    num: i32,
    denom: i32,
    read: Vec<i16>,
    scaled: Vec<i16>,
}

impl Volume {
    pub closed spec fn ratio(&self) -> (i32, i32) {
        (self.num, self.denom)
    }

    pub fn new(volume: (i32, i32)) -> (r: Volume)
        requires
            volume.1 != 0,
        ensures
            r.inv(),
            r.ratio() == volume,
    {
        Volume { num: volume.0, denom: volume.1, read: Vec::new(), scaled: Vec::new() }
    }

    /// What one `apply` does.
    pub open spec fn applied(&self, input: RingBuffer, output: RingBuffer, next: Self, input_after: RingBuffer, output_after: RingBuffer) -> bool {
        &&& next.inv()
        &&& next.ratio() == self.ratio()
        &&& input_after.wf()
        &&& input_after.same_store(&input)
        &&& input_after.contents().len() == 0
        &&& output_after.wf()
        &&& output_after.max_length == output.max_length
        &&& output_after.active == output.active
        &&& output_after.contents() == keep_last(
            output.contents() + scale_all(
                input.contents().take(
                    if input.count() < output.max_length { input.count() } else { output.max_length as int },
                ),
                self.ratio().0,
                self.ratio().1,
            ),
            output.max_length as int,
        )
    }

    /// Moves every input sample to the output, scaled by the ratio.
    pub fn apply(&mut self, input: &mut RingBuffer, output: &mut RingBuffer)
        requires
            old(self).inv(),
            old(input).wf(),
            old(output).wf(),
        ensures
            old(self).applied(*old(input), *old(output), *final(self), *final(input), *final(output)),
    {
        let avail = input.len();
        let n = input.read_into(avail, &mut self.read);
        let len = if n < output.max_length { n } else { output.max_length };
        scale_into(&self.read, len, self.num, self.denom, &mut self.scaled);
        let ghost before = output.contents();
        output.write_from(len, &self.scaled);
        proof {
            assert(self.read@.take(len as int) =~= old(input).contents().take(len as int));
            assert(old(input).contents().skip(n as int).len() == 0);
        }
    }
}

impl CallbackInner for Volume {
    closed spec fn inv(&self) -> bool {
        self.denom != 0
    }

    open spec fn step(
        &self,
        input: RingBuffer,
        output: RingBuffer,
        next: Self,
        input_after: RingBuffer,
        output_after: RingBuffer,
    ) -> bool {
        self.applied(input, output, next, input_after, output_after)
    }

    fn process(&mut self, input: &mut RingBuffer, output: &mut RingBuffer) {
        self.apply(input, output);
    }
}

} // verus!
