use vstd::prelude::*;

verus! {

/// Capacity, in samples, of a buffer made by `RingBuffer::new`.
pub const DEFAULT_MAX_LENGTH: usize = 32768;

/// `x` taken back into `0..n`, for `0 <= x < 2 * n`.
pub open spec fn wrap(x: int, n: int) -> int {
    if x >= n {
        x - n
    } else {
        x
    }
}

/// A circular store of interleaved 16-bit samples.
///
/// The cursors live in an index space of `max_length + 1` slots, so that a
/// full buffer (`max_length` unread samples) and an empty one differ. The
/// backing vector grows lazily up to `max_length + 1` elements.
///
/// The fields are open to callers; every method requires and keeps `wf`.
#[derive(Debug)]
pub struct RingBuffer {
    pub max_length: usize,
    /// Whether a producer is supplying live samples through this buffer.
    pub active: bool,
    pub start_index: usize,
    pub end_index: usize,
    pub buffer: Vec<i16>,
}

impl Default for RingBuffer {
    /// An empty, active buffer of `DEFAULT_MAX_LENGTH` samples.
    fn default() -> (r: RingBuffer)
        ensures
            r.wf(),
            r.max_length == DEFAULT_MAX_LENGTH,
            r.active,
            r.contents().len() == 0,
    {
        RingBuffer {
            max_length: DEFAULT_MAX_LENGTH,
            active: true,
            start_index: 0,
            end_index: 0,
            buffer: Vec::new(),
        }
    }
}

impl RingBuffer {
    /// Number of slots of the index space.
    pub open spec fn slots(&self) -> int {
        self.max_length + 1
    }

    /// Cursors inside the index space, and storage for every unread slot.
    pub open spec fn wf(&self) -> bool {
        &&& self.max_length < usize::MAX
        &&& self.start_index <= self.max_length
        &&& self.end_index <= self.max_length
        &&& self.buffer@.len() <= self.slots()
        &&& self.start_index < self.end_index ==> self.end_index <= self.buffer@.len()
        &&& self.start_index > self.end_index ==> self.buffer@.len() == self.slots()
    }

    /// Number of unread samples.
    pub open spec fn count(&self) -> int {
        if self.start_index > self.end_index {
            self.slots() - self.start_index + self.end_index
        } else {
            self.end_index - self.start_index
        }
    }

    /// Slot that holds the unread sample at position `p` (`0 <= p < slots`).
    pub open spec fn slot(&self, p: int) -> int {
        wrap(self.start_index + p, self.slots())
    }

    /// The unread samples, oldest first.
    pub open spec fn contents(&self) -> Seq<i16> {
        Seq::new(self.count() as nat, |p: int| self.buffer@[self.slot(p)])
    }

    /// The same buffer with its flag set to `active`.
    pub open spec fn with_flag(&self, active: bool) -> RingBuffer {
        RingBuffer { active, ..*self }
    }

    /// Same storage, capacity and flag.
    pub open spec fn same_store(&self, other: &RingBuffer) -> bool {
        &&& self.max_length == other.max_length
        &&& self.active == other.active
        &&& self.buffer@ == other.buffer@
    }

    pub proof fn lemma_count_bounds(&self)
        requires
            self.wf(),
        ensures
            0 <= self.count() <= self.max_length,
            forall|p: int|
                0 <= p < self.count() ==> 0 <= #[trigger] self.slot(p) < self.buffer@.len(),
    {
    }

    /// Positions of one window of fewer than `slots` samples sit in distinct slots.
    pub proof fn lemma_slot_injective(&self, p: int, q: int)
        requires
            self.wf(),
            0 <= p < q < self.slots(),
        ensures
            self.slot(p) != self.slot(q),
    {
    }

    fn bump_start(&mut self, amount: usize)
        requires
            old(self).wf(),
            amount <= old(self).count(),
        ensures
            final(self).wf(),
            final(self).same_store(old(self)),
            final(self).end_index == old(self).end_index,
            final(self).start_index == old(self).slot(amount as int),
            final(self).count() == old(self).count() - amount,
            final(self).contents() == old(self).contents().skip(amount as int),
    {
        if amount > self.max_length - self.start_index {
            self.start_index = amount - (self.max_length - self.start_index + 1);
        } else {
            self.start_index = self.start_index + amount;
        }
        assert(self.contents() =~= old(self).contents().skip(amount as int));
    }

    /// Hands out the oldest `min(amount, len)` unread samples as a window and
    /// marks them read. They stay in the storage until the next write.
    pub fn read_slice(&mut self, amount: usize) -> (r: RingSlice)
        requires
            old(self).wf(),
        ensures
            final(self).wf(),
            final(self).same_store(old(self)),
            final(self).end_index == old(self).end_index,
            r.length == if amount < old(self).count() { amount as int } else { old(self).count() },
            r.start == old(self).start_index,
            final(self).start_index == old(self).slot(r.length as int),
            r.fits(final(self)),
            r.view_in(final(self)) == old(self).contents().take(r.length as int),
            final(self).contents() == old(self).contents().skip(r.length as int),
    {
        let len = self.len();
        let avail = if amount < len { amount } else { len };
        let start = self.start_index;
        proof { self.lemma_count_bounds(); }
        self.bump_start(avail);
        let r = RingSlice { start, length: avail };
        assert(r.view_in(self) =~= old(self).contents().take(avail as int));
        r
    }

    /// Copies the oldest `min(amount, len)` unread samples to the front of
    /// `buffer`, growing it with zeros where it is shorter, and marks them
    /// read. Returns how many were copied.
    pub fn read_into(&mut self, amount: usize, buffer: &mut Vec<i16>) -> (r: usize)
        requires
            old(self).wf(),
        ensures
            final(self).wf(),
            final(self).same_store(old(self)),
            r == if amount < old(self).count() { amount as int } else { old(self).count() },
            final(self).start_index == old(self).slot(r as int),
            final(self).end_index == old(self).end_index,
            final(self).contents() == old(self).contents().skip(r as int),
            final(buffer)@.len() == if old(buffer)@.len() < r { r as int } else { old(buffer)@.len() as int },
            final(buffer)@.take(r as int) == old(self).contents().take(r as int),
            forall|k: int| r <= k < old(buffer)@.len() ==> final(buffer)@[k] == old(buffer)@[k],
    {
        let len = self.len();
        let avail = if amount < len { amount } else { len };
        while buffer.len() < avail
            invariant
                avail <= old(self).count(),
                old(buffer)@.len() <= buffer@.len() <= if old(buffer)@.len() < avail { avail as int } else { old(buffer)@.len() as int },
                buffer@.take(old(buffer)@.len() as int) == old(buffer)@,
            decreases avail - buffer@.len(),
        {
            buffer.push(0);
            assert(buffer@.take(old(buffer)@.len() as int) =~= old(buffer)@);
        }
        let slice = self.read_slice(avail);
        let mut i: usize = 0;
        while i < avail
            invariant
                slice.fits(self),
                slice.length == avail,
                avail <= old(self).count(),
                avail <= buffer@.len(),
                buffer@.len() == if old(buffer)@.len() < avail { avail as int } else { old(buffer)@.len() as int },
                i <= avail,
                slice.view_in(self) == old(self).contents().take(avail as int),
                buffer@.take(i as int) == old(self).contents().take(i as int),
                forall|k: int| avail <= k < old(buffer)@.len() ==> buffer@[k] == old(buffer)@[k],
            decreases avail - i,
        {
            let x = slice.get(self, i);
            assert(x == old(self).contents()[i as int]);
            buffer[i] = x;
            i += 1;
            assert(buffer@.take(i as int) =~= old(self).contents().take(i as int));
        }
        avail
    }

    /// Unread samples after `amount` more are written: the newest
    /// `max_length` of them are kept.
    pub open spec fn count_after_write(&self, amount: int) -> int {
        if self.count() + amount > self.max_length {
            self.max_length as int
        } else {
            self.count() + amount
        }
    }

    /// Slots that must exist before `amount` samples are written at the end.
    pub open spec fn storage_for(&self, amount: int) -> int {
        if amount > self.max_length - self.end_index {
            self.slots()
        } else {
            self.end_index + amount + 1
        }
    }

    fn bump_end(&mut self, amount: usize)
        requires
            old(self).wf(),
            amount <= old(self).max_length,
            old(self).buffer@.len() >= old(self).storage_for(amount as int),
        ensures
            final(self).wf(),
            final(self).same_store(old(self)),
            final(self).end_index == wrap(old(self).end_index + amount, old(self).slots()),
            final(self).count() == old(self).count_after_write(amount as int),
            final(self).start_index == old(self).slot(
                old(self).count() + amount - final(self).count(),
            ),
    {
        let len = self.len();
        let end = self.end_index;
        let new_end = if amount > self.max_length - end {
            amount - (self.max_length - end + 1)
        } else {
            end + amount
        };
        if amount > self.max_length - len {
            if new_end == self.max_length {
                self.start_index = 0;
            } else {
                self.start_index = new_end + 1;
            }
        }
        self.end_index = new_end;
    }

    /// Reserves a window for the next `min(amount, max_length)` samples at
    /// the end and counts them as unread; where that overruns the capacity,
    /// the oldest unread samples are dropped. The window's slots keep what
    /// they held (zero where the storage had to grow) until written through
    /// the window.
    pub fn write_slice(&mut self, amount: usize) -> (r: RingSlice)
        requires
            old(self).wf(),
        ensures
            final(self).wf(),
            final(self).max_length == old(self).max_length,
            final(self).active == old(self).active,
            r.start == old(self).end_index,
            r.length == if amount < old(self).max_length { amount as int } else { old(self).max_length as int },
            r.fits(final(self)),
            final(self).buffer@.len() == if old(self).buffer@.len() < old(self).storage_for(r.length as int) {
                old(self).storage_for(r.length as int)
            } else {
                old(self).buffer@.len() as int
            },
            final(self).buffer@.take(old(self).buffer@.len() as int) == old(self).buffer@,
            forall|k: int| old(self).buffer@.len() <= k < final(self).buffer@.len() ==> final(self).buffer@[k] == 0,
            final(self).count() == old(self).count_after_write(r.length as int),
            final(self).end_index == wrap(old(self).end_index + r.length, old(self).slots()),
            final(self).start_index == old(self).slot(
                old(self).count() + r.length - final(self).count(),
            ),
            forall|i: int| 0 <= i < r.length ==>
                #[trigger] r.slot_in(final(self), i) == final(self).slot(final(self).count() - r.length + i),
    {
        let avail = if amount < self.max_length { amount } else { self.max_length };
        let end = self.end_index;
        let target = if avail > self.max_length - end { self.max_length + 1 } else { end + avail + 1 };
        while self.buffer.len() < target
            invariant
                self.wf(),
                self.max_length == old(self).max_length,
                self.active == old(self).active,
                self.start_index == old(self).start_index,
                self.end_index == old(self).end_index,
                old(self).buffer@.len() <= self.buffer@.len() <= if old(self).buffer@.len() < target { target as int } else { old(self).buffer@.len() as int },
                target <= self.slots(),
                self.buffer@.take(old(self).buffer@.len() as int) == old(self).buffer@,
                forall|k: int| old(self).buffer@.len() <= k < self.buffer@.len() ==> self.buffer@[k] == 0,
            decreases target - self.buffer@.len(),
        {
            self.buffer.push(0);
            assert(self.buffer@.take(old(self).buffer@.len() as int) =~= old(self).buffer@);
        }
        let ghost grown = *self;
        assert(grown.contents() =~= old(self).contents());
        self.bump_end(avail);
        RingSlice { start: end, length: avail }
    }

    /// After `write_slice` reserved `slice` on `mid` (taken from `before`)
    /// and `data` was stored through it, the unread samples are the newest
    /// `max_length` of the old ones followed by `data`.
    proof fn lemma_filled(before: RingBuffer, mid: RingBuffer, now: RingBuffer, slice: RingSlice, data: Seq<i16>)
        requires
            before.wf(),
            mid.wf(),
            mid.max_length == before.max_length,
            slice.length == data.len(),
            slice.length <= before.max_length,
            mid.count() == before.count_after_write(slice.length as int),
            forall|i: int| 0 <= i < slice.length ==>
                #[trigger] slice.slot_in(&mid, i) == mid.slot(mid.count() - slice.length + i),
            now.max_length == mid.max_length,
            now.start_index == mid.start_index,
            now.end_index == mid.end_index,
            now.buffer@.len() == mid.buffer@.len(),
            forall|j: int| 0 <= j < mid.count() - slice.length ==>
                now.buffer@[#[trigger] mid.slot(j)] == before.contents()[before.count() - (mid.count() - slice.length) + j],
            forall|i: int| 0 <= i < slice.length ==>
                now.buffer@[#[trigger] slice.slot_in(&mid, i)] == data[i],
        ensures
            now.wf(),
            now.contents() == keep_last(before.contents() + data, before.max_length as int),
    {
        let kept = mid.count() - slice.length;
        let all = before.contents() + data;
        let want = keep_last(all, before.max_length as int);
        assert(want.len() == mid.count());
        assert forall|j: int| 0 <= j < mid.count() implies now.contents()[j] == want[j] by {
            if j < kept {
                assert(now.buffer@[mid.slot(j)] == before.contents()[before.count() - kept + j]);
            } else {
                assert(slice.slot_in(&mid, j - kept) == mid.slot(j));
                assert(now.buffer@[slice.slot_in(&mid, j - kept)] == data[j - kept]);
            }
        }
        assert(now.contents() =~= want);
    }

    /// Writes the first `min(amount, buffer.len(), max_length)` samples of
    /// `buffer` at the end, dropping the oldest unread samples on overrun.
    /// Returns how many were written.
    pub fn write_from(&mut self, amount: usize, buffer: &Vec<i16>) -> (r: usize)
        requires
            old(self).wf(),
        ensures
            final(self).wf(),
            final(self).max_length == old(self).max_length,
            final(self).active == old(self).active,
            r == min3(amount as int, buffer@.len() as int, old(self).max_length as int),
            final(self).end_index == wrap(old(self).end_index + r, old(self).slots()),
            final(self).start_index == old(self).slot(old(self).count() + r - final(self).count()),
            final(self).contents() == keep_last(
                old(self).contents() + buffer@.take(r as int),
                old(self).max_length as int,
            ),
    {
        let n = if amount < buffer.len() { amount } else { buffer.len() };
        let k = if n < self.max_length { n } else { self.max_length };
        let ghost before = *self;
        let slice = self.write_slice(k);
        let ghost mid = *self;
        let ghost kept = mid.count() - k;
        let mut i: usize = 0;
        while i < k
            invariant
                before.wf(),
                mid.wf(),
                slice.fits(&mid),
                slice.length == k,
                k <= buffer@.len(),
                k <= before.max_length,
                mid.max_length == before.max_length,
                mid.active == before.active,
                mid.count() == before.count_after_write(k as int),
                kept == mid.count() - k,
                forall|t: int| 0 <= t < k ==>
                    #[trigger] slice.slot_in(&mid, t) == mid.slot(mid.count() - k + t),
                forall|j: int| 0 <= j < kept ==>
                    mid.buffer@[#[trigger] mid.slot(j)] == before.contents()[before.count() - kept + j],
                self.max_length == mid.max_length,
                self.active == mid.active,
                self.start_index == mid.start_index,
                self.end_index == mid.end_index,
                self.buffer@.len() == mid.buffer@.len(),
                i <= k,
                forall|j: int| 0 <= j < kept ==>
                    self.buffer@[#[trigger] mid.slot(j)] == before.contents()[before.count() - kept + j],
                forall|t: int| 0 <= t < i ==>
                    self.buffer@[#[trigger] slice.slot_in(&mid, t)] == buffer@[t],
            decreases k - i,
        {
            proof {
                assert forall|j: int| 0 <= j < kept implies mid.slot(j) != slice.slot_in(&mid, i as int) by {
                    assert(slice.slot_in(&mid, i as int) == mid.slot(kept + i));
                    mid.lemma_slot_injective(j, kept + i);
                }
                assert forall|t: int| 0 <= t < i implies slice.slot_in(&mid, t) != slice.slot_in(&mid, i as int) by {
                    mid.lemma_slot_injective(kept + t, kept + i);
                }
            }
            slice.set(self, i, buffer[i]);
            i += 1;
        }
        proof {
            Self::lemma_filled(before, mid, *self, slice, buffer@.take(k as int));
        }
        k
    }

    /// Writes the first `min(amount, slice.len(), max_length)` samples of a
    /// window of `src` at the end, as `write_from` does.
    pub fn write_from_read_slice(&mut self, amount: usize, src: &RingBuffer, slice: &RingSlice) -> (r: usize)
        requires
            old(self).wf(),
            slice.fits(src),
        ensures
            final(self).wf(),
            final(self).max_length == old(self).max_length,
            final(self).active == old(self).active,
            r == min3(amount as int, slice.length as int, old(self).max_length as int),
            final(self).end_index == wrap(old(self).end_index + r, old(self).slots()),
            final(self).start_index == old(self).slot(old(self).count() + r - final(self).count()),
            final(self).contents() == keep_last(
                old(self).contents() + slice.view_in(src).take(r as int),
                old(self).max_length as int,
            ),
    {
        let n = if amount < slice.len() { amount } else { slice.len() };
        let k = if n < self.max_length { n } else { self.max_length };
        let ghost before = *self;
        let ghost data = slice.view_in(src);
        let out = self.write_slice(k);
        let ghost mid = *self;
        let ghost kept = mid.count() - k;
        let mut i: usize = 0;
        while i < k
            invariant
                before.wf(),
                mid.wf(),
                out.fits(&mid),
                out.length == k,
                slice.fits(src),
                data == slice.view_in(src),
                k <= slice.length,
                k <= before.max_length,
                mid.max_length == before.max_length,
                mid.active == before.active,
                mid.count() == before.count_after_write(k as int),
                kept == mid.count() - k,
                forall|t: int| 0 <= t < k ==>
                    #[trigger] out.slot_in(&mid, t) == mid.slot(mid.count() - k + t),
                forall|j: int| 0 <= j < kept ==>
                    mid.buffer@[#[trigger] mid.slot(j)] == before.contents()[before.count() - kept + j],
                self.max_length == mid.max_length,
                self.active == mid.active,
                self.start_index == mid.start_index,
                self.end_index == mid.end_index,
                self.buffer@.len() == mid.buffer@.len(),
                i <= k,
                forall|j: int| 0 <= j < kept ==>
                    self.buffer@[#[trigger] mid.slot(j)] == before.contents()[before.count() - kept + j],
                forall|t: int| 0 <= t < i ==>
                    self.buffer@[#[trigger] out.slot_in(&mid, t)] == data[t],
            decreases k - i,
        {
            proof {
                assert forall|j: int| 0 <= j < kept implies mid.slot(j) != out.slot_in(&mid, i as int) by {
                    assert(out.slot_in(&mid, i as int) == mid.slot(kept + i));
                    mid.lemma_slot_injective(j, kept + i);
                }
                assert forall|t: int| 0 <= t < i implies out.slot_in(&mid, t) != out.slot_in(&mid, i as int) by {
                    mid.lemma_slot_injective(kept + t, kept + i);
                }
            }
            let x = slice.get(src, i);
            out.set(self, i, x);
            i += 1;
        }
        proof {
            Self::lemma_filled(before, mid, *self, out, data.take(k as int));
        }
        k
    }

    /// Moves the oldest `min(amount, ring.len(), max_length)` unread samples
    /// of `ring` to the end of this buffer: `ring` loses exactly what this
    /// buffer gains. Returns how many moved.
    pub fn write_from_ring(&mut self, amount: usize, ring: &mut RingBuffer) -> (r: usize)
        requires
            old(self).wf(),
            old(ring).wf(),
        ensures
            final(self).wf(),
            final(ring).wf(),
            final(self).max_length == old(self).max_length,
            final(self).active == old(self).active,
            final(ring).same_store(old(ring)),
            r == min3(amount as int, old(ring).count(), old(self).max_length as int),
            final(self).end_index == wrap(old(self).end_index + r, old(self).slots()),
            final(self).start_index == old(self).slot(old(self).count() + r - final(self).count()),
            final(ring).start_index == old(ring).slot(r as int),
            final(ring).end_index == old(ring).end_index,
            final(ring).contents() == old(ring).contents().skip(r as int),
            final(self).contents() == keep_last(
                old(self).contents() + old(ring).contents().take(r as int),
                old(self).max_length as int,
            ),
    {
        let len = ring.len();
        let n = if amount < len { amount } else { len };
        let k = if n < self.max_length { n } else { self.max_length };
        let src = ring.read_slice(k);
        let r = self.write_from_read_slice(k, ring, &src);
        assert(src.view_in(ring).take(k as int) =~= old(ring).contents().take(k as int));
        r
    }

    pub fn new() -> (r: RingBuffer)
        ensures
            r.wf(),
            r.max_length == DEFAULT_MAX_LENGTH,
            r.active,
            r.start_index == 0,
            r.end_index == 0,
            r.buffer@.len() == 0,
            r.contents().len() == 0,
    {
        RingBuffer {
            max_length: DEFAULT_MAX_LENGTH,
            active: true,
            start_index: 0,
            end_index: 0,
            buffer: Vec::new(),
        }
    }

    /// A buffer whose unread samples are `buffer`.
    pub fn from(buffer: Vec<i16>) -> (r: RingBuffer)
        requires
            buffer@.len() <= DEFAULT_MAX_LENGTH,
        ensures
            r.wf(),
            r.max_length == DEFAULT_MAX_LENGTH,
            r.active,
            r.contents() == buffer@,
    {
        let end = buffer.len();
        let r = RingBuffer {
            max_length: DEFAULT_MAX_LENGTH,
            active: true,
            start_index: 0,
            end_index: end,
            buffer,
        };
        assert(r.contents() =~= r.buffer@);
        r
    }

    pub fn len(&self) -> (r: usize)
        requires
            self.wf(),
        ensures
            r == self.count(),
            r <= self.max_length,
    {
        if self.start_index > self.end_index {
            self.max_length - self.start_index + 1 + self.end_index
        } else {
            self.end_index - self.start_index
        }
    }

    /// Drops every unread sample; the storage is left as it is.
    pub fn clear(&mut self)
        requires
            old(self).wf(),
        ensures
            final(self).wf(),
            final(self).same_store(old(self)),
            final(self).start_index == 0,
            final(self).end_index == 0,
            final(self).contents().len() == 0,
    {
        self.start_index = 0;
        self.end_index = 0;
    }
}

/// The least of three integers.
pub open spec fn min3(a: int, b: int, c: int) -> int {
    if a <= b && a <= c {
        a
    } else if b <= c {
        b
    } else {
        c
    }
}

/// The newest `m` samples of `s` (all of `s` when it holds no more).
pub open spec fn keep_last(s: Seq<i16>, m: int) -> Seq<i16> {
    if s.len() > m {
        s.skip(s.len() - m)
    } else {
        s
    }
}

/// Capacity law: a well-formed buffer holds between 0 and `max_length`
/// unread samples, and however many samples are written to it (even more
/// than `max_length`), what it then holds is a suffix of its old samples
/// followed by the new ones, never longer than `max_length`: the oldest are
/// the ones dropped.
pub proof fn lemma_capacity_bound(ring: RingBuffer, data: Seq<i16>)
    requires
        ring.wf(),
    ensures
        0 <= ring.contents().len() <= ring.max_length,
        keep_last(ring.contents() + data, ring.max_length as int).len() <= ring.max_length,
        keep_last(ring.contents() + data, ring.max_length as int).len() == ring.count_after_write(
            data.len() as int,
        ),
        data.len() >= ring.max_length ==> keep_last(ring.contents() + data, ring.max_length as int)
            == data.skip(data.len() - ring.max_length),
        keep_last(ring.contents() + data, ring.max_length as int) == (ring.contents() + data).skip(
            ring.contents().len() + data.len() - ring.count_after_write(data.len() as int),
        ),
{
    ring.lemma_count_bounds();
    let all = ring.contents() + data;
    if data.len() >= ring.max_length {
        assert(keep_last(all, ring.max_length as int) =~= data.skip(data.len() - ring.max_length));
    }
    assert(all.skip(0) =~= all);
}

/// Wraparound law: writing `max_length` samples into an empty buffer,
/// wherever its cursors stand, and reading `max_length` back through
/// `read_slice` gives the same samples in the same order.
pub proof fn lemma_wraparound_read_back(
    before: RingBuffer,
    written: RingBuffer,
    read: RingBuffer,
    window: RingSlice,
    data: Seq<i16>,
)
    requires
        before.wf(),
        before.count() == 0,
        data.len() == before.max_length,
        written.max_length == before.max_length,
        written.contents() == keep_last(before.contents() + data.take(data.len() as int), before.max_length as int),
        window.length == written.count(),
        window.view_in(&read) == written.contents().take(window.length as int),
    ensures
        window.view_in(&read) == data,
{
    assert(before.contents() + data.take(data.len() as int) =~= data);
    assert(written.contents() =~= data);
    assert(written.contents().take(window.length as int) =~= data);
}

/// Transfer law: moving samples from `src` into an empty buffer with
/// `write_from_ring` leaves there exactly the samples that reading `src`
/// directly would have given, and `src` shrinks by exactly that many.
pub proof fn lemma_ring_transfer_round_trip(
    dst: RingBuffer,
    src: RingBuffer,
    dst_after: RingBuffer,
    src_after: RingBuffer,
    moved: int,
)
    requires
        dst.wf(),
        src.wf(),
        dst.count() == 0,
        0 <= moved <= src.count(),
        moved <= dst.max_length,
        src_after.contents() == src.contents().skip(moved),
        dst_after.contents() == keep_last(dst.contents() + src.contents().take(moved), dst.max_length as int),
    ensures
        dst_after.contents() == src.contents().take(moved),
        src_after.contents().len() == src.contents().len() - moved,
        src.contents() == dst_after.contents() + src_after.contents(),
{
    assert(dst.contents() + src.contents().take(moved) =~= src.contents().take(moved));
    assert(src.contents() =~= src.contents().take(moved) + src.contents().skip(moved));
}

/// A window of `length` samples of a ring buffer, starting at slot `start`
/// and running across the wrap boundary when it has to.
///
/// The window holds no reference: its samples are reached through the ring
/// buffer it was taken from, which it fits as long as that buffer's storage
/// and capacity stay as they were.
#[derive(Clone, Copy, Debug)]
pub struct RingSlice {
    pub start: usize,
    pub length: usize,
}

impl RingSlice {
    /// The window lies inside the storage of `ring`.
    pub open spec fn fits(&self, ring: &RingBuffer) -> bool {
        &&& ring.max_length < usize::MAX
        &&& self.start <= ring.max_length
        &&& self.length <= ring.max_length
        &&& ring.buffer@.len() <= ring.slots()
        &&& (self.length == 0 || self.start + self.length <= ring.buffer@.len() || ring.buffer@.len() == ring.slots())
    }

    /// Slot of `ring` that holds the window's sample `i`.
    pub open spec fn slot_in(&self, ring: &RingBuffer, i: int) -> int {
        wrap(self.start + i, ring.slots())
    }

    /// The window's samples, first to last.
    pub open spec fn view_in(&self, ring: &RingBuffer) -> Seq<i16> {
        Seq::new(self.length as nat, |i: int| ring.buffer@[self.slot_in(ring, i)])
    }

    pub fn len(&self) -> (r: usize)
        ensures
            r == self.length,
    {
        self.length
    }

    fn index_in(&self, ring: &RingBuffer, i: usize) -> (r: usize)
        requires
            self.fits(ring),
            i < self.length,
        ensures
            r == self.slot_in(ring, i as int),
            r < ring.buffer@.len(),
    {
        if i > ring.max_length - self.start {
            i - (ring.max_length - self.start + 1)
        } else {
            self.start + i
        }
    }

    /// Sample `i` of the window.
    pub fn get(&self, ring: &RingBuffer, i: usize) -> (r: i16)
        requires
            self.fits(ring),
            i < self.length,
        ensures
            r == self.view_in(ring)[i as int],
    {
        let k = self.index_in(ring, i);
        ring.buffer[k]
    }

    /// Stores `value` as sample `i` of the window.
    pub fn set(&self, ring: &mut RingBuffer, i: usize, value: i16)
        requires
            self.fits(old(ring)),
            i < self.length,
        ensures
            final(ring).max_length == old(ring).max_length,
            final(ring).active == old(ring).active,
            final(ring).start_index == old(ring).start_index,
            final(ring).end_index == old(ring).end_index,
            final(ring).buffer@ == old(ring).buffer@.update(self.slot_in(old(ring), i as int), value),
    {
        let k = self.index_in(ring, i);
        ring.buffer[k] = value;
    }

    /// The window's samples, first to last, copied out.
    pub fn iter(&self, ring: &RingBuffer) -> (r: Vec<i16>)
        requires
            self.fits(ring),
        ensures
            r@ == self.view_in(ring),
    {
        let mut out: Vec<i16> = Vec::new();
        let mut i: usize = 0;
        while i < self.length
            invariant
                self.fits(ring),
                i <= self.length,
                out@ == self.view_in(ring).take(i as int),
            decreases self.length - i,
        {
            let x = self.get(ring, i);
            out.push(x);
            i += 1;
            assert(out@ =~= self.view_in(ring).take(i as int));
        }
        assert(out@ =~= self.view_in(ring));
        out
    }
}

} // verus!
