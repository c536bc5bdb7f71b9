use vstd::prelude::*;

verus! {

/// Bounded single-producer single-consumer ring buffer of interleaved PCM
/// sample words (each word is the 32-bit pattern of one sample).
///
/// The buffer owns one spare slot: `buf.len()` is the usable capacity plus
/// one. `read == write` signals an empty buffer and `advance(write) == read`
/// signals a full one, so the number of queued samples always lies in
/// `[0, capacity]`. The producer that meets a full buffer must retry after
/// the consumer has popped; `try_push` reports whether the sample was stored
/// so a blocking producer can wait on that signal.
pub struct Rb {
    buf: Vec<u32>,
    len: usize,
    write: usize,
    read: usize,
}

impl Rb {
    /// Internal consistency: indices stay inside the allocation and one
    /// spare slot is always present.
    pub closed spec fn wf(self) -> bool {
        &&& self.buf@.len() == self.len
        &&& 2 <= self.len
        &&& self.write < self.len
        &&& self.read < self.len
    }

    /// Greatest number of samples the buffer can hold at once.
    pub closed spec fn capacity(self) -> int {
        self.len - 1
    }

    /// Number of samples currently queued: pushes minus pops.
    pub closed spec fn count(self) -> int {
        if self.write >= self.read {
            self.write - self.read
        } else {
            self.write + self.len - self.read
        }
    }

    /// Position in `buf` of the `i`-th queued sample, oldest first.
    pub closed spec fn slot(self, i: int) -> int {
        if self.read + i < self.len {
            self.read + i
        } else {
            self.read + i - self.len
        }
    }
}

impl View for Rb {
    type V = Seq<u32>;

    /// The queued samples, oldest first.
    closed spec fn view(&self) -> Seq<u32> {
        Seq::new(self.count() as nat, |i: int| self.buf@[self.slot(i)])
    }
}

impl Rb {
    /// A buffer that can hold `capacity` samples.
    pub fn new(capacity: usize) -> (rb: Rb)
        requires
            1 <= capacity < usize::MAX,
        ensures
            rb.wf(),
            rb@ =~= Seq::<u32>::empty(),
            rb.capacity() == capacity,
    {
        let len = capacity + 1;
        let mut buf: Vec<u32> = Vec::new();
        let mut i: usize = 0;
        while i < len
            invariant
                buf@.len() == i,
                i <= len,
            decreases len - i,
        {
            buf.push(0);
            i = i + 1;
        }
        Rb { buf, len, write: 0, read: 0 }
    }

    /// The next index after `i`, wrapping at the end of the allocation.
    fn advance(&self, i: usize) -> (r: usize)
        requires
            self.wf(),
            i < self.len,
        ensures
            r == if i + 1 == self.len { 0int } else { i + 1 },
            r < self.len,
    {
        if i + 1 == self.len {
            0
        } else {
            i + 1
        }
    }

    /// True exactly when no further sample fits.
    pub fn is_full(&self) -> (r: bool)
        requires
            self.wf(),
        ensures
            r == (self@.len() == self.capacity()),
    {
        self.advance(self.write) == self.read
    }

    /// True exactly when no sample is queued.
    pub fn is_empty(&self) -> (r: bool)
        requires
            self.wf(),
        ensures
            r == (self@.len() == 0),
    {
        self.read == self.write
    }

    /// Store one sample behind all queued ones. The caller must have
    /// checked for space; a blocking producer loops on `try_push` instead.
    pub fn push_back(&mut self, value: u32)
        requires
            old(self).wf(),
            old(self)@.len() < old(self).capacity(),
        ensures
            final(self).wf(),
            final(self)@ =~= old(self)@.push(value),
            final(self).capacity() == old(self).capacity(),
    {
        let w = self.write;
        self.buf.set(w, value);
        self.write = self.advance(w);
    }

    /// Store one sample if there is room; report whether it was stored.
    pub fn try_push(&mut self, value: u32) -> (stored: bool)
        requires
            old(self).wf(),
        ensures
            final(self).wf(),
            final(self).capacity() == old(self).capacity(),
            stored == (old(self)@.len() < old(self).capacity()),
            stored ==> final(self)@ =~= old(self)@.push(value),
            !stored ==> final(self)@ =~= old(self)@,
    {
        if self.is_full() {
            false
        } else {
            self.push_back(value);
            true
        }
    }

    /// Remove and return the oldest queued sample; `None` exactly when the
    /// buffer is empty. The consumer never waits.
    pub fn pop_front(&mut self) -> (r: Option<u32>)
        requires
            old(self).wf(),
        ensures
            final(self).wf(),
            final(self).capacity() == old(self).capacity(),
            old(self)@.len() == 0 ==> r is None && final(self)@ =~= old(self)@,
            old(self)@.len() > 0 ==> r == Some(old(self)@[0]) && final(self)@ =~= old(self)@.drop_first(),
    {
        if self.read == self.write {
            None
        } else {
            let item = self.buf[self.read];
            self.read = self.advance(self.read);
            Some(item)
        }
    }

    /// Remove and return the oldest queued sample, or the silent sample
    /// when the buffer is empty (an underrun emits silence).
    pub fn pop_or_silence(&mut self) -> (r: u32)
        requires
            old(self).wf(),
        ensures
            final(self).wf(),
            final(self).capacity() == old(self).capacity(),
            old(self)@.len() == 0 ==> r == 0 && final(self)@ =~= old(self)@,
            old(self)@.len() > 0 ==> r == old(self)@[0] && final(self)@ =~= old(self)@.drop_first(),
    {
        match self.pop_front() {
            Some(s) => s,
            None => 0,
        }
    }

    /// Discard every queued sample (a seek or a stop flushes the buffer,
    /// which also frees a producer that found the buffer full).
    pub fn flush(&mut self)
        requires
            old(self).wf(),
        ensures
            final(self).wf(),
            final(self).capacity() == old(self).capacity(),
            final(self)@ =~= Seq::<u32>::empty(),
    {
        self.read = self.write;
    }
}

/// However many samples have been pushed and popped, the number queued
/// never leaves `[0, capacity]`: each push appends one sample and each pop
/// removes the oldest, so the occupancy is exactly pushes minus pops and
/// the spare-slot discipline keeps it within the capacity.
pub proof fn lemma_rb_occupancy(rb: Rb)
    requires
        rb.wf(),
    ensures
        0 <= rb@.len() <= rb.capacity(),
{
}

/// Samples come out in the order they went in, none lost and none
/// duplicated: pushing `value` and then popping until empty yields the
/// previous contents followed by `value`.
pub proof fn lemma_rb_fifo(before: Rb, after: Rb, value: u32)
    requires
        before.wf(),
        before@.len() < before.capacity(),
        after@ == before@.push(value),
    ensures
        after@.len() == before@.len() + 1,
        forall|i: int| 0 <= i < before@.len() ==> after@[i] == before@[i],
        after@[before@.len() as int] == value,
{
}

} // verus!
