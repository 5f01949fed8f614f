//! The store and the traversal over it.

use crate::model::DelayLine;
use crate::wrap::{lemma_wrap_behind, lemma_wrap_shift};
use vstd::arithmetic::div_mod::lemma_small_mod;
use vstd::prelude::*;

verus! {

/// The store: a fixed number of samples and the cursor, the slot that is written next.
///
/// Its view is the [`DelayLine`] that it holds.
pub struct RingBuffer {
    buffer: Vec<u64>,
    pos: usize,
}

/// One pass over a [`RingBuffer`], for one block of samples.
///
/// It holds the store for as long as it lives, so nothing else reads or writes the store
/// meanwhile. The steps write samples and move the traversal's own two positions; the
/// store's cursor stays where it was until [`RingBufferIter::finish`] writes the write
/// position back, once, after however few steps. A traversal that is let go without it
/// leaves the cursor behind the samples it wrote.
pub struct RingBufferIter<'a> {
    buffer: &'a mut RingBuffer,
    read_pos: usize,
    write_pos: usize,
    delay: Ghost<int>,
    origin: Ghost<int>,
    steps: Ghost<int>,
}

impl View for RingBuffer {
    type V = DelayLine;

    closed spec fn view(&self) -> DelayLine {
        DelayLine { samples: self.buffer@, cursor: self.pos as int }
    }
}

impl RingBuffer {
    /// The cursor names a slot; a store without slots keeps it at 0.
    pub open spec fn wf(&self) -> bool {
        self@.wf()
    }

    /// A store of `size` silent samples with the cursor on slot 0.
    pub fn new(size: usize) -> (ring: Self)
        ensures
            ring.wf(),
            ring@ == DelayLine::silent(size as nat),
    {
        let mut buffer: Vec<u64> = Vec::with_capacity(size);
        while buffer.len() < size
            invariant
                buffer.len() <= size,
                buffer@ =~= Seq::new(buffer.len() as nat, |slot: int| 0u64),
            decreases size - buffer.len(),
        {
            buffer.push(0);
        }
        Self { buffer, pos: 0 }
    }

    /// Begins a traversal that reads `delay` steps behind what it writes.
    ///
    /// The store must have a slot, and `delay` may be at most a full lap. The store itself is
    /// left as it is; it ends as the traversal leaves it.
    pub fn iter(&mut self, delay: usize) -> (it: RingBufferIter<'_>)
        requires
            old(self).wf(),
            old(self)@.size() != 0,
            old(self)@.size() >= delay,
        ensures
            it.wf(),
            it.store()@ == old(self)@,
            it.line() == old(self)@,
            *final(it.store()) == *final(self),
            it.read_pos() == (old(self)@.size() - delay + old(self)@.cursor) % old(self)@.size(),
            it.read_pos() == old(self)@.tap(delay as int),
            it.write_pos() == old(self)@.cursor % old(self)@.size(),
            it.delay() == delay,
            it.origin() == old(self)@.cursor,
            it.steps() == 0,
    {
        RingBufferIter::new(self, delay)
    }

    /// The number of slots.
    pub fn len(&self) -> (size: usize)
        ensures
            size == self@.size(),
    {
        self.buffer.len()
    }

    /// The slot that is written next.
    pub fn cursor(&self) -> (pos: usize)
        ensures
            pos == self@.cursor,
    {
        self.pos
    }

    /// The sample in `slot`.
    pub fn sample(&self, slot: usize) -> (value: u64)
        requires
            slot < self@.size(),
        ensures
            value == self@.samples[slot as int],
    {
        self.buffer[slot]
    }
}

impl<'a> RingBufferIter<'a> {
    /// The store that is traversed, as the traversal holds it.
    pub closed spec fn store(self) -> &'a mut RingBuffer {
        self.buffer
    }

    /// The slot that the next step reads.
    pub closed spec fn read_pos(self) -> int {
        self.read_pos as int
    }

    /// The slot that the next step writes.
    pub closed spec fn write_pos(self) -> int {
        self.write_pos as int
    }

    /// The delay that the traversal was begun with.
    pub closed spec fn delay(self) -> int {
        self.delay@
    }

    /// The store's cursor when the traversal began.
    pub closed spec fn origin(self) -> int {
        self.origin@
    }

    /// The number of steps taken so far.
    pub closed spec fn steps(self) -> int {
        self.steps@
    }

    /// The line as the traversal has it: the store's samples, with the write position for
    /// the cursor. It is what the store becomes when the traversal is finished.
    pub open spec fn line(self) -> DelayLine {
        DelayLine { samples: self.store()@.samples, cursor: self.write_pos() }
    }

    /// The positions agree with the store, the delay and the steps taken. The store's cursor
    /// is still where it was when the traversal began; the write position is `steps` slots
    /// on from it, and the read position `delay` slots behind the write position, both
    /// round the ring.
    pub open spec fn wf(self) -> bool {
        let size = self.store()@.size();
        &&& self.store().wf()
        &&& size > 0
        &&& 0 <= self.delay() <= size
        &&& 0 <= self.steps()
        &&& 0 <= self.read_pos() < size
        &&& 0 <= self.write_pos() < size
        &&& self.origin() == self.store()@.cursor
        &&& self.write_pos() == (self.origin() + self.steps()) % size
        &&& self.read_pos() == (self.write_pos() + size - self.delay()) % size
    }

    fn new(buffer: &'a mut RingBuffer, delay: usize) -> (it: RingBufferIter<'a>)
        requires
            old(buffer).wf(),
            old(buffer)@.size() != 0,
            old(buffer)@.size() >= delay,
        ensures
            it.wf(),
            it.store()@ == old(buffer)@,
            it.line() == old(buffer)@,
            *final(it.store()) == *final(buffer),
            it.read_pos() == old(buffer)@.tap(delay as int),
            it.write_pos() == old(buffer)@.cursor % old(buffer)@.size(),
            it.delay() == delay,
            it.origin() == old(buffer)@.cursor,
            it.steps() == 0,
    {
        let size = buffer.buffer.len();
        let pos = buffer.pos;
        proof {
            lemma_wrap_behind(pos as int, delay as int, size as int);
            lemma_small_mod(pos as nat, size as nat);
        }
        // (size - delay + pos) mod size, without leaving the range of the index type.
        let read_pos = if pos >= delay {
            pos - delay
        } else {
            size - delay + pos
        };
        let write_pos = pos % size;
        RingBufferIter {
            buffer,
            read_pos,
            write_pos,
            delay: Ghost(delay as int),
            origin: Ghost(pos as int),
            steps: Ghost(0),
        }
    }

    /// One step. It hands out the slot at the write position, for the caller to overwrite,
    /// and the sample `delay` steps behind it as it stood before this step; then both
    /// positions move on by one slot. The store's cursor is left alone.
    ///
    /// There is always a next step: the result is never `None`.
    pub fn next(&mut self) -> (step: Option<(&mut u64, u64)>)
        requires
            old(self).wf(),
        ensures
            step is Some,
            (step->0).1 == old(self).store()@.samples[old(self).read_pos()],
            (step->0).1 == old(self).line().echo(old(self).delay()),
            *(step->0).0 == old(self).store()@.samples[old(self).write_pos()],
            final(self).line() == old(self).line().step(*final((step->0).0)),
            final(self).store()@.samples == old(self).store()@.samples.update(
                old(self).write_pos(),
                *final((step->0).0),
            ),
            final(self).store()@.cursor == old(self).store()@.cursor,
            final(self).store()@.size() == old(self).store()@.size(),
            *final(final(self).store()) == *final(old(self).store()),
            final(self).read_pos() == (old(self).read_pos() + 1) % old(self).store()@.size(),
            final(self).write_pos() == (old(self).write_pos() + 1) % old(self).store()@.size(),
            final(self).delay() == old(self).delay(),
            final(self).origin() == old(self).origin(),
            final(self).steps() == old(self).steps() + 1,
            final(self).wf(),
    {
        let size = self.buffer.buffer.len();
        let read_at = self.read_pos;
        let write_at = self.write_pos;
        proof {
            let behind = size - self.delay@;
            lemma_wrap_shift(write_at + behind, 1, size as int);
            lemma_wrap_shift(write_at + 1, behind, size as int);
            lemma_wrap_shift(self.origin@ + self.steps@, 1, size as int);
            self.steps@ = self.steps@ + 1;
        }
        let echo = self.buffer.buffer[read_at];
        self.write_pos = (write_at + 1) % size;
        self.read_pos = (read_at + 1) % size;
        Some((&mut self.buffer.buffer[write_at], echo))
    }

    /// Ends the traversal and writes its write position back as the store's cursor. The
    /// store ends as the line that the traversal had: every sample written is in it, and
    /// its cursor is `steps` slots on from where the traversal began, after however few
    /// steps.
    pub fn finish(self)
        requires
            self.wf(),
        ensures
            final(self.store())@ == self.line(),
            final(self.store())@.samples == self.store()@.samples,
            final(self.store())@.cursor == self.write_pos(),
            final(self.store())@.cursor == (self.origin() + self.steps()) % self.store()@.size(),
            final(self.store()).wf(),
    {
        let buffer = self.buffer;
        buffer.pos = self.write_pos;
    }
}

} // verus!
