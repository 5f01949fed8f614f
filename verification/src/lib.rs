//! A fixed-size circular delay line for one audio channel.
//!
//! [`RingBuffer`] owns the samples and the cursor, the position that is written next.
//! [`RingBufferIter`] is one pass over it: every step hands out the sample that was written
//! `delay` steps earlier together with the slot to overwrite, and moves on by one slot. The
//! store's cursor is written once per traversal, by [`RingBufferIter::finish`].
//!
//! Samples are 64-bit words. The audio layer stores each sample as the bit pattern of an
//! IEEE 754 double; the all-zero word is silence.
//!
//! [`DelayLine`] is the mathematical model that the contracts speak of; the laws of the delay
//! are proved of it in [`model`].

pub mod model;
pub mod ring_buffer;
pub mod wrap;

pub use model::DelayLine;
pub use ring_buffer::RingBuffer;
pub use ring_buffer::RingBufferIter;
