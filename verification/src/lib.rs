//! A pull-based audio graph: nodes that produce or transform streams of
//! interleaved samples on demand.
//!
//! Everything is an [`AudioSource`] or consumes one. A source is read into
//! a buffer and says how much of it it filled; effects own the source they
//! read from, and a mixer owns any number of them. What a read does is
//! stated, for every node, as a relation between the node before and
//! after, the buffer before and after, and the result: see
//! [`AudioSource::pulls`].
//!
//! The arithmetic of samples is left to the [`Sample`] type that the graph
//! is used with. The library proves which operations a node applies to
//! which samples, and that it stays within its buffers; it proves nothing
//! of the numbers that the arithmetic gives.

pub mod decoders;
pub mod drivers;
pub mod effects;
mod error;
mod format;
pub mod generators;
mod sample;
mod slots;
mod source;

pub use crate::error::Error;
pub use crate::format::{lemma_whole_frames_add_up, AudioFormat, ReadResult, StreamState};
pub use crate::sample::{
    differs, divides, is_count, is_from_bits, is_from_int, is_pi, is_sine, multiplies, silent,
    sums, Sample,
};
pub use crate::slots::{key_bits, live_keys, KeySlots, MAX_KEYS};
pub use crate::source::AudioSource;
