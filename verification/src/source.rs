//! The pull contract.

use vstd::prelude::*;
use crate::format::{AudioFormat, ReadResult};
use crate::sample::Sample;

verus! {

/// Trait implemented to provide audio data to consumers.
///
/// This is the center of this entire library. Almost everything is either
/// an `AudioSource` or consumes an `AudioSource`. A graph of sources is
/// pulled, never pushed: the consumer hands a buffer to
/// [`read`](Self::read), and the source fills the front of it.
///
/// A source that is implemented outside this library inherits the three
/// specification functions below, and owes its callers what `format` and
/// `read` ensure.
pub trait AudioSource<T: Sample>: Sized {
    /// Whether the source is in a state that its constructors and `read`
    /// leave it in. Every source is read in such a state only.
    open spec fn valid(&self) -> bool {
        true
    }

    /// The format of the stream, if the source has one. (A mixer without
    /// sources has none.) The format of a source never changes while it is
    /// read.
    open spec fn spec_format(&self) -> Option<AudioFormat> {
        arbitrary()
    }

    /// What a read may do: it takes the source from `self` to `after` and
    /// returns `result`, and the buffer, which held `before`, holds
    /// `filled` afterwards.
    ///
    /// A source that does not say more admits every read.
    open spec fn pulls(
        &self,
        after: &Self,
        before: Seq<T>,
        filled: Seq<T>,
        result: ReadResult,
    ) -> bool {
        true
    }

    /// Returns the format used by this audio source.
    ///
    /// # Returns
    ///
    /// An [`AudioFormat`](crate::AudioFormat) describing the sample rate
    /// and number of channels provided by this `AudioSource`.
    fn format(&self) -> (f: AudioFormat)
        requires
            self.valid(),
            self.spec_format() is Some,
        ensures
            self.spec_format() == Some(f),
    ;

    /// Consume audio data and attempt to fill the given buffer, which
    /// holds whole frames of the source's format.
    ///
    /// # Returns
    ///
    /// A [`ReadResult`](crate::ReadResult) indicating how much data was
    /// put in the buffer and the state of the source: the count is within
    /// the buffer, is the whole buffer where the state is `Good`, and
    /// comes to whole frames. The samples before the count are valid; the
    /// ones behind it are undefined, and the caller's to fill.
    fn read(&mut self, buffer: &mut [T]) -> (result: ReadResult)
        requires
            old(self).valid(),
            old(self).spec_format() matches Some(f) ==> f.whole_frames(old(buffer)@.len() as int),
        ensures
            final(self).valid(),
            final(self).spec_format() == old(self).spec_format(),
            final(buffer)@.len() == old(buffer)@.len(),
            result.fits(old(buffer)@.len() as int),
            old(self).spec_format() matches Some(f) ==> f.whole_frames(result.read as int),
            old(self).pulls(final(self), old(buffer)@, final(buffer)@, result),
    ;
}

} // verus!
