//! What the callbacks of an audio device do to their buffers: the part of
//! a driver that does not touch the hardware.

use vstd::prelude::*;
use crate::effects::{silence_tail, silenced_after};
use crate::format::{lemma_whole_frames_add_up, AudioFormat, ReadResult, StreamState};
use crate::sample::Sample;
use crate::source::AudioSource;
use std::collections::VecDeque;

verus! {

/// `filled` is what a playback device gets from `source` for one period:
/// the samples that the source read, and silence behind them.
pub open spec fn rendered<T: Sample, S: AudioSource<T>>(
    source: &S,
    after: &S,
    before: Seq<T>,
    dry: Seq<T>,
    filled: Seq<T>,
    result: ReadResult,
) -> bool {
    &&& source.pulls(after, before, dry, result)
    &&& silenced_after(dry, result.read as int, filled)
}

/// Fills the buffer of a playback device for one period from its source.
///
/// The source is read once into `samples`, and what it left unfilled is
/// silenced. The result is the source's, so that the caller can tell an
/// underrun.
pub fn render<T: Sample, S: AudioSource<T>>(source: &mut S, samples: &mut [T]) -> (result:
    ReadResult)
    requires
        old(source).valid(),
        old(source).spec_format() matches Some(f) ==> f.whole_frames(old(samples)@.len() as int),
    ensures
        final(source).valid(),
        final(source).spec_format() == old(source).spec_format(),
        final(samples)@.len() == old(samples)@.len(),
        result.fits(old(samples)@.len() as int),
        exists|dry: Seq<T>| #[trigger]
            rendered(old(source), final(source), old(samples)@, dry, final(samples)@, result),
{
    let result = source.read(samples);
    let ghost dry = samples@;
    silence_tail(samples, result.read);
    assert(rendered(old(source), source, old(samples)@, dry, samples@, result));
    result
}

/// Fills the buffer of a playback device that has no source: with
/// silence.
pub fn rest<T: Sample>(samples: &mut [T])
    ensures
        silenced_after(old(samples)@, 0, final(samples)@),
{
    silence_tail(samples, 0);
}

/// Appends the samples that a capture device recorded in one period to
/// the queue of captured samples.
pub fn capture<T: Copy>(queue: &mut VecDeque<T>, samples: &[T])
    ensures
        final(queue)@ == old(queue)@ + samples@,
{
    let mut i: usize = 0;
    while i < samples.len()
        invariant
            i <= samples.len(),
            queue@ == old(queue)@ + samples@.subrange(0, i as int),
        decreases samples.len() - i,
    {
        queue.push_back(samples[i]);
        assert(samples@.subrange(0, i + 1) == samples@.subrange(0, i as int).push(
            samples@[i as int],
        ));
        i += 1;
    }
    assert(samples@.subrange(0, samples@.len() as int) == samples@);
}

/// What [`drain`] does with a queue that holds `queued` and a buffer that
/// holds `before`: the buffer takes the front of the queue, as much as it
/// holds or as there is.
pub open spec fn drained<T>(
    queued: Seq<T>,
    left: Seq<T>,
    before: Seq<T>,
    filled: Seq<T>,
    result: ReadResult,
) -> bool {
    let taken = if before.len() <= queued.len() {
        before.len() as int
    } else {
        queued.len() as int
    };
    &&& left == queued.subrange(taken, queued.len() as int)
    &&& filled == queued.subrange(0, taken) + before.subrange(taken, before.len() as int)
    &&& result == if before.len() <= queued.len() {
        ReadResult { state: StreamState::Good, read: before.len() as usize }
    } else {
        ReadResult { state: StreamState::Underrun, read: queued.len() as usize }
    }
}

/// Moves captured samples from the front of the queue into `samples`,
/// until the buffer is full or the queue is empty, which is an underrun.
pub fn drain<T: Copy>(queue: &mut VecDeque<T>, samples: &mut [T]) -> (result: ReadResult)
    ensures
        drained(old(queue)@, final(queue)@, old(samples)@, final(samples)@, result),
{
    let mut i: usize = 0;
    while i < samples.len()
        invariant
            i <= samples.len(),
            i <= old(queue)@.len(),
            samples@.len() == old(samples)@.len(),
            queue@ == old(queue)@.subrange(i as int, old(queue)@.len() as int),
            samples@ == old(queue)@.subrange(0, i as int) + old(samples)@.subrange(
                i as int,
                old(samples)@.len() as int,
            ),
        decreases samples.len() - i,
    {
        match queue.pop_front() {
            Some(sample) => {
                samples[i] = sample;
            },
            None => {
                return ReadResult::underrun(i);
            },
        }
        i += 1;
    }
    ReadResult::good(samples.len())
}

/// The samples that a capture device has recorded and that nobody has
/// read yet: the source that a microphone is.
///
/// The device's callback appends what it recorded, whole frames at a
/// time; a read takes samples from the front, and underruns where the
/// device has not recorded enough yet.
pub struct CaptureQueue<T> {
    format: AudioFormat,
    queue: VecDeque<T>,
}

impl<T: Sample> CaptureQueue<T> {
    /// The samples that wait to be read, the oldest first.
    pub closed spec fn queued(&self) -> Seq<T> {
        self.queue@
    }

    /// An empty queue for a device of the given format.
    pub fn new(format: AudioFormat) -> (queue: Self)
        ensures
            queue.valid(),
            queue.spec_format() == Some(format),
            queue.queued().len() == 0,
    {
        proof {
            if format.channels > 0 {
                vstd::arithmetic::div_mod::lemma_small_mod(0, format.channels as nat);
            }
        }
        CaptureQueue { format, queue: VecDeque::new() }
    }

    /// Appends the frames that the device recorded in one period.
    pub fn push(&mut self, samples: &[T])
        requires
            old(self).valid(),
            old(self).spec_format() matches Some(f) && f.whole_frames(samples@.len() as int),
        ensures
            final(self).valid(),
            final(self).spec_format() == old(self).spec_format(),
            final(self).queued() == old(self).queued() + samples@,
    {
        capture(&mut self.queue, samples);
        proof {
            lemma_whole_frames_add_up(
                self.format.channels as int,
                old(self).queue@.len() as int,
                samples@.len() as int,
            );
        }
    }
}

impl<T: Sample> AudioSource<T> for CaptureQueue<T> {
    closed spec fn valid(&self) -> bool {
        self.format.channels > 0 ==> self.format.whole_frames(self.queue@.len() as int)
    }

    closed spec fn spec_format(&self) -> Option<AudioFormat> {
        Some(self.format)
    }

    /// The buffer takes the front of the queue, as [`drained`] says.
    open spec fn pulls(
        &self,
        after: &Self,
        before: Seq<T>,
        filled: Seq<T>,
        result: ReadResult,
    ) -> bool {
        drained(self.queued(), after.queued(), before, filled, result)
    }

    fn format(&self) -> (f: AudioFormat) {
        self.format
    }

    fn read(&mut self, buffer: &mut [T]) -> (result: ReadResult) {
        let wanted = buffer.len();
        let queued = self.queue.len();
        let result = drain(&mut self.queue, buffer);
        proof {
            assert(result.read == if wanted <= queued { wanted } else { queued });
            lemma_whole_frames_add_up(
                self.format.channels as int,
                old(self).queue@.len() as int,
                result.read as int,
            );
        }
        result
    }
}

} // verus!
