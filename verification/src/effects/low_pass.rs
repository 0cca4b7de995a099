//! The low-pass filter: a single-pole filter that blends each channel
//! toward its input.

use vstd::prelude::*;
use crate::effects::single_pole::{
    a_frame_before, coefficient, final_frame, is_time_constant, smooths, time_constant,
};
use crate::format::{AudioFormat, ReadResult};
use crate::sample::{differs, multiplies, silent, sums, Sample};
use crate::source::AudioSource;

verus! {

/// The steps of one low-pass sample: `output = last + a * (input - last)`.
pub open spec fn blend_steps<T: Sample>(
    last: T,
    input: T,
    a: T,
    gap: T,
    step: T,
    output: T,
) -> bool {
    &&& differs(input, last, gap)
    &&& multiplies(a, gap, step)
    &&& sums(last, step, output)
}

/// `output` blends the `last` output of a channel toward its new `input`:
/// `last + a * (input - last)`.
pub open spec fn blends<T: Sample>(last: T, input: T, a: T, output: T) -> bool {
    exists|gap: T, step: T| #[trigger] blend_steps(last, input, a, gap, step, output)
}

/// `output` is `input` with its first `count` samples low-pass filtered,
/// each channel by itself.
///
/// Every filtered sample blends the output one frame before it toward the
/// input; the first frame takes the outputs before it from `seed`, the
/// memory of the call before. The samples behind `count` are not touched.
pub open spec fn low_passed<T: Sample>(
    input: Seq<T>,
    count: int,
    channels: int,
    a: T,
    seed: Seq<T>,
    output: Seq<T>,
) -> bool {
    &&& output.len() == input.len()
    &&& forall|i: int|
        0 <= i < count ==> blends(
            a_frame_before(output, seed, channels, i),
            input[i],
            a,
            #[trigger] output[i],
        )
    &&& forall|i: int| count <= i < input.len() ==> #[trigger] output[i] == input[i]
}

/// A filter that lets everything through is the identity: where
/// multiplying by `a` changes nothing, and a sample less another plus that
/// other is the sample again, the filtered samples are the input.
pub proof fn lemma_unit_coefficient_is_identity<T: Sample>(
    input: Seq<T>,
    count: int,
    channels: int,
    a: T,
    seed: Seq<T>,
    output: Seq<T>,
)
    requires
        forall|gap: T, step: T| #[trigger] multiplies(a, gap, step) ==> step == gap,
        forall|sample: T, last: T, gap: T, back: T|
            #[trigger] differs(sample, last, gap) && #[trigger] sums(last, gap, back) ==> back
                == sample,
        low_passed(input, count, channels, a, seed, output),
    ensures
        output == input,
{
    assert forall|i: int| 0 <= i < input.len() implies output[i] == input[i] by {
        if i < count {
            let last = a_frame_before(output, seed, channels, i);
            let (gap, step) = choose|gap: T, step: T| #[trigger]
                blend_steps(last, input[i], a, gap, step, output[i]);
            assert(multiplies(a, gap, step));
            assert(differs(input[i], last, gap) && sums(last, gap, output[i]));
        }
    }
    assert(output =~= input);
}

/// A filter that lets nothing through holds still: where multiplying by
/// `a` gives silence, and adding silence changes nothing, every filtered
/// sample is the output one frame before it.
pub proof fn lemma_zero_coefficient_holds_still<T: Sample>(
    input: Seq<T>,
    count: int,
    channels: int,
    a: T,
    seed: Seq<T>,
    output: Seq<T>,
)
    requires
        forall|gap: T, step: T| #[trigger] multiplies(a, gap, step) ==> silent(step),
        forall|last: T, quiet: T, sum: T|
            silent(quiet) && #[trigger] sums(last, quiet, sum) ==> sum == last,
        low_passed(input, count, channels, a, seed, output),
    ensures
        forall|i: int|
            0 <= i < count ==> #[trigger] output[i] == a_frame_before(output, seed, channels, i),
{
    assert forall|i: int| 0 <= i < count implies #[trigger] output[i] == a_frame_before(
        output,
        seed,
        channels,
        i,
    ) by {
        let last = a_frame_before(output, seed, channels, i);
        let (gap, step) = choose|gap: T, step: T| #[trigger]
            blend_steps(last, input[i], a, gap, step, output[i]);
        assert(multiplies(a, gap, step));
        assert(sums(last, step, output[i]));
    }
}

/// Filters the first `count` samples of `samples` in place, as
/// [`low_passed`] says, for a stream of `channels` channels, and keeps the
/// final frame of the output in `last`.
fn filter_frames<T: Sample>(
    samples: &mut [T],
    count: usize,
    channels: usize,
    a: T,
    last: &mut [T; 2],
)
    requires
        1 <= channels <= 2,
        count <= old(samples)@.len(),
        count % channels == 0,
    ensures
        low_passed(old(samples)@, count as int, channels as int, a, old(last)@, final(samples)@),
        final(last)@ == final_frame(final(samples)@, old(last)@, channels as int, count as int),
{
    let mut i: usize = 0;
    while i < count
        invariant
            1 <= channels <= 2,
            count <= samples.len(),
            samples@.len() == old(samples)@.len(),
            count % channels == 0,
            i % channels == 0,
            i <= count,
            forall|j: int|
                0 <= j < i ==> blends(
                    a_frame_before(samples@, old(last)@, channels as int, j),
                    old(samples)@[j],
                    a,
                    #[trigger] samples@[j],
                ),
            forall|j: int| i <= j < samples@.len() ==> #[trigger] samples@[j] == old(samples)@[j],
            last@ == final_frame(samples@, old(last)@, channels as int, i as int),
        decreases count - i,
    {
        let ghost entry = samples@;
        let ghost entry_last = last@;
        assert(i + channels <= count && (i + channels) % (channels as int) == 0)
            by (nonlinear_arith)
            requires
                i < count,
                i % channels == 0,
                count % channels == 0,
                channels >= 1,
        ;
        let mut c: usize = 0;
        while c < channels
            invariant
                1 <= channels <= 2,
                c <= channels,
                i + channels <= count,
                count <= samples.len(),
                samples@.len() == entry.len(),
                entry.len() == old(samples)@.len(),
                forall|j: int| 0 <= j < i ==> #[trigger] samples@[j] == entry[j],
                forall|j: int| i + c <= j < samples@.len() ==> #[trigger] samples@[j] == entry[j],
                forall|j: int| i <= j < entry.len() ==> #[trigger] entry[j] == old(samples)@[j],
                entry_last.len() == 2,
                forall|d: int| c <= d < 2 ==> #[trigger] last@[d] == entry_last[d],
                forall|d: int| 0 <= d < c ==> #[trigger] last@[d] == samples@[i + d],
                forall|d: int|
                    0 <= d < c ==> blends(
                        entry_last[d],
                        old(samples)@[i + d],
                        a,
                        #[trigger] samples@[i + d],
                    ),
            decreases channels - c,
        {
            let before = last[c];
            let input = samples[i + c];
            let gap = input.difference(before);
            let step = a.product(gap);
            let output = before.sum(step);
            assert(blend_steps(before, input, a, gap, step, output));
            samples[i + c] = output;
            last[c] = output;
            c += 1;
        }
        proof {
            assert forall|j: int| 0 <= j < i + channels implies blends(
                a_frame_before(samples@, old(last)@, channels as int, j),
                old(samples)@[j],
                a,
                #[trigger] samples@[j],
            ) by {
                if j < i {
                    assert(samples@[j] == entry[j]);
                    if j >= channels {
                        assert(samples@[j - channels] == entry[j - channels]);
                    }
                } else {
                    let d = j - i;
                    assert(samples@[i + d] == samples@[j]);
                    if i >= channels {
                        assert(entry_last[d] == entry[i - channels + d]);
                        assert(samples@[j - channels] == entry[j - channels]);
                    } else {
                        assert(i == 0);
                    }
                }
            }
            assert(last@ =~= final_frame(samples@, old(last)@, channels as int, i + channels));
        }
        i += channels;
    }
}

/// Low-pass filters the first `count` samples of a mono stream in place.
pub fn filter_mono<T: Sample>(samples: &mut [T], count: usize, a: T, last: &mut [T; 2])
    requires
        count <= old(samples)@.len(),
    ensures
        low_passed(old(samples)@, count as int, 1, a, old(last)@, final(samples)@),
        final(last)@ == final_frame(final(samples)@, old(last)@, 1, count as int),
{
    filter_frames(samples, count, 1, a, last)
}

/// Low-pass filters the first `count` samples of a stereo stream in place,
/// the left and the right channel each by itself.
pub fn filter_stereo<T: Sample>(samples: &mut [T], count: usize, a: T, last: &mut [T; 2])
    requires
        count <= old(samples)@.len(),
        count % 2 == 0,
    ensures
        low_passed(old(samples)@, count as int, 2, a, old(last)@, final(samples)@),
        final(last)@ == final_frame(final(samples)@, old(last)@, 2, count as int),
{
    filter_frames(samples, count, 2, a, last)
}

/// An effect that suppresses high frequencies.
///
/// `LowPass` reduces the volume of frequencies above the given cutoff.
/// This can create the impression of sound coming from far away or in
/// another room.
///
/// The filter works on the samples where they lie, and remembers the last
/// frame that it put out, so that it goes on smoothly from one read to
/// the next.
pub struct LowPass<T, S> {
    rc: T,
    source: S,
    last: [T; 2],
}

impl<T: Sample, S: AudioSource<T>> LowPass<T, S> {
    /// The source of audio for this effect.
    pub closed spec fn source(&self) -> S {
        self.source
    }

    /// The time constant of the filter.
    pub closed spec fn rc(&self) -> T {
        self.rc
    }

    /// The last output of each channel.
    pub closed spec fn last(&self) -> Seq<T> {
        self.last@
    }

    /// Construct a low-pass filter.
    ///
    /// # Arguments
    ///
    /// * `source` -- The source of audio for this effect, with one or two
    ///   channels.
    /// * `cutoff` -- The frequency above which volume will be reduced.
    pub fn new(source: S, cutoff: T) -> (filter: Self)
        requires
            source.valid(),
            source.spec_format() matches Some(f) && 1 <= f.channels <= 2,
        ensures
            filter.valid(),
            filter.source() == source,
            is_time_constant(cutoff, filter.rc()),
            filter.last().len() == 2,
            forall|c: int| 0 <= c < 2 ==> silent(#[trigger] filter.last()[c]),
    {
        let rc = time_constant(cutoff);
        LowPass { rc, source, last: [T::silence(), T::silence()] }
    }

    /// Changes the frequency above which volume will be reduced.
    pub fn set_cutoff(&mut self, cutoff: T)
        ensures
            final(self).valid() == old(self).valid(),
            final(self).source() == old(self).source(),
            final(self).last() == old(self).last(),
            is_time_constant(cutoff, final(self).rc()),
    {
        self.rc = time_constant(cutoff);
    }

    /// The frequency above which volume is reduced, computed back from the
    /// time constant.
    pub fn cutoff(&self) -> (cutoff: T)
        ensures
            is_time_constant(self.rc(), cutoff),
    {
        time_constant(self.rc)
    }
}

impl<T: Sample, S: AudioSource<T>> AudioSource<T> for LowPass<T, S> {
    closed spec fn valid(&self) -> bool {
        &&& self.source.valid()
        &&& self.source.spec_format() matches Some(f) && 1 <= f.channels <= 2
    }

    open spec fn spec_format(&self) -> Option<AudioFormat> {
        self.source().spec_format()
    }

    /// The source is read into the buffer. If it gave any samples, they
    /// are low-pass filtered where they lie, with the coefficient that the
    /// time constant and the sample rate give; the filter remembers the
    /// last frame. The result is the source's.
    open spec fn pulls(
        &self,
        after: &Self,
        before: Seq<T>,
        filled: Seq<T>,
        result: ReadResult,
    ) -> bool {
        exists|dry: Seq<T>, a: T| #[trigger]
            self.filters(after, before, dry, a, filled, result)
    }

    fn format(&self) -> (f: AudioFormat) {
        self.source.format()
    }

    fn read(&mut self, buffer: &mut [T]) -> (result: ReadResult) {
        let format = self.source.format();
        let result = self.source.read(buffer);
        let written = result.read;
        let ghost dry = buffer@;
        if written == 0 {
            assert(old(self).filters(self, old(buffer)@, dry, self.rc, buffer@, result));
            return result;
        }
        let a = coefficient(self.rc, format.sample_rate);
        if format.channels == 1 {
            filter_mono(buffer, written, a, &mut self.last);
        } else {
            filter_stereo(buffer, written, a, &mut self.last);
        }
        assert(old(self).filters(self, old(buffer)@, dry, a, buffer@, result));
        result
    }
}

impl<T: Sample, S: AudioSource<T>> LowPass<T, S> {
    /// A read that takes the filter from `self` to `after`, with what the
    /// source put into the buffer, `dry`, and the coefficient `a`.
    pub open spec fn filters(
        &self,
        after: &Self,
        before: Seq<T>,
        dry: Seq<T>,
        a: T,
        filled: Seq<T>,
        result: ReadResult,
    ) -> bool {
        &&& self.spec_format() is Some
        &&& self.source().pulls(&after.source(), before, dry, result)
        &&& after.rc() == self.rc()
        &&& if result.read == 0 {
            filled == dry && after.last() == self.last()
        } else {
            let format = self.spec_format()->0;
            &&& smooths(self.rc(), format.sample_rate, a)
            &&& low_passed(
                dry,
                result.read as int,
                format.channels as int,
                a,
                self.last(),
                filled,
            )
            &&& after.last() == final_frame(
                filled,
                self.last(),
                format.channels as int,
                result.read as int,
            )
        }
    }
}

} // verus!
